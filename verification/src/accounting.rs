//! Every unit of liquidity is accounted for, per asset: what sits in the
//! pool plus what settlements reserved and have not returned equals what
//! the providers' balances add up to.

use vstd::prelude::*;

use crate::anchors::register_all;
use crate::conservation::{lemma_sum_point_update, sum_of};
use crate::consistency::{
    after, inv, law_every_call_keeps_invariant, law_lists_only_grow, lemma_provide_all_keeps_inv,
    lemma_provide_batch_ok, lemma_withdraw_all_frame, lemma_withdraw_all_keeps_inv, lemma_withdraw_batch_ok,
    succeeds, Call,
};
use crate::contract::{fits_i128, AnchornetContract};
use crate::liquidity::{
    assets_of, provide_all, provide_effect, provide_request_error, withdraw_all, withdraw_effect,
    withdraw_request_error,
};
use crate::storage::{Env, EnvView, StoreView};
use crate::table::get_or;
use crate::types::{Address, BalanceKey, Settlement, SettlementStatus, Symbol};

verus! {

/// What settlement `id` holds of `asset`: its amount while it is pending
/// or executed in that asset, else nothing.
pub open spec fn held(settlements: Map<u64, Settlement>, asset: Symbol, id: int) -> int {
    if 0 <= id <= u64::MAX && settlements.contains_key(id as u64) {
        let st = settlements[id as u64];
        if st.asset == asset && (st.status == SettlementStatus::Pending || st.status
            == SettlementStatus::Executed) {
            st.amount as int
        } else {
            0
        }
    } else {
        0
    }
}

/// What the settlements with ids `1..=n` hold of `asset`.
pub open spec fn held_upto(settlements: Map<u64, Settlement>, asset: Symbol, n: int) -> int
    decreases n,
{
    if n < 1 {
        0
    } else {
        held_upto(settlements, asset, n - 1) + held(settlements, asset, n)
    }
}

/// What the stored settlements hold of `asset`.
pub open spec fn reserved(s: StoreView, asset: Symbol) -> int {
    held_upto(s.settlements, asset, s.settlement_count as int)
}

/// Each address's balance in `asset`.
pub open spec fn balances_in(balances: Map<BalanceKey, i128>, asset: Symbol) -> spec_fn(Address) -> i128 {
    |p: Address| get_or(balances, BalanceKey { provider: p, asset }, 0)
}

/// What the balances of every address ever registered add up to in `asset`.
pub open spec fn provided(s: StoreView, asset: Symbol) -> int {
    sum_of(s.anchor_list, balances_in(s.balances, asset))
}

/// Only addresses ever registered as anchors hold balances.
pub open spec fn balances_listed(s: StoreView) -> bool {
    forall|p: Address, a: Symbol| #[trigger] s.balance_of(p, a) != 0 ==> s.anchor_list.contains(p)
}

/// In every asset, the pool total plus what settlements hold equals what
/// the balances add up to.
pub open spec fn liquidity_balanced(s: StoreView) -> bool {
    forall|a: Symbol| #[trigger] s.pool_of(a).total + reserved(s, a) == provided(s, a)
}

/// Changing what one settlement holds changes the total by the change.
proof fn lemma_held_update(m: Map<u64, Settlement>, m2: Map<u64, Settlement>, a: Symbol, n: int, id: int)
    requires
        forall|i: int| 1 <= i <= n && i != id ==> #[trigger] held(m2, a, i) == held(m, a, i),
    ensures
        held_upto(m2, a, n) == held_upto(m, a, n) + if 1 <= id <= n {
            held(m2, a, id) - held(m, a, id)
        } else {
            0
        },
    decreases n,
{
    if n >= 1 {
        lemma_held_update(m, m2, a, n - 1, id);
        if n != id {
            assert(held(m2, a, n) == held(m, a, n));
        }
    }
}

/// Appending to a list items on which `f` is zero keeps its sum.
proof fn lemma_sum_extend<A>(l1: Seq<A>, l2: Seq<A>, f: spec_fn(A) -> i128)
    requires
        l1.is_prefix_of(l2),
        l2.no_duplicates(),
        forall|x: A| #[trigger] f(x) != 0 ==> l1.contains(x),
    ensures
        sum_of(l2, f) == sum_of(l1, f),
    decreases l2.len(),
{
    if l2.len() > l1.len() {
        let shorter = l2.drop_last();
        assert(l1.is_prefix_of(shorter)) by {
            assert(shorter.subrange(0, l1.len() as int) =~= l2.subrange(0, l1.len() as int));
        }
        assert forall|i: int, j: int| 0 <= i < shorter.len() && 0 <= j < shorter.len() && i != j implies shorter[i]
            != shorter[j] by {
            assert(shorter[i] == l2[i] && shorter[j] == l2[j]);
        }
        lemma_sum_extend(l1, shorter, f);
        let last = l2.last();
        if f(last) != 0 {
            let i = choose|i: int| 0 <= i < l1.len() && l1[i] == last;
            assert(l2[i] == l1[i]);
            assert(l2[i] == l2[l2.len() - 1]);
        }
    } else {
        assert(l2 =~= l1);
    }
}

/// Moves of `dp`, `dr` and `dv` in the pool, the reservations and the
/// balances of `x`, with `dp + dr == dv` and no other asset touched, keep
/// the accounts balanced.
proof fn lemma_balanced_step(s: StoreView, s2: StoreView, x: Symbol, dp: int, dr: int, dv: int)
    requires
        liquidity_balanced(s),
        dp + dr == dv,
        s2.pool_of(x).total == s.pool_of(x).total + dp,
        reserved(s2, x) == reserved(s, x) + dr,
        provided(s2, x) == provided(s, x) + dv,
        forall|a: Symbol| a != x ==> #[trigger] s2.pool_of(a) == s.pool_of(a),
        forall|a: Symbol| a != x ==> #[trigger] reserved(s2, a) == reserved(s, a),
        forall|a: Symbol| a != x ==> #[trigger] provided(s2, a) == provided(s, a),
    ensures
        liquidity_balanced(s2),
{
    assert forall|a: Symbol| #[trigger] s2.pool_of(a).total + reserved(s2, a) == provided(s2, a) by {
        assert(s.pool_of(a).total + reserved(s, a) == provided(s, a));
    }
}

/// A store whose pools, settlements and balances are unchanged, and whose
/// anchor list only grew, keeps its accounts.
proof fn lemma_accounts_frame(s: StoreView, s2: StoreView)
    requires
        inv(s),
        inv(s2),
        balances_listed(s),
        liquidity_balanced(s),
        s2.pools == s.pools,
        s2.settlements == s.settlements,
        s2.settlement_count == s.settlement_count,
        s2.balances == s.balances,
        s.anchor_list.is_prefix_of(s2.anchor_list),
    ensures
        balances_listed(s2),
        liquidity_balanced(s2),
{
    assert forall|p: Address, a: Symbol| #[trigger] s2.balance_of(p, a) != 0 implies s2.anchor_list.contains(p) by {
        assert(s.balance_of(p, a) != 0);
        let i = choose|i: int| 0 <= i < s.anchor_list.len() && s.anchor_list[i] == p;
        assert(s2.anchor_list[i] == s.anchor_list[i]);
    }
    assert forall|a: Symbol| #[trigger] s2.pool_of(a).total + reserved(s2, a) == provided(s2, a) by {
        assert(s.pool_of(a).total + reserved(s, a) == provided(s, a));
        let f = balances_in(s.balances, a);
        assert forall|x: Address| #[trigger] f(x) != 0 implies s.anchor_list.contains(x) by {
            assert(s.balance_of(x, a) != 0);
        }
        lemma_sum_extend(s.anchor_list, s2.anchor_list, f);
    }
}

/// A balance of `p` in `x` moving by `d`, and the pool of `x` with it.
proof fn lemma_balance_moves(s: StoreView, s2: StoreView, p: Address, x: Symbol, d: int)
    requires
        inv(s),
        balances_listed(s),
        liquidity_balanced(s),
        s.anchor_list.contains(p),
        s2.anchor_list == s.anchor_list,
        s2.settlements == s.settlements,
        s2.settlement_count == s.settlement_count,
        s2.balances == s.balances.insert(BalanceKey { provider: p, asset: x }, (s.balance_of(p, x) + d) as i128),
        fits_i128(s.balance_of(p, x) + d),
        s2.pool_of(x).total == s.pool_of(x).total + d,
        forall|a: Symbol| a != x ==> #[trigger] s2.pool_of(a) == s.pool_of(a),
    ensures
        balances_listed(s2),
        liquidity_balanced(s2),
{
    let k = BalanceKey { provider: p, asset: x };
    assert forall|q: Address, a: Symbol| #[trigger] s2.balance_of(q, a) != 0 implies s2.anchor_list.contains(q) by {
        if q != p || a != x {
            assert(s2.balance_of(q, a) == s.balance_of(q, a));
        }
    }
    let f = balances_in(s.balances, x);
    let g = balances_in(s2.balances, x);
    assert forall|q: Address| q != p implies #[trigger] g(q) == f(q) by {
        assert(BalanceKey { provider: q, asset: x } != k);
    }
    lemma_sum_point_update(s.anchor_list, f, g, p);
    assert forall|a: Symbol| a != x implies #[trigger] provided(s2, a) == provided(s, a) by {
        assert(balances_in(s2.balances, a) =~= balances_in(s.balances, a));
    }
    lemma_balanced_step(s, s2, x, d, 0, d);
}

proof fn lemma_provide_accounts(s: StoreView, p: Address, x: Symbol, n: i128)
    requires
        inv(s),
        balances_listed(s),
        liquidity_balanced(s),
        s.anchor_list.contains(p),
        n > 0,
        provide_effect(s, p, x, n) is Ok,
    ensures
        balances_listed(provide_effect(s, p, x, n)->Ok_0.0),
        liquidity_balanced(provide_effect(s, p, x, n)->Ok_0.0),
        provide_effect(s, p, x, n)->Ok_0.0.anchor_list == s.anchor_list,
{
    let s2 = provide_effect(s, p, x, n)->Ok_0.0;
    assert forall|a: Symbol| a != x implies #[trigger] s2.pool_of(a) == s.pool_of(a) by {}
    lemma_balance_moves(s, s2, p, x, n as int);
}

proof fn lemma_withdraw_accounts(s: StoreView, p: Address, x: Symbol, n: i128)
    requires
        inv(s),
        balances_listed(s),
        liquidity_balanced(s),
        n > 0,
        s.balance_of(p, x) >= n,
        withdraw_effect(s, p, x, n) is Ok,
    ensures
        balances_listed(withdraw_effect(s, p, x, n)->Ok_0.0),
        liquidity_balanced(withdraw_effect(s, p, x, n)->Ok_0.0),
{
    let s2 = withdraw_effect(s, p, x, n)->Ok_0.0;
    assert(s.balance_of(p, x) != 0);
    assert forall|a: Symbol| a != x implies #[trigger] s2.pool_of(a) == s.pool_of(a) by {}
    lemma_balance_moves(s, s2, p, x, -n);
}

proof fn lemma_provide_all_accounts(s: StoreView, p: Address, requests: Seq<(Symbol, i128)>)
    requires
        inv(s),
        balances_listed(s),
        liquidity_balanced(s),
        s.anchor_list.contains(p),
        forall|j: int| 0 <= j < requests.len() ==> #[trigger] requests[j].1 > 0,
        provide_all(s, p, requests) is Ok,
    ensures
        balances_listed(provide_all(s, p, requests)->Ok_0.0),
        liquidity_balanced(provide_all(s, p, requests)->Ok_0.0),
        provide_all(s, p, requests)->Ok_0.0.anchor_list == s.anchor_list,
    decreases requests.len(),
{
    if requests.len() > 0 {
        let r = requests.drop_last();
        assert forall|j: int| 0 <= j < r.len() implies #[trigger] r[j].1 > 0 by {
            assert(r[j] == requests[j]);
        }
        lemma_provide_all_accounts(s, p, r);
        lemma_provide_all_keeps_inv(s, p, r);
        let s1 = provide_all(s, p, r)->Ok_0.0;
        assert(requests.last().1 > 0) by {
            assert(requests[requests.len() - 1].1 > 0);
        }
        lemma_provide_accounts(s1, p, requests.last().0, requests.last().1);
    }
}

proof fn lemma_withdraw_all_accounts(s: StoreView, p: Address, requests: Seq<(Symbol, i128)>)
    requires
        inv(s),
        balances_listed(s),
        liquidity_balanced(s),
        forall|j: int| 0 <= j < requests.len() ==> #[trigger] requests[j].1 > 0,
        forall|j: int| 0 <= j < requests.len() ==> s.balance_of(p, #[trigger] requests[j].0) >= requests[j].1,
        forall|j: int| 0 <= j < requests.len() ==> !#[trigger] assets_of(requests).take(j).contains(requests[j].0),
        withdraw_all(s, p, requests) is Ok,
    ensures
        balances_listed(withdraw_all(s, p, requests)->Ok_0.0),
        liquidity_balanced(withdraw_all(s, p, requests)->Ok_0.0),
    decreases requests.len(),
{
    if requests.len() > 0 {
        let r = requests.drop_last();
        let n = requests.len() - 1;
        assert forall|j: int| 0 <= j < r.len() implies #[trigger] r[j].1 > 0 by {
            assert(r[j] == requests[j]);
        }
        assert forall|j: int| 0 <= j < r.len() implies s.balance_of(p, #[trigger] r[j].0) >= r[j].1 by {
            assert(r[j] == requests[j]);
        }
        assert forall|j: int| 0 <= j < r.len() implies !#[trigger] assets_of(r).take(j).contains(r[j].0) by {
            assert(r[j] == requests[j]);
            assert(assets_of(r).take(j) =~= assets_of(requests).take(j));
        }
        lemma_withdraw_all_accounts(s, p, r);
        lemma_withdraw_all_keeps_inv(s, p, r);
        let s1 = withdraw_all(s, p, r)->Ok_0.0;
        let last = requests[n];
        assert(requests.last() == last);
        assert(!assets_of(requests).take(n).contains(last.0));
        assert(assets_of(r) =~= assets_of(requests).take(n));
        lemma_withdraw_all_frame(s, p, r, last.0);
        lemma_withdraw_accounts(s1, p, last.0, last.1);
    }
}

/// A settlement in `x` leaving `Pending` for `status`, its amount going
/// back to the pool when `status` returns it.
proof fn lemma_settlement_moves(s: StoreView, s2: StoreView, id: u64, status: SettlementStatus, back: int)
    requires
        inv(s),
        balances_listed(s),
        liquidity_balanced(s),
        s.settlements.contains_key(id),
        s.settlements[id].status == SettlementStatus::Pending,
        status != SettlementStatus::Pending,
        s2.settlements == s.settlements.insert(id, Settlement { status, ..s.settlements[id] }),
        s2.settlement_count == s.settlement_count,
        s2.balances == s.balances,
        s2.anchor_list == s.anchor_list,
        back == if status == SettlementStatus::Executed {
            0
        } else {
            s.settlements[id].amount as int
        },
        s2.pool_of(s.settlements[id].asset).total == s.pool_of(s.settlements[id].asset).total + back,
        forall|a: Symbol| a != s.settlements[id].asset ==> #[trigger] s2.pool_of(a) == s.pool_of(a),
    ensures
        balances_listed(s2),
        liquidity_balanced(s2),
{
    let st = s.settlements[id];
    let x = st.asset;
    assert(1 <= id <= s.settlement_count);
    assert forall|p: Address, a: Symbol| #[trigger] s2.balance_of(p, a) != 0 implies s2.anchor_list.contains(p) by {
        assert(s.balance_of(p, a) == s2.balance_of(p, a));
    }
    assert forall|a: Symbol| #[trigger] reserved(s2, a) == reserved(s, a) + if a == x {
        -back
    } else {
        0
    } by {
        assert forall|i: int| 1 <= i <= s.settlement_count && i != id implies #[trigger] held(s2.settlements, a, i)
            == held(s.settlements, a, i) by {}
        lemma_held_update(s.settlements, s2.settlements, a, s.settlement_count as int, id as int);
        assert(s2.settlements[id] == Settlement { status, ..st });
        assert(held(s.settlements, a, id as int) == if a == x {
            st.amount as int
        } else {
            0
        });
        assert(held(s2.settlements, a, id as int) == if a == x && status == SettlementStatus::Executed {
            st.amount as int
        } else {
            0
        });
    }
    assert forall|a: Symbol| a != x implies #[trigger] reserved(s2, a) == reserved(s, a) by {}
    assert forall|a: Symbol| a != x implies #[trigger] provided(s2, a) == provided(s, a) by {}
    assert(reserved(s2, x) == reserved(s, x) - back);
    lemma_balanced_step(s, s2, x, back, -back, 0);
}

/// Every asset's liquidity stays accounted for across every call: the
/// pool total plus the amounts of its pending and executed settlements
/// equals the sum of the providers' balances in it, and only addresses
/// ever registered as anchors hold balances.
#[verifier::spinoff_prover]
#[verifier::rlimit(30)]
pub proof fn law_liquidity_accounted(pre: EnvView, call: Call)
    requires
        inv(pre.store),
        balances_listed(pre.store),
        liquidity_balanced(pre.store),
    ensures
        balances_listed(after(pre, call).store),
        liquidity_balanced(after(pre, call).store),
{
    let s = pre.store;
    let post = after(pre, call).store;
    law_every_call_keeps_invariant(pre, call);
    law_lists_only_grow(pre, call);
    if !succeeds(pre, call) {
        assert(post == s);
    } else {
        match call {
            Call::ProvideLiquidity(p, x, n) => {
                assert(s.anchors.contains_key(p));
                lemma_provide_accounts(s, p, x, n);
            },
            Call::ProvideLiquidityMulti(p, r) => {
                assert(s.anchors.contains_key(p));
                lemma_provide_batch_ok(r, 0);
                assert forall|j: int| 0 <= j < r.len() implies #[trigger] r[j].1 > 0 by {
                    assert(provide_request_error(r, j) is None);
                }
                lemma_provide_all_accounts(s, p, r);
            },
            Call::WithdrawLiquidity(p, x, n) => {
                lemma_withdraw_accounts(s, p, x, n);
            },
            Call::WithdrawLiquidityMulti(p, r) => {
                lemma_withdraw_batch_ok(s, p, r, 0);
                assert forall|j: int| 0 <= j < r.len() implies #[trigger] r[j].1 > 0 by {
                    assert(withdraw_request_error(s, p, r, j) is None);
                }
                assert forall|j: int| 0 <= j < r.len() implies s.balance_of(p, #[trigger] r[j].0) >= r[j].1 by {
                    assert(withdraw_request_error(s, p, r, j) is None);
                }
                assert forall|j: int| 0 <= j < r.len() implies !#[trigger] assets_of(r).take(j).contains(r[j].0) by {
                    assert(withdraw_request_error(s, p, r, j) is None);
                }
                lemma_withdraw_all_accounts(s, p, r);
            },
            Call::WithdrawAllLiquidity(p, x) => {
                lemma_withdraw_accounts(s, p, x, s.balance_of(p, x));
            },
            Call::OpenSettlement(a, x, n) => {
                lemma_open_accounts(pre, a, x, n);
            },
            Call::ExecuteSettlement(id) => {
                lemma_settlement_moves(s, post, id, SettlementStatus::Executed, 0);
            },
            Call::CancelSettlement(id) => {
                let st = s.settlements[id];
                lemma_settlement_moves(s, post, id, SettlementStatus::Cancelled, st.amount as int);
            },
            Call::CancelExpiredSettlement(id) => {
                let st = s.settlements[id];
                lemma_settlement_moves(s, post, id, SettlementStatus::Expired, st.amount as int);
            },
            Call::RegisterAnchors(b) => {
                lemma_register_all_keeps_accounts(s, b);
                lemma_accounts_frame(s, post);
            },
            _ => {
                lemma_accounts_frame(s, post);
            },
        }
    }
}

proof fn lemma_register_all_keeps_accounts(s: StoreView, batch: Seq<Address>)
    ensures
        register_all(s, batch).pools == s.pools,
        register_all(s, batch).settlements == s.settlements,
        register_all(s, batch).settlement_count == s.settlement_count,
        register_all(s, batch).balances == s.balances,
    decreases batch.len(),
{
    if batch.len() > 0 {
        lemma_register_all_keeps_accounts(s, batch.drop_last());
    }
}

proof fn lemma_open_accounts(pre: EnvView, a: Address, x: Symbol, n: i128)
    requires
        inv(pre.store),
        balances_listed(pre.store),
        liquidity_balanced(pre.store),
        AnchornetContract::spec_open_settlement(pre, a, x, n).result is Ok,
    ensures
        balances_listed(after(pre, Call::OpenSettlement(a, x, n)).store),
        liquidity_balanced(after(pre, Call::OpenSettlement(a, x, n)).store),
{
    let s = pre.store;
    let s2 = after(pre, Call::OpenSettlement(a, x, n)).store;
    let id = s.settlement_count + 1;
    assert(!s.settlements.contains_key(id as u64));
    assert forall|p: Address, c: Symbol| #[trigger] s2.balance_of(p, c) != 0 implies s2.anchor_list.contains(p) by {
        assert(s.balance_of(p, c) == s2.balance_of(p, c));
    }
    assert(s2.settlement_count == id);
    assert forall|c: Symbol| #[trigger] reserved(s2, c) == reserved(s, c) + if c == x {
        n as int
    } else {
        0
    } by {
        assert forall|i: int| 1 <= i <= s.settlement_count implies #[trigger] held(s2.settlements, c, i) == held(
            s.settlements,
            c,
            i,
        ) by {}
        lemma_held_update(s.settlements, s2.settlements, c, s.settlement_count as int, 0);
        assert(held_upto(s2.settlements, c, id) == held_upto(s2.settlements, c, id - 1) + held(s2.settlements, c, id));
    }
    assert forall|c: Symbol| c != x implies #[trigger] reserved(s2, c) == reserved(s, c) by {}
    assert forall|c: Symbol| c != x implies #[trigger] provided(s2, c) == provided(s, c) by {}
    assert forall|c: Symbol| c != x implies #[trigger] s2.pool_of(c) == s.pool_of(c) by {}
    assert(reserved(s2, x) == reserved(s, x) + n);
    lemma_balanced_step(s, s2, x, -n, n as int, 0);
}

/// A fresh environment holds no balances, pools or settlements, so its
/// accounts balance.
pub proof fn law_fresh_store_accounts_liquidity()
    ensures
        balances_listed(Env::spec_initial().store),
        liquidity_balanced(Env::spec_initial().store),
{
    let s = Env::spec_initial().store;
    assert forall|a: Symbol| #[trigger] s.pool_of(a).total + reserved(s, a) == provided(s, a) by {}
}

} // verus!

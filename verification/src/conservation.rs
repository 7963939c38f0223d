//! How each entrypoint moves the liquidity held across all pools and the
//! protocol fees awaiting collection.

use vstd::prelude::*;

use crate::anchors::register_all;
use crate::consistency::{
    after, inv, law_every_call_keeps_invariant, law_lists_only_grow, lemma_balance_has_pool,
    lemma_provide_all_keeps_inv, lemma_provide_batch_ok, lemma_withdraw_all_frame, lemma_withdraw_all_keeps_inv,
    lemma_withdraw_batch_ok, succeeds, Call,
};
use crate::contract::AnchornetContract;
use crate::liquidity::{
    assets_of, provide_all, provide_effect, provide_request_error, withdraw_all, withdraw_effect,
    withdraw_request_error,
};
use crate::queries::{accrued, checked_sum, pool_total};
use crate::storage::{Env, EnvView, StoreView};
use crate::types::{Address, Settlement, SettlementStatus, Symbol};

verus! {

/// The sum of `f` over `items`, as a mathematical integer.
pub open spec fn sum_of<A>(items: Seq<A>, f: spec_fn(A) -> i128) -> int
    decreases items.len(),
{
    if items.len() == 0 {
        0
    } else {
        sum_of(items.drop_last(), f) + f(items.last())
    }
}

/// The liquidity held across every known pool.
pub open spec fn liquidity_sum(s: StoreView) -> int {
    sum_of(s.asset_list, pool_total(s))
}

/// The sum of the amounts of a batch of requests.
pub open spec fn amounts_sum(requests: Seq<(Symbol, i128)>) -> int
    decreases requests.len(),
{
    if requests.len() == 0 {
        0
    } else {
        amounts_sum(requests.drop_last()) + requests.last().1
    }
}

/// A checked sum that succeeds is the plain sum.
pub proof fn law_checked_sum_is_sum(assets: Seq<Symbol>, f: spec_fn(Symbol) -> i128)
    requires
        checked_sum(assets, f) is Ok,
    ensures
        checked_sum(assets, f)->Ok_0 == sum_of(assets, f),
    decreases assets.len(),
{
    if assets.len() > 0 {
        law_checked_sum_is_sum(assets.drop_last(), f);
    }
}

/// Changing `f` at `a` alone changes a sum over a list without repeats by
/// the change at `a`, when `a` is in the list, and not at all otherwise.
pub(crate) proof fn lemma_sum_point_update<A>(assets: Seq<A>, f: spec_fn(A) -> i128, g: spec_fn(A) -> i128, a: A)
    requires
        assets.no_duplicates(),
        forall|x: A| x != a ==> #[trigger] g(x) == f(x),
    ensures
        sum_of(assets, g) == sum_of(assets, f) + if assets.contains(a) {
            g(a) - f(a)
        } else {
            0
        },
    decreases assets.len(),
{
    if assets.len() > 0 {
        let rest = assets.drop_last();
        let last = assets.last();
        assert forall|i: int, j: int| 0 <= i < rest.len() && 0 <= j < rest.len() && i != j implies rest[i]
            != rest[j] by {
            assert(rest[i] == assets[i] && rest[j] == assets[j]);
        }
        lemma_sum_point_update(rest, f, g, a);
        if rest.contains(a) {
            let i = choose|i: int| 0 <= i < rest.len() && rest[i] == a;
            assert(assets[i] == a);
            assert(assets.contains(a));
            assert(last != a) by {
                assert(assets[assets.len() - 1] == last);
            }
        } else if last == a {
            assert(assets[assets.len() - 1] == a);
            assert(assets.contains(a));
        } else {
            if assets.contains(a) {
                let i = choose|i: int| 0 <= i < assets.len() && assets[i] == a;
                if i < assets.len() - 1 {
                    assert(rest[i] == a);
                }
            }
        }
    }
}

/// Stores with the same asset list and pools hold the same liquidity.
proof fn lemma_sum_frame(s: StoreView, s2: StoreView)
    requires
        s2.asset_list == s.asset_list,
        s2.pools == s.pools,
    ensures
        liquidity_sum(s2) == liquidity_sum(s),
{
    assert(pool_total(s2) =~= pool_total(s));
}

/// Replacing the total of `a`'s pool, which is listed, moves the liquidity
/// by the change of that total.
proof fn lemma_sum_pool_update(s: StoreView, s2: StoreView, a: Symbol)
    requires
        inv(s),
        s.pools.contains_key(a),
        s2.asset_list == s.asset_list,
        s2.pools.dom() == s.pools.dom().insert(a),
        forall|x: Symbol| x != a ==> #[trigger] s2.pool_of(x) == s.pool_of(x),
    ensures
        liquidity_sum(s2) == liquidity_sum(s) + s2.pool_of(a).total - s.pool_of(a).total,
{
    assert(s.asset_list.contains(a));
    assert forall|x: Symbol| x != a implies #[trigger] (pool_total(s2))(x) == (pool_total(s))(x) by {
        assert(s2.pool_of(x) == s.pool_of(x));
    }
    lemma_sum_point_update(s.asset_list, pool_total(s), pool_total(s2), a);
}

proof fn lemma_provide_moves(s: StoreView, p: Address, a: Symbol, amount: i128)
    requires
        inv(s),
        amount > 0,
        provide_effect(s, p, a, amount) is Ok,
    ensures
        liquidity_sum(provide_effect(s, p, a, amount)->Ok_0.0) == liquidity_sum(s) + amount,
{
    let s2 = provide_effect(s, p, a, amount)->Ok_0.0;
    let f = pool_total(s);
    let g = pool_total(s2);
    assert forall|x: Symbol| x != a implies #[trigger] g(x) == f(x) by {
        assert(s2.pool_of(x) == s.pool_of(x));
    }
    assert(g(a) == f(a) + amount);
    lemma_sum_point_update(s.asset_list, f, g, a);
    if !s.asset_list.contains(a) {
        assert(!s.pools.contains_key(a));
        assert(f(a) == 0);
        assert(s2.asset_list == s.asset_list.push(a));
        assert(s2.asset_list.drop_last() =~= s.asset_list);
    }
}

proof fn lemma_withdraw_moves(s: StoreView, p: Address, a: Symbol, amount: i128)
    requires
        inv(s),
        amount > 0,
        s.balance_of(p, a) >= amount,
        withdraw_effect(s, p, a, amount) is Ok,
    ensures
        liquidity_sum(withdraw_effect(s, p, a, amount)->Ok_0.0) == liquidity_sum(s) - amount,
{
    let s2 = withdraw_effect(s, p, a, amount)->Ok_0.0;
    lemma_balance_has_pool(s, p, a);
    assert(s2.pools.dom() =~= s.pools.dom().insert(a));
    lemma_sum_pool_update(s, s2, a);
}

proof fn lemma_provide_all_moves(s: StoreView, p: Address, requests: Seq<(Symbol, i128)>)
    requires
        inv(s),
        forall|j: int| 0 <= j < requests.len() ==> #[trigger] requests[j].1 > 0,
        provide_all(s, p, requests) is Ok,
    ensures
        liquidity_sum(provide_all(s, p, requests)->Ok_0.0) == liquidity_sum(s) + amounts_sum(requests),
    decreases requests.len(),
{
    if requests.len() > 0 {
        let r = requests.drop_last();
        assert forall|j: int| 0 <= j < r.len() implies #[trigger] r[j].1 > 0 by {
            assert(r[j] == requests[j]);
        }
        lemma_provide_all_moves(s, p, r);
        lemma_provide_all_keeps_inv(s, p, r);
        let s1 = provide_all(s, p, r)->Ok_0.0;
        assert(requests.last().1 > 0) by {
            assert(requests[requests.len() - 1].1 > 0);
        }
        lemma_provide_moves(s1, p, requests.last().0, requests.last().1);
    }
}

proof fn lemma_withdraw_all_moves(s: StoreView, p: Address, requests: Seq<(Symbol, i128)>)
    requires
        inv(s),
        forall|j: int| 0 <= j < requests.len() ==> #[trigger] requests[j].1 > 0,
        forall|j: int| 0 <= j < requests.len() ==> s.balance_of(p, #[trigger] requests[j].0) >= requests[j].1,
        forall|j: int| 0 <= j < requests.len() ==> !#[trigger] assets_of(requests).take(j).contains(requests[j].0),
        withdraw_all(s, p, requests) is Ok,
    ensures
        liquidity_sum(withdraw_all(s, p, requests)->Ok_0.0) == liquidity_sum(s) - amounts_sum(requests),
    decreases requests.len(),
{
    if requests.len() > 0 {
        let r = requests.drop_last();
        let n = requests.len() - 1;
        assert forall|j: int| 0 <= j < r.len() implies #[trigger] r[j].1 > 0 by {
            assert(r[j] == requests[j]);
        }
        assert forall|j: int| 0 <= j < r.len() implies s.balance_of(p, #[trigger] r[j].0) >= r[j].1 by {
            assert(r[j] == requests[j]);
        }
        assert forall|j: int| 0 <= j < r.len() implies !#[trigger] assets_of(r).take(j).contains(r[j].0) by {
            assert(r[j] == requests[j]);
            assert(assets_of(r).take(j) =~= assets_of(requests).take(j));
        }
        lemma_withdraw_all_moves(s, p, r);
        lemma_withdraw_all_keeps_inv(s, p, r);
        let s1 = withdraw_all(s, p, r)->Ok_0.0;
        let last = requests[n];
        assert(requests.last() == last);
        assert(!assets_of(requests).take(n).contains(last.0));
        assert(assets_of(r) =~= assets_of(requests).take(n));
        lemma_withdraw_all_frame(s, p, r, last.0);
        assert(s.balance_of(p, last.0) >= last.1);
        lemma_withdraw_moves(s1, p, last.0, last.1);
    }
}

proof fn lemma_return_moves(s: StoreView, id: u64, status: SettlementStatus)
    requires
        inv(s),
        s.settlements.contains_key(id),
        AnchornetContract::spec_return_to_pool(s, s.settlements[id], status) is Ok,
    ensures
        liquidity_sum(AnchornetContract::spec_return_to_pool(s, s.settlements[id], status)->Ok_0) == liquidity_sum(
            s,
        ) + s.settlements[id].amount,
{
    let st: Settlement = s.settlements[id];
    let s2 = AnchornetContract::spec_return_to_pool(s, st, status)->Ok_0;
    assert(s.pools.contains_key(st.asset));
    assert(s2.pools.dom() =~= s.pools.dom().insert(st.asset));
    lemma_sum_pool_update(s, s2, st.asset);
}

proof fn lemma_register_all_keeps_pools(s: StoreView, batch: Seq<Address>)
    ensures
        register_all(s, batch).asset_list == s.asset_list,
        register_all(s, batch).pools == s.pools,
    decreases batch.len(),
{
    if batch.len() > 0 {
        lemma_register_all_keeps_pools(s, batch.drop_last());
    }
}

/// The liquidity that `call` adds to the pools (negative when it takes
/// some) when it runs in `pre` and succeeds.
pub open spec fn liquidity_delta(pre: EnvView, call: Call) -> int {
    let s = pre.store;
    match call {
        Call::ProvideLiquidity(p, x, n) => n as int,
        Call::ProvideLiquidityMulti(p, r) => amounts_sum(r),
        Call::WithdrawLiquidity(p, x, n) => -n,
        Call::WithdrawLiquidityMulti(p, r) => -amounts_sum(r),
        Call::WithdrawAllLiquidity(p, x) => -s.balance_of(p, x),
        Call::OpenSettlement(a, x, n) => -n,
        Call::CancelSettlement(id) => s.settlement_of(id)->Some_0.amount as int,
        Call::CancelExpiredSettlement(id) => s.settlement_of(id)->Some_0.amount as int,
        _ => 0,
    }
}

/// The liquidity held across all pools moves by exactly what a successful
/// call adds or takes: providing adds the amount, withdrawing takes it,
/// withdrawing everything takes the whole balance, opening a settlement
/// takes its amount, cancelling a settlement or reclaiming an expired one
/// returns its amount, and executing one moves nothing; every other call,
/// and every call that fails, leaves it unchanged.
#[verifier::spinoff_prover]
#[verifier::rlimit(30)]
pub proof fn law_liquidity_moves_by_call(pre: EnvView, call: Call)
    requires
        inv(pre.store),
    ensures
        liquidity_sum(after(pre, call).store) == liquidity_sum(pre.store) + if succeeds(pre, call) {
            liquidity_delta(pre, call)
        } else {
            0
        },
{
    let s = pre.store;
    let post = after(pre, call).store;
    if !succeeds(pre, call) {
        assert(post == s);
    } else {
        match call {
            Call::ProvideLiquidity(p, x, n) => {
                lemma_provide_moves(s, p, x, n);
            },
            Call::ProvideLiquidityMulti(p, r) => {
                lemma_provide_batch_ok(r, 0);
                assert forall|j: int| 0 <= j < r.len() implies #[trigger] r[j].1 > 0 by {
                    assert(provide_request_error(r, j) is None);
                }
                lemma_provide_all_moves(s, p, r);
            },
            Call::WithdrawLiquidity(p, x, n) => {
                lemma_withdraw_moves(s, p, x, n);
            },
            Call::WithdrawLiquidityMulti(p, r) => {
                lemma_withdraw_batch_ok(s, p, r, 0);
                assert forall|j: int| 0 <= j < r.len() implies #[trigger] r[j].1 > 0 by {
                    assert(withdraw_request_error(s, p, r, j) is None);
                }
                assert forall|j: int| 0 <= j < r.len() implies s.balance_of(p, #[trigger] r[j].0) >= r[j].1 by {
                    assert(withdraw_request_error(s, p, r, j) is None);
                }
                assert forall|j: int| 0 <= j < r.len() implies !#[trigger] assets_of(r).take(j).contains(r[j].0) by {
                    assert(withdraw_request_error(s, p, r, j) is None);
                }
                lemma_withdraw_all_moves(s, p, r);
            },
            Call::WithdrawAllLiquidity(p, x) => {
                lemma_withdraw_moves(s, p, x, s.balance_of(p, x));
            },
            Call::OpenSettlement(a, x, n) => {
                assert(s.pools.contains_key(x));
                assert(post.pools.dom() =~= s.pools.dom().insert(x));
                lemma_sum_pool_update(s, post, x);
            },
            Call::CancelSettlement(id) => {
                lemma_return_moves(s, id, SettlementStatus::Cancelled);
            },
            Call::CancelExpiredSettlement(id) => {
                lemma_return_moves(s, id, SettlementStatus::Expired);
            },
            Call::RegisterAnchors(b) => {
                lemma_register_all_keeps_pools(s, b);
                lemma_sum_frame(s, post);
            },
            _ => {
                lemma_sum_frame(s, post);
            },
        }
    }
}

/// Fees await collection only in listed assets.
pub open spec fn fees_listed(s: StoreView) -> bool {
    forall|a: Symbol| #[trigger] s.fees_accrued_of(a) != 0 ==> s.asset_list.contains(a)
}

/// The protocol fees awaiting collection across every listed asset.
pub open spec fn fees_sum(s: StoreView) -> int {
    sum_of(s.asset_list, accrued(s))
}

/// The fees that `call` adds to those awaiting collection (negative when
/// it collects some) when it runs in `pre` and succeeds.
pub open spec fn fees_delta(pre: EnvView, call: Call) -> int {
    let s = pre.store;
    match call {
        Call::ExecuteSettlement(id) => s.settlement_of(id)->Some_0.fee as int,
        Call::CollectFees(x) => -s.fees_accrued_of(x),
        _ => 0,
    }
}

/// A store whose fees are unchanged and whose asset list only grew keeps
/// the fees listed and their sum.
proof fn lemma_fees_grow_list(s: StoreView, s2: StoreView)
    requires
        fees_listed(s),
        s.asset_list.no_duplicates(),
        s2.fees_accrued == s.fees_accrued,
        s.asset_list.is_prefix_of(s2.asset_list),
        s2.asset_list.no_duplicates(),
    ensures
        fees_listed(s2),
        fees_sum(s2) == fees_sum(s),
    decreases s2.asset_list.len(),
{
    assert(accrued(s2) =~= accrued(s));
    assert forall|a: Symbol| #[trigger] s2.fees_accrued_of(a) != 0 implies s2.asset_list.contains(a) by {
        assert(s.fees_accrued_of(a) == s2.fees_accrued_of(a));
        assert(s.asset_list.contains(a));
        let i = choose|i: int| 0 <= i < s.asset_list.len() && s.asset_list[i] == a;
        assert(s2.asset_list[i] == s.asset_list[i]);
    }
    if s2.asset_list.len() > s.asset_list.len() {
        let shorter = StoreView { asset_list: s2.asset_list.drop_last(), ..s2 };
        assert(s.asset_list.is_prefix_of(shorter.asset_list)) by {
            assert(shorter.asset_list.subrange(0, s.asset_list.len() as int) =~= s2.asset_list.subrange(
                0,
                s.asset_list.len() as int,
            ));
        }
        assert forall|i: int, j: int|
            0 <= i < shorter.asset_list.len() && 0 <= j < shorter.asset_list.len() && i != j implies shorter.asset_list[i]
            != shorter.asset_list[j] by {
            assert(shorter.asset_list[i] == s2.asset_list[i] && shorter.asset_list[j] == s2.asset_list[j]);
        }
        lemma_fees_grow_list(s, shorter);
        let last = s2.asset_list.last();
        assert(!shorter.asset_list.contains(last)) by {
            if shorter.asset_list.contains(last) {
                let i = choose|i: int| 0 <= i < shorter.asset_list.len() && shorter.asset_list[i] == last;
                assert(s2.asset_list[i] == s2.asset_list[s2.asset_list.len() - 1]);
            }
        }
        assert(accrued(s2)(last) == 0);
        assert(fees_sum(s2) == sum_of(shorter.asset_list, accrued(s2)) + accrued(s2)(last));
        assert(accrued(shorter) =~= accrued(s2));
    } else {
        assert(s2.asset_list =~= s.asset_list);
    }
}

/// Changing the fees of a listed asset moves the sum by the change.
proof fn lemma_fees_point_update(s: StoreView, s2: StoreView, a: Symbol)
    requires
        s.asset_list.no_duplicates(),
        s.asset_list.contains(a),
        s2.asset_list == s.asset_list,
        forall|x: Symbol| x != a ==> #[trigger] s2.fees_accrued_of(x) == s.fees_accrued_of(x),
    ensures
        fees_sum(s2) == fees_sum(s) + s2.fees_accrued_of(a) - s.fees_accrued_of(a),
{
    assert forall|x: Symbol| x != a implies #[trigger] (accrued(s2))(x) == (accrued(s))(x) by {
        assert(s2.fees_accrued_of(x) == s.fees_accrued_of(x));
    }
    lemma_sum_point_update(s.asset_list, accrued(s), accrued(s2), a);
}

proof fn lemma_provide_all_keeps_fees(s: StoreView, p: Address, requests: Seq<(Symbol, i128)>)
    requires
        provide_all(s, p, requests) is Ok,
    ensures
        provide_all(s, p, requests)->Ok_0.0.fees_accrued == s.fees_accrued,
    decreases requests.len(),
{
    if requests.len() > 0 {
        lemma_provide_all_keeps_fees(s, p, requests.drop_last());
    }
}

proof fn lemma_withdraw_all_keeps_fees(s: StoreView, p: Address, requests: Seq<(Symbol, i128)>)
    requires
        withdraw_all(s, p, requests) is Ok,
    ensures
        withdraw_all(s, p, requests)->Ok_0.0.fees_accrued == s.fees_accrued,
    decreases requests.len(),
{
    if requests.len() > 0 {
        lemma_withdraw_all_keeps_fees(s, p, requests.drop_last());
    }
}

proof fn lemma_register_all_keeps_fees(s: StoreView, batch: Seq<Address>)
    ensures
        register_all(s, batch).fees_accrued == s.fees_accrued,
    decreases batch.len(),
{
    if batch.len() > 0 {
        lemma_register_all_keeps_fees(s, batch.drop_last());
    }
}

/// A fresh environment holds no fees awaiting collection.
pub proof fn law_fresh_store_lists_its_fees()
    ensures
        fees_listed(Env::spec_initial().store),
        fees_sum(Env::spec_initial().store) == 0,
{
}

/// Fees stay awaiting collection only in listed assets, and their sum
/// moves by exactly what a successful call accrues or collects: executing
/// a settlement adds its fee, collecting an asset's fees removes them, and
/// every other call, and every call that fails, leaves the sum unchanged.
#[verifier::spinoff_prover]
#[verifier::rlimit(30)]
pub proof fn law_fees_move_by_call(pre: EnvView, call: Call)
    requires
        inv(pre.store),
        fees_listed(pre.store),
    ensures
        fees_listed(after(pre, call).store),
        fees_sum(after(pre, call).store) == fees_sum(pre.store) + if succeeds(pre, call) {
            fees_delta(pre, call)
        } else {
            0
        },
{
    let s = pre.store;
    let post = after(pre, call).store;
    law_every_call_keeps_invariant(pre, call);
    law_lists_only_grow(pre, call);
    if !succeeds(pre, call) {
        assert(post == s);
    } else {
        match call {
            Call::ExecuteSettlement(id) => {
                let st = s.settlements[id];
                assert(s.pools.contains_key(st.asset));
                assert(s.asset_list.contains(st.asset));
                lemma_fees_point_update(s, post, st.asset);
                assert forall|a: Symbol| #[trigger] post.fees_accrued_of(a) != 0 implies post.asset_list.contains(
                    a,
                ) by {
                    if a != st.asset {
                        assert(s.fees_accrued_of(a) != 0);
                    }
                }
            },
            Call::CollectFees(x) => {
                assert(s.fees_accrued_of(x) != 0);
                assert(s.asset_list.contains(x));
                lemma_fees_point_update(s, post, x);
                assert forall|a: Symbol| #[trigger] post.fees_accrued_of(a) != 0 implies post.asset_list.contains(
                    a,
                ) by {
                    if a != x {
                        assert(s.fees_accrued_of(a) != 0);
                    }
                }
            },
            Call::ProvideLiquidityMulti(p, r) => {
                lemma_provide_all_keeps_fees(s, p, r);
                lemma_fees_grow_list(s, post);
            },
            Call::WithdrawLiquidityMulti(p, r) => {
                lemma_withdraw_all_keeps_fees(s, p, r);
                lemma_fees_grow_list(s, post);
            },
            Call::RegisterAnchors(b) => {
                lemma_register_all_keeps_fees(s, b);
                lemma_fees_grow_list(s, post);
            },
            _ => {
                assert(post.fees_accrued == s.fees_accrued);
                lemma_fees_grow_list(s, post);
            },
        }
    }
}

} // verus!

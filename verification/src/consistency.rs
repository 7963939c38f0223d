//! The contract's consistency invariant, and its preservation by every
//! state-changing entrypoint.

use vstd::prelude::*;
use vstd::set_lib::lemma_len_subset;

use crate::anchors::{register_all, register_one};
use crate::contract::{apply, AnchornetContract, MAX_FEE_BPS};
use crate::error::Error;
use crate::liquidity::{
    assets_of, provide_all, provide_batch_error, provide_effect, provide_request_error, withdraw_all,
    withdraw_batch_error, withdraw_effect, withdraw_request_error,
};
use crate::storage::{Env, EnvView, StoreView};
use crate::types::{Address, BalanceKey, Settlement, SettlementStatus, Symbol};

verus! {

/// The balances in `asset` that are positive.
pub open spec fn holders(balances: Map<BalanceKey, i128>, asset: Symbol) -> Set<BalanceKey> {
    Set::new(|k: BalanceKey| balances.contains_key(k) && k.asset == asset && balances[k] > 0)
}

/// The stored entries are consistent:
/// - the global fee and every fee override are within the cap;
/// - settlements are stored exactly under the ids `1..=settlement_count`,
///   each under its own id and in an asset that has a pool;
/// - balances are finitely many and never negative, and each pool's provider
///   count is the number of positive balances in its asset;
/// - the anchor and asset lists hold no repeats, an address has a
///   registration entry exactly when it is in the anchor list, and an asset
///   has a pool exactly when it is in the asset list, that pool naming it.
pub open spec fn inv(s: StoreView) -> bool {
    &&& s.fee_bps <= MAX_FEE_BPS
    &&& forall|a: Symbol| #[trigger] s.asset_fees.contains_key(a) ==> s.asset_fees[a] <= MAX_FEE_BPS
    &&& forall|id: u64| #[trigger] s.settlements.contains_key(id) <==> 1 <= id <= s.settlement_count
    &&& forall|id: u64|
        #[trigger] s.settlements.contains_key(id) ==> s.settlements[id].id == id && s.pools.contains_key(
            s.settlements[id].asset,
        )
    &&& s.balances.dom().finite()
    &&& forall|k: BalanceKey| #[trigger] s.balances.contains_key(k) ==> s.balances[k] >= 0
    &&& forall|a: Symbol| #[trigger] s.pool_of(a).providers == holders(s.balances, a).len()
    &&& s.anchor_list.no_duplicates()
    &&& s.asset_list.no_duplicates()
    &&& forall|a: Address| #[trigger] s.anchors.contains_key(a) <==> s.anchor_list.contains(a)
    &&& forall|x: Symbol| #[trigger] s.pools.contains_key(x) <==> s.asset_list.contains(x)
    &&& forall|x: Symbol| #[trigger] s.pools.contains_key(x) ==> s.pools[x].asset == x
}

/// A state-changing entrypoint together with its arguments.
pub enum Call {
    Initialize(Address),
    SetAdmin(Address),
    ProposeAdmin(Address),
    AcceptAdmin(Address),
    SetOperator(Address),
    ClearOperator,
    Pause(Address),
    Unpause(Address),
    ExtendInstanceTtl(Address),
    SetFee(u32),
    SetFeeWaiver(Address, bool),
    SetAssetFee(Symbol, u32),
    ClearAssetFee(Symbol),
    SetSettlementExpiryLedgers(u32),
    CollectFees(Symbol),
    SetMinLiquidity(Symbol, i128),
    SetMaxSettlementAmount(Symbol, i128),
    RegisterAnchor(Address),
    RegisterAnchors(Seq<Address>),
    DeregisterAnchor(Address),
    ProvideLiquidity(Address, Symbol, i128),
    ProvideLiquidityMulti(Address, Seq<(Symbol, i128)>),
    WithdrawLiquidity(Address, Symbol, i128),
    WithdrawLiquidityMulti(Address, Seq<(Symbol, i128)>),
    WithdrawAllLiquidity(Address, Symbol),
    OpenSettlement(Address, Symbol, i128),
    ExecuteSettlement(u64),
    CancelSettlement(u64),
    CancelExpiredSettlement(u64),
}

/// The environment after `call` runs in `pre`.
pub open spec fn after(pre: EnvView, call: Call) -> EnvView {
    match call {
        Call::Initialize(a) => apply(pre, AnchornetContract::spec_initialize(pre, a)),
        Call::SetAdmin(a) => apply(pre, AnchornetContract::spec_set_admin(pre, a)),
        Call::ProposeAdmin(a) => apply(pre, AnchornetContract::spec_propose_admin(pre, a)),
        Call::AcceptAdmin(a) => apply(pre, AnchornetContract::spec_accept_admin(pre, a)),
        Call::SetOperator(a) => apply(pre, AnchornetContract::spec_set_operator(pre, a)),
        Call::ClearOperator => apply(pre, AnchornetContract::spec_clear_operator(pre)),
        Call::Pause(a) => apply(pre, AnchornetContract::spec_set_paused(pre, a, true)),
        Call::Unpause(a) => apply(pre, AnchornetContract::spec_set_paused(pre, a, false)),
        Call::ExtendInstanceTtl(a) => apply(pre, AnchornetContract::spec_extend_instance_ttl(pre, a)),
        Call::SetFee(bps) => apply(pre, AnchornetContract::spec_set_fee(pre, bps)),
        Call::SetFeeWaiver(a, w) => apply(pre, AnchornetContract::spec_set_fee_waiver(pre, a, w)),
        Call::SetAssetFee(x, bps) => apply(pre, AnchornetContract::spec_set_asset_fee(pre, x, bps)),
        Call::ClearAssetFee(x) => apply(pre, AnchornetContract::spec_clear_asset_fee(pre, x)),
        Call::SetSettlementExpiryLedgers(l) => apply(
            pre,
            AnchornetContract::spec_set_settlement_expiry_ledgers(pre, l),
        ),
        Call::CollectFees(x) => apply(pre, AnchornetContract::spec_collect_fees(pre, x)),
        Call::SetMinLiquidity(x, f) => apply(pre, AnchornetContract::spec_set_min_liquidity(pre, x, f)),
        Call::SetMaxSettlementAmount(x, m) => apply(
            pre,
            AnchornetContract::spec_set_max_settlement_amount(pre, x, m),
        ),
        Call::RegisterAnchor(a) => apply(pre, AnchornetContract::spec_register_anchor(pre, a)),
        Call::RegisterAnchors(b) => apply(pre, AnchornetContract::spec_register_anchors(pre, b)),
        Call::DeregisterAnchor(a) => apply(pre, AnchornetContract::spec_deregister_anchor(pre, a)),
        Call::ProvideLiquidity(p, x, n) => apply(pre, AnchornetContract::spec_provide_liquidity(pre, p, x, n)),
        Call::ProvideLiquidityMulti(p, r) => apply(
            pre,
            AnchornetContract::spec_provide_liquidity_multi(pre, p, r),
        ),
        Call::WithdrawLiquidity(p, x, n) => apply(
            pre,
            AnchornetContract::spec_withdraw_liquidity(pre, p, x, n),
        ),
        Call::WithdrawLiquidityMulti(p, r) => apply(
            pre,
            AnchornetContract::spec_withdraw_liquidity_multi(pre, p, r),
        ),
        Call::WithdrawAllLiquidity(p, x) => apply(
            pre,
            AnchornetContract::spec_withdraw_all_liquidity(pre, p, x),
        ),
        Call::OpenSettlement(a, x, n) => apply(pre, AnchornetContract::spec_open_settlement(pre, a, x, n)),
        Call::ExecuteSettlement(id) => apply(pre, AnchornetContract::spec_execute_settlement(pre, id)),
        Call::CancelSettlement(id) => apply(pre, AnchornetContract::spec_cancel_settlement(pre, id)),
        Call::CancelExpiredSettlement(id) => apply(
            pre,
            AnchornetContract::spec_cancel_expired_settlement(pre, id),
        ),
    }
}

/// Whether `call` succeeds when it runs in `pre`.
pub open spec fn succeeds(pre: EnvView, call: Call) -> bool {
    match call {
        Call::Initialize(a) => AnchornetContract::spec_initialize(pre, a).result is Ok,
        Call::SetAdmin(a) => AnchornetContract::spec_set_admin(pre, a).result is Ok,
        Call::ProposeAdmin(a) => AnchornetContract::spec_propose_admin(pre, a).result is Ok,
        Call::AcceptAdmin(a) => AnchornetContract::spec_accept_admin(pre, a).result is Ok,
        Call::SetOperator(a) => AnchornetContract::spec_set_operator(pre, a).result is Ok,
        Call::ClearOperator => AnchornetContract::spec_clear_operator(pre).result is Ok,
        Call::Pause(a) => AnchornetContract::spec_set_paused(pre, a, true).result is Ok,
        Call::Unpause(a) => AnchornetContract::spec_set_paused(pre, a, false).result is Ok,
        Call::ExtendInstanceTtl(a) => AnchornetContract::spec_extend_instance_ttl(pre, a).result is Ok,
        Call::SetFee(bps) => AnchornetContract::spec_set_fee(pre, bps).result is Ok,
        Call::SetFeeWaiver(a, w) => AnchornetContract::spec_set_fee_waiver(pre, a, w).result is Ok,
        Call::SetAssetFee(x, bps) => AnchornetContract::spec_set_asset_fee(pre, x, bps).result is Ok,
        Call::ClearAssetFee(x) => AnchornetContract::spec_clear_asset_fee(pre, x).result is Ok,
        Call::SetSettlementExpiryLedgers(l) => AnchornetContract::spec_set_settlement_expiry_ledgers(
            pre,
            l,
        ).result is Ok,
        Call::CollectFees(x) => AnchornetContract::spec_collect_fees(pre, x).result is Ok,
        Call::SetMinLiquidity(x, f) => AnchornetContract::spec_set_min_liquidity(pre, x, f).result is Ok,
        Call::SetMaxSettlementAmount(x, m) => AnchornetContract::spec_set_max_settlement_amount(
            pre,
            x,
            m,
        ).result is Ok,
        Call::RegisterAnchor(a) => AnchornetContract::spec_register_anchor(pre, a).result is Ok,
        Call::RegisterAnchors(b) => AnchornetContract::spec_register_anchors(pre, b).result is Ok,
        Call::DeregisterAnchor(a) => AnchornetContract::spec_deregister_anchor(pre, a).result is Ok,
        Call::ProvideLiquidity(p, x, n) => AnchornetContract::spec_provide_liquidity(pre, p, x, n).result is Ok,
        Call::ProvideLiquidityMulti(p, r) => AnchornetContract::spec_provide_liquidity_multi(
            pre,
            p,
            r,
        ).result is Ok,
        Call::WithdrawLiquidity(p, x, n) => AnchornetContract::spec_withdraw_liquidity(pre, p, x, n).result is Ok,
        Call::WithdrawLiquidityMulti(p, r) => AnchornetContract::spec_withdraw_liquidity_multi(
            pre,
            p,
            r,
        ).result is Ok,
        Call::WithdrawAllLiquidity(p, x) => AnchornetContract::spec_withdraw_all_liquidity(
            pre,
            p,
            x,
        ).result is Ok,
        Call::OpenSettlement(a, x, n) => AnchornetContract::spec_open_settlement(pre, a, x, n).result is Ok,
        Call::ExecuteSettlement(id) => AnchornetContract::spec_execute_settlement(pre, id).result is Ok,
        Call::CancelSettlement(id) => AnchornetContract::spec_cancel_settlement(pre, id).result is Ok,
        Call::CancelExpiredSettlement(id) => AnchornetContract::spec_cancel_expired_settlement(
            pre,
            id,
        ).result is Ok,
    }
}

/// A call that fails stores nothing and publishes nothing.
pub proof fn law_failed_call_changes_nothing(pre: EnvView, call: Call)
    requires
        !succeeds(pre, call),
    ensures
        after(pre, call).store == pre.store,
        after(pre, call).events == pre.events,
{
}

/// `pre` with the contract not paused.
pub open spec fn unpaused(pre: EnvView) -> EnvView {
    EnvView { store: StoreView { paused: false, ..pre.store }, ..pre }
}

/// What a liquidity or settlement mutation returns in `pre`, its value
/// dropped; `None` for every other call.
pub open spec fn mutation_result(pre: EnvView, call: Call) -> Option<Result<(), Error>> {
    match call {
        Call::ProvideLiquidity(p, x, n) => Some(AnchornetContract::spec_provide_liquidity(pre, p, x, n).result),
        Call::ProvideLiquidityMulti(p, r) => Some(
            AnchornetContract::spec_provide_liquidity_multi(pre, p, r).result,
        ),
        Call::WithdrawLiquidity(p, x, n) => Some(AnchornetContract::spec_withdraw_liquidity(pre, p, x, n).result),
        Call::WithdrawLiquidityMulti(p, r) => Some(
            AnchornetContract::spec_withdraw_liquidity_multi(pre, p, r).result,
        ),
        Call::WithdrawAllLiquidity(p, x) => Some(
            match AnchornetContract::spec_withdraw_all_liquidity(pre, p, x).result {
                Ok(_) => Ok(()),
                Err(e) => Err(e),
            },
        ),
        Call::OpenSettlement(a, x, n) => Some(
            match AnchornetContract::spec_open_settlement(pre, a, x, n).result {
                Ok(_) => Ok(()),
                Err(e) => Err(e),
            },
        ),
        Call::ExecuteSettlement(id) => Some(AnchornetContract::spec_execute_settlement(pre, id).result),
        Call::CancelSettlement(id) => Some(AnchornetContract::spec_cancel_settlement(pre, id).result),
        Call::CancelExpiredSettlement(id) => Some(
            AnchornetContract::spec_cancel_expired_settlement(pre, id).result,
        ),
        _ => None,
    }
}

/// While the contract is paused, every liquidity or settlement mutation
/// that would succeed were it not paused fails with [`Error::Paused`], and
/// stores and publishes nothing.
pub proof fn law_pause_blocks_mutations(pre: EnvView, call: Call)
    requires
        pre.store.paused,
        mutation_result(unpaused(pre), call) == Some(Ok::<(), Error>(())),
    ensures
        mutation_result(pre, call) == Some(Err::<(), Error>(Error::Paused)),
        after(pre, call).store == pre.store,
        after(pre, call).events == pre.events,
{
}

proof fn lemma_register_all_extends(s: StoreView, batch: Seq<Address>)
    ensures
        s.anchor_list.is_prefix_of(register_all(s, batch).anchor_list),
        register_all(s, batch).asset_list == s.asset_list,
    decreases batch.len(),
{
    if batch.len() > 0 {
        lemma_register_all_extends(s, batch.drop_last());
        let s1 = register_all(s, batch.drop_last());
        let l = s1.anchor_list.push(batch.last());
        assert(l.subrange(0, s.anchor_list.len() as int) =~= s1.anchor_list.subrange(0, s.anchor_list.len() as int));
    }
}

proof fn lemma_provide_all_extends(s: StoreView, p: Address, requests: Seq<(Symbol, i128)>)
    requires
        provide_all(s, p, requests) is Ok,
    ensures
        s.asset_list.is_prefix_of(provide_all(s, p, requests)->Ok_0.0.asset_list),
        provide_all(s, p, requests)->Ok_0.0.anchor_list == s.anchor_list,
    decreases requests.len(),
{
    if requests.len() > 0 {
        lemma_provide_all_extends(s, p, requests.drop_last());
        let s1 = provide_all(s, p, requests.drop_last())->Ok_0.0;
        let l = s1.asset_list.push(requests.last().0);
        assert(l.subrange(0, s.asset_list.len() as int) =~= s1.asset_list.subrange(0, s.asset_list.len() as int));
    }
}

proof fn lemma_withdraw_all_keeps_lists(s: StoreView, p: Address, requests: Seq<(Symbol, i128)>)
    requires
        withdraw_all(s, p, requests) is Ok,
    ensures
        withdraw_all(s, p, requests)->Ok_0.0.asset_list == s.asset_list,
        withdraw_all(s, p, requests)->Ok_0.0.anchor_list == s.anchor_list,
    decreases requests.len(),
{
    if requests.len() > 0 {
        lemma_withdraw_all_keeps_lists(s, p, requests.drop_last());
    }
}

/// The anchor and asset lists only grow at their ends: whatever they held
/// before a call they still hold afterwards, in the same places.
pub proof fn law_lists_only_grow(pre: EnvView, call: Call)
    ensures
        pre.store.anchor_list.is_prefix_of(after(pre, call).store.anchor_list),
        pre.store.asset_list.is_prefix_of(after(pre, call).store.asset_list),
{
    let s = pre.store;
    let post = after(pre, call).store;
    assert(s.anchor_list.subrange(0, s.anchor_list.len() as int) =~= s.anchor_list);
    assert(s.asset_list.subrange(0, s.asset_list.len() as int) =~= s.asset_list);
    if succeeds(pre, call) {
        match call {
            Call::RegisterAnchor(a) => {
                let l = s.anchor_list.push(a);
                assert(l.subrange(0, s.anchor_list.len() as int) =~= s.anchor_list);
            },
            Call::RegisterAnchors(b) => {
                lemma_register_all_extends(s, b);
            },
            Call::ProvideLiquidity(p, x, n) => {
                let l = s.asset_list.push(x);
                assert(l.subrange(0, s.asset_list.len() as int) =~= s.asset_list);
            },
            Call::ProvideLiquidityMulti(p, r) => {
                lemma_provide_all_extends(s, p, r);
            },
            Call::WithdrawLiquidityMulti(p, r) => {
                lemma_withdraw_all_keeps_lists(s, p, r);
            },
            _ => {},
        }
    }
}

proof fn lemma_provide_all_keeps_settlements(s: StoreView, p: Address, requests: Seq<(Symbol, i128)>)
    requires
        provide_all(s, p, requests) is Ok,
    ensures
        provide_all(s, p, requests)->Ok_0.0.settlements == s.settlements,
        provide_all(s, p, requests)->Ok_0.0.settlement_count == s.settlement_count,
    decreases requests.len(),
{
    if requests.len() > 0 {
        lemma_provide_all_keeps_settlements(s, p, requests.drop_last());
    }
}

proof fn lemma_withdraw_all_keeps_settlements(s: StoreView, p: Address, requests: Seq<(Symbol, i128)>)
    requires
        withdraw_all(s, p, requests) is Ok,
    ensures
        withdraw_all(s, p, requests)->Ok_0.0.settlements == s.settlements,
        withdraw_all(s, p, requests)->Ok_0.0.settlement_count == s.settlement_count,
    decreases requests.len(),
{
    if requests.len() > 0 {
        lemma_withdraw_all_keeps_settlements(s, p, requests.drop_last());
    }
}

proof fn lemma_register_all_keeps_settlements(s: StoreView, batch: Seq<Address>)
    ensures
        register_all(s, batch).settlements == s.settlements,
        register_all(s, batch).settlement_count == s.settlement_count,
    decreases batch.len(),
{
    if batch.len() > 0 {
        lemma_register_all_keeps_settlements(s, batch.drop_last());
    }
}

/// Going from `s` to `s2` keeps every settlement record, rewriting none of
/// it but its status, which may only leave `Pending`, and never lowers the
/// settlement count.
pub open spec fn settlements_evolve(s: StoreView, s2: StoreView) -> bool {
    &&& s2.settlement_count >= s.settlement_count
    &&& forall|id: u64| #[trigger]
        s.settlements.contains_key(id) ==> {
            let before = s.settlements[id];
            let now = s2.settlements[id];
            &&& s2.settlements.contains_key(id)
            &&& now == Settlement { status: now.status, ..before }
            &&& now.status != before.status ==> before.status == SettlementStatus::Pending
        }
}

proof fn lemma_status_change_evolves(s: StoreView, s2: StoreView, id: u64, status: SettlementStatus)
    requires
        s.settlements.contains_key(id),
        s.settlements[id].status == SettlementStatus::Pending,
        s2.settlements == s.settlements.insert(id, Settlement { status, ..s.settlements[id] }),
        s2.settlement_count == s.settlement_count,
    ensures
        settlements_evolve(s, s2),
{
}

/// Settlement records are never removed and never rewritten, except that a
/// pending one may take another status: every call keeps each stored
/// settlement's id, anchor, asset, amount, fee and opening ledger, and
/// changes its status only away from `Pending`. The settlement count never
/// decreases.
#[verifier::spinoff_prover]
pub proof fn law_settlements_only_leave_pending(pre: EnvView, call: Call)
    requires
        inv(pre.store),
    ensures
        settlements_evolve(pre.store, after(pre, call).store),
{
    let s = pre.store;
    let post = after(pre, call).store;
    if !succeeds(pre, call) {
        assert(post == s);
    } else {
        match call {
            Call::ProvideLiquidityMulti(p, r) => {
                lemma_provide_all_keeps_settlements(s, p, r);
            },
            Call::WithdrawLiquidityMulti(p, r) => {
                lemma_withdraw_all_keeps_settlements(s, p, r);
            },
            Call::RegisterAnchors(b) => {
                lemma_register_all_keeps_settlements(s, b);
            },
            Call::OpenSettlement(a, x, n) => {
                let id = (s.settlement_count + 1) as u64;
                assert(!s.settlements.contains_key(id));
                assert(post.settlements == s.settlements.insert(id, post.settlements[id]));
            },
            Call::ExecuteSettlement(id) => {
                lemma_status_change_evolves(s, post, id, SettlementStatus::Executed);
            },
            Call::CancelSettlement(id) => {
                lemma_status_change_evolves(s, post, id, SettlementStatus::Cancelled);
            },
            Call::CancelExpiredSettlement(id) => {
                lemma_status_change_evolves(s, post, id, SettlementStatus::Expired);
            },
            _ => {
                assert(post.settlements == s.settlements);
            },
        }
    }
}

proof fn lemma_holders_finite(m: Map<BalanceKey, i128>, x: Symbol)
    requires
        m.dom().finite(),
    ensures
        holders(m, x).finite(),
{
    lemma_len_subset(holders(m, x), m.dom());
}

proof fn lemma_holders_insert(m: Map<BalanceKey, i128>, k0: BalanceKey, v: i128, x: Symbol)
    ensures
        holders(m.insert(k0, v), x) == if k0.asset != x {
            holders(m, x)
        } else if v > 0 {
            holders(m, x).insert(k0)
        } else {
            holders(m, x).remove(k0)
        },
{
    if k0.asset != x {
        assert(holders(m.insert(k0, v), x) =~= holders(m, x));
    } else if v > 0 {
        assert(holders(m.insert(k0, v), x) =~= holders(m, x).insert(k0));
    } else {
        assert(holders(m.insert(k0, v), x) =~= holders(m, x).remove(k0));
    }
}

/// The entries outside the invariant's reach may change freely.
proof fn lemma_inv_frame(s: StoreView, s2: StoreView)
    requires
        inv(s),
        s2.fee_bps <= MAX_FEE_BPS,
        forall|a: Symbol| #[trigger] s2.asset_fees.contains_key(a) ==> s2.asset_fees[a] <= MAX_FEE_BPS,
        s2.settlement_count == s.settlement_count,
        s2.settlements == s.settlements,
        s2.balances == s.balances,
        s2.pools == s.pools,
        s2.anchor_list == s.anchor_list,
        s2.asset_list == s.asset_list,
        s2.anchors.dom() == s.anchors.dom(),
    ensures
        inv(s2),
{
    assert forall|a: Address| #[trigger] s2.anchors.contains_key(a) <==> s2.anchor_list.contains(a) by {
        assert(s2.anchors.dom().contains(a) == s.anchors.dom().contains(a));
    }
    assert forall|x: Symbol| #[trigger] s2.pool_of(x).providers == holders(s2.balances, x).len() by {
        assert(s.pool_of(x).providers == holders(s.balances, x).len());
    }
}

/// Appending `v` adds exactly `v` to what a sequence contains, and keeps it
/// free of repeats when `v` was absent.
proof fn lemma_push_contains<A>(s: Seq<A>, v: A)
    ensures
        forall|x: A| #[trigger] s.push(v).contains(x) <==> (s.contains(x) || x == v),
        s.no_duplicates() && !s.contains(v) ==> s.push(v).no_duplicates(),
{
    assert(s.push(v)[s.len() as int] == v);
    assert forall|x: A| #[trigger] s.push(v).contains(x) <==> (s.contains(x) || x == v) by {
        if s.contains(x) {
            let i = choose|i: int| 0 <= i < s.len() && s[i] == x;
            assert(s.push(v)[i] == x);
        }
        if s.push(v).contains(x) && x != v {
            let i = choose|i: int| 0 <= i < s.push(v).len() && s.push(v)[i] == x;
            assert(i < s.len());
            assert(s[i] == x);
        }
    }
    if s.no_duplicates() && !s.contains(v) {
        assert forall|i: int, j: int| 0 <= i < s.push(v).len() && 0 <= j < s.push(v).len() && i != j implies
            s.push(v)[i] != s.push(v)[j] by {
            if i < s.len() && j < s.len() {
                assert(s[i] != s[j]);
            } else if i < s.len() {
                assert(s.contains(s[i]));
            } else if j < s.len() {
                assert(s.contains(s[j]));
            }
        }
    }
}

pub(crate) proof fn lemma_provide_keeps_inv(s: StoreView, p: Address, a: Symbol, amount: i128)
    requires
        inv(s),
        amount > 0,
        provide_effect(s, p, a, amount) is Ok,
    ensures
        inv(provide_effect(s, p, a, amount)->Ok_0.0),
{
    let s2 = provide_effect(s, p, a, amount)->Ok_0.0;
    let k0 = BalanceKey { provider: p, asset: a };
    let prior = s.balance_of(p, a);
    let nb = (prior + amount) as i128;
    assert(prior >= 0) by {
        if s.balances.contains_key(k0) {
            assert(s.balances[k0] >= 0);
        }
    }
    assert(s2.balances == s.balances.insert(k0, nb));
    lemma_push_contains(s.asset_list, a);
    assert forall|x: Symbol| #[trigger] s2.pool_of(x).providers == holders(s2.balances, x).len() by {
        lemma_holders_insert(s.balances, k0, nb, x);
        lemma_holders_finite(s.balances, x);
        assert(s.pool_of(x).providers == holders(s.balances, x).len());
        if x == a {
            if prior == 0 {
                assert(!holders(s.balances, a).contains(k0));
                assert(holders(s.balances, a).insert(k0).len() == holders(s.balances, a).len() + 1);
            } else {
                assert(holders(s.balances, a).contains(k0));
                assert(holders(s.balances, a).insert(k0) =~= holders(s.balances, a));
            }
        } else {
            assert(s2.pool_of(x) == s.pool_of(x));
        }
    }
    assert forall|x: Symbol| #[trigger] s2.pools.contains_key(x) <==> s2.asset_list.contains(x) by {
        assert(s.pools.contains_key(x) <==> s.asset_list.contains(x));
    }
    assert forall|x: Symbol| #[trigger] s2.pools.contains_key(x) implies s2.pools[x].asset == x by {
        if x != a {
            assert(s.pools.contains_key(x));
        }
    }
    assert forall|id: u64| #[trigger] s2.settlements.contains_key(id) implies s2.pools.contains_key(
        s2.settlements[id].asset,
    ) by {
        assert(s.pools.contains_key(s.settlements[id].asset));
    }
    assert forall|k: BalanceKey| #[trigger] s2.balances.contains_key(k) implies s2.balances[k] >= 0 by {
        if k != k0 {
            assert(s.balances.contains_key(k));
        }
    }
}

/// A positive balance lies in an asset that has a pool.
pub(crate) proof fn lemma_balance_has_pool(s: StoreView, p: Address, a: Symbol)
    requires
        inv(s),
        s.balance_of(p, a) > 0,
    ensures
        s.pools.contains_key(a),
{
    let k0 = BalanceKey { provider: p, asset: a };
    lemma_holders_finite(s.balances, a);
    assert(holders(s.balances, a).contains(k0));
    if !s.pools.contains_key(a) {
        assert(s.pool_of(a).providers == 0);
        assert(holders(s.balances, a).remove(k0).len() + 1 == holders(s.balances, a).len());
    }
}

pub(crate) proof fn lemma_withdraw_keeps_inv(s: StoreView, p: Address, a: Symbol, amount: i128)
    requires
        inv(s),
        amount > 0,
        s.balance_of(p, a) >= amount,
        withdraw_effect(s, p, a, amount) is Ok,
    ensures
        inv(withdraw_effect(s, p, a, amount)->Ok_0.0),
{
    let s2 = withdraw_effect(s, p, a, amount)->Ok_0.0;
    let k0 = BalanceKey { provider: p, asset: a };
    let prior = s.balance_of(p, a);
    let nb = (prior - amount) as i128;
    assert(s2.balances == s.balances.insert(k0, nb));
    lemma_holders_finite(s.balances, a);
    assert(holders(s.balances, a).contains(k0));
    assert(s.pools.contains_key(a)) by {
        if !s.pools.contains_key(a) {
            assert(s.pool_of(a).providers == 0);
            assert(holders(s.balances, a).len() > 0) by {
                assert(holders(s.balances, a).remove(k0).len() + 1 == holders(s.balances, a).len());
            }
        }
    }
    assert forall|x: Symbol| #[trigger] s2.pool_of(x).providers == holders(s2.balances, x).len() by {
        lemma_holders_insert(s.balances, k0, nb, x);
        lemma_holders_finite(s.balances, x);
        assert(s.pool_of(x).providers == holders(s.balances, x).len());
        if x == a {
            if nb > 0 {
                assert(holders(s.balances, a).insert(k0) =~= holders(s.balances, a));
            } else {
                assert(holders(s.balances, a).remove(k0).len() + 1 == holders(s.balances, a).len());
            }
        } else {
            assert(s2.pool_of(x) == s.pool_of(x));
        }
    }
    assert forall|k: BalanceKey| #[trigger] s2.balances.contains_key(k) implies s2.balances[k] >= 0 by {
        if k != k0 {
            assert(s.balances.contains_key(k));
        }
    }
    assert forall|x: Symbol| #[trigger] s2.pools.contains_key(x) <==> s2.asset_list.contains(x) by {
        assert(s.pools.contains_key(x) <==> s.asset_list.contains(x));
    }
    assert forall|id: u64| #[trigger] s2.settlements.contains_key(id) implies s2.pools.contains_key(
        s2.settlements[id].asset,
    ) by {
        assert(s.pools.contains_key(s.settlements[id].asset));
    }
}

proof fn lemma_register_keeps_inv(s: StoreView, anchor: Address)
    requires
        inv(s),
    ensures
        inv(register_one(s, anchor)),
{
    let s2 = register_one(s, anchor);
    lemma_push_contains(s.anchor_list, anchor);
    assert forall|a: Address| #[trigger] s2.anchors.contains_key(a) <==> s2.anchor_list.contains(a) by {
        assert(s.anchors.contains_key(a) <==> s.anchor_list.contains(a));
    }
    assert forall|x: Symbol| #[trigger] s2.pool_of(x).providers == holders(s2.balances, x).len() by {
        assert(s.pool_of(x).providers == holders(s.balances, x).len());
    }
}

proof fn lemma_register_all_keeps_inv(s: StoreView, batch: Seq<Address>)
    requires
        inv(s),
    ensures
        inv(register_all(s, batch)),
    decreases batch.len(),
{
    if batch.len() > 0 {
        lemma_register_all_keeps_inv(s, batch.drop_last());
        lemma_register_keeps_inv(register_all(s, batch.drop_last()), batch.last());
    }
}

pub(crate) proof fn lemma_provide_batch_ok(requests: Seq<(Symbol, i128)>, i: int)
    requires
        0 <= i,
        provide_batch_error(requests, i) is None,
    ensures
        forall|j: int| i <= j < requests.len() ==> #[trigger] provide_request_error(requests, j) is None,
    decreases requests.len() - i,
{
    if i < requests.len() {
        lemma_provide_batch_ok(requests, i + 1);
    }
}

pub(crate) proof fn lemma_withdraw_batch_ok(s: StoreView, p: Address, requests: Seq<(Symbol, i128)>, i: int)
    requires
        0 <= i,
        withdraw_batch_error(s, p, requests, i) is None,
    ensures
        forall|j: int| i <= j < requests.len() ==> #[trigger] withdraw_request_error(s, p, requests, j) is None,
    decreases requests.len() - i,
{
    if i < requests.len() {
        lemma_withdraw_batch_ok(s, p, requests, i + 1);
    }
}

pub(crate) proof fn lemma_provide_all_keeps_inv(s: StoreView, p: Address, requests: Seq<(Symbol, i128)>)
    requires
        inv(s),
        forall|j: int| 0 <= j < requests.len() ==> #[trigger] requests[j].1 > 0,
        provide_all(s, p, requests) is Ok,
    ensures
        inv(provide_all(s, p, requests)->Ok_0.0),
    decreases requests.len(),
{
    if requests.len() > 0 {
        let r = requests.drop_last();
        assert forall|j: int| 0 <= j < r.len() implies #[trigger] r[j].1 > 0 by {
            assert(r[j] == requests[j]);
        }
        lemma_provide_all_keeps_inv(s, p, r);
        let s1 = provide_all(s, p, r)->Ok_0.0;
        assert(requests.last().1 > 0) by {
            assert(requests[requests.len() - 1].1 > 0);
        }
        lemma_provide_keeps_inv(s1, p, requests.last().0, requests.last().1);
    }
}

/// Withdrawing a batch leaves `p`'s balances in assets outside the batch
/// untouched.
pub(crate) proof fn lemma_withdraw_all_frame(s: StoreView, p: Address, requests: Seq<(Symbol, i128)>, x: Symbol)
    requires
        withdraw_all(s, p, requests) is Ok,
        !assets_of(requests).contains(x),
    ensures
        withdraw_all(s, p, requests)->Ok_0.0.balance_of(p, x) == s.balance_of(p, x),
    decreases requests.len(),
{
    if requests.len() > 0 {
        let r = requests.drop_last();
        assert(assets_of(r) =~= assets_of(requests).drop_last());
        if assets_of(r).contains(x) {
            let i = choose|i: int| 0 <= i < assets_of(r).len() && assets_of(r)[i] == x;
            assert(assets_of(requests)[i] == x);
        }
        lemma_withdraw_all_frame(s, p, r, x);
        assert(assets_of(requests)[requests.len() - 1] == requests.last().0);
        assert(requests.last().0 != x);
    }
}

pub(crate) proof fn lemma_withdraw_all_keeps_inv(s: StoreView, p: Address, requests: Seq<(Symbol, i128)>)
    requires
        inv(s),
        forall|j: int| 0 <= j < requests.len() ==> #[trigger] requests[j].1 > 0,
        forall|j: int| 0 <= j < requests.len() ==> s.balance_of(p, #[trigger] requests[j].0) >= requests[j].1,
        forall|j: int| 0 <= j < requests.len() ==> !#[trigger] assets_of(requests).take(j).contains(requests[j].0),
        withdraw_all(s, p, requests) is Ok,
    ensures
        inv(withdraw_all(s, p, requests)->Ok_0.0),
    decreases requests.len(),
{
    if requests.len() > 0 {
        let r = requests.drop_last();
        let n = requests.len() - 1;
        assert forall|j: int| 0 <= j < r.len() implies #[trigger] r[j].1 > 0 by {
            assert(r[j] == requests[j]);
        }
        assert forall|j: int| 0 <= j < r.len() implies s.balance_of(p, #[trigger] r[j].0) >= r[j].1 by {
            assert(r[j] == requests[j]);
        }
        assert forall|j: int| 0 <= j < r.len() implies !#[trigger] assets_of(r).take(j).contains(r[j].0) by {
            assert(r[j] == requests[j]);
            assert(assets_of(r).take(j) =~= assets_of(requests).take(j));
        }
        lemma_withdraw_all_keeps_inv(s, p, r);
        let s1 = withdraw_all(s, p, r)->Ok_0.0;
        let last = requests[n];
        assert(requests.last() == last);
        assert(!assets_of(requests).take(n).contains(last.0));
        assert(assets_of(r) =~= assets_of(requests).take(n));
        lemma_withdraw_all_frame(s, p, r, last.0);
        assert(s.balance_of(p, last.0) >= last.1);
        lemma_withdraw_keeps_inv(s1, p, last.0, last.1);
    }
}

proof fn lemma_settlement_update_keeps_inv(s: StoreView, s2: StoreView, id: u64)
    requires
        inv(s),
        s.settlements.contains_key(id),
        s2.settlements == s.settlements.insert(id, s2.settlements[id]),
        s2.settlements[id].id == id,
        s2.settlements[id].asset == s.settlements[id].asset,
        s2.settlement_count == s.settlement_count,
        s2.fee_bps == s.fee_bps,
        s2.asset_fees == s.asset_fees,
        s2.balances == s.balances,
        s2.anchor_list == s.anchor_list,
        s2.asset_list == s.asset_list,
        s2.anchors == s.anchors,
        s2.pools.dom() == s.pools.dom(),
        forall|x: Symbol| #[trigger] s2.pools.contains_key(x) ==> s2.pools[x].asset == s.pools[x].asset
            && s2.pools[x].providers == s.pools[x].providers,
    ensures
        inv(s2),
{
    assert forall|x: Symbol| #[trigger] s2.pool_of(x).providers == holders(s2.balances, x).len() by {
        assert(s.pool_of(x).providers == holders(s.balances, x).len());
        assert(s2.pools.contains_key(x) == s.pools.contains_key(x));
    }
    assert forall|x: Symbol| #[trigger] s2.pools.contains_key(x) <==> s2.asset_list.contains(x) by {
        assert(s2.pools.contains_key(x) == s.pools.contains_key(x));
    }
    assert forall|i: u64| #[trigger] s2.settlements.contains_key(i) implies s2.settlements[i].id == i
        && s2.pools.contains_key(s2.settlements[i].asset) by {
        assert(s.settlements.contains_key(i));
        assert(s.pools.contains_key(s.settlements[i].asset));
        assert(s2.pools.contains_key(s.settlements[i].asset) == s.pools.contains_key(s.settlements[i].asset));
    }
}

/// A fresh environment's store is consistent.
pub proof fn law_fresh_store_is_consistent()
    ensures
        inv(Env::spec_initial().store),
{
    let s = Env::spec_initial().store;
    assert forall|x: Symbol| #[trigger] s.pool_of(x).providers == holders(s.balances, x).len() by {
        assert(holders(s.balances, x) =~= Set::empty());
    }
}

/// Every state-changing entrypoint keeps the consistency invariant.
#[verifier::spinoff_prover]
#[verifier::rlimit(30)]
pub proof fn law_every_call_keeps_invariant(pre: EnvView, call: Call)
    requires
        inv(pre.store),
    ensures
        inv(after(pre, call).store),
{
    let s = pre.store;
    let post = after(pre, call).store;
    match call {
        Call::SetFeeWaiver(a, w) => {
            lemma_inv_frame(s, post);
        },
        Call::SetAssetFee(x, bps) => {
            lemma_inv_frame(s, post);
        },
        Call::ClearAssetFee(x) => {
            lemma_inv_frame(s, post);
        },
        Call::CollectFees(x) => {
            lemma_inv_frame(s, post);
        },
        Call::SetMinLiquidity(x, f) => {
            lemma_inv_frame(s, post);
        },
        Call::SetMaxSettlementAmount(x, m) => {
            lemma_inv_frame(s, post);
        },
        Call::RegisterAnchor(a) => {
            lemma_register_keeps_inv(s, a);
        },
        Call::RegisterAnchors(b) => {
            lemma_register_all_keeps_inv(s, b);
        },
        Call::DeregisterAnchor(a) => {
            if AnchornetContract::spec_deregister_anchor(pre, a).result is Ok {
                assert(s.anchors.contains_key(a));
                assert(post.anchors.dom() =~= s.anchors.dom());
                lemma_inv_frame(s, post);
            }
        },
        Call::ProvideLiquidity(p, x, n) => {
            if AnchornetContract::spec_provide_liquidity(pre, p, x, n).result is Ok {
                lemma_provide_keeps_inv(s, p, x, n);
            }
        },
        Call::ProvideLiquidityMulti(p, r) => {
            if AnchornetContract::spec_provide_liquidity_multi(pre, p, r).result is Ok {
                lemma_provide_batch_ok(r, 0);
                assert forall|j: int| 0 <= j < r.len() implies #[trigger] r[j].1 > 0 by {
                    assert(provide_request_error(r, j) is None);
                }
                lemma_provide_all_keeps_inv(s, p, r);
            }
        },
        Call::WithdrawLiquidity(p, x, n) => {
            if AnchornetContract::spec_withdraw_liquidity(pre, p, x, n).result is Ok {
                lemma_withdraw_keeps_inv(s, p, x, n);
            }
        },
        Call::WithdrawLiquidityMulti(p, r) => {
            if AnchornetContract::spec_withdraw_liquidity_multi(pre, p, r).result is Ok {
                lemma_withdraw_batch_ok(s, p, r, 0);
                assert forall|j: int| 0 <= j < r.len() implies #[trigger] r[j].1 > 0 by {
                    assert(withdraw_request_error(s, p, r, j) is None);
                }
                assert forall|j: int| 0 <= j < r.len() implies s.balance_of(p, #[trigger] r[j].0) >= r[j].1 by {
                    assert(withdraw_request_error(s, p, r, j) is None);
                }
                assert forall|j: int| 0 <= j < r.len() implies !#[trigger] assets_of(r).take(j).contains(r[j].0) by {
                    assert(withdraw_request_error(s, p, r, j) is None);
                }
                lemma_withdraw_all_keeps_inv(s, p, r);
            }
        },
        Call::WithdrawAllLiquidity(p, x) => {
            let bal = s.balance_of(p, x);
            if AnchornetContract::spec_withdraw_all_liquidity(pre, p, x).result is Ok {
                lemma_withdraw_keeps_inv(s, p, x, bal);
            }
        },
        Call::OpenSettlement(a, x, n) => {
            let st = AnchornetContract::spec_open_settlement(pre, a, x, n);
            if st.result is Ok {
                assert(s.pools.contains_key(x));
                let id = (s.settlement_count + 1) as u64;
                assert(!s.settlements.contains_key(id));
                assert forall|x2: Symbol| #[trigger] post.pool_of(x2).providers == holders(post.balances, x2).len() by {
                    assert(s.pool_of(x2).providers == holders(s.balances, x2).len());
                }
                assert forall|x2: Symbol| #[trigger] post.pools.contains_key(x2) <==> post.asset_list.contains(x2) by {
                    assert(s.pools.contains_key(x2) <==> s.asset_list.contains(x2));
                }
                assert forall|i: u64| #[trigger] post.settlements.contains_key(i) implies post.settlements[i].id == i
                    && post.pools.contains_key(post.settlements[i].asset) by {
                    if i != id {
                        assert(s.pools.contains_key(s.settlements[i].asset));
                    }
                }
            }
        },
        Call::ExecuteSettlement(id) => {
            if AnchornetContract::spec_execute_settlement(pre, id).result is Ok {
                lemma_settlement_update_keeps_inv(s, post, id);
            }
        },
        Call::CancelSettlement(id) => {
            if AnchornetContract::spec_cancel_settlement(pre, id).result is Ok {
                assert(s.pools.contains_key(s.settlements[id].asset));
                assert(post.pools.dom() =~= s.pools.dom());
                lemma_settlement_update_keeps_inv(s, post, id);
            }
        },
        Call::CancelExpiredSettlement(id) => {
            if AnchornetContract::spec_cancel_expired_settlement(pre, id).result is Ok {
                assert(s.pools.contains_key(s.settlements[id].asset));
                assert(post.pools.dom() =~= s.pools.dom());
                lemma_settlement_update_keeps_inv(s, post, id);
            }
        },
        _ => {
            lemma_inv_frame(s, post);
        },
    }
}

} // verus!

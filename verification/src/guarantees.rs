//! What individual entrypoints guarantee, stated against their inputs and
//! against one another: listing pages, batch calls, fees and execution.

use vstd::prelude::*;

use crate::anchors::{batch_conflict, conflict_at, register_all, register_one, registered_events};
use crate::contract::{apply, AnchornetContract};
use crate::error::Error;
use crate::events::Event;
use crate::settlements::{first_id, id_count, id_scan, SettlementFilter};
use crate::storage::{EnvView, StoreView};
use crate::types::{Address, Settlement, SettlementStatus, Symbol};

verus! {

/// Every stored settlement with an id from `id` up to the settlement
/// counter that `filter` keeps, in id order, with no limit.
pub open spec fn kept_from(s: StoreView, id: int, filter: SettlementFilter) -> Seq<Settlement>
    decreases s.settlement_count + 1 - id,
{
    if id > s.settlement_count || id < 1 {
        Seq::empty()
    } else {
        let here = match s.settlement_of(id as u64) {
            Some(st) => if filter.keeps(st) {
                seq![st]
            } else {
                Seq::empty()
            },
            None => Seq::empty(),
        };
        here + kept_from(s, id + 1, filter)
    }
}

/// The smaller of `a` and `b`.
pub open spec fn min_nat(a: nat, b: nat) -> nat {
    if a <= b {
        a
    } else {
        b
    }
}

proof fn lemma_scan_is_prefix(s: StoreView, id: int, filter: SettlementFilter, limit: nat)
    ensures
        id_scan(s, id, filter, limit) == kept_from(s, id, filter).take(
            min_nat(limit, kept_from(s, id, filter).len()) as int,
        ),
        id_count(s, id, filter) == kept_from(s, id, filter).len(),
        forall|k: int| 0 <= k < kept_from(s, id, filter).len() ==> filter.keeps(#[trigger] kept_from(s, id, filter)[k]),
    decreases s.settlement_count + 1 - id,
{
    let all = kept_from(s, id, filter);
    if id > s.settlement_count || id < 1 {
        assert(all.take(0) =~= Seq::<Settlement>::empty());
    } else {
        let rest = kept_from(s, id + 1, filter);
        lemma_scan_is_prefix(s, id + 1, filter, limit);
        match s.settlement_of(id as u64) {
            Some(st) => {
                if filter.keeps(st) {
                    assert(all =~= seq![st] + rest);
                    if limit > 0 {
                        lemma_scan_is_prefix(s, id + 1, filter, (limit - 1) as nat);
                        let m = min_nat((limit - 1) as nat, rest.len());
                        assert(seq![st] + rest.take(m as int) =~= all.take(m + 1int));
                    } else {
                        assert(all.take(0) =~= Seq::<Settlement>::empty());
                    }
                    assert forall|k: int| 0 <= k < all.len() implies filter.keeps(#[trigger] all[k]) by {
                        if k > 0 {
                            assert(all[k] == rest[k - 1]);
                        }
                    }
                } else {
                    assert(all =~= rest);
                    if limit == 0 {
                        assert(all.take(0) =~= Seq::<Settlement>::empty());
                    }
                }
            },
            None => {
                assert(all =~= rest);
                if limit == 0 {
                    assert(all.take(0) =~= Seq::<Settlement>::empty());
                }
            },
        }
    }
}

/// What each listing filter keeps: every settlement, those opened by one
/// anchor, those in one asset, those opened by one anchor in one asset, or
/// those in one lifecycle state.
pub proof fn law_filters_select_by_field(st: Settlement, anchor: Address, asset: Symbol, status: SettlementStatus)
    ensures
        SettlementFilter::All.keeps(st),
        SettlementFilter::Anchor(anchor).keeps(st) <==> st.anchor == anchor,
        SettlementFilter::Asset(asset).keeps(st) <==> st.asset == asset,
        SettlementFilter::AnchorAndAsset(anchor, asset).keeps(st) <==> st.anchor == anchor && st.asset == asset,
        SettlementFilter::Status(status).keeps(st) <==> st.status == status,
{
}

/// A settlement listing from `start` (zero reads as one) with `limit` is the
/// first `limit` entries of the full, id-ordered list of stored settlements
/// from there that its filter keeps: settlements the filter drops, and
/// missing ids, use up none of the limit. So the page holds exactly
/// `min(limit, k)` settlements, `k` being how many the filter keeps, and
/// each of them is kept by the filter.
pub proof fn law_settlement_page_is_prefix_of_kept(s: StoreView, start: u64, filter: SettlementFilter, limit: u32)
    ensures
        first_id(start) == (if start == 0 {
            1
        } else {
            start as int
        }),
        id_scan(s, first_id(start), filter, limit as nat) == kept_from(s, first_id(start), filter).take(
            min_nat(limit as nat, kept_from(s, first_id(start), filter).len()) as int,
        ),
        id_scan(s, first_id(start), filter, limit as nat).len() == min_nat(
            limit as nat,
            id_count(s, first_id(start), filter),
        ),
        forall|k: int|
            0 <= k < id_scan(s, first_id(start), filter, limit as nat).len() ==> filter.keeps(
                #[trigger] id_scan(s, first_id(start), filter, limit as nat)[k],
            ),
{
    lemma_scan_is_prefix(s, first_id(start), filter, limit as nat);
    let all = kept_from(s, first_id(start), filter);
    let page = id_scan(s, first_id(start), filter, limit as nat);
    assert forall|k: int| 0 <= k < page.len() implies filter.keeps(#[trigger] page[k]) by {
        assert(page[k] == all[k]);
    }
}

/// A batch withdrawal of a single request behaves as the single
/// withdrawal of that request: same result, and on success the same stored
/// entries and events.
pub proof fn law_single_request_batch_is_withdraw(pre: EnvView, provider: Address, asset: Symbol, amount: i128)
    ensures
        AnchornetContract::spec_withdraw_liquidity_multi(pre, provider, seq![(asset, amount)]).result
            == AnchornetContract::spec_withdraw_liquidity(pre, provider, asset, amount).result,
        apply(pre, AnchornetContract::spec_withdraw_liquidity_multi(pre, provider, seq![(asset, amount)])).store
            == apply(pre, AnchornetContract::spec_withdraw_liquidity(pre, provider, asset, amount)).store,
        apply(pre, AnchornetContract::spec_withdraw_liquidity_multi(pre, provider, seq![(asset, amount)])).events
            == apply(pre, AnchornetContract::spec_withdraw_liquidity(pre, provider, asset, amount)).events,
{
    let r = seq![(asset, amount)];
    assert(r.drop_last() =~= Seq::<(Symbol, i128)>::empty());
    assert(crate::liquidity::assets_of(r).take(0) =~= Seq::<Symbol>::empty());
    let s = pre.store;
    assert(r[0] == (asset, amount));
    assert(crate::liquidity::withdraw_batch_error(s, provider, r, 1) is None);
    assert(crate::liquidity::withdraw_all(s, provider, r.drop_last()) == Ok::<crate::liquidity::Effect, Error>(
        (s, Seq::empty()),
    ));
    if let Ok((s2, e2)) = crate::liquidity::withdraw_effect(s, provider, asset, amount) {
        assert(Seq::<Event>::empty() + e2 =~= e2);
    }
}

/// The minimum-liquidity floor of a withdrawal is measured on the pool:
/// with a non-zero floor, a withdrawal is refused with
/// [`Error::BelowMinLiquidity`] exactly when it would leave the pool's total
/// below the floor (the provider's own balance plays no part), and a
/// successful withdrawal leaves the pool at or above it.
pub proof fn law_withdraw_floor_is_on_the_pool(pre: EnvView, provider: Address, asset: Symbol, amount: i128)
    ensures
        ({
            let s = pre.store;
            let step = AnchornetContract::spec_withdraw_liquidity(pre, provider, asset, amount);
            let floor = s.min_liquidity_of(asset);
            let total = s.pool_of(asset).total;
            let admissible = !s.paused && amount > 0 && s.balance_of(provider, asset) >= amount;
            &&& step.result == Err::<(), Error>(Error::BelowMinLiquidity) ==> floor != 0 && total - amount < floor
            &&& admissible && floor != 0 && i128::MIN <= total - amount < floor ==> step.result == Err::<(), Error>(
                Error::BelowMinLiquidity,
            )
            &&& admissible && (floor == 0 || total - amount >= floor) ==> step.result != Err::<(), Error>(
                Error::BelowMinLiquidity,
            )
            &&& step.result is Ok ==> step.store.pool_of(asset).total == total - amount
            &&& step.result is Ok && floor != 0 ==> step.store.pool_of(asset).total >= floor
        }),
{
}

proof fn lemma_withdraw_all_err(s: StoreView, provider: Address, requests: Seq<(Symbol, i128)>)
    ensures
        crate::liquidity::withdraw_all(s, provider, requests) is Err ==> crate::liquidity::withdraw_all(
            s,
            provider,
            requests,
        ) == Err::<crate::liquidity::Effect, Error>(Error::Overflow),
    decreases requests.len(),
{
    if requests.len() > 0 {
        lemma_withdraw_all_err(s, provider, requests.drop_last());
    }
}

proof fn lemma_withdraw_batch_error(s: StoreView, provider: Address, requests: Seq<(Symbol, i128)>, i: int)
    requires
        0 <= i,
    ensures
        crate::liquidity::withdraw_batch_error(s, provider, requests, i) is Some ==> exists|j: int|
            i <= j < requests.len() && #[trigger] crate::liquidity::withdraw_request_error(s, provider, requests, j)
                == crate::liquidity::withdraw_batch_error(s, provider, requests, i),
        (forall|j: int| i <= j < requests.len() ==> #[trigger] crate::liquidity::withdraw_request_error(s, provider, requests, j) is None)
            ==> crate::liquidity::withdraw_batch_error(s, provider, requests, i) is None,
    decreases requests.len() - i,
{
    if i < requests.len() {
        lemma_withdraw_batch_error(s, provider, requests, i + 1);
    }
}

/// A batch withdrawal measures each request's floor on the pool too: it is
/// refused with [`Error::BelowMinLiquidity`] only when some request would
/// leave its asset's pool below a non-zero floor, and never when every
/// request is otherwise admissible (positive, covered by the balance, each
/// asset named once) and keeps its pool at or above the floor.
pub proof fn law_batch_withdraw_floor_is_on_the_pool(pre: EnvView, provider: Address, requests: Seq<(Symbol, i128)>)
    ensures
        AnchornetContract::spec_withdraw_liquidity_multi(pre, provider, requests).result == Err::<(), Error>(
            Error::BelowMinLiquidity,
        ) ==> exists|i: int|
            0 <= i < requests.len() && pre.store.min_liquidity_of(#[trigger] requests[i].0) != 0
                && pre.store.pool_of(requests[i].0).total - requests[i].1 < pre.store.min_liquidity_of(requests[i].0),
        (forall|i: int|
            0 <= i < requests.len() ==> {
                let (asset, amount) = #[trigger] requests[i];
                &&& amount > 0
                &&& pre.store.balance_of(provider, asset) >= amount
                &&& (pre.store.min_liquidity_of(asset) == 0 || pre.store.pool_of(asset).total - amount
                    >= pre.store.min_liquidity_of(asset))
            }) && (forall|i: int, j: int| 0 <= i < j < requests.len() ==> requests[i].0 != requests[j].0)
            ==> AnchornetContract::spec_withdraw_liquidity_multi(pre, provider, requests).result != Err::<(), Error>(
            Error::BelowMinLiquidity,
        ),
{
    let s = pre.store;
    lemma_withdraw_batch_error(s, provider, requests, 0);
    lemma_withdraw_all_err(s, provider, requests);
    if AnchornetContract::spec_withdraw_liquidity_multi(pre, provider, requests).result == Err::<(), Error>(
        Error::BelowMinLiquidity,
    ) {
        assert(crate::liquidity::withdraw_batch_error(s, provider, requests, 0) == Some(Error::BelowMinLiquidity));
        let j = choose|j: int|
            0 <= j < requests.len() && #[trigger] crate::liquidity::withdraw_request_error(s, provider, requests, j)
                == crate::liquidity::withdraw_batch_error(s, provider, requests, 0);
        assert(crate::liquidity::withdraw_request_error(s, provider, requests, j) == Some(Error::BelowMinLiquidity));
        assert(s.min_liquidity_of(requests[j].0) != 0);
    }
    if (forall|i: int|
        0 <= i < requests.len() ==> {
            let (asset, amount) = #[trigger] requests[i];
            &&& amount > 0
            &&& s.balance_of(provider, asset) >= amount
            &&& (s.min_liquidity_of(asset) == 0 || s.pool_of(asset).total - amount >= s.min_liquidity_of(asset))
        }) && (forall|i: int, j: int| 0 <= i < j < requests.len() ==> requests[i].0 != requests[j].0) {
        assert forall|j: int| 0 <= j < requests.len() implies #[trigger] crate::liquidity::withdraw_request_error(
            s,
            provider,
            requests,
            j,
        ) is None by {
            let names = crate::liquidity::assets_of(requests).take(j);
            if names.contains(requests[j].0) {
                let k = choose|k: int| 0 <= k < names.len() && names[k] == requests[j].0;
                assert(names[k] == requests[k].0);
            }
            let (asset, amount) = requests[j];
            assert(s.pool_of(asset).total - amount <= s.pool_of(asset).total);
        }
    }
}

/// The environment after [`register_anchor`](AnchornetContract::register_anchor)
/// runs once for each address of `batch`, in order.
pub open spec fn register_each(pre: EnvView, batch: Seq<Address>) -> EnvView
    decreases batch.len(),
{
    if batch.len() == 0 {
        pre
    } else {
        let mid = register_each(pre, batch.drop_last());
        apply(mid, AnchornetContract::spec_register_anchor(mid, batch.last()))
    }
}

/// Whether every one of those single registrations succeeds.
pub open spec fn each_registers(pre: EnvView, batch: Seq<Address>) -> bool
    decreases batch.len(),
{
    if batch.len() == 0 {
        true
    } else {
        each_registers(pre, batch.drop_last()) && AnchornetContract::spec_register_anchor(
            register_each(pre, batch.drop_last()),
            batch.last(),
        ).result is Ok
    }
}

proof fn lemma_register_all_marks(s: StoreView, batch: Seq<Address>)
    ensures
        forall|a: Address| #[trigger] register_all(s, batch).is_anchor(a) <==> (s.is_anchor(a) || batch.contains(a)),
        register_all(s, batch).admin == s.admin,
    decreases batch.len(),
{
    if batch.len() > 0 {
        let init = batch.drop_last();
        lemma_register_all_marks(s, init);
        let t = register_all(s, init);
        assert(register_all(s, batch) == register_one(t, batch.last()));
        assert forall|a: Address| #[trigger] register_all(s, batch).is_anchor(a) <==> (s.is_anchor(a) || batch.contains(a)) by {
            if a == batch.last() {
                assert(batch[batch.len() - 1] == a);
                assert(register_one(t, a).anchors.contains_key(a));
            } else {
                assert(register_one(t, batch.last()).is_anchor(a) == t.is_anchor(a));
            }
            if init.contains(a) {
                let k = choose|k: int| 0 <= k < init.len() && init[k] == a;
                assert(batch[k] == a);
            }
            if batch.contains(a) && a != batch.last() {
                let k = choose|k: int| 0 <= k < batch.len() && batch[k] == a;
                assert(k < init.len());
                assert(init[k] == a);
            }
            assert(batch[batch.len() - 1] == batch.last());
        }
    }
}

proof fn lemma_register_each(pre: EnvView, batch: Seq<Address>)
    requires
        pre.store.admin is Some,
    ensures
        each_registers(pre, batch) <==> !batch_conflict(pre.store, batch),
        each_registers(pre, batch) ==> register_each(pre, batch).store == register_all(pre.store, batch),
        each_registers(pre, batch) ==> register_each(pre, batch).events == pre.events + registered_events(batch),
    decreases batch.len(),
{
    let s = pre.store;
    if batch.len() == 0 {
        assert(pre.events + registered_events(batch) =~= pre.events);
        assert(!batch_conflict(s, batch));
    } else {
        let init = batch.drop_last();
        let x = batch.last();
        let n = batch.len() - 1;
        lemma_register_each(pre, init);
        lemma_register_all_marks(s, init);
        assert(batch.take(n) =~= init);
        assert forall|i: int| 0 <= i < n implies conflict_at(s, batch, i) == conflict_at(s, init, i) by {
            assert(batch.take(i) =~= init.take(i));
        }
        assert(batch[n] == x);
        if batch_conflict(s, init) {
            let i = choose|i: int| 0 <= i < init.len() && #[trigger] conflict_at(s, init, i);
            assert(conflict_at(s, batch, i));
        }
        if batch_conflict(s, batch) && !batch_conflict(s, init) {
            let i = choose|i: int| 0 <= i < batch.len() && #[trigger] conflict_at(s, batch, i);
            if i < n {
                assert(conflict_at(s, init, i));
            }
            assert(conflict_at(s, batch, n));
        }
        if !batch_conflict(s, init) && conflict_at(s, batch, n) {
            assert(batch_conflict(s, batch));
        }
        if each_registers(pre, init) {
            let mid = register_each(pre, init);
            assert(mid.store.is_anchor(x) <==> (s.is_anchor(x) || init.contains(x)));
            if each_registers(pre, batch) {
                assert(registered_events(batch) =~= registered_events(init).push(Event::AnchorRegistered { anchor: x }));
                assert(pre.events + registered_events(batch) =~= (pre.events + registered_events(init)) + seq![
                    Event::AnchorRegistered { anchor: x },
                ]);
            }
        }
    }
}

/// A batch registration succeeds exactly when registering its addresses one
/// by one, in order, with [`register_anchor`](AnchornetContract::register_anchor)
/// would succeed at every step (so a batch is refused only for an address
/// that is currently registered, deregistered ones included as
/// re-registrable, or that repeats an earlier entry); it then stores the same
/// entries and publishes the same events. Otherwise it fails with
/// [`Error::AnchorAlreadyRegistered`] and changes nothing.
pub proof fn law_register_anchors_is_registrations_in_order(pre: EnvView, batch: Seq<Address>)
    requires
        pre.store.admin is Some,
    ensures
        AnchornetContract::spec_register_anchors(pre, batch).result is Ok <==> each_registers(pre, batch),
        each_registers(pre, batch) ==> apply(pre, AnchornetContract::spec_register_anchors(pre, batch)).store
            == register_each(pre, batch).store,
        each_registers(pre, batch) ==> apply(pre, AnchornetContract::spec_register_anchors(pre, batch)).events
            == register_each(pre, batch).events,
        !each_registers(pre, batch) ==> AnchornetContract::spec_register_anchors(pre, batch).result
            == Err::<(), Error>(Error::AnchorAlreadyRegistered),
        !each_registers(pre, batch) ==> apply(pre, AnchornetContract::spec_register_anchors(pre, batch)).store
            == pre.store,
{
    lemma_register_each(pre, batch);
}

/// Registering a batch of one address has the outcome of registering that
/// address alone: same result, stored entries and events.
pub proof fn law_single_address_batch_is_register_anchor(pre: EnvView, anchor: Address)
    ensures
        AnchornetContract::spec_register_anchors(pre, seq![anchor]).result == AnchornetContract::spec_register_anchor(
            pre,
            anchor,
        ).result,
        apply(pre, AnchornetContract::spec_register_anchors(pre, seq![anchor])).store == apply(
            pre,
            AnchornetContract::spec_register_anchor(pre, anchor),
        ).store,
        apply(pre, AnchornetContract::spec_register_anchors(pre, seq![anchor])).events == apply(
            pre,
            AnchornetContract::spec_register_anchor(pre, anchor),
        ).events,
{
    let b = seq![anchor];
    assert(b.drop_last() =~= Seq::<Address>::empty());
    assert(b.take(0) =~= Seq::<Address>::empty());
    assert(b[0] == anchor);
    if batch_conflict(pre.store, b) {
        let i = choose|i: int| 0 <= i < b.len() && #[trigger] conflict_at(pre.store, b, i);
        assert(i == 0);
    }
    if pre.store.is_anchor(anchor) {
        assert(conflict_at(pre.store, b, 0));
    }
    assert(registered_events(b) =~= seq![Event::AnchorRegistered { anchor }]);
    assert(register_all(pre.store, b.drop_last()) == pre.store);
    assert(register_all(pre.store, b) == register_one(pre.store, anchor));
}

/// A successful [`open_settlement`](AnchornetContract::open_settlement)
/// stores a pending settlement of `amount` whose fee is fixed at the asset's
/// effective rate: the asset's own fee override when one is set (higher or
/// lower than the global fee), else the global fee, applied as
/// `amount * rate / 10_000` rounded down; zero for a waived anchor. For a
/// non-waived anchor that fee is what
/// [`quote_fee`](AnchornetContract::quote_fee) quoted just before.
pub proof fn law_open_fee_is_the_effective_rate(pre: EnvView, anchor: Address, asset: Symbol, amount: i128)
    requires
        AnchornetContract::spec_open_settlement(pre, anchor, asset, amount).result is Ok,
    ensures
        ({
            let s = pre.store;
            let step = AnchornetContract::spec_open_settlement(pre, anchor, asset, amount);
            let id = step.result->Ok_0;
            let st = step.store.settlements[id];
            let rate: int = if s.asset_fees.contains_key(asset) {
                s.asset_fees[asset] as int
            } else {
                s.fee_bps as int
            };
            &&& id == s.settlement_count + 1
            &&& step.store.settlements.contains_key(id)
            &&& st.id == id && st.anchor == anchor && st.asset == asset && st.amount == amount
            &&& st.status == SettlementStatus::Pending
            &&& amount > 0
            &&& st.fee == (if s.fee_waived(anchor) {
                0
            } else {
                amount * rate / 10_000
            })
            &&& !s.fee_waived(anchor) ==> AnchornetContract::spec_quote_fee(s, asset, amount) == Ok::<i128, Error>(
                st.fee,
            )
        }),
{
}

/// [`execute_settlement`](AnchornetContract::execute_settlement) does not
/// consult the anchor registry: replacing the registry by any other gives
/// the same result, and the same stored entries apart from the registry
/// itself. A settlement opened by an anchor that was later deregistered
/// still executes.
pub proof fn law_execute_ignores_anchor_registry(pre: EnvView, id: u64, anchors: Map<Address, bool>)
    ensures
        ({
            let other = EnvView { store: StoreView { anchors, ..pre.store }, ..pre };
            let here = AnchornetContract::spec_execute_settlement(pre, id);
            let there = AnchornetContract::spec_execute_settlement(other, id);
            &&& there.result == here.result
            &&& apply(other, there).store == StoreView { anchors, ..apply(pre, here).store }
            &&& apply(other, there).events == apply(pre, here).events
        }),
{
}

/// A pending settlement executes whenever an admin exists, the contract is
/// not paused and its fee fits the asset's accrued total: it becomes
/// executed and its fee is added to the asset's accrued fees.
pub proof fn law_pending_settlement_executes(pre: EnvView, id: u64)
    requires
        crate::consistency::inv(pre.store),
        pre.store.admin is Some,
        !pre.store.paused,
        pre.store.settlements.contains_key(id),
        pre.store.settlements[id].status == SettlementStatus::Pending,
        i128::MIN <= pre.store.fees_accrued_of(pre.store.settlements[id].asset) + pre.store.settlements[id].fee
            <= i128::MAX,
    ensures
        ({
            let st = pre.store.settlements[id];
            let step = AnchornetContract::spec_execute_settlement(pre, id);
            &&& step.result is Ok
            &&& step.store.settlements[id].status == SettlementStatus::Executed
            &&& step.store.settlements[id].fee == st.fee
            &&& step.store.fees_accrued_of(st.asset) == pre.store.fees_accrued_of(st.asset) + st.fee
        }),
{
    assert(pre.store.settlements[id].id == id);
}

/// The environment after [`withdraw_liquidity`](AnchornetContract::withdraw_liquidity)
/// runs once for each of `requests`, in order.
pub open spec fn withdraw_each(pre: EnvView, provider: Address, requests: Seq<(Symbol, i128)>) -> EnvView
    decreases requests.len(),
{
    if requests.len() == 0 {
        pre
    } else {
        let mid = withdraw_each(pre, provider, requests.drop_last());
        apply(mid, AnchornetContract::spec_withdraw_liquidity(mid, provider, requests.last().0, requests.last().1))
    }
}

proof fn lemma_withdraw_all_frame(s: StoreView, provider: Address, requests: Seq<(Symbol, i128)>, asset: Symbol)
    requires
        crate::liquidity::withdraw_all(s, provider, requests) is Ok,
        forall|j: int| 0 <= j < requests.len() ==> #[trigger] requests[j].0 != asset,
    ensures
        ({
            let s1 = crate::liquidity::withdraw_all(s, provider, requests)->Ok_0.0;
            &&& s1.paused == s.paused
            &&& s1.min_liquidity == s.min_liquidity
            &&& s1.pool_of(asset) == s.pool_of(asset)
            &&& s1.balance_of(provider, asset) == s.balance_of(provider, asset)
        }),
    decreases requests.len(),
{
    if requests.len() > 0 {
        let init = requests.drop_last();
        assert forall|j: int| 0 <= j < init.len() implies #[trigger] init[j].0 != asset by {
            assert(init[j] == requests[j]);
        }
        lemma_withdraw_all_frame(s, provider, init, asset);
        assert(requests[requests.len() - 1] == requests.last());
    }
}

proof fn lemma_withdraw_each(pre: EnvView, provider: Address, requests: Seq<(Symbol, i128)>)
    requires
        !pre.store.paused,
        forall|j: int|
            0 <= j < requests.len() ==> crate::liquidity::withdraw_request_error(pre.store, provider, requests, j)
                is None,
        forall|i: int, j: int| 0 <= i < j < requests.len() ==> requests[i].0 != requests[j].0,
        crate::liquidity::withdraw_all(pre.store, provider, requests) is Ok,
    ensures
        withdraw_each(pre, provider, requests).store == crate::liquidity::withdraw_all(pre.store, provider, requests)->Ok_0.0,
        withdraw_each(pre, provider, requests).events == pre.events + crate::liquidity::withdraw_all(
            pre.store,
            provider,
            requests,
        )->Ok_0.1,
    decreases requests.len(),
{
    let s = pre.store;
    if requests.len() == 0 {
        assert(pre.events + Seq::<Event>::empty() =~= pre.events);
    } else {
        let init = requests.drop_last();
        let n = requests.len() - 1;
        let last = requests.last();
        assert(requests[n] == last);
        assert forall|j: int| 0 <= j < init.len() implies crate::liquidity::withdraw_request_error(
            s,
            provider,
            init,
            j,
        ) is None by {
            assert(init[j] == requests[j]);
            assert(crate::liquidity::assets_of(init).take(j) =~= crate::liquidity::assets_of(requests).take(j));
            assert(crate::liquidity::withdraw_request_error(s, provider, requests, j) is None);
        }
        assert forall|i: int, j: int| 0 <= i < j < init.len() implies init[i].0 != init[j].0 by {
            assert(init[i] == requests[i] && init[j] == requests[j]);
        }
        lemma_withdraw_each(pre, provider, init);
        assert forall|j: int| 0 <= j < init.len() implies #[trigger] init[j].0 != last.0 by {
            assert(init[j] == requests[j]);
        }
        lemma_withdraw_all_frame(s, provider, init, last.0);
        assert(crate::liquidity::withdraw_request_error(s, provider, requests, n) is None);
        let (s1, e1) = crate::liquidity::withdraw_all(s, provider, init)->Ok_0;
        let (s2, e2) = crate::liquidity::withdraw_effect(s1, provider, last.0, last.1)->Ok_0;
        assert(s1.min_liquidity_of(last.0) == s.min_liquidity_of(last.0));
        assert(pre.events + e1 + e2 =~= pre.events + (e1 + e2));
    }
}

proof fn lemma_withdraw_batch_clean(s: StoreView, provider: Address, requests: Seq<(Symbol, i128)>, i: int, j: int)
    requires
        0 <= i <= j < requests.len(),
        crate::liquidity::withdraw_batch_error(s, provider, requests, i) is None,
    ensures
        crate::liquidity::withdraw_request_error(s, provider, requests, j) is None,
    decreases j - i,
{
    if i < j {
        lemma_withdraw_batch_clean(s, provider, requests, i + 1, j);
    }
}

/// A successful batch withdrawal stores the same entries and publishes the
/// same events as withdrawing each request in turn with
/// [`withdraw_liquidity`](AnchornetContract::withdraw_liquidity).
pub proof fn law_withdraw_multi_is_withdrawals_in_order(pre: EnvView, provider: Address, requests: Seq<(Symbol, i128)>)
    requires
        AnchornetContract::spec_withdraw_liquidity_multi(pre, provider, requests).result is Ok,
    ensures
        withdraw_each(pre, provider, requests).store == apply(
            pre,
            AnchornetContract::spec_withdraw_liquidity_multi(pre, provider, requests),
        ).store,
        withdraw_each(pre, provider, requests).events == apply(
            pre,
            AnchornetContract::spec_withdraw_liquidity_multi(pre, provider, requests),
        ).events,
{
    let s = pre.store;
    assert forall|j: int| 0 <= j < requests.len() implies crate::liquidity::withdraw_request_error(
        s,
        provider,
        requests,
        j,
    ) is None by {
        lemma_withdraw_batch_clean(s, provider, requests, 0, j);
    }
    assert forall|i: int, j: int| 0 <= i < j < requests.len() implies requests[i].0 != requests[j].0 by {
        assert(crate::liquidity::withdraw_request_error(s, provider, requests, j) is None);
        let names = crate::liquidity::assets_of(requests).take(j);
        assert(names[i] == requests[i].0);
    }
    lemma_withdraw_each(pre, provider, requests);
}

} // verus!

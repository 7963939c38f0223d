//! Properties that relate several entrypoints or hold across all inputs.

use vstd::prelude::*;
use vstd::arithmetic::div_mod::lemma_div_is_ordered;

use crate::anchors::{active_anchor, same_address, waived_anchor};
use crate::contract::{apply, count, fee_for, page, scan, AnchornetContract, MAX_FEE_BPS};
use crate::events::Event;
use crate::liquidity::{provide_all, provide_batch_error, provide_effect, provide_request_error};
use crate::queries::{any_asset, same_asset};
use crate::settlements::{id_count, SettlementFilter};
use crate::storage::{EnvView, StoreView, MAX_LIST_LEN};
use crate::types::{Address, SettlementStatus, Symbol};

verus! {

/// At a fee rate of at most [`MAX_FEE_BPS`], the fee on a positive amount
/// never overflows, lies between zero and a tenth of the amount, and grows
/// with the amount.
pub proof fn law_fee_bounded_and_monotone(lower: i128, upper: i128, bps: u32)
    requires
        0 < lower <= upper,
        bps <= MAX_FEE_BPS,
    ensures
        AnchornetContract::spec_calculate_fee(lower, bps) is Ok,
        AnchornetContract::spec_calculate_fee(upper, bps) is Ok,
        0 <= AnchornetContract::spec_calculate_fee(lower, bps)->Ok_0 <= lower / 10,
        AnchornetContract::spec_calculate_fee(lower, bps)->Ok_0 <= AnchornetContract::spec_calculate_fee(
            upper,
            bps,
        )->Ok_0,
{
    let a = lower as int;
    let b = upper as int;
    let k = bps as int;
    assert(0 <= a * k <= b * k) by (nonlinear_arith)
        requires
            0 < a <= b,
            0 <= k,
    ;
    assert(a * k <= a * 1000) by (nonlinear_arith)
        requires
            0 < a,
            0 <= k <= 1000,
    ;
    assert(b * k <= b * 1000) by (nonlinear_arith)
        requires
            0 < b,
            0 <= k <= 1000,
    ;
    lemma_div_is_ordered(a * k, b * k, 10_000);
    lemma_div_is_ordered(a * k, a * 1000, 10_000);
    lemma_div_is_ordered(b * k, b * 1000, 10_000);
    lemma_div_is_ordered(0, a * k, 10_000);
    assert(a * 1000 / 10_000 == a / 10);
    assert(b * 1000 / 10_000 == b / 10);
    assert(fee_for(a, k) == a * k / 10_000);
    assert(fee_for(b, k) == b * k / 10_000);
}

/// A quote for a positive amount at an asset whose effective rate is within
/// the cap succeeds, is at most a tenth of the amount, and grows with it.
pub proof fn law_quote_fee_bounded_and_monotone(s: StoreView, asset: Symbol, lower: i128, upper: i128)
    requires
        0 < lower <= upper,
        s.effective_fee_bps(asset) <= MAX_FEE_BPS,
    ensures
        AnchornetContract::spec_quote_fee(s, asset, lower) is Ok,
        AnchornetContract::spec_quote_fee(s, asset, upper) is Ok,
        0 <= AnchornetContract::spec_quote_fee(s, asset, lower)->Ok_0 <= lower / 10,
        AnchornetContract::spec_quote_fee(s, asset, lower)->Ok_0 <= AnchornetContract::spec_quote_fee(
            s,
            asset,
            upper,
        )->Ok_0,
{
    law_fee_bounded_and_monotone(lower, upper, s.effective_fee_bps(asset));
}

/// Withdrawing a provider's whole balance through
/// `withdraw_all_liquidity` stores, publishes and demands exactly what
/// `withdraw_liquidity` does for that balance, and returns the balance.
pub proof fn law_withdraw_all_is_withdraw_of_balance(pre: EnvView, provider: Address, asset: Symbol)
    requires
        pre.store.balance_of(provider, asset) != 0,
    ensures
        ({
            let all = AnchornetContract::spec_withdraw_all_liquidity(pre, provider, asset);
            let one = AnchornetContract::spec_withdraw_liquidity(pre, provider, asset, pre.store.balance_of(provider, asset));
            &&& apply(pre, all) == apply(pre, one)
            &&& (all.result is Ok <==> one.result is Ok)
            &&& all.result is Ok ==> all.result == Ok::<i128, crate::error::Error>(pre.store.balance_of(provider, asset))
        }),
{
}

/// Providing and then withdrawing the same amount restores the pool total,
/// the provider's balance and the pool's provider count, provided the
/// balance was not negative and the pool's floor does not block the exit.
pub proof fn law_provide_then_withdraw_restores(pre: EnvView, provider: Address, asset: Symbol, amount: i128)
    requires
        AnchornetContract::spec_provide_liquidity(pre, provider, asset, amount).result is Ok,
        pre.store.balance_of(provider, asset) >= 0,
        pre.store.min_liquidity_of(asset) == 0 || pre.store.min_liquidity_of(asset) <= pre.store.pool_of(asset).total,
    ensures
        ({
            let mid = apply(pre, AnchornetContract::spec_provide_liquidity(pre, provider, asset, amount));
            let back = AnchornetContract::spec_withdraw_liquidity(mid, provider, asset, amount);
            let post = apply(mid, back);
            &&& back.result is Ok
            &&& post.store.pool_of(asset).total == pre.store.pool_of(asset).total
            &&& post.store.pool_of(asset).providers == pre.store.pool_of(asset).providers
            &&& post.store.balance_of(provider, asset) == pre.store.balance_of(provider, asset)
        }),
{
}

/// Opening a settlement and cancelling it returns the pool of its asset to
/// its former total.
pub proof fn law_open_then_cancel_restores(pre: EnvView, anchor: Address, asset: Symbol, amount: i128)
    requires
        AnchornetContract::spec_open_settlement(pre, anchor, asset, amount).result is Ok,
    ensures
        ({
            let open = AnchornetContract::spec_open_settlement(pre, anchor, asset, amount);
            let mid = apply(pre, open);
            let cancel = AnchornetContract::spec_cancel_settlement(mid, open.result->Ok_0);
            let post = apply(mid, cancel);
            &&& cancel.result is Ok
            &&& post.store.pool_of(asset).total == pre.store.pool_of(asset).total
            &&& post.store.settlements[open.result->Ok_0].status == SettlementStatus::Cancelled
        }),
{
}

/// A proposal followed by the candidate's acceptance transfers
/// administration to the candidate and leaves no proposal pending.
pub proof fn law_propose_then_accept_transfers(pre: EnvView, candidate: Address)
    requires
        AnchornetContract::spec_propose_admin(pre, candidate).result is Ok,
    ensures
        ({
            let mid = apply(pre, AnchornetContract::spec_propose_admin(pre, candidate));
            let accept = AnchornetContract::spec_accept_admin(mid, candidate);
            let post = apply(mid, accept);
            &&& accept.result is Ok
            &&& post.store.admin == Some(candidate)
            &&& post.store.pending_admin is None
        }),
{
}

/// Once a transfer is proposed, only the proposed candidate can accept it.
pub proof fn law_only_candidate_accepts(pre: EnvView, candidate: Address, other: Address)
    requires
        AnchornetContract::spec_propose_admin(pre, candidate).result is Ok,
        other != candidate,
    ensures
        ({
            let mid = apply(pre, AnchornetContract::spec_propose_admin(pre, candidate));
            AnchornetContract::spec_accept_admin(mid, other).result == Err::<(), crate::error::Error>(
                crate::error::Error::NotPendingAdmin,
            )
        }),
{
}

/// A scan returns as many items as it keeps, up to its limit.
pub proof fn law_scan_len<A, B>(s: Seq<A>, keep: spec_fn(A) -> bool, f: spec_fn(A) -> B, limit: nat)
    ensures
        scan(s, keep, f, limit).len() == if count(s, keep) < limit {
            count(s, keep)
        } else {
            limit
        },
    decreases s.len(),
{
    if s.len() > 0 && limit > 0 {
        if keep(s[0]) {
            law_scan_len(s.drop_first(), keep, f, (limit - 1) as nat);
        } else {
            law_scan_len(s.drop_first(), keep, f, limit);
        }
    }
}

/// A scan holds every kept item among the first `limit` items it reads.
proof fn lemma_scan_holds_early_items<A, B>(s: Seq<A>, keep: spec_fn(A) -> bool, f: spec_fn(A) -> B, limit: nat, i: int)
    requires
        0 <= i < s.len(),
        i < limit,
        keep(s[i]),
    ensures
        scan(s, keep, f, limit).contains(f(s[i])),
    decreases s.len(),
{
    let r = scan(s, keep, f, limit);
    if i == 0 {
        assert(r[0] == f(s[0]));
    } else {
        let rest = s.drop_first();
        assert(rest[i - 1] == s[i]);
        let l2: nat = if keep(s[0]) {
            (limit - 1) as nat
        } else {
            limit
        };
        lemma_scan_holds_early_items(rest, keep, f, l2, i - 1);
        let tail = scan(rest, keep, f, l2);
        let k = choose|k: int| 0 <= k < tail.len() && tail[k] == f(s[i]);
        if keep(s[0]) {
            assert(r == seq![f(s[0])] + tail);
            assert(r[k + 1] == f(s[i]));
        } else {
            assert(r == tail);
            assert(r[k] == f(s[i]));
        }
    }
}

/// A page that starts at `start` with room for `limit` items holds every
/// kept item whose list index lies in `start..start + limit`. So a client
/// that advances `start` by `limit` from one page to the next misses no
/// item, however many skipped items lie between kept ones.
pub proof fn law_page_covers_its_window<A, B>(
    list: Seq<A>,
    start: int,
    keep: spec_fn(A) -> bool,
    f: spec_fn(A) -> B,
    limit: nat,
    i: int,
)
    requires
        0 <= start <= i < list.len(),
        i < start + limit,
        keep(list[i]),
    ensures
        page(list, start, keep, f, limit).contains(f(list[i])),
{
    assert(list.skip(start)[i - start] == list[i]);
    lemma_scan_holds_early_items(list.skip(start), keep, f, limit, i - start);
}

/// A registered anchor at index `i` of the registration history appears on
/// every page of `list_anchors` whose window `start..start + limit` covers
/// `i`.
pub proof fn law_list_anchors_misses_none(s: StoreView, start: u32, limit: u32, i: int)
    requires
        start <= i < s.anchor_list.len(),
        i < start + limit,
        s.is_anchor(s.anchor_list[i]),
    ensures
        AnchornetContract::spec_list_anchors(s, start, limit).contains(s.anchor_list[i]),
{
    law_page_covers_its_window(s.anchor_list, start as int, active_anchor(s), same_address(), limit as nat, i);
}

/// Listing anchors from index zero with the largest limit returns exactly
/// `anchor_count` anchors.
pub proof fn law_anchor_count_matches_list(s: StoreView)
    requires
        s.anchor_list.len() <= MAX_LIST_LEN,
    ensures
        AnchornetContract::spec_list_anchors(s, 0, u32::MAX).len() == count(s.anchor_list, active_anchor(s)),
{
    crate::contract::lemma_count_bound(s.anchor_list, active_anchor(s));
    assert(s.anchor_list.skip(0) =~= s.anchor_list);
    law_scan_len(s.anchor_list, active_anchor(s), same_address(), u32::MAX as nat);
}

/// Listing fee-waived anchors from index zero with the largest limit
/// returns exactly `fee_waived_anchor_count` anchors.
pub proof fn law_fee_waived_count_matches_list(s: StoreView)
    requires
        s.anchor_list.len() <= MAX_LIST_LEN,
    ensures
        AnchornetContract::spec_list_fee_waived_anchors(s, 0, u32::MAX).len() == count(
            s.anchor_list,
            waived_anchor(s),
        ),
{
    crate::contract::lemma_count_bound(s.anchor_list, waived_anchor(s));
    assert(s.anchor_list.skip(0) =~= s.anchor_list);
    law_scan_len(s.anchor_list, waived_anchor(s), same_address(), u32::MAX as nat);
}

/// Listing assets from index zero with the largest limit returns every
/// asset, as many as `asset_count` reports.
pub proof fn law_asset_count_matches_list(s: StoreView)
    requires
        s.asset_list.len() <= MAX_LIST_LEN,
    ensures
        AnchornetContract::spec_list_assets(s, 0, u32::MAX) == s.asset_list,
{
    lemma_scan_keep_all(s.asset_list, u32::MAX as nat);
    assert(s.asset_list.skip(0) =~= s.asset_list);
    assert(s.asset_list.take(s.asset_list.len() as int) =~= s.asset_list);
}

proof fn lemma_scan_keep_all(s: Seq<Symbol>, limit: nat)
    ensures
        scan(s, any_asset(), same_asset(), limit) == s.take(if s.len() < limit {
            s.len() as int
        } else {
            limit as int
        }),
    decreases s.len(),
{
    if s.len() > 0 && limit > 0 {
        lemma_scan_keep_all(s.drop_first(), (limit - 1) as nat);
        let n = if s.len() < limit {
            s.len() as int
        } else {
            limit as int
        };
        assert(seq![s[0]] + s.drop_first().take(n - 1) =~= s.take(n));
    } else {
        assert(s.take(0) =~= Seq::<Symbol>::empty());
    }
}

/// Every stored settlement is in exactly one lifecycle state: the counts by
/// state add up to the number of stored settlements.
pub proof fn law_status_counts_partition(s: StoreView, id: int)
    requires
        id >= 1,
    ensures
        id_count(s, id, SettlementFilter::Status(SettlementStatus::Pending)) + id_count(
            s,
            id,
            SettlementFilter::Status(SettlementStatus::Executed),
        ) + id_count(s, id, SettlementFilter::Status(SettlementStatus::Cancelled)) + id_count(
            s,
            id,
            SettlementFilter::Status(SettlementStatus::Expired),
        ) == id_count(s, id, SettlementFilter::All),
    decreases s.settlement_count + 1 - id,
{
    if id <= s.settlement_count {
        law_status_counts_partition(s, id + 1);
    }
}


/// The environment after [`provide_liquidity`](AnchornetContract::provide_liquidity)
/// runs once for each of `requests`, in order.
pub open spec fn provide_each(pre: EnvView, provider: Address, requests: Seq<(Symbol, i128)>) -> EnvView
    decreases requests.len(),
{
    if requests.len() == 0 {
        pre
    } else {
        let mid = provide_each(pre, provider, requests.drop_last());
        apply(mid, AnchornetContract::spec_provide_liquidity(mid, provider, requests.last().0, requests.last().1))
    }
}

proof fn lemma_provide_all_keeps_gates(s: StoreView, provider: Address, requests: Seq<(Symbol, i128)>)
    requires
        provide_all(s, provider, requests) is Ok,
    ensures
        provide_all(s, provider, requests)->Ok_0.0.paused == s.paused,
        provide_all(s, provider, requests)->Ok_0.0.anchors == s.anchors,
    decreases requests.len(),
{
    if requests.len() > 0 {
        lemma_provide_all_keeps_gates(s, provider, requests.drop_last());
    }
}

proof fn lemma_provide_each(pre: EnvView, provider: Address, requests: Seq<(Symbol, i128)>)
    requires
        !pre.store.paused,
        pre.store.is_anchor(provider),
        forall|j: int| 0 <= j < requests.len() ==> #[trigger] requests[j].1 > 0,
        provide_all(pre.store, provider, requests) is Ok,
    ensures
        provide_each(pre, provider, requests).store == provide_all(pre.store, provider, requests)->Ok_0.0,
        provide_each(pre, provider, requests).events == pre.events + provide_all(pre.store, provider, requests)->Ok_0.1,
    decreases requests.len(),
{
    if requests.len() == 0 {
        assert(pre.events + Seq::<Event>::empty() =~= pre.events);
    } else {
        let init = requests.drop_last();
        assert forall|j: int| 0 <= j < init.len() implies #[trigger] init[j].1 > 0 by {
            assert(init[j] == requests[j]);
        }
        lemma_provide_each(pre, provider, init);
        lemma_provide_all_keeps_gates(pre.store, provider, init);
        let (s1, e1) = provide_all(pre.store, provider, init)->Ok_0;
        let last = requests.last();
        assert(last.1 > 0) by {
            assert(requests[requests.len() - 1] == last);
        }
        let (s2, e2) = provide_effect(s1, provider, last.0, last.1)->Ok_0;
        assert(s1.is_anchor(provider));
        assert(pre.events + e1 + e2 =~= pre.events + (e1 + e2));
    }
}

/// A successful batch deposit stores the same entries and publishes the
/// same events as depositing each request in turn with
/// [`provide_liquidity`](AnchornetContract::provide_liquidity).
pub proof fn law_provide_multi_is_provides_in_order(pre: EnvView, provider: Address, requests: Seq<(Symbol, i128)>)
    requires
        AnchornetContract::spec_provide_liquidity_multi(pre, provider, requests).result is Ok,
    ensures
        provide_each(pre, provider, requests).store == apply(
            pre,
            AnchornetContract::spec_provide_liquidity_multi(pre, provider, requests),
        ).store,
        provide_each(pre, provider, requests).events == apply(
            pre,
            AnchornetContract::spec_provide_liquidity_multi(pre, provider, requests),
        ).events,
{
    assert forall|j: int| 0 <= j < requests.len() implies #[trigger] requests[j].1 > 0 by {
        lemma_provide_batch_clean(requests, 0, j);
    }
    lemma_provide_each(pre, provider, requests);
}

proof fn lemma_provide_batch_clean(requests: Seq<(Symbol, i128)>, i: int, j: int)
    requires
        0 <= i <= j < requests.len(),
        provide_batch_error(requests, i) is None,
    ensures
        provide_request_error(requests, j) is None,
    decreases j - i,
{
    if i < j {
        lemma_provide_batch_clean(requests, i + 1, j);
    }
}

} // verus!

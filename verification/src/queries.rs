//! Read-only entrypoints over pools, assets, balances and fees.

use vstd::prelude::*;

use crate::anchors::active_anchor;
use crate::contract::{checked_i128, count, lemma_scan_step, page, scan, AnchornetContract, VERSION};
use crate::error::Error;
use crate::storage::{self, Env, StoreView, MAX_LIST_LEN};
use crate::types::{Address, ContractInfo, Pool, Symbol};

verus! {

/// The sum of `f` over `assets`, added left to right; fails with
/// [`Error::Overflow`] as soon as a partial sum leaves the `i128` range.
pub open spec fn checked_sum(assets: Seq<Symbol>, f: spec_fn(Symbol) -> i128) -> Result<i128, Error>
    decreases assets.len(),
{
    if assets.len() == 0 {
        Ok(0)
    } else {
        match checked_sum(assets.drop_last(), f) {
            Err(e) => Err(e),
            Ok(t) => checked_i128(t + f(assets.last())),
        }
    }
}

/// The total liquidity of an asset's pool.
pub open spec fn pool_total(s: StoreView) -> spec_fn(Symbol) -> i128 {
    |a: Symbol| s.pool_of(a).total
}

/// The uncollected fees of an asset.
pub open spec fn accrued(s: StoreView) -> spec_fn(Symbol) -> i128 {
    |a: Symbol| s.fees_accrued_of(a)
}

/// The waived fee volume of an asset.
pub open spec fn waived_volume(s: StoreView) -> spec_fn(Symbol) -> i128 {
    |a: Symbol| s.waived_volume_of(a)
}

/// Keeps every asset.
pub open spec fn any_asset() -> spec_fn(Symbol) -> bool {
    |a: Symbol| true
}

/// Leaves an asset as it is.
pub open spec fn same_asset() -> spec_fn(Symbol) -> Symbol {
    |a: Symbol| a
}

/// Keeps the assets in which `provider` holds a non-zero balance.
pub open spec fn held_by(s: StoreView, provider: Address) -> spec_fn(Symbol) -> bool {
    |a: Symbol| s.balance_of(provider, a) != 0
}

/// Pairs an asset with `provider`'s balance in it.
pub open spec fn with_balance(s: StoreView, provider: Address) -> spec_fn(Symbol) -> (Symbol, i128) {
    |a: Symbol| (a, s.balance_of(provider, a))
}

/// Sums `f` over `assets` with overflow checks, as [`checked_sum`] states.
fn sum_over(assets: &Vec<Symbol>, f: Ghost<spec_fn(Symbol) -> i128>, values: &Vec<i128>) -> (r: Result<i128, Error>)
    requires
        values@.len() == assets@.len(),
        forall|i: int| 0 <= i < assets@.len() ==> values@[i] == (f@)(#[trigger] assets@[i]),
    ensures
        r == checked_sum(assets@, f@),
{
    let mut total: i128 = 0;
    let mut i: usize = 0;
    assert(assets@.take(0) =~= Seq::<Symbol>::empty());
    while i < assets.len()
        invariant
            i <= assets@.len(),
            values@.len() == assets@.len(),
            forall|j: int| 0 <= j < assets@.len() ==> values@[j] == (f@)(#[trigger] assets@[j]),
            checked_sum(assets@.take(i as int), f@) == Ok::<i128, Error>(total),
        decreases assets.len() - i,
    {
        proof {
            let t = assets@.take(i + 1);
            assert(t.drop_last() =~= assets@.take(i as int));
            assert(t.last() == assets@[i as int]);
        }
        let v = values[i];
        total = match total.checked_add(v) {
            Some(x) => x,
            None => {
                proof {
                    lemma_checked_sum_err(assets@, f@, i + 1);
                }
                return Err(Error::Overflow);
            },
        };
        i = i + 1;
    }
    assert(assets@.take(assets@.len() as int) =~= assets@);
    Ok(total)
}

proof fn lemma_checked_sum_err(assets: Seq<Symbol>, f: spec_fn(Symbol) -> i128, k: int)
    requires
        0 <= k <= assets.len(),
        checked_sum(assets.take(k), f) is Err,
    ensures
        checked_sum(assets, f) == checked_sum(assets.take(k), f),
    decreases assets.len(),
{
    if k == assets.len() {
        assert(assets.take(k) =~= assets);
    } else {
        assert(assets.drop_last().take(k) =~= assets.take(k));
        lemma_checked_sum_err(assets.drop_last(), f, k);
    }
}

impl AnchornetContract {
    /// Returns the pool of `asset`, or [`Error::PoolNotFound`] if no
    /// liquidity has ever been provided for it.
    pub fn pool(env: &Env, asset: Symbol) -> (r: Result<Pool, Error>)
        requires
            env.wf(),
        ensures
            r == (if env@.store.pools.contains_key(asset) {
                Ok(env@.store.pools[asset])
            } else {
                Err(Error::PoolNotFound)
            }),
    {
        if !storage::has_pool(env, &asset) {
            return Err(Error::PoolNotFound);
        }
        Ok(storage::get_pool(env, &asset))
    }

    /// The page [`list_assets`](Self::list_assets) returns.
    pub open spec fn spec_list_assets(s: StoreView, start: u32, limit: u32) -> Seq<Symbol> {
        page(s.asset_list, start as int, any_asset(), same_asset(), limit as nat)
    }

    /// Returns up to `limit` assets that have ever had liquidity provided,
    /// in first-use order, from list index `start`.
    pub fn list_assets(env: &Env, start: u32, limit: u32) -> (r: Vec<Symbol>)
        requires
            env.wf(),
        ensures
            r@ == Self::spec_list_assets(env@.store, start, limit),
    {
        let mut out: Vec<Symbol> = Vec::new();
        let list = storage::get_asset_list(env);
        let total = list.len();
        let ghost keep = any_asset();
        let ghost f = same_asset();
        if start as usize >= total {
            return out;
        }
        let mut idx: usize = start as usize;
        while idx < total && out.len() < limit as usize
            invariant
                env.wf(),
                list@ == env@.store.asset_list,
                total == list@.len(),
                keep == any_asset(),
                f == same_asset(),
                start <= idx <= total,
                out@.len() <= limit,
                scan(list@.skip(start as int), keep, f, limit as nat) == out@ + scan(
                    list@.skip(idx as int),
                    keep,
                    f,
                    (limit - out@.len()) as nat,
                ),
            decreases total - idx,
        {
            proof {
                lemma_scan_step(list@, idx as int, keep, f, (limit - out@.len()) as nat);
            }
            out.push(list[idx]);
            assert(scan(list@.skip(start as int), keep, f, limit as nat) =~= out@ + scan(
                list@.skip(idx + 1),
                keep,
                f,
                (limit - out@.len()) as nat,
            ));
            idx = idx + 1;
        }
        assert(scan(list@.skip(idx as int), keep, f, (limit - out@.len()) as nat) =~= Seq::empty());
        assert(out@ + Seq::<Symbol>::empty() =~= out@);
        out
    }

    /// Returns the number of distinct assets that have ever had liquidity
    /// provided.
    pub fn asset_count(env: &Env) -> (r: u32)
        requires
            env.wf(),
        ensures
            r == env@.store.asset_list.len(),
    {
        let list = storage::get_asset_list(env);
        list.len() as u32
    }

    /// Returns the total liquidity available in `asset`.
    pub fn total_liquidity(env: &Env, asset: Symbol) -> (r: i128)
        requires
            env.wf(),
        ensures
            r == env@.store.pool_of(asset).total,
    {
        storage::get_pool(env, &asset).total
    }

    /// Returns the sum of [`total_liquidity`](Self::total_liquidity) over
    /// every asset ever funded, or [`Error::Overflow`].
    pub fn total_liquidity_all(env: &Env) -> (r: Result<i128, Error>)
        requires
            env.wf(),
        ensures
            r == checked_sum(env@.store.asset_list, pool_total(env@.store)),
    {
        let assets = storage::get_asset_list(env);
        let mut values: Vec<i128> = Vec::new();
        let mut i: usize = 0;
        while i < assets.len()
            invariant
                env.wf(),
                assets@ == env@.store.asset_list,
                i <= assets@.len(),
                values@.len() == i,
                forall|j: int| 0 <= j < i ==> values@[j] == (pool_total(env@.store))(#[trigger] assets@[j]),
            decreases assets.len() - i,
        {
            values.push(storage::get_pool(env, &assets[i]).total);
            i = i + 1;
        }
        sum_over(&assets, Ghost(pool_total(env@.store)), &values)
    }

    /// Returns the sum of [`fees_accrued`](Self::fees_accrued) over every
    /// asset ever funded, or [`Error::Overflow`].
    pub fn total_fees_accrued(env: &Env) -> (r: Result<i128, Error>)
        requires
            env.wf(),
        ensures
            r == checked_sum(env@.store.asset_list, accrued(env@.store)),
    {
        let assets = storage::get_asset_list(env);
        let mut values: Vec<i128> = Vec::new();
        let mut i: usize = 0;
        while i < assets.len()
            invariant
                env.wf(),
                assets@ == env@.store.asset_list,
                i <= assets@.len(),
                values@.len() == i,
                forall|j: int| 0 <= j < i ==> values@[j] == (accrued(env@.store))(#[trigger] assets@[j]),
            decreases assets.len() - i,
        {
            values.push(storage::get_fees_accrued(env, &assets[i]));
            i = i + 1;
        }
        sum_over(&assets, Ghost(accrued(env@.store)), &values)
    }

    /// Returns the fee revenue forgone on `asset` because of waivers.
    pub fn waived_fee_volume(env: &Env, asset: Symbol) -> (r: i128)
        requires
            env.wf(),
        ensures
            r == env@.store.waived_volume_of(asset),
    {
        storage::get_waived_fee_volume(env, &asset)
    }

    /// Returns the sum of [`waived_fee_volume`](Self::waived_fee_volume)
    /// over every asset ever funded, or [`Error::Overflow`].
    pub fn total_waived_fee_volume(env: &Env) -> (r: Result<i128, Error>)
        requires
            env.wf(),
        ensures
            r == checked_sum(env@.store.asset_list, waived_volume(env@.store)),
    {
        let assets = storage::get_asset_list(env);
        let mut values: Vec<i128> = Vec::new();
        let mut i: usize = 0;
        while i < assets.len()
            invariant
                env.wf(),
                assets@ == env@.store.asset_list,
                i <= assets@.len(),
                values@.len() == i,
                forall|j: int| 0 <= j < i ==> values@[j] == (waived_volume(env@.store))(#[trigger] assets@[j]),
            decreases assets.len() - i,
        {
            values.push(storage::get_waived_fee_volume(env, &assets[i]));
            i = i + 1;
        }
        sum_over(&assets, Ghost(waived_volume(env@.store)), &values)
    }

    /// Returns `provider`'s liquidity balance in `asset` (zero if none).
    pub fn balance(env: &Env, provider: Address, asset: Symbol) -> (r: i128)
        requires
            env.wf(),
        ensures
            r == env@.store.balance_of(provider, asset),
    {
        storage::get_balance(env, &provider, &asset)
    }

    /// The page [`anchor_balances`](Self::anchor_balances) returns.
    pub open spec fn spec_anchor_balances(s: StoreView, provider: Address, start: u32, limit: u32) -> Seq<(Symbol, i128)> {
        page(s.asset_list, start as int, held_by(s, provider), with_balance(s, provider), limit as nat)
    }

    /// Returns up to `limit` of `provider`'s non-zero balances as
    /// `(asset, balance)` pairs, scanning the asset list from index `start`;
    /// zero balances are skipped without counting toward `limit`.
    pub fn anchor_balances(env: &Env, provider: Address, start: u32, limit: u32) -> (r: Vec<(Symbol, i128)>)
        requires
            env.wf(),
        ensures
            r@ == Self::spec_anchor_balances(env@.store, provider, start, limit),
    {
        let mut out: Vec<(Symbol, i128)> = Vec::new();
        let assets = storage::get_asset_list(env);
        let total = assets.len();
        let ghost keep = held_by(env@.store, provider);
        let ghost f = with_balance(env@.store, provider);
        if start as usize >= total {
            return out;
        }
        let mut idx: usize = start as usize;
        while idx < total && out.len() < limit as usize
            invariant
                env.wf(),
                assets@ == env@.store.asset_list,
                total == assets@.len(),
                keep == held_by(env@.store, provider),
                f == with_balance(env@.store, provider),
                start <= idx <= total,
                out@.len() <= limit,
                scan(assets@.skip(start as int), keep, f, limit as nat) == out@ + scan(
                    assets@.skip(idx as int),
                    keep,
                    f,
                    (limit - out@.len()) as nat,
                ),
            decreases total - idx,
        {
            let asset = assets[idx];
            proof {
                lemma_scan_step(assets@, idx as int, keep, f, (limit - out@.len()) as nat);
            }
            let balance = storage::get_balance(env, &provider, &asset);
            if balance != 0 {
                out.push((asset, balance));
                assert(scan(assets@.skip(start as int), keep, f, limit as nat) =~= out@ + scan(
                    assets@.skip(idx + 1),
                    keep,
                    f,
                    (limit - out@.len()) as nat,
                ));
            }
            idx = idx + 1;
        }
        assert(scan(assets@.skip(idx as int), keep, f, (limit - out@.len()) as nat) =~= Seq::empty());
        assert(out@ + Seq::<(Symbol, i128)>::empty() =~= out@);
        out
    }

    /// Returns the uncollected protocol fees for `asset`.
    pub fn fees_accrued(env: &Env, asset: Symbol) -> (r: i128)
        requires
            env.wf(),
        ensures
            r == env@.store.fees_accrued_of(asset),
    {
        storage::get_fees_accrued(env, &asset)
    }

    /// Returns a one-call snapshot of overall contract state.
    pub fn contract_info(env: &Env) -> (r: ContractInfo)
        requires
            env.wf(),
        ensures
            r == (ContractInfo {
                version: VERSION,
                paused: env@.store.paused,
                fee_bps: env@.store.fee_bps,
                anchor_count: count(env@.store.anchor_list, active_anchor(env@.store)) as u32,
                asset_count: env@.store.asset_list.len() as u32,
                settlement_count: env@.store.settlement_count,
            }),
    {
        ContractInfo {
            version: Self::version(),
            paused: storage::is_paused(env),
            fee_bps: storage::get_fee_bps(env),
            anchor_count: Self::anchor_count(env),
            asset_count: Self::asset_count(env),
            settlement_count: storage::get_settlement_count(env),
        }
    }
}

} // verus!

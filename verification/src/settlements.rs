//! Settlement entrypoints: opening, executing, cancelling and reclaiming
//! settlements, and the queries over them.

use vstd::prelude::*;

use crate::admin::gated;
use crate::contract::{apply, done, fail, fits_i128, AnchornetContract, Step};
use crate::error::Error;
use crate::events::{self, Event};
use crate::storage::{self, Env, EnvView, StoreView};
use crate::types::{Address, Pool, Settlement, SettlementStatus, Symbol};

verus! {

/// Which settlements a listing keeps.
pub enum SettlementFilter {
    /// Every settlement.
    All,
    /// Settlements opened by one anchor.
    Anchor(Address),
    /// Settlements in one asset.
    Asset(Symbol),
    /// Settlements opened by one anchor in one asset.
    AnchorAndAsset(Address, Symbol),
    /// Settlements in one lifecycle state.
    Status(SettlementStatus),
}

impl SettlementFilter {
    /// Whether `st` is kept.
    pub open spec fn keeps(self, st: Settlement) -> bool {
        match self {
            SettlementFilter::All => true,
            SettlementFilter::Anchor(a) => st.anchor == a,
            SettlementFilter::Asset(x) => st.asset == x,
            SettlementFilter::AnchorAndAsset(a, x) => st.anchor == a && st.asset == x,
            SettlementFilter::Status(status) => st.status == status,
        }
    }

    /// Returns `true` if `st` is kept.
    pub fn matches(&self, st: &Settlement) -> (r: bool)
        ensures
            r == self.keeps(*st),
    {
        match self {
            SettlementFilter::All => true,
            SettlementFilter::Anchor(a) => st.anchor == *a,
            SettlementFilter::Asset(x) => st.asset == *x,
            SettlementFilter::AnchorAndAsset(a, x) => st.anchor == *a && st.asset == *x,
            SettlementFilter::Status(status) => st.status == *status,
        }
    }
}

/// The first `limit` stored settlements kept by `filter`, scanning ids from
/// `id` up to the settlement counter.
pub open spec fn id_scan(s: StoreView, id: int, filter: SettlementFilter, limit: nat) -> Seq<Settlement>
    decreases s.settlement_count + 1 - id,
{
    if id > s.settlement_count || id < 1 || limit == 0 {
        Seq::empty()
    } else {
        match s.settlement_of(id as u64) {
            Some(st) => if filter.keeps(st) {
                seq![st] + id_scan(s, id + 1, filter, (limit - 1) as nat)
            } else {
                id_scan(s, id + 1, filter, limit)
            },
            None => id_scan(s, id + 1, filter, limit),
        }
    }
}

/// How many stored settlements with ids from `id` up to the settlement
/// counter are kept by `filter`.
pub open spec fn id_count(s: StoreView, id: int, filter: SettlementFilter) -> nat
    decreases s.settlement_count + 1 - id,
{
    if id > s.settlement_count || id < 1 {
        0
    } else {
        id_count(s, id + 1, filter) + match s.settlement_of(id as u64) {
            Some(st) => if filter.keeps(st) {
                1nat
            } else {
                0nat
            },
            None => 0nat,
        }
    }
}

/// The running sum of the amounts of settlements in `status`, scanning ids
/// from `id` up to the settlement counter with `acc` summed so far; fails
/// when a partial sum or the next id leaves its integer range.
pub open spec fn id_sum(s: StoreView, id: int, status: SettlementStatus, acc: int) -> Result<i128, Error>
    decreases s.settlement_count + 1 - id,
{
    if id > s.settlement_count || id < 1 {
        if fits_i128(acc) {
            Ok(acc as i128)
        } else {
            Err(Error::Overflow)
        }
    } else {
        let next = match s.settlement_of(id as u64) {
            Some(st) => if st.status == status {
                acc + st.amount
            } else {
                acc
            },
            None => acc,
        };
        if !fits_i128(next) || id + 1 > u64::MAX {
            Err(Error::Overflow)
        } else {
            id_sum(s, id + 1, status, next)
        }
    }
}

/// The id a listing starting at `start` scans first.
pub open spec fn first_id(start: u64) -> int {
    if start == 0 {
        1
    } else {
        start as int
    }
}

proof fn lemma_id_count_bound(s: StoreView, id: int, filter: SettlementFilter)
    requires
        id >= 1,
    ensures
        id_count(s, id, filter) <= if id > s.settlement_count {
            0
        } else {
            s.settlement_count + 1 - id
        },
    decreases s.settlement_count + 1 - id,
{
    if id <= s.settlement_count {
        lemma_id_count_bound(s, id + 1, filter);
    }
}

impl AnchornetContract {
    /// The settlements kept by `filter`, up to `limit`, from id `start`.
    fn collect_settlements(env: &Env, filter: SettlementFilter, start: u64, limit: u32) -> (r: Vec<Settlement>)
        requires
            env.wf(),
        ensures
            r@ == id_scan(env@.store, first_id(start), filter, limit as nat),
    {
        let mut out: Vec<Settlement> = Vec::new();
        let count = storage::get_settlement_count(env);
        let mut id: u128 = if start == 0 {
            1
        } else {
            start as u128
        };
        if id > count as u128 {
            return out;
        }
        while id <= count as u128 && out.len() < limit as usize
            invariant
                env.wf(),
                count == env@.store.settlement_count,
                1 <= first_id(start) <= id <= count + 1,
                out@.len() <= limit,
                id_scan(env@.store, first_id(start), filter, limit as nat) == out@ + id_scan(
                    env@.store,
                    id as int,
                    filter,
                    (limit - out@.len()) as nat,
                ),
            decreases count + 1 - id,
        {
            match storage::get_settlement(env, id as u64) {
                Some(st) => {
                    if filter.matches(&st) {
                        out.push(st);
                        assert(id_scan(env@.store, first_id(start), filter, limit as nat) =~= out@ + id_scan(
                            env@.store,
                            id + 1,
                            filter,
                            (limit - out@.len()) as nat,
                        ));
                    }
                },
                None => {},
            }
            id = id + 1;
        }
        assert(id_scan(env@.store, id as int, filter, (limit - out@.len()) as nat) =~= Seq::empty());
        assert(out@ + Seq::<Settlement>::empty() =~= out@);
        out
    }

    /// Outcome of [`open_settlement`](Self::open_settlement).
    pub open spec fn spec_open_settlement(pre: EnvView, anchor: Address, asset: Symbol, amount: i128) -> Step<u64> {
        let s = pre.store;
        let auths = seq![anchor];
        let cap = s.max_settlement_of(asset);
        let pool = s.pool_of(asset);
        let fee = Self::spec_calculate_fee(amount, s.effective_fee_bps(asset));
        let waived = s.fee_waived(anchor);
        let volume = s.waived_volume_of(asset) + fee->Ok_0;
        let id = s.settlement_count + 1;
        if s.paused {
            fail(s, Error::Paused, auths)
        } else if amount <= 0 {
            fail(s, Error::InvalidAmount, auths)
        } else if !s.is_anchor(anchor) {
            fail(s, Error::AnchorNotRegistered, auths)
        } else if cap > 0 && amount > cap {
            fail(s, Error::AboveMaxSettlementAmount, auths)
        } else if pool.total < amount {
            fail(s, Error::InsufficientLiquidity, auths)
        } else if fee is Err || (waived && !fits_i128(volume)) || id > u64::MAX {
            fail(s, Error::Overflow, auths)
        } else {
            let settlement = Settlement {
                id: id as u64,
                anchor,
                asset,
                amount,
                fee: if waived {
                    0
                } else {
                    fee->Ok_0
                },
                status: SettlementStatus::Pending,
                opened_at: pre.sequence,
            };
            done(
                id as u64,
                StoreView {
                    pools: s.pools.insert(asset, Pool { total: (pool.total - amount) as i128, ..pool }),
                    waived_fee_volume: if waived {
                        s.waived_fee_volume.insert(asset, volume as i128)
                    } else {
                        s.waived_fee_volume
                    },
                    settlement_count: id as u64,
                    settlements: s.settlements.insert(id as u64, settlement),
                    ..s
                },
                seq![Event::SettlementOpened { id: id as u64, anchor, asset }],
                auths,
            )
        }
    }

    /// Opens a settlement that reserves `amount` of `asset` liquidity for
    /// the requesting `anchor`, who must authorize the call. The reserved
    /// amount leaves the pool and a pending record is created, its fee fixed
    /// at the asset's effective rate (zero for a waived anchor, whose
    /// forgone fee is added to the asset's waived fee volume). Returns the
    /// new id.
    pub fn open_settlement(env: &mut Env, anchor: Address, asset: Symbol, amount: i128) -> (r: Result<u64, Error>)
        requires
            old(env).wf(),
        ensures
            final(env).wf(),
            r == Self::spec_open_settlement(old(env)@, anchor, asset, amount).result,
            final(env)@ == apply(old(env)@, Self::spec_open_settlement(old(env)@, anchor, asset, amount)),
    {
        env.require_auth(&anchor);
        Self::require_not_paused(env)?;
        if amount <= 0 {
            return Err(Error::InvalidAmount);
        }
        if !storage::is_anchor(env, &anchor) {
            return Err(Error::AnchorNotRegistered);
        }
        let cap = storage::get_max_settlement_amount(env, &asset);
        if cap > 0 && amount > cap {
            return Err(Error::AboveMaxSettlementAmount);
        }
        let mut pool = storage::get_pool(env, &asset);
        if pool.total < amount {
            return Err(Error::InsufficientLiquidity);
        }
        pool.total = pool.total - amount;

        let fee_bps = Self::effective_fee_bps(env, &asset);
        let computed = Self::calculate_fee(amount, fee_bps)?;
        let waived = storage::is_fee_waived(env, &anchor);
        let mut new_volume: i128 = 0;
        if waived {
            let current_volume = storage::get_waived_fee_volume(env, &asset);
            new_volume = match current_volume.checked_add(computed) {
                Some(v) => v,
                None => return Err(Error::Overflow),
            };
        }
        let id = match storage::get_settlement_count(env).checked_add(1) {
            Some(v) => v,
            None => return Err(Error::Overflow),
        };
        let fee = if waived {
            0
        } else {
            computed
        };

        storage::set_pool(env, &asset, &pool);
        if waived {
            storage::set_waived_fee_volume(env, &asset, new_volume);
        }
        storage::set_settlement_count(env, id);
        let opened_at = env.ledger_sequence();
        storage::set_settlement(
            env,
            &Settlement { id, anchor, asset, amount, fee, status: SettlementStatus::Pending, opened_at },
        );
        events::settlement_opened(env, id, &anchor, &asset);
        Ok(id)
    }

    /// Outcome of [`execute_settlement`](Self::execute_settlement).
    pub open spec fn spec_execute_settlement(pre: EnvView, id: u64) -> Step<()> {
        let s = pre.store;
        gated(
            s,
            if s.paused {
                fail(s, Error::Paused, Seq::empty())
            } else {
                match s.settlement_of(id) {
                None => fail(s, Error::SettlementNotFound, Seq::empty()),
                Some(st) => if st.status != SettlementStatus::Pending {
                    fail(s, Error::InvalidSettlementState, Seq::empty())
                } else if !fits_i128(s.fees_accrued_of(st.asset) + st.fee) {
                    fail(s, Error::Overflow, Seq::empty())
                } else {
                    done(
                        (),
                        StoreView {
                            fees_accrued: s.fees_accrued.insert(
                                st.asset,
                                (s.fees_accrued_of(st.asset) + st.fee) as i128,
                            ),
                            settlements: s.settlements.insert(
                                st.id,
                                Settlement { status: SettlementStatus::Executed, ..st },
                            ),
                            ..s
                        },
                        seq![Event::SettlementExecuted { id }],
                        Seq::empty(),
                    )
                },
                }
            },
        )
    }

    /// Executes a pending settlement, accruing its fee for later
    /// collection; the reserved liquidity is released to the anchor. Admin
    /// only; fails with [`Error::Paused`] while the contract is paused.
    pub fn execute_settlement(env: &mut Env, id: u64) -> (r: Result<(), Error>)
        requires
            old(env).wf(),
        ensures
            final(env).wf(),
            r == Self::spec_execute_settlement(old(env)@, id).result,
            final(env)@ == apply(old(env)@, Self::spec_execute_settlement(old(env)@, id)),
    {
        Self::require_admin(env)?;
        Self::require_not_paused(env)?;
        let mut settlement = match storage::get_settlement(env, id) {
            Some(st) => st,
            None => return Err(Error::SettlementNotFound),
        };
        if settlement.status != SettlementStatus::Pending {
            return Err(Error::InvalidSettlementState);
        }
        let accrued = storage::get_fees_accrued(env, &settlement.asset);
        let new_accrued = match accrued.checked_add(settlement.fee) {
            Some(v) => v,
            None => return Err(Error::Overflow),
        };
        storage::set_fees_accrued(env, &settlement.asset, new_accrued);
        settlement.status = SettlementStatus::Executed;
        storage::set_settlement(env, &settlement);
        events::settlement_executed(env, id);
        Ok(())
    }

    /// The stored entries after settlement `st` returns its reserved
    /// liquidity to the pool and takes `status`, or [`Error::Overflow`].
    pub open spec fn spec_return_to_pool(s: StoreView, st: Settlement, status: SettlementStatus) -> Result<StoreView, Error> {
        let pool = s.pool_of(st.asset);
        if !fits_i128(pool.total + st.amount) {
            Err(Error::Overflow)
        } else {
            Ok(
                StoreView {
                    pools: s.pools.insert(st.asset, Pool { total: (pool.total + st.amount) as i128, ..pool }),
                    settlements: s.settlements.insert(st.id, Settlement { status, ..st }),
                    ..s
                },
            )
        }
    }

    /// Outcome of [`cancel_settlement`](Self::cancel_settlement).
    pub open spec fn spec_cancel_settlement(pre: EnvView, id: u64) -> Step<()> {
        let s = pre.store;
        match s.settlement_of(id) {
            None => fail(s, Error::SettlementNotFound, Seq::empty()),
            Some(st) => if s.paused {
                fail(s, Error::Paused, seq![st.anchor])
            } else if st.status != SettlementStatus::Pending {
                fail(s, Error::InvalidSettlementState, seq![st.anchor])
            } else {
                match Self::spec_return_to_pool(s, st, SettlementStatus::Cancelled) {
                    Err(e) => fail(s, e, seq![st.anchor]),
                    Ok(s2) => done((), s2, seq![Event::SettlementCancelled { id }], seq![st.anchor]),
                }
            },
        }
    }

    /// Cancels a pending settlement and returns the reserved liquidity to
    /// the pool. Requires authorization from the settlement's anchor; fails
    /// with [`Error::Paused`] while the contract is paused.
    pub fn cancel_settlement(env: &mut Env, id: u64) -> (r: Result<(), Error>)
        requires
            old(env).wf(),
        ensures
            final(env).wf(),
            r == Self::spec_cancel_settlement(old(env)@, id).result,
            final(env)@ == apply(old(env)@, Self::spec_cancel_settlement(old(env)@, id)),
    {
        let mut settlement = match storage::get_settlement(env, id) {
            Some(st) => st,
            None => return Err(Error::SettlementNotFound),
        };
        env.require_auth(&settlement.anchor);
        Self::require_not_paused(env)?;
        if settlement.status != SettlementStatus::Pending {
            return Err(Error::InvalidSettlementState);
        }
        let mut pool = storage::get_pool(env, &settlement.asset);
        pool.total = match pool.total.checked_add(settlement.amount) {
            Some(v) => v,
            None => return Err(Error::Overflow),
        };
        storage::set_pool(env, &settlement.asset, &pool);
        settlement.status = SettlementStatus::Cancelled;
        storage::set_settlement(env, &settlement);
        events::settlement_cancelled(env, id);
        Ok(())
    }

    /// Outcome of [`cancel_expired_settlement`](Self::cancel_expired_settlement).
    pub open spec fn spec_cancel_expired_settlement(pre: EnvView, id: u64) -> Step<()> {
        let s = pre.store;
        let expiry = s.settlement_expiry_ledgers;
        if s.paused {
            fail(s, Error::Paused, Seq::empty())
        } else {
            match s.settlement_of(id) {
            None => fail(s, Error::SettlementNotFound, Seq::empty()),
            Some(st) => if st.status != SettlementStatus::Pending {
                fail(s, Error::InvalidSettlementState, Seq::empty())
            } else if expiry == 0 {
                fail(s, Error::SettlementNotExpired, Seq::empty())
            } else if st.opened_at + expiry > u32::MAX {
                fail(s, Error::Overflow, Seq::empty())
            } else if pre.sequence < st.opened_at + expiry {
                fail(s, Error::SettlementNotExpired, Seq::empty())
            } else {
                match Self::spec_return_to_pool(s, st, SettlementStatus::Expired) {
                    Err(e) => fail(s, e, Seq::empty()),
                    Ok(s2) => done((), s2, seq![Event::SettlementExpired { id }], Seq::empty()),
                }
            },
            }
        }
    }

    /// Reclaims the reserved liquidity of a pending settlement that sat
    /// unexecuted past the expiry window, returning it to the pool. Needs no
    /// authorization. Fails with [`Error::SettlementNotExpired`] while expiry
    /// is disabled or the window has not elapsed, and with
    /// [`Error::InvalidSettlementState`] for a settlement not pending, and
    /// with [`Error::Paused`] while the contract is paused.
    pub fn cancel_expired_settlement(env: &mut Env, id: u64) -> (r: Result<(), Error>)
        requires
            old(env).wf(),
        ensures
            final(env).wf(),
            r == Self::spec_cancel_expired_settlement(old(env)@, id).result,
            final(env)@ == apply(old(env)@, Self::spec_cancel_expired_settlement(old(env)@, id)),
    {
        Self::require_not_paused(env)?;
        let mut settlement = match storage::get_settlement(env, id) {
            Some(st) => st,
            None => return Err(Error::SettlementNotFound),
        };
        if settlement.status != SettlementStatus::Pending {
            return Err(Error::InvalidSettlementState);
        }
        let expiry = storage::get_settlement_expiry_ledgers(env);
        if expiry == 0 {
            return Err(Error::SettlementNotExpired);
        }
        let expires_at = match settlement.opened_at.checked_add(expiry) {
            Some(v) => v,
            None => return Err(Error::Overflow),
        };
        if env.ledger_sequence() < expires_at {
            return Err(Error::SettlementNotExpired);
        }
        let mut pool = storage::get_pool(env, &settlement.asset);
        pool.total = match pool.total.checked_add(settlement.amount) {
            Some(v) => v,
            None => return Err(Error::Overflow),
        };
        storage::set_pool(env, &settlement.asset, &pool);
        settlement.status = SettlementStatus::Expired;
        storage::set_settlement(env, &settlement);
        events::settlement_expired(env, id);
        Ok(())
    }

    /// The result of [`is_settlement_expired`](Self::is_settlement_expired).
    pub open spec fn spec_is_settlement_expired(pre: EnvView, id: u64) -> Result<bool, Error> {
        let s = pre.store;
        let expiry = s.settlement_expiry_ledgers;
        match s.settlement_of(id) {
            None => Err(Error::SettlementNotFound),
            Some(st) => if st.status != SettlementStatus::Pending || expiry == 0 {
                Ok(false)
            } else if st.opened_at + expiry > u32::MAX {
                Err(Error::Overflow)
            } else {
                Ok(pre.sequence >= st.opened_at + expiry)
            },
        }
    }

    /// Returns `true` if the settlement with `id` is pending and has passed
    /// the expiry window, i.e. is reclaimable via
    /// [`cancel_expired_settlement`](Self::cancel_expired_settlement);
    /// `false` while expiry is disabled or the settlement is not pending.
    pub fn is_settlement_expired(env: &Env, id: u64) -> (r: Result<bool, Error>)
        requires
            env.wf(),
        ensures
            r == Self::spec_is_settlement_expired(env@, id),
    {
        let settlement = match storage::get_settlement(env, id) {
            Some(st) => st,
            None => return Err(Error::SettlementNotFound),
        };
        if settlement.status != SettlementStatus::Pending {
            return Ok(false);
        }
        let expiry = storage::get_settlement_expiry_ledgers(env);
        if expiry == 0 {
            return Ok(false);
        }
        let expires_at = match settlement.opened_at.checked_add(expiry) {
            Some(v) => v,
            None => return Err(Error::Overflow),
        };
        Ok(env.ledger_sequence() >= expires_at)
    }

    /// Returns the number of ledgers elapsed since the settlement with `id`
    /// was opened, or [`Error::SettlementNotFound`].
    pub fn settlement_age(env: &Env, id: u64) -> (r: Result<u32, Error>)
        requires
            env.wf(),
            env@.store.settlement_of(id) is Some ==> env@.sequence >= env@.store.settlements[id].opened_at,
        ensures
            r == (match env@.store.settlement_of(id) {
                None => Err(Error::SettlementNotFound),
                Some(st) => Ok((env@.sequence - st.opened_at) as u32),
            }),
    {
        let settlement = match storage::get_settlement(env, id) {
            Some(st) => st,
            None => return Err(Error::SettlementNotFound),
        };
        Ok(env.ledger_sequence() - settlement.opened_at)
    }

    /// Returns the settlement with `id`, or [`Error::SettlementNotFound`].
    pub fn settlement(env: &Env, id: u64) -> (r: Result<Settlement, Error>)
        requires
            env.wf(),
        ensures
            r == (match env@.store.settlement_of(id) {
                Some(st) => Ok(st),
                None => Err(Error::SettlementNotFound),
            }),
    {
        match storage::get_settlement(env, id) {
            Some(st) => Ok(st),
            None => Err(Error::SettlementNotFound),
        }
    }

    /// Returns the number of settlements ever opened.
    pub fn settlement_count(env: &Env) -> (r: u64)
        ensures
            r == env@.store.settlement_count,
    {
        storage::get_settlement_count(env)
    }

    /// Returns `true` if a settlement with `id` exists.
    pub fn settlement_exists(env: &Env, id: u64) -> (r: bool)
        requires
            env.wf(),
        ensures
            r == env@.store.settlement_of(id) is Some,
    {
        storage::get_settlement(env, id).is_some()
    }

    /// Returns `true` if a settlement with `id` exists and is pending;
    /// `false` for a missing id or a settlement in a terminal state.
    pub fn is_settlement_pending(env: &Env, id: u64) -> (r: bool)
        requires
            env.wf(),
        ensures
            r == (match env@.store.settlement_of(id) {
                Some(st) => st.status == SettlementStatus::Pending,
                None => false,
            }),
    {
        if let Some(settlement) = storage::get_settlement(env, id) {
            settlement.status == SettlementStatus::Pending
        } else {
            false
        }
    }

    /// Returns up to `limit` settlements from id `start` (inclusive; zero
    /// reads as one). Missing ids are skipped.
    pub fn list_settlements(env: &Env, start: u64, limit: u32) -> (r: Vec<Settlement>)
        requires
            env.wf(),
        ensures
            r@ == id_scan(env@.store, first_id(start), SettlementFilter::All, limit as nat),
    {
        Self::collect_settlements(env, SettlementFilter::All, start, limit)
    }

    /// Returns up to `limit` settlements opened by `anchor`, from id `start`
    /// (inclusive; zero reads as one). Missing or non-matching ids are
    /// skipped without counting toward `limit`.
    pub fn list_settlements_by_anchor(env: &Env, anchor: Address, start: u64, limit: u32) -> (r: Vec<Settlement>)
        requires
            env.wf(),
        ensures
            r@ == id_scan(env@.store, first_id(start), SettlementFilter::Anchor(anchor), limit as nat),
    {
        Self::collect_settlements(env, SettlementFilter::Anchor(anchor), start, limit)
    }

    /// Returns up to `limit` settlements in `asset`, from id `start`
    /// (inclusive; zero reads as one). Missing or non-matching ids are
    /// skipped without counting toward `limit`.
    pub fn list_settlements_by_asset(env: &Env, asset: Symbol, start: u64, limit: u32) -> (r: Vec<Settlement>)
        requires
            env.wf(),
        ensures
            r@ == id_scan(env@.store, first_id(start), SettlementFilter::Asset(asset), limit as nat),
    {
        Self::collect_settlements(env, SettlementFilter::Asset(asset), start, limit)
    }

    /// Returns up to `limit` settlements matching both `anchor` and
    /// `asset`, from id `start` (inclusive; zero reads as one). Missing or
    /// non-matching ids are skipped without counting toward `limit`.
    pub fn list_settlements_by_anchor_and_asset(
        env: &Env,
        anchor: Address,
        asset: Symbol,
        start: u64,
        limit: u32,
    ) -> (r: Vec<Settlement>)
        requires
            env.wf(),
        ensures
            r@ == id_scan(env@.store, first_id(start), SettlementFilter::AnchorAndAsset(anchor, asset), limit as nat),
    {
        Self::collect_settlements(env, SettlementFilter::AnchorAndAsset(anchor, asset), start, limit)
    }

    /// Returns up to `limit` settlements in lifecycle state `status`, from
    /// id `start` (inclusive; zero reads as one). Missing or non-matching
    /// ids are skipped without counting toward `limit`.
    pub fn list_settlements_by_status(env: &Env, status: SettlementStatus, start: u64, limit: u32) -> (r: Vec<Settlement>)
        requires
            env.wf(),
        ensures
            r@ == id_scan(env@.store, first_id(start), SettlementFilter::Status(status), limit as nat),
    {
        Self::collect_settlements(env, SettlementFilter::Status(status), start, limit)
    }

    /// Returns how many settlements are currently in `status`, scanning the
    /// full settlement history.
    pub fn settlement_count_by_status(env: &Env, status: SettlementStatus) -> (r: u64)
        requires
            env.wf(),
        ensures
            r == id_count(env@.store, 1, SettlementFilter::Status(status)),
    {
        let filter = SettlementFilter::Status(status);
        let count = storage::get_settlement_count(env);
        let mut total: u64 = 0;
        let mut id: u128 = 1;
        while id <= count as u128
            invariant
                env.wf(),
                count == env@.store.settlement_count,
                1 <= id <= count + 1,
                total <= id - 1,
                filter == SettlementFilter::Status(status),
                id_count(env@.store, 1, filter) == total + id_count(env@.store, id as int, filter),
            decreases count + 1 - id,
        {
            match storage::get_settlement(env, id as u64) {
                Some(st) => {
                    if filter.matches(&st) {
                        total = total + 1;
                    }
                },
                None => {},
            }
            id = id + 1;
        }
        total
    }

    /// Returns the sum of `amount` over the settlements currently in
    /// `status`, scanning the full settlement history; fails with
    /// [`Error::Overflow`] when a partial sum leaves the `i128` range.
    pub fn total_settled_amount(env: &Env, status: SettlementStatus) -> (r: Result<i128, Error>)
        requires
            env.wf(),
        ensures
            r == id_sum(env@.store, 1, status, 0),
    {
        let count = storage::get_settlement_count(env);
        let mut total: i128 = 0;
        let mut id: u64 = 1;
        while id <= count
            invariant
                env.wf(),
                count == env@.store.settlement_count,
                1 <= id,
                id <= count + 1,
                id_sum(env@.store, 1, status, 0) == id_sum(env@.store, id as int, status, total as int),
            decreases count + 1 - id,
        {
            match storage::get_settlement(env, id) {
                Some(st) => {
                    if st.status == status {
                        total = match total.checked_add(st.amount) {
                            Some(v) => v,
                            None => return Err(Error::Overflow),
                        };
                    }
                },
                None => {},
            }
            id = match id.checked_add(1) {
                Some(v) => v,
                None => return Err(Error::Overflow),
            };
        }
        Ok(total)
    }
}

} // verus!

//! Administration entrypoints: initialization, the admin and operator
//! roles, pausing, and fee, floor, cap and expiry configuration.

use vstd::prelude::*;

use crate::contract::{apply, checked_i128, done, fail, fee_for, AnchornetContract, Step, MAX_FEE_BPS};
use crate::error::Error;
use crate::events::{self, Event};
use crate::storage::{self, Env, EnvView, StoreView};
use crate::types::{Address, Symbol};

verus! {

/// `body` behind the admin guard: fails with [`Error::NotInitialized`]
/// before any admin exists, else demands the admin's authorization first.
pub open spec fn gated<T>(s: StoreView, body: Step<T>) -> Step<T> {
    match s.admin {
        None => fail(s, Error::NotInitialized, Seq::empty()),
        Some(admin) => Step { auths: seq![admin] + body.auths, ..body },
    }
}

/// `body` behind the admin-or-operator guard for `caller`.
pub open spec fn gated_for<T>(s: StoreView, caller: Address, body: Step<T>) -> Step<T> {
    if s.admin is None {
        fail(s, Error::NotInitialized, Seq::empty())
    } else if s.admin != Some(caller) && s.operator != Some(caller) {
        fail(s, Error::NotAuthorized, Seq::empty())
    } else {
        Step { auths: seq![caller] + body.auths, ..body }
    }
}

impl AnchornetContract {
    /// Outcome of [`initialize`](Self::initialize).
    pub open spec fn spec_initialize(pre: EnvView, admin: Address) -> Step<()> {
        let s = pre.store;
        if s.admin is Some {
            fail(s, Error::AlreadyInitialized, Seq::empty())
        } else {
            done((), StoreView { admin: Some(admin), ..s }, seq![Event::Initialized { admin }], Seq::empty())
        }
    }

    /// Initializes the contract and sets the administrator.
    ///
    /// Can only be called once; subsequent calls return
    /// [`Error::AlreadyInitialized`].
    pub fn initialize(env: &mut Env, admin: Address) -> (r: Result<(), Error>)
        requires
            old(env).wf(),
        ensures
            final(env).wf(),
            r == Self::spec_initialize(old(env)@, admin).result,
            final(env)@ == apply(old(env)@, Self::spec_initialize(old(env)@, admin)),
    {
        if storage::has_admin(env) {
            return Err(Error::AlreadyInitialized);
        }
        storage::set_admin(env, &admin);
        events::initialized(env, &admin);
        Ok(())
    }

    /// Returns `true` if the contract has been initialized.
    pub fn is_initialized(env: &Env) -> (r: bool)
        ensures
            r == env@.store.admin is Some,
    {
        storage::has_admin(env)
    }

    /// Returns the current administrator address.
    pub fn admin(env: &Env) -> (r: Result<Address, Error>)
        ensures
            r == (match env@.store.admin {
                Some(a) => Ok(a),
                None => Err(Error::NotInitialized),
            }),
    {
        if !storage::has_admin(env) {
            return Err(Error::NotInitialized);
        }
        Ok(storage::get_admin(env))
    }

    /// Outcome of [`set_admin`](Self::set_admin).
    pub open spec fn spec_set_admin(pre: EnvView, new_admin: Address) -> Step<()> {
        let s = pre.store;
        gated(
            s,
            done(
                (),
                StoreView { admin: Some(new_admin), ..s },
                seq![Event::AdminChanged { new_admin }],
                Seq::empty(),
            ),
        )
    }

    /// Transfers administration to `new_admin`. Requires authorization from
    /// the current administrator.
    pub fn set_admin(env: &mut Env, new_admin: Address) -> (r: Result<(), Error>)
        requires
            old(env).wf(),
        ensures
            final(env).wf(),
            r == Self::spec_set_admin(old(env)@, new_admin).result,
            final(env)@ == apply(old(env)@, Self::spec_set_admin(old(env)@, new_admin)),
    {
        Self::require_admin(env)?;
        storage::set_admin(env, &new_admin);
        events::admin_changed(env, &new_admin);
        Ok(())
    }

    /// Outcome of [`propose_admin`](Self::propose_admin).
    pub open spec fn spec_propose_admin(pre: EnvView, candidate: Address) -> Step<()> {
        let s = pre.store;
        gated(
            s,
            if s.admin == Some(candidate) {
                fail(s, Error::InvalidAdminCandidate, Seq::empty())
            } else {
                done(
                    (),
                    StoreView { pending_admin: Some(candidate), ..s },
                    seq![Event::AdminProposed { candidate }],
                    Seq::empty(),
                )
            },
        )
    }

    /// Proposes `candidate` as the next administrator. Admin only.
    ///
    /// The transfer only takes effect once `candidate` calls
    /// [`accept_admin`](Self::accept_admin). Returns
    /// [`Error::InvalidAdminCandidate`] if `candidate` already is the
    /// administrator.
    pub fn propose_admin(env: &mut Env, candidate: Address) -> (r: Result<(), Error>)
        requires
            old(env).wf(),
        ensures
            final(env).wf(),
            r == Self::spec_propose_admin(old(env)@, candidate).result,
            final(env)@ == apply(old(env)@, Self::spec_propose_admin(old(env)@, candidate)),
    {
        Self::require_admin(env)?;
        if candidate == storage::get_admin(env) {
            return Err(Error::InvalidAdminCandidate);
        }
        storage::set_pending_admin(env, &candidate);
        events::admin_proposed(env, &candidate);
        Ok(())
    }

    /// Returns the address proposed to become the next administrator.
    pub fn pending_admin(env: &Env) -> (r: Result<Address, Error>)
        ensures
            r == (match env@.store.pending_admin {
                Some(a) => Ok(a),
                None => Err(Error::NoPendingAdmin),
            }),
    {
        if !storage::has_pending_admin(env) {
            return Err(Error::NoPendingAdmin);
        }
        Ok(storage::get_pending_admin(env))
    }

    /// Outcome of [`accept_admin`](Self::accept_admin).
    pub open spec fn spec_accept_admin(pre: EnvView, candidate: Address) -> Step<()> {
        let s = pre.store;
        if s.pending_admin is None {
            fail(s, Error::NoPendingAdmin, Seq::empty())
        } else if s.pending_admin != Some(candidate) {
            fail(s, Error::NotPendingAdmin, Seq::empty())
        } else {
            done(
                (),
                StoreView { admin: Some(candidate), pending_admin: None, ..s },
                seq![Event::AdminChanged { new_admin: candidate }],
                seq![candidate],
            )
        }
    }

    /// Accepts a pending admin transfer proposed via
    /// [`propose_admin`](Self::propose_admin). Requires authorization from
    /// `candidate`, who must match the proposed address.
    pub fn accept_admin(env: &mut Env, candidate: Address) -> (r: Result<(), Error>)
        requires
            old(env).wf(),
        ensures
            final(env).wf(),
            r == Self::spec_accept_admin(old(env)@, candidate).result,
            final(env)@ == apply(old(env)@, Self::spec_accept_admin(old(env)@, candidate)),
    {
        if !storage::has_pending_admin(env) {
            return Err(Error::NoPendingAdmin);
        }
        if storage::get_pending_admin(env) != candidate {
            return Err(Error::NotPendingAdmin);
        }
        env.require_auth(&candidate);
        storage::set_admin(env, &candidate);
        storage::clear_pending_admin(env);
        events::admin_changed(env, &candidate);
        Ok(())
    }

    /// Outcome of [`set_operator`](Self::set_operator).
    pub open spec fn spec_set_operator(pre: EnvView, operator: Address) -> Step<()> {
        let s = pre.store;
        gated(
            s,
            done(
                (),
                StoreView { operator: Some(operator), ..s },
                seq![Event::OperatorChanged { operator }],
                Seq::empty(),
            ),
        )
    }

    /// Appoints `operator`, a role that may call [`pause`](Self::pause) and
    /// [`unpause`](Self::unpause) on the admin's behalf. Replaces any
    /// previously appointed operator. Admin only.
    pub fn set_operator(env: &mut Env, operator: Address) -> (r: Result<(), Error>)
        requires
            old(env).wf(),
        ensures
            final(env).wf(),
            r == Self::spec_set_operator(old(env)@, operator).result,
            final(env)@ == apply(old(env)@, Self::spec_set_operator(old(env)@, operator)),
    {
        Self::require_admin(env)?;
        storage::set_operator(env, &operator);
        events::operator_changed(env, &operator);
        Ok(())
    }

    /// Outcome of [`clear_operator`](Self::clear_operator).
    pub open spec fn spec_clear_operator(pre: EnvView) -> Step<()> {
        let s = pre.store;
        gated(s, done((), StoreView { operator: None, ..s }, seq![Event::OperatorCleared], Seq::empty()))
    }

    /// Revokes the operator role. Admin only.
    pub fn clear_operator(env: &mut Env) -> (r: Result<(), Error>)
        requires
            old(env).wf(),
        ensures
            final(env).wf(),
            r == Self::spec_clear_operator(old(env)@).result,
            final(env)@ == apply(old(env)@, Self::spec_clear_operator(old(env)@)),
    {
        Self::require_admin(env)?;
        storage::clear_operator(env);
        events::operator_cleared(env);
        Ok(())
    }

    /// Returns the currently appointed operator, or [`Error::NoOperator`].
    pub fn operator(env: &Env) -> (r: Result<Address, Error>)
        ensures
            r == (match env@.store.operator {
                Some(a) => Ok(a),
                None => Err(Error::NoOperator),
            }),
    {
        if !storage::has_operator(env) {
            return Err(Error::NoOperator);
        }
        Ok(storage::get_operator(env))
    }

    /// Returns `true` if `address` is the currently appointed operator.
    pub fn is_operator(env: &Env, address: Address) -> (r: bool)
        ensures
            r == (env@.store.operator == Some(address)),
    {
        storage::has_operator(env) && storage::get_operator(env) == address
    }

    /// Outcome of [`pause`](Self::pause) (`paused` true) and
    /// [`unpause`](Self::unpause) (`paused` false).
    pub open spec fn spec_set_paused(pre: EnvView, caller: Address, paused: bool) -> Step<()> {
        let s = pre.store;
        gated_for(
            s,
            caller,
            done((), StoreView { paused, ..s }, seq![Event::PausedChanged { paused }], Seq::empty()),
        )
    }

    /// Pauses the contract, blocking liquidity and settlement mutations.
    /// Requires authorization from `caller`, who must be the admin or the
    /// appointed operator.
    pub fn pause(env: &mut Env, caller: Address) -> (r: Result<(), Error>)
        requires
            old(env).wf(),
        ensures
            final(env).wf(),
            r == Self::spec_set_paused(old(env)@, caller, true).result,
            final(env)@ == apply(old(env)@, Self::spec_set_paused(old(env)@, caller, true)),
    {
        Self::require_admin_or_operator(env, &caller)?;
        storage::set_paused(env, true);
        events::paused_changed(env, true);
        Ok(())
    }

    /// Resumes the contract after a pause. Requires authorization from
    /// `caller`, who must be the admin or the appointed operator.
    pub fn unpause(env: &mut Env, caller: Address) -> (r: Result<(), Error>)
        requires
            old(env).wf(),
        ensures
            final(env).wf(),
            r == Self::spec_set_paused(old(env)@, caller, false).result,
            final(env)@ == apply(old(env)@, Self::spec_set_paused(old(env)@, caller, false)),
    {
        Self::require_admin_or_operator(env, &caller)?;
        storage::set_paused(env, false);
        events::paused_changed(env, false);
        Ok(())
    }

    /// Returns `true` if the contract is currently paused.
    pub fn is_paused(env: &Env) -> (r: bool)
        ensures
            r == env@.store.paused,
    {
        storage::is_paused(env)
    }

    /// Outcome of [`extend_instance_ttl`](Self::extend_instance_ttl).
    pub open spec fn spec_extend_instance_ttl(pre: EnvView, caller: Address) -> Step<()> {
        let s = pre.store;
        gated_for(s, caller, done((), s, Seq::empty(), Seq::empty()))
    }

    /// Authorizes extending the contract instance's time-to-live. Callable
    /// by the admin or the appointed operator; on `Ok` the host extends the
    /// instance and code entries. Stored entries are unchanged.
    pub fn extend_instance_ttl(env: &mut Env, caller: Address) -> (r: Result<(), Error>)
        requires
            old(env).wf(),
        ensures
            final(env).wf(),
            r == Self::spec_extend_instance_ttl(old(env)@, caller).result,
            final(env)@ == apply(old(env)@, Self::spec_extend_instance_ttl(old(env)@, caller)),
    {
        Self::require_admin_or_operator(env, &caller)?;
        Ok(())
    }

    /// Outcome of [`set_fee`](Self::set_fee).
    pub open spec fn spec_set_fee(pre: EnvView, bps: u32) -> Step<()> {
        let s = pre.store;
        gated(
            s,
            if bps > MAX_FEE_BPS {
                fail(s, Error::InvalidFee, Seq::empty())
            } else {
                done((), StoreView { fee_bps: bps, ..s }, seq![Event::FeeChanged { bps }], Seq::empty())
            },
        )
    }

    /// Sets the protocol fee in basis points (max 1000 = 10%). Admin only.
    pub fn set_fee(env: &mut Env, bps: u32) -> (r: Result<(), Error>)
        requires
            old(env).wf(),
        ensures
            final(env).wf(),
            r == Self::spec_set_fee(old(env)@, bps).result,
            final(env)@ == apply(old(env)@, Self::spec_set_fee(old(env)@, bps)),
    {
        Self::require_admin(env)?;
        if bps > MAX_FEE_BPS {
            return Err(Error::InvalidFee);
        }
        storage::set_fee_bps(env, bps);
        events::fee_changed(env, bps);
        Ok(())
    }

    /// Returns the protocol fee in basis points.
    pub fn fee(env: &Env) -> (r: u32)
        ensures
            r == env@.store.fee_bps,
    {
        storage::get_fee_bps(env)
    }

    /// The result of [`quote_fee`](Self::quote_fee).
    pub open spec fn spec_quote_fee(s: StoreView, asset: Symbol, amount: i128) -> Result<i128, Error> {
        if amount <= 0 {
            Err(Error::InvalidAmount)
        } else {
            checked_i128(fee_for(amount as int, s.effective_fee_bps(asset) as int))
        }
    }

    /// Previews the protocol fee charged for settling `amount` of `asset`
    /// at its effective fee rate. Returns [`Error::InvalidAmount`] when
    /// `amount` is zero or negative.
    pub fn quote_fee(env: &Env, asset: Symbol, amount: i128) -> (r: Result<i128, Error>)
        requires
            env.wf(),
        ensures
            r == Self::spec_quote_fee(env@.store, asset, amount),
    {
        if amount <= 0 {
            return Err(Error::InvalidAmount);
        }
        Self::calculate_fee(amount, Self::effective_fee_bps(env, &asset))
    }

    /// Outcome of [`set_fee_waiver`](Self::set_fee_waiver).
    pub open spec fn spec_set_fee_waiver(pre: EnvView, anchor: Address, waived: bool) -> Step<()> {
        let s = pre.store;
        gated(
            s,
            if !s.is_anchor(anchor) {
                fail(s, Error::AnchorNotRegistered, Seq::empty())
            } else {
                done(
                    (),
                    StoreView { fee_waivers: s.fee_waivers.insert(anchor, waived), ..s },
                    seq![Event::FeeWaiverChanged { anchor, waived }],
                    Seq::empty(),
                )
            },
        )
    }

    /// Grants or revokes a protocol fee waiver for `anchor`, which must be a
    /// registered anchor. Admin only.
    pub fn set_fee_waiver(env: &mut Env, anchor: Address, waived: bool) -> (r: Result<(), Error>)
        requires
            old(env).wf(),
        ensures
            final(env).wf(),
            r == Self::spec_set_fee_waiver(old(env)@, anchor, waived).result,
            final(env)@ == apply(old(env)@, Self::spec_set_fee_waiver(old(env)@, anchor, waived)),
    {
        Self::require_admin(env)?;
        if !storage::is_anchor(env, &anchor) {
            return Err(Error::AnchorNotRegistered);
        }
        storage::set_fee_waiver(env, &anchor, waived);
        events::fee_waiver_changed(env, &anchor, waived);
        Ok(())
    }

    /// Returns `true` if `anchor` is currently exempt from protocol
    /// settlement fees.
    pub fn is_fee_waived(env: &Env, anchor: Address) -> (r: bool)
        requires
            env.wf(),
        ensures
            r == env@.store.fee_waived(anchor),
    {
        storage::is_fee_waived(env, &anchor)
    }

    /// Outcome of [`set_asset_fee`](Self::set_asset_fee).
    pub open spec fn spec_set_asset_fee(pre: EnvView, asset: Symbol, bps: u32) -> Step<()> {
        let s = pre.store;
        gated(
            s,
            if bps > MAX_FEE_BPS {
                fail(s, Error::InvalidFee, Seq::empty())
            } else {
                done(
                    (),
                    StoreView { asset_fees: s.asset_fees.insert(asset, bps), ..s },
                    seq![Event::AssetFeeChanged { asset, bps }],
                    Seq::empty(),
                )
            },
        )
    }

    /// Overrides the protocol fee for `asset`, in basis points (max 1000),
    /// independent of the global rate. Admin only.
    pub fn set_asset_fee(env: &mut Env, asset: Symbol, bps: u32) -> (r: Result<(), Error>)
        requires
            old(env).wf(),
        ensures
            final(env).wf(),
            r == Self::spec_set_asset_fee(old(env)@, asset, bps).result,
            final(env)@ == apply(old(env)@, Self::spec_set_asset_fee(old(env)@, asset, bps)),
    {
        Self::require_admin(env)?;
        if bps > MAX_FEE_BPS {
            return Err(Error::InvalidFee);
        }
        storage::set_asset_fee(env, &asset, bps);
        events::asset_fee_changed(env, &asset, bps);
        Ok(())
    }

    /// Outcome of [`clear_asset_fee`](Self::clear_asset_fee).
    pub open spec fn spec_clear_asset_fee(pre: EnvView, asset: Symbol) -> Step<()> {
        let s = pre.store;
        gated(
            s,
            done(
                (),
                StoreView { asset_fees: s.asset_fees.remove(asset), ..s },
                seq![Event::AssetFeeCleared { asset }],
                Seq::empty(),
            ),
        )
    }

    /// Clears any fee override for `asset`, reverting it to the global fee.
    /// Admin only.
    pub fn clear_asset_fee(env: &mut Env, asset: Symbol) -> (r: Result<(), Error>)
        requires
            old(env).wf(),
        ensures
            final(env).wf(),
            r == Self::spec_clear_asset_fee(old(env)@, asset).result,
            final(env)@ == apply(old(env)@, Self::spec_clear_asset_fee(old(env)@, asset)),
    {
        Self::require_admin(env)?;
        storage::clear_asset_fee(env, &asset);
        events::asset_fee_cleared(env, &asset);
        Ok(())
    }

    /// Returns the effective protocol fee for `asset`, in basis points: its
    /// override if one is configured, otherwise the global fee.
    pub fn asset_fee(env: &Env, asset: Symbol) -> (r: u32)
        requires
            env.wf(),
        ensures
            r == env@.store.effective_fee_bps(asset),
    {
        Self::effective_fee_bps(env, &asset)
    }

    /// Outcome of [`set_settlement_expiry_ledgers`](Self::set_settlement_expiry_ledgers).
    pub open spec fn spec_set_settlement_expiry_ledgers(pre: EnvView, ledgers: u32) -> Step<()> {
        let s = pre.store;
        gated(
            s,
            done(
                (),
                StoreView { settlement_expiry_ledgers: ledgers, ..s },
                seq![Event::SettlementExpiryChanged { ledgers }],
                Seq::empty(),
            ),
        )
    }

    /// Sets the number of ledgers a pending settlement may remain open
    /// before it can be reclaimed; zero disables expiry. The window is read
    /// live, so a change applies to every pending settlement. Admin only.
    pub fn set_settlement_expiry_ledgers(env: &mut Env, ledgers: u32) -> (r: Result<(), Error>)
        requires
            old(env).wf(),
        ensures
            final(env).wf(),
            r == Self::spec_set_settlement_expiry_ledgers(old(env)@, ledgers).result,
            final(env)@ == apply(old(env)@, Self::spec_set_settlement_expiry_ledgers(old(env)@, ledgers)),
    {
        Self::require_admin(env)?;
        storage::set_settlement_expiry_ledgers(env, ledgers);
        events::settlement_expiry_changed(env, ledgers);
        Ok(())
    }

    /// Returns the settlement expiry window in ledgers (zero if disabled).
    pub fn settlement_expiry_ledgers(env: &Env) -> (r: u32)
        ensures
            r == env@.store.settlement_expiry_ledgers,
    {
        storage::get_settlement_expiry_ledgers(env)
    }

    /// Outcome of [`collect_fees`](Self::collect_fees).
    pub open spec fn spec_collect_fees(pre: EnvView, asset: Symbol) -> Step<i128> {
        let s = pre.store;
        let amount = s.fees_accrued_of(asset);
        gated(
            s,
            if amount == 0 {
                fail(s, Error::NoFeesToCollect, Seq::empty())
            } else {
                done(
                    amount,
                    StoreView { fees_accrued: s.fees_accrued.insert(asset, 0), ..s },
                    seq![Event::FeesCollected { asset, amount }],
                    Seq::empty(),
                )
            },
        )
    }

    /// Collects the accrued protocol fees for `asset`, resetting them to
    /// zero and returning the collected amount. Admin only.
    pub fn collect_fees(env: &mut Env, asset: Symbol) -> (r: Result<i128, Error>)
        requires
            old(env).wf(),
        ensures
            final(env).wf(),
            r == Self::spec_collect_fees(old(env)@, asset).result,
            final(env)@ == apply(old(env)@, Self::spec_collect_fees(old(env)@, asset)),
    {
        Self::require_admin(env)?;
        let amount = storage::get_fees_accrued(env, &asset);
        if amount == 0 {
            return Err(Error::NoFeesToCollect);
        }
        storage::set_fees_accrued(env, &asset, 0);
        events::fees_collected(env, &asset, amount);
        Ok(amount)
    }

    /// Outcome of [`set_min_liquidity`](Self::set_min_liquidity).
    pub open spec fn spec_set_min_liquidity(pre: EnvView, asset: Symbol, floor: i128) -> Step<()> {
        let s = pre.store;
        gated(
            s,
            if floor < 0 {
                fail(s, Error::InvalidAmount, Seq::empty())
            } else {
                done(
                    (),
                    StoreView { min_liquidity: s.min_liquidity.insert(asset, floor), ..s },
                    seq![Event::MinLiquidityChanged { asset, floor }],
                    Seq::empty(),
                )
            },
        )
    }

    /// Sets the minimum liquidity floor of `asset`: withdrawals that would
    /// leave the pool below it fail with [`Error::BelowMinLiquidity`]. Zero
    /// disables the check. Admin only.
    pub fn set_min_liquidity(env: &mut Env, asset: Symbol, floor: i128) -> (r: Result<(), Error>)
        requires
            old(env).wf(),
        ensures
            final(env).wf(),
            r == Self::spec_set_min_liquidity(old(env)@, asset, floor).result,
            final(env)@ == apply(old(env)@, Self::spec_set_min_liquidity(old(env)@, asset, floor)),
    {
        Self::require_admin(env)?;
        if floor < 0 {
            return Err(Error::InvalidAmount);
        }
        storage::set_min_liquidity(env, &asset, floor);
        events::min_liquidity_changed(env, &asset, floor);
        Ok(())
    }

    /// Returns the minimum liquidity floor of `asset` (zero if disabled).
    pub fn min_liquidity(env: &Env, asset: Symbol) -> (r: i128)
        requires
            env.wf(),
        ensures
            r == env@.store.min_liquidity_of(asset),
    {
        storage::get_min_liquidity(env, &asset)
    }

    /// Outcome of [`set_max_settlement_amount`](Self::set_max_settlement_amount).
    pub open spec fn spec_set_max_settlement_amount(pre: EnvView, asset: Symbol, amount: i128) -> Step<()> {
        let s = pre.store;
        gated(
            s,
            if amount < 0 {
                fail(s, Error::InvalidAmount, Seq::empty())
            } else {
                done(
                    (),
                    StoreView { max_settlement_amount: s.max_settlement_amount.insert(asset, amount), ..s },
                    seq![Event::MaxSettlementAmountChanged { asset, amount }],
                    Seq::empty(),
                )
            },
        )
    }

    /// Sets the maximum amount a single settlement may reserve in `asset`;
    /// zero disables the check. Admin only.
    pub fn set_max_settlement_amount(env: &mut Env, asset: Symbol, amount: i128) -> (r: Result<(), Error>)
        requires
            old(env).wf(),
        ensures
            final(env).wf(),
            r == Self::spec_set_max_settlement_amount(old(env)@, asset, amount).result,
            final(env)@ == apply(old(env)@, Self::spec_set_max_settlement_amount(old(env)@, asset, amount)),
    {
        Self::require_admin(env)?;
        if amount < 0 {
            return Err(Error::InvalidAmount);
        }
        storage::set_max_settlement_amount(env, &asset, amount);
        events::max_settlement_amount_changed(env, &asset, amount);
        Ok(())
    }

    /// Returns the maximum settlement amount of `asset` (zero if disabled).
    pub fn max_settlement_amount(env: &Env, asset: Symbol) -> (r: i128)
        requires
            env.wf(),
        ensures
            r == env@.store.max_settlement_of(asset),
    {
        storage::get_max_settlement_amount(env, &asset)
    }
}

} // verus!

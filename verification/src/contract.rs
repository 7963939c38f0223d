//! The AnchorNet contract: shared definitions, fee arithmetic and the
//! authorization and validation guards used by its entrypoints.
//!
//! Every entrypoint's behaviour is stated as a [`Step`]: the result it
//! returns, the entries it stores, the events it publishes and the
//! authorizations it demands. A failing entrypoint stores nothing and
//! publishes nothing (the host rolls such an invocation back), though the
//! authorizations it demanded before failing are still demanded.

use vstd::prelude::*;
use vstd::arithmetic::div_mod::lemma_fundamental_div_mod_converse_div;

use crate::error::Error;
use crate::events::Event;
use crate::storage::{self, Env, EnvView, StoreView};
use crate::types::{Address, Symbol};

verus! {

/// Maximum protocol fee that can be configured: 1000 bps (10%).
pub const MAX_FEE_BPS: u32 = 1_000;

/// Basis-points denominator.
pub const BPS_DENOMINATOR: i128 = 10_000;

/// The contract interface version.
pub const VERSION: u32 = 9;

/// The AnchorNet liquidity coordination contract.
///
/// Tracks per-asset liquidity pools funded by registered anchors so the
/// off-chain routing layer can settle cross-anchor payments against a shared,
/// auditable on-chain balance.
pub struct AnchornetContract;

/// What an entrypoint does to its environment.
pub struct Step<T> {
    /// The value returned.
    pub result: Result<T, Error>,
    /// The stored entries afterwards, when `result` is `Ok`.
    pub store: StoreView,
    /// The events published, when `result` is `Ok`.
    pub events: Seq<Event>,
    /// The addresses whose authorization is demanded, in order.
    pub auths: Seq<Address>,
}

/// A failing step: nothing stored or published.
pub open spec fn fail<T>(store: StoreView, e: Error, auths: Seq<Address>) -> Step<T> {
    Step { result: Err(e), store, events: Seq::empty(), auths }
}

/// A successful step.
pub open spec fn done<T>(value: T, store: StoreView, events: Seq<Event>, auths: Seq<Address>) -> Step<T> {
    Step { result: Ok(value), store, events, auths }
}

/// The environment after `step` runs in `pre`: a successful step stores its
/// entries and publishes its events, a failing one leaves both untouched;
/// either way its demanded authorizations are recorded.
pub open spec fn apply<T>(pre: EnvView, step: Step<T>) -> EnvView {
    EnvView {
        store: if step.result is Ok {
            step.store
        } else {
            pre.store
        },
        events: if step.result is Ok {
            pre.events + step.events
        } else {
            pre.events
        },
        auths: pre.auths + step.auths,
        sequence: pre.sequence,
    }
}

/// Whether `v` fits an `i128`.
pub open spec fn fits_i128(v: int) -> bool {
    i128::MIN <= v <= i128::MAX
}

/// `v` as an `i128`, or [`Error::Overflow`] when it does not fit.
pub open spec fn checked_i128(v: int) -> Result<i128, Error> {
    if fits_i128(v) {
        Ok(v as i128)
    } else {
        Err(Error::Overflow)
    }
}

/// The fee on `amount` at `bps` basis points, `amount * bps / 10_000`
/// rounded toward zero.
pub open spec fn fee_for(amount: int, bps: int) -> int {
    if amount >= 0 {
        amount * bps / 10_000
    } else {
        -((-amount) * bps / 10_000)
    }
}

/// The first `limit` items of `s` satisfying `keep`, each mapped by `f`.
pub open spec fn scan<A, B>(s: Seq<A>, keep: spec_fn(A) -> bool, f: spec_fn(A) -> B, limit: nat) -> Seq<B>
    decreases s.len(),
{
    if s.len() == 0 || limit == 0 {
        Seq::empty()
    } else if keep(s[0]) {
        seq![f(s[0])] + scan(s.drop_first(), keep, f, (limit - 1) as nat)
    } else {
        scan(s.drop_first(), keep, f, limit)
    }
}

/// The page of `list` that starts at index `start`: its first `limit`
/// items satisfying `keep`, each mapped by `f`.
pub open spec fn page<A, B>(list: Seq<A>, start: int, keep: spec_fn(A) -> bool, f: spec_fn(A) -> B, limit: nat) -> Seq<B> {
    if start >= list.len() {
        Seq::empty()
    } else {
        scan(list.skip(start), keep, f, limit)
    }
}

/// How many items of `s` satisfy `keep`.
pub open spec fn count<A>(s: Seq<A>, keep: spec_fn(A) -> bool) -> nat
    decreases s.len(),
{
    if s.len() == 0 {
        0
    } else {
        count(s.drop_first(), keep) + if keep(s[0]) {
            1nat
        } else {
            0nat
        }
    }
}

/// Scanning `s` from index `i` adds `s[i]` when it is kept.
pub proof fn lemma_scan_step<A, B>(s: Seq<A>, i: int, keep: spec_fn(A) -> bool, f: spec_fn(A) -> B, limit: nat)
    requires
        0 <= i < s.len(),
        limit > 0,
    ensures
        scan(s.skip(i), keep, f, limit) == if keep(s[i]) {
            seq![f(s[i])] + scan(s.skip(i + 1), keep, f, (limit - 1) as nat)
        } else {
            scan(s.skip(i + 1), keep, f, limit)
        },
        count(s.skip(i), keep) == count(s.skip(i + 1), keep) + if keep(s[i]) {
            1nat
        } else {
            0nat
        },
{
    assert(s.skip(i).drop_first() =~= s.skip(i + 1));
}

/// At most every item is counted.
pub proof fn lemma_count_bound<A>(s: Seq<A>, keep: spec_fn(A) -> bool)
    ensures
        count(s, keep) <= s.len(),
    decreases s.len(),
{
    if s.len() > 0 {
        lemma_count_bound(s.drop_first(), keep);
    }
}

impl AnchornetContract {
    /// Returns the contract interface version.
    pub fn version() -> (r: u32)
        ensures
            r == VERSION,
    {
        VERSION
    }

    /// Returns the maximum protocol fee, in basis points, that `set_fee` and
    /// `set_asset_fee` will accept.
    pub fn max_fee_bps() -> (r: u32)
        ensures
            r == MAX_FEE_BPS,
    {
        MAX_FEE_BPS
    }

    /// The result of [`calculate_fee`](Self::calculate_fee).
    pub open spec fn spec_calculate_fee(amount: i128, fee_bps: u32) -> Result<i128, Error> {
        checked_i128(fee_for(amount as int, fee_bps as int))
    }

    /// Computes `amount * fee_bps / 10_000`, rounded toward zero, without an
    /// intermediate product that could overflow; fails with
    /// [`Error::Overflow`] only when the fee itself does not fit an `i128`.
    pub fn calculate_fee(amount: i128, fee_bps: u32) -> (r: Result<i128, Error>)
        ensures
            r == Self::spec_calculate_fee(amount, fee_bps),
    {
        let bps = fee_bps as i128;
        let q = amount / BPS_DENOMINATOR;
        let rest = amount % BPS_DENOMINATOR;
        assert(amount == q * 10_000 + rest);
        assert(0 <= bps <= 0xffff_ffff);
        assert(-10_000 < rest < 10_000);
        assert(-10_000 * 0x1_0000_0000 <= rest * bps <= 10_000 * 0x1_0000_0000) by (nonlinear_arith)
            requires
                -10_000 < rest < 10_000,
                0 <= bps <= 0xffff_ffff,
        ;
        let part = match rest.checked_mul(bps) {
            Some(v) => v,
            None => return Err(Error::Overflow),
        };
        let rem = part / BPS_DENOMINATOR;
        let m = part % BPS_DENOMINATOR;
        assert(part == rem * 10_000 + m);
        let ghost f = fee_for(amount as int, fee_bps as int);
        proof {
            let qb = q * bps;
            assert(amount * bps == (qb + rem) * 10_000 + m) by (nonlinear_arith)
                requires
                    amount == q * 10_000 + rest,
                    part == rest * bps,
                    part == rem * 10_000 + m,
                    qb == q * bps,
            ;
            if amount >= 0 {
                assert(q >= 0 && rest >= 0);
                assert(part >= 0) by (nonlinear_arith)
                    requires
                        rest >= 0,
                        bps >= 0,
                        part == rest * bps,
                ;
                assert(0 <= m < 10_000);
                assert(qb >= 0) by (nonlinear_arith)
                    requires
                        q >= 0,
                        bps >= 0,
                        qb == q * bps,
                ;
                lemma_fundamental_div_mod_converse_div(amount * bps, 10_000, qb + rem, m as int);
                assert(f == qb + rem);
                assert(rem >= 0);
            } else {
                assert(q <= 0 && rest <= 0);
                assert(part <= 0) by (nonlinear_arith)
                    requires
                        rest <= 0,
                        bps >= 0,
                        part == rest * bps,
                ;
                assert(-10_000 < m <= 0);
                assert(qb <= 0) by (nonlinear_arith)
                    requires
                        q <= 0,
                        bps >= 0,
                        qb == q * bps,
                ;
                assert((-amount) * bps == (-qb - rem) * 10_000 + (-m)) by (nonlinear_arith)
                    requires
                        amount * bps == (qb + rem) * 10_000 + m,
                ;
                lemma_fundamental_div_mod_converse_div((-amount) * bps, 10_000, -qb - rem, -m);
                assert(f == qb + rem);
                assert(rem <= 0);
            }
        }
        let whole = match q.checked_mul(bps) {
            Some(v) => v,
            None => return Err(Error::Overflow),
        };
        match whole.checked_add(rem) {
            Some(v) => Ok(v),
            None => Err(Error::Overflow),
        }
    }

    /// The fee rate charged for `asset`: its override, else the global fee.
    pub fn effective_fee_bps(env: &Env, asset: &Symbol) -> (r: u32)
        requires
            env.wf(),
        ensures
            r == env@.store.effective_fee_bps(*asset),
    {
        match storage::get_asset_fee(env, asset) {
            Some(bps) => bps,
            None => storage::get_fee_bps(env),
        }
    }

    /// The outcome of the admin guard: fails with
    /// [`Error::NotInitialized`] before any admin exists, else demands the
    /// admin's authorization.
    pub open spec fn spec_require_admin(s: StoreView) -> Step<()> {
        match s.admin {
            None => fail(s, Error::NotInitialized, Seq::empty()),
            Some(admin) => done((), s, Seq::empty(), seq![admin]),
        }
    }

    /// Requires the call to be authorized by the current administrator.
    pub fn require_admin(env: &mut Env) -> (r: Result<(), Error>)
        requires
            old(env).wf(),
        ensures
            final(env).wf(),
            r == Self::spec_require_admin(old(env)@.store).result,
            final(env)@ == apply(old(env)@, Self::spec_require_admin(old(env)@.store)),
    {
        if !storage::has_admin(env) {
            return Err(Error::NotInitialized);
        }
        let admin = storage::get_admin(env);
        env.require_auth(&admin);
        Ok(())
    }

    /// The outcome of the admin-or-operator guard for `caller`.
    pub open spec fn spec_require_admin_or_operator(s: StoreView, caller: Address) -> Step<()> {
        if s.admin is None {
            fail(s, Error::NotInitialized, Seq::empty())
        } else if s.admin != Some(caller) && s.operator != Some(caller) {
            fail(s, Error::NotAuthorized, Seq::empty())
        } else {
            done((), s, Seq::empty(), seq![caller])
        }
    }

    /// Requires the call to be authorized by `caller`, who must be either
    /// the current administrator or the appointed operator.
    pub fn require_admin_or_operator(env: &mut Env, caller: &Address) -> (r: Result<(), Error>)
        requires
            old(env).wf(),
        ensures
            final(env).wf(),
            r == Self::spec_require_admin_or_operator(old(env)@.store, *caller).result,
            final(env)@ == apply(old(env)@, Self::spec_require_admin_or_operator(old(env)@.store, *caller)),
    {
        if !storage::has_admin(env) {
            return Err(Error::NotInitialized);
        }
        let is_admin = *caller == storage::get_admin(env);
        let is_operator = storage::has_operator(env) && *caller == storage::get_operator(env);
        if !is_admin && !is_operator {
            return Err(Error::NotAuthorized);
        }
        env.require_auth(caller);
        Ok(())
    }

    /// Requires the contract to be active (not paused).
    pub fn require_not_paused(env: &Env) -> (r: Result<(), Error>)
        ensures
            r == (if env@.store.paused {
                Err(Error::Paused)
            } else {
                Ok(())
            }),
    {
        if storage::is_paused(env) {
            return Err(Error::Paused);
        }
        Ok(())
    }

    /// The outcome of the minimum-liquidity check for withdrawing `amount`
    /// of `asset`.
    pub open spec fn spec_require_min_liquidity(s: StoreView, asset: Symbol, amount: i128) -> Result<(), Error> {
        let floor = s.min_liquidity_of(asset);
        let remaining = s.pool_of(asset).total - amount;
        if floor == 0 {
            Ok(())
        } else if !fits_i128(remaining) {
            Err(Error::Overflow)
        } else if remaining < floor {
            Err(Error::BelowMinLiquidity)
        } else {
            Ok(())
        }
    }

    /// Requires that withdrawing `amount` from `asset`'s pool would not
    /// leave its total below the configured minimum liquidity floor. A floor
    /// of zero (the default) always passes.
    pub fn require_min_liquidity(env: &Env, asset: &Symbol, amount: i128) -> (r: Result<(), Error>)
        requires
            env.wf(),
        ensures
            r == Self::spec_require_min_liquidity(env@.store, *asset, amount),
    {
        let floor = storage::get_min_liquidity(env, asset);
        if floor == 0 {
            return Ok(());
        }
        let pool = storage::get_pool(env, asset);
        let remaining = match pool.total.checked_sub(amount) {
            Some(v) => v,
            None => return Err(Error::Overflow),
        };
        if remaining < floor {
            return Err(Error::BelowMinLiquidity);
        }
        Ok(())
    }
}

} // verus!

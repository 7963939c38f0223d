//! Liquidity entrypoints: providing and withdrawing, singly and in batches.

use vstd::prelude::*;

use crate::contract::{apply, done, fail, fits_i128, AnchornetContract, Step};
use crate::error::Error;
use crate::events::{self, Event};
use crate::storage::{self, Env, EnvView, StoreView, MAX_LIST_LEN};
use crate::table::vec_contains;
use crate::types::{Address, BalanceKey, Pool, Symbol};

verus! {

/// Stored entries and published events of a successful change.
pub type Effect = (StoreView, Seq<Event>);

/// The step that applies `effect`, demanding `auths`.
pub open spec fn step_of(s: StoreView, effect: Result<Effect, Error>, auths: Seq<Address>) -> Step<()> {
    match effect {
        Ok((s2, evs)) => done((), s2, evs, auths),
        Err(e) => fail(s, e, auths),
    }
}

/// `provider` adds `amount` of `asset`: the pool total and the balance
/// grow by `amount`, the provider count grows when the prior balance was
/// zero, and a first-time asset is remembered and onboarded.
pub open spec fn provide_effect(s: StoreView, provider: Address, asset: Symbol, amount: i128) -> Result<Effect, Error> {
    let pool = s.pool_of(asset);
    let prior = s.balance_of(provider, asset);
    let providers = if prior == 0 {
        pool.providers + 1
    } else {
        pool.providers as int
    };
    let total = pool.total + amount;
    let balance = prior + amount;
    if providers > u32::MAX || !fits_i128(total) || !fits_i128(balance) {
        Err(Error::Overflow)
    } else {
        let is_new = !s.asset_list.contains(asset);
        let s2 = StoreView {
            pools: s.pools.insert(asset, Pool { total: total as i128, providers: providers as u32, ..pool }),
            balances: s.balances.insert(BalanceKey { provider, asset }, balance as i128),
            asset_list: if is_new {
                s.asset_list.push(asset)
            } else {
                s.asset_list
            },
            ..s
        };
        let evs = seq![Event::LiquidityProvided { provider, asset, amount }] + if is_new {
            seq![Event::AssetOnboarded { asset }]
        } else {
            Seq::empty()
        };
        Ok((s2, evs))
    }
}

/// `provider` takes `amount` of `asset` back: the pool total and the
/// balance shrink by `amount`, and the provider count shrinks when the
/// balance reaches zero.
pub open spec fn withdraw_effect(s: StoreView, provider: Address, asset: Symbol, amount: i128) -> Result<Effect, Error> {
    let pool = s.pool_of(asset);
    let prior = s.balance_of(provider, asset);
    let total = pool.total - amount;
    let remaining = prior - amount;
    let providers = if remaining == 0 {
        pool.providers - 1
    } else {
        pool.providers as int
    };
    if !fits_i128(total) || !fits_i128(remaining) || providers < 0 {
        Err(Error::Overflow)
    } else {
        Ok(
            (
                StoreView {
                    pools: s.pools.insert(asset, Pool { total: total as i128, providers: providers as u32, ..pool }),
                    balances: s.balances.insert(BalanceKey { provider, asset }, remaining as i128),
                    ..s
                },
                seq![Event::LiquidityWithdrawn { provider, asset, amount }],
            ),
        )
    }
}

/// The assets named by a batch of requests.
pub open spec fn assets_of(requests: Seq<(Symbol, i128)>) -> Seq<Symbol> {
    requests.map_values(|r: (Symbol, i128)| r.0)
}

/// Why request `i` of a provide batch is rejected, if it is.
pub open spec fn provide_request_error(requests: Seq<(Symbol, i128)>, i: int) -> Option<Error> {
    if requests[i].1 <= 0 {
        Some(Error::InvalidAmount)
    } else if assets_of(requests).take(i).contains(requests[i].0) {
        Some(Error::DuplicateAssetInBatch)
    } else {
        None
    }
}

/// The first rejection among provide requests `i..`.
pub open spec fn provide_batch_error(requests: Seq<(Symbol, i128)>, i: int) -> Option<Error>
    decreases requests.len() - i,
{
    if i < 0 || i >= requests.len() {
        None
    } else if provide_request_error(requests, i) is Some {
        provide_request_error(requests, i)
    } else {
        provide_batch_error(requests, i + 1)
    }
}

/// Why request `i` of a withdraw batch is rejected, if it is.
pub open spec fn withdraw_request_error(s: StoreView, provider: Address, requests: Seq<(Symbol, i128)>, i: int) -> Option<Error> {
    let (asset, amount) = requests[i];
    if amount <= 0 {
        Some(Error::InvalidAmount)
    } else if assets_of(requests).take(i).contains(asset) {
        Some(Error::DuplicateAssetInBatch)
    } else if s.balance_of(provider, asset) < amount {
        Some(Error::InsufficientLiquidity)
    } else {
        match AnchornetContract::spec_require_min_liquidity(s, asset, amount) {
            Err(e) => Some(e),
            Ok(_) => None,
        }
    }
}

/// The first rejection among withdraw requests `i..`.
pub open spec fn withdraw_batch_error(s: StoreView, provider: Address, requests: Seq<(Symbol, i128)>, i: int) -> Option<Error>
    decreases requests.len() - i,
{
    if i < 0 || i >= requests.len() {
        None
    } else if withdraw_request_error(s, provider, requests, i) is Some {
        withdraw_request_error(s, provider, requests, i)
    } else {
        withdraw_batch_error(s, provider, requests, i + 1)
    }
}

/// Every provide request applied in order, stopping at the first failure.
pub open spec fn provide_all(s: StoreView, provider: Address, requests: Seq<(Symbol, i128)>) -> Result<Effect, Error>
    decreases requests.len(),
{
    if requests.len() == 0 {
        Ok((s, Seq::empty()))
    } else {
        match provide_all(s, provider, requests.drop_last()) {
            Err(e) => Err(e),
            Ok((s1, e1)) => match provide_effect(s1, provider, requests.last().0, requests.last().1) {
                Err(e) => Err(e),
                Ok((s2, e2)) => Ok((s2, e1 + e2)),
            },
        }
    }
}

/// Every withdraw request applied in order, stopping at the first failure.
pub open spec fn withdraw_all(s: StoreView, provider: Address, requests: Seq<(Symbol, i128)>) -> Result<Effect, Error>
    decreases requests.len(),
{
    if requests.len() == 0 {
        Ok((s, Seq::empty()))
    } else {
        match withdraw_all(s, provider, requests.drop_last()) {
            Err(e) => Err(e),
            Ok((s1, e1)) => match withdraw_effect(s1, provider, requests.last().0, requests.last().1) {
                Err(e) => Err(e),
                Ok((s2, e2)) => Ok((s2, e1 + e2)),
            },
        }
    }
}

proof fn lemma_provide_all_err(s: StoreView, provider: Address, requests: Seq<(Symbol, i128)>, k: int)
    requires
        0 <= k <= requests.len(),
        provide_all(s, provider, requests.take(k)) is Err,
    ensures
        provide_all(s, provider, requests) == provide_all(s, provider, requests.take(k)),
    decreases requests.len(),
{
    if k == requests.len() {
        assert(requests.take(k) =~= requests);
    } else {
        assert(requests.drop_last().take(k) =~= requests.take(k));
        lemma_provide_all_err(s, provider, requests.drop_last(), k);
    }
}

proof fn lemma_withdraw_all_err(s: StoreView, provider: Address, requests: Seq<(Symbol, i128)>, k: int)
    requires
        0 <= k <= requests.len(),
        withdraw_all(s, provider, requests.take(k)) is Err,
    ensures
        withdraw_all(s, provider, requests) == withdraw_all(s, provider, requests.take(k)),
    decreases requests.len(),
{
    if k == requests.len() {
        assert(requests.take(k) =~= requests);
    } else {
        assert(requests.drop_last().take(k) =~= requests.take(k));
        lemma_withdraw_all_err(s, provider, requests.drop_last(), k);
    }
}

/// How many of `requests` name an asset that `list` lacks.
pub open spec fn unlisted(list: Seq<Symbol>, requests: Seq<(Symbol, i128)>) -> nat
    decreases requests.len(),
{
    if requests.len() == 0 {
        0
    } else {
        unlisted(list, requests.drop_last()) + if list.contains(requests.last().0) {
            0nat
        } else {
            1nat
        }
    }
}

proof fn lemma_unlisted_prefix(list: Seq<Symbol>, requests: Seq<(Symbol, i128)>, i: int)
    requires
        0 <= i <= requests.len(),
    ensures
        unlisted(list, requests.take(i)) <= unlisted(list, requests),
    decreases requests.len(),
{
    if i == requests.len() {
        assert(requests.take(i) =~= requests);
    } else {
        assert(requests.drop_last().take(i) =~= requests.take(i));
        lemma_unlisted_prefix(list, requests.drop_last(), i);
    }
}

/// Room in the asset list for `n` more assets.
pub open spec fn asset_room(s: StoreView, n: int) -> bool {
    s.asset_list.len() + n <= MAX_LIST_LEN
}

impl AnchornetContract {
    /// Applies [`provide_effect`].
    pub fn do_provide(env: &mut Env, provider: &Address, asset: &Symbol, amount: i128) -> (r: Result<(), Error>)
        requires
            old(env).wf(),
            asset_room(old(env)@.store, 1) || old(env)@.store.asset_list.contains(*asset),
        ensures
            final(env).wf(),
            r == step_of(old(env)@.store, provide_effect(old(env)@.store, *provider, *asset, amount), Seq::empty()).result,
            final(env)@ == apply(old(env)@, step_of(old(env)@.store, provide_effect(old(env)@.store, *provider, *asset, amount), Seq::empty())),
            final(env)@.store.asset_list.len() <= old(env)@.store.asset_list.len() + 1,
    {
        let mut pool = storage::get_pool(env, asset);
        let prior = storage::get_balance(env, provider, asset);
        if prior == 0 {
            pool.providers = match pool.providers.checked_add(1) {
                Some(v) => v,
                None => return Err(Error::Overflow),
            };
        }
        pool.total = match pool.total.checked_add(amount) {
            Some(v) => v,
            None => return Err(Error::Overflow),
        };
        let new_balance = match prior.checked_add(amount) {
            Some(v) => v,
            None => return Err(Error::Overflow),
        };
        storage::set_pool(env, asset, &pool);
        storage::set_balance(env, provider, asset, new_balance);
        let is_new = storage::remember_asset(env, asset);
        events::liquidity_provided(env, provider, asset, amount);
        if is_new {
            events::asset_onboarded(env, asset);
        }
        Ok(())
    }

    /// Applies [`withdraw_effect`].
    pub fn do_withdraw(env: &mut Env, provider: &Address, asset: &Symbol, amount: i128) -> (r: Result<(), Error>)
        requires
            old(env).wf(),
        ensures
            final(env).wf(),
            r == step_of(old(env)@.store, withdraw_effect(old(env)@.store, *provider, *asset, amount), Seq::empty()).result,
            final(env)@ == apply(old(env)@, step_of(old(env)@.store, withdraw_effect(old(env)@.store, *provider, *asset, amount), Seq::empty())),
    {
        let prior = storage::get_balance(env, provider, asset);
        let mut pool = storage::get_pool(env, asset);
        pool.total = match pool.total.checked_sub(amount) {
            Some(v) => v,
            None => return Err(Error::Overflow),
        };
        let remaining = match prior.checked_sub(amount) {
            Some(v) => v,
            None => return Err(Error::Overflow),
        };
        if remaining == 0 {
            pool.providers = match pool.providers.checked_sub(1) {
                Some(v) => v,
                None => return Err(Error::Overflow),
            };
        }
        storage::set_pool(env, asset, &pool);
        storage::set_balance(env, provider, asset, remaining);
        events::liquidity_withdrawn(env, provider, asset, amount);
        Ok(())
    }

    /// Outcome of [`provide_liquidity`](Self::provide_liquidity).
    pub open spec fn spec_provide_liquidity(pre: EnvView, provider: Address, asset: Symbol, amount: i128) -> Step<()> {
        let s = pre.store;
        let auths = seq![provider];
        if s.paused {
            fail(s, Error::Paused, auths)
        } else if amount <= 0 {
            fail(s, Error::InvalidAmount, auths)
        } else if !s.is_anchor(provider) {
            fail(s, Error::AnchorNotRegistered, auths)
        } else {
            step_of(s, provide_effect(s, provider, asset, amount), auths)
        }
    }

    /// Provides `amount` of liquidity in `asset` from `provider`, who must
    /// be a registered anchor and authorize the call. The pool's total and
    /// the provider's balance both grow by `amount`.
    pub fn provide_liquidity(env: &mut Env, provider: Address, asset: Symbol, amount: i128) -> (r: Result<(), Error>)
        requires
            old(env).wf(),
            asset_room(old(env)@.store, 1) || old(env)@.store.asset_list.contains(asset),
        ensures
            final(env).wf(),
            r == Self::spec_provide_liquidity(old(env)@, provider, asset, amount).result,
            final(env)@ == apply(old(env)@, Self::spec_provide_liquidity(old(env)@, provider, asset, amount)),
    {
        env.require_auth(&provider);
        Self::require_not_paused(env)?;
        if amount <= 0 {
            return Err(Error::InvalidAmount);
        }
        if !storage::is_anchor(env, &provider) {
            return Err(Error::AnchorNotRegistered);
        }
        Self::do_provide(env, &provider, &asset, amount)?;
        Ok(())
    }

    /// Outcome of [`provide_liquidity_multi`](Self::provide_liquidity_multi).
    pub open spec fn spec_provide_liquidity_multi(pre: EnvView, provider: Address, requests: Seq<(Symbol, i128)>) -> Step<()> {
        let s = pre.store;
        let auths = seq![provider];
        if s.paused {
            fail(s, Error::Paused, auths)
        } else if requests.len() == 0 {
            fail(s, Error::InvalidAmount, auths)
        } else if !s.is_anchor(provider) {
            fail(s, Error::AnchorNotRegistered, auths)
        } else if provide_batch_error(requests, 0) is Some {
            fail(s, provide_batch_error(requests, 0).unwrap(), auths)
        } else {
            step_of(s, provide_all(s, provider, requests), auths)
        }
    }

    /// Provides liquidity to several assets for `provider` in one call and
    /// authorization. Every request is validated (positive amount, no asset
    /// repeated) before any is applied; a repeated asset fails with
    /// [`Error::DuplicateAssetInBatch`]. Nothing is applied unless all are.
    pub fn provide_liquidity_multi(env: &mut Env, provider: Address, requests: Vec<(Symbol, i128)>) -> (r: Result<(), Error>)
        requires
            old(env).wf(),
            asset_room(old(env)@.store, unlisted(old(env)@.store.asset_list, requests@) as int),
        ensures
            final(env).wf(),
            r == Self::spec_provide_liquidity_multi(old(env)@, provider, requests@).result,
            final(env)@ == apply(old(env)@, Self::spec_provide_liquidity_multi(old(env)@, provider, requests@)),
    {
        env.require_auth(&provider);
        Self::require_not_paused(env)?;
        if requests.len() == 0 {
            return Err(Error::InvalidAmount);
        }
        if !storage::is_anchor(env, &provider) {
            return Err(Error::AnchorNotRegistered);
        }
        let ghost e0 = env@;
        let ghost s0 = env@.store;
        let ghost reqs = requests@;

        let mut seen: Vec<Symbol> = Vec::new();
        let mut i: usize = 0;
        while i < requests.len()
            invariant
                env.wf(),
                env@ == e0,
                e0 == old(env)@.demand(provider),
                s0 == old(env)@.store,
                !s0.paused,
                reqs.len() > 0,
                s0.is_anchor(provider),
                reqs == requests@,
                i <= reqs.len(),
                seen@ == assets_of(reqs).take(i as int),
                provide_batch_error(reqs, 0) == provide_batch_error(reqs, i as int),
            decreases requests.len() - i,
        {
            let (asset, amount) = requests[i];
            if amount <= 0 {
                return Err(Error::InvalidAmount);
            }
            if vec_contains(&seen, &asset) {
                return Err(Error::DuplicateAssetInBatch);
            }
            seen.push(asset);
            i = i + 1;
            assert(seen@ =~= assets_of(reqs).take(i as int));
        }

        let saved = env.snapshot();
        proof {
            assert(reqs.take(0) =~= Seq::<(Symbol, i128)>::empty());
            assert(env@.events.skip(e0.events.len() as int) =~= Seq::<Event>::empty());
            assert(env@.events.take(e0.events.len() as int) =~= e0.events);
        }
        let mut i: usize = 0;
        while i < requests.len()
            invariant
                env.wf(),
                saved.wf(),
                saved@ == e0,
                s0 == e0.store,
                reqs == requests@,
                i <= reqs.len(),
                asset_room(s0, unlisted(s0.asset_list, reqs) as int),
                env@.store.asset_list.len() <= s0.asset_list.len() + unlisted(s0.asset_list, reqs.take(i as int)),
                forall|x: Symbol| #[trigger] s0.asset_list.contains(x) ==> env@.store.asset_list.contains(x),
                e0 == old(env)@.demand(provider),
                s0 == old(env)@.store,
                !s0.paused,
                reqs.len() > 0,
                s0.is_anchor(provider),
                provide_batch_error(reqs, 0) is None,
                provide_all(s0, provider, reqs.take(i as int)) == Ok::<Effect, Error>(
                    (env@.store, env@.events.skip(e0.events.len() as int)),
                ),
                env@ == (EnvView { store: env@.store, events: env@.events, ..e0 }),
                env@.events.len() >= e0.events.len(),
                env@.events.take(e0.events.len() as int) == e0.events,
            decreases requests.len() - i,
        {
            let (asset, amount) = requests[i];
            let ghost before = env@;
            proof {
                let t = reqs.take(i + 1);
                assert(t.drop_last() =~= reqs.take(i as int));
                assert(t.last() == (asset, amount));
                lemma_unlisted_prefix(s0.asset_list, reqs, i + 1);
            }
            let res = Self::do_provide(env, &provider, &asset, amount);
            proof {
                let t = reqs.take(i + 1);
                assert(t.drop_last() =~= reqs.take(i as int));
                assert(t.last() == (asset, amount));
                if res is Ok {
                    let pushed = before.store.asset_list.push(asset);
                    assert forall|x: Symbol| #[trigger] s0.asset_list.contains(x) implies env@.store.asset_list.contains(
                        x,
                    ) by {
                        if !before.store.asset_list.contains(asset) {
                            let k = choose|k: int| 0 <= k < before.store.asset_list.len() && before.store.asset_list[k] == x;
                            assert(pushed[k] == x);
                        }
                    }
                }
            }
            match res {
                Err(e) => {
                    proof {
                        lemma_provide_all_err(s0, provider, reqs, i + 1);
                    }
                    *env = saved;
                    return Err(e);
                },
                Ok(()) => {},
            }
            proof {
                let t = reqs.take(i + 1);
                let e2 = provide_effect(before.store, provider, asset, amount)->Ok_0.1;
                assert(env@.events =~= before.events + e2);
                assert(env@.events.skip(e0.events.len() as int) =~= before.events.skip(e0.events.len() as int) + e2);
                assert(env@.events.take(e0.events.len() as int) =~= e0.events);
                assert(provide_all(s0, provider, t) == Ok::<Effect, Error>((env@.store, env@.events.skip(e0.events.len() as int))));
            }
            i = i + 1;
        }
        proof {
            assert(reqs.take(reqs.len() as int) =~= reqs);
            assert(env@.events =~= e0.events + env@.events.skip(e0.events.len() as int));
        }
        Ok(())
    }

    /// Outcome of [`withdraw_liquidity`](Self::withdraw_liquidity).
    pub open spec fn spec_withdraw_liquidity(pre: EnvView, provider: Address, asset: Symbol, amount: i128) -> Step<()> {
        let s = pre.store;
        let auths = seq![provider];
        if s.paused {
            fail(s, Error::Paused, auths)
        } else if amount <= 0 {
            fail(s, Error::InvalidAmount, auths)
        } else if s.balance_of(provider, asset) < amount {
            fail(s, Error::InsufficientLiquidity, auths)
        } else if Self::spec_require_min_liquidity(s, asset, amount) is Err {
            fail(s, Self::spec_require_min_liquidity(s, asset, amount)->Err_0, auths)
        } else {
            step_of(s, withdraw_effect(s, provider, asset, amount), auths)
        }
    }

    /// Withdraws `amount` of liquidity in `asset` back to `provider`, who
    /// must authorize the call. Fails with [`Error::InsufficientLiquidity`]
    /// if the provider's balance is too low, or [`Error::BelowMinLiquidity`]
    /// if it would leave the pool below its minimum liquidity floor.
    pub fn withdraw_liquidity(env: &mut Env, provider: Address, asset: Symbol, amount: i128) -> (r: Result<(), Error>)
        requires
            old(env).wf(),
        ensures
            final(env).wf(),
            r == Self::spec_withdraw_liquidity(old(env)@, provider, asset, amount).result,
            final(env)@ == apply(old(env)@, Self::spec_withdraw_liquidity(old(env)@, provider, asset, amount)),
    {
        env.require_auth(&provider);
        Self::require_not_paused(env)?;
        if amount <= 0 {
            return Err(Error::InvalidAmount);
        }
        let prior = storage::get_balance(env, &provider, &asset);
        if prior < amount {
            return Err(Error::InsufficientLiquidity);
        }
        Self::require_min_liquidity(env, &asset, amount)?;
        Self::do_withdraw(env, &provider, &asset, amount)?;
        Ok(())
    }

    /// Outcome of [`withdraw_liquidity_multi`](Self::withdraw_liquidity_multi).
    pub open spec fn spec_withdraw_liquidity_multi(pre: EnvView, provider: Address, requests: Seq<(Symbol, i128)>) -> Step<()> {
        let s = pre.store;
        let auths = seq![provider];
        if s.paused {
            fail(s, Error::Paused, auths)
        } else if requests.len() == 0 {
            fail(s, Error::InvalidAmount, auths)
        } else if withdraw_batch_error(s, provider, requests, 0) is Some {
            fail(s, withdraw_batch_error(s, provider, requests, 0).unwrap(), auths)
        } else {
            step_of(s, withdraw_all(s, provider, requests), auths)
        }
    }

    /// Withdraws liquidity from several assets for `provider` in one call
    /// and authorization. Every request is validated (positive amount, no
    /// asset repeated, sufficient balance, minimum liquidity floor) before
    /// any is applied; a repeated asset fails with
    /// [`Error::DuplicateAssetInBatch`]. Nothing is applied unless all are.
    pub fn withdraw_liquidity_multi(env: &mut Env, provider: Address, requests: Vec<(Symbol, i128)>) -> (r: Result<(), Error>)
        requires
            old(env).wf(),
        ensures
            final(env).wf(),
            r == Self::spec_withdraw_liquidity_multi(old(env)@, provider, requests@).result,
            final(env)@ == apply(old(env)@, Self::spec_withdraw_liquidity_multi(old(env)@, provider, requests@)),
    {
        env.require_auth(&provider);
        Self::require_not_paused(env)?;
        if requests.len() == 0 {
            return Err(Error::InvalidAmount);
        }
        let ghost e0 = env@;
        let ghost s0 = env@.store;
        let ghost reqs = requests@;

        let mut seen: Vec<Symbol> = Vec::new();
        let mut i: usize = 0;
        while i < requests.len()
            invariant
                env.wf(),
                env@ == e0,
                s0 == e0.store,
                e0 == old(env)@.demand(provider),
                s0 == old(env)@.store,
                !s0.paused,
                reqs.len() > 0,
                reqs == requests@,
                i <= reqs.len(),
                seen@ == assets_of(reqs).take(i as int),
                withdraw_batch_error(s0, provider, reqs, 0) == withdraw_batch_error(s0, provider, reqs, i as int),
            decreases requests.len() - i,
        {
            let (asset, amount) = requests[i];
            if amount <= 0 {
                return Err(Error::InvalidAmount);
            }
            if vec_contains(&seen, &asset) {
                return Err(Error::DuplicateAssetInBatch);
            }
            seen.push(asset);
            let prior = storage::get_balance(env, &provider, &asset);
            if prior < amount {
                return Err(Error::InsufficientLiquidity);
            }
            Self::require_min_liquidity(env, &asset, amount)?;
            i = i + 1;
            assert(seen@ =~= assets_of(reqs).take(i as int));
        }

        let saved = env.snapshot();
        proof {
            assert(reqs.take(0) =~= Seq::<(Symbol, i128)>::empty());
            assert(env@.events.skip(e0.events.len() as int) =~= Seq::<Event>::empty());
            assert(env@.events.take(e0.events.len() as int) =~= e0.events);
        }
        let mut i: usize = 0;
        while i < requests.len()
            invariant
                env.wf(),
                saved.wf(),
                saved@ == e0,
                s0 == e0.store,
                reqs == requests@,
                i <= reqs.len(),
                e0 == old(env)@.demand(provider),
                s0 == old(env)@.store,
                !s0.paused,
                reqs.len() > 0,
                withdraw_batch_error(s0, provider, reqs, 0) is None,
                withdraw_all(s0, provider, reqs.take(i as int)) == Ok::<Effect, Error>(
                    (env@.store, env@.events.skip(e0.events.len() as int)),
                ),
                env@ == (EnvView { store: env@.store, events: env@.events, ..e0 }),
                env@.events.len() >= e0.events.len(),
                env@.events.take(e0.events.len() as int) == e0.events,
            decreases requests.len() - i,
        {
            let (asset, amount) = requests[i];
            let ghost before = env@;
            let res = Self::do_withdraw(env, &provider, &asset, amount);
            proof {
                let t = reqs.take(i + 1);
                assert(t.drop_last() =~= reqs.take(i as int));
                assert(t.last() == (asset, amount));
            }
            match res {
                Err(e) => {
                    proof {
                        lemma_withdraw_all_err(s0, provider, reqs, i + 1);
                    }
                    *env = saved;
                    return Err(e);
                },
                Ok(()) => {},
            }
            proof {
                let t = reqs.take(i + 1);
                let e2 = withdraw_effect(before.store, provider, asset, amount)->Ok_0.1;
                assert(env@.events =~= before.events + e2);
                assert(env@.events.skip(e0.events.len() as int) =~= before.events.skip(e0.events.len() as int) + e2);
                assert(env@.events.take(e0.events.len() as int) =~= e0.events);
                assert(withdraw_all(s0, provider, t) == Ok::<Effect, Error>((env@.store, env@.events.skip(e0.events.len() as int))));
            }
            i = i + 1;
        }
        proof {
            assert(reqs.take(reqs.len() as int) =~= reqs);
            assert(env@.events =~= e0.events + env@.events.skip(e0.events.len() as int));
        }
        Ok(())
    }

    /// Outcome of [`withdraw_all_liquidity`](Self::withdraw_all_liquidity).
    pub open spec fn spec_withdraw_all_liquidity(pre: EnvView, provider: Address, asset: Symbol) -> Step<i128> {
        let s = pre.store;
        let amount = s.balance_of(provider, asset);
        if amount == 0 {
            fail(s, Error::InsufficientLiquidity, Seq::empty())
        } else {
            let st = Self::spec_withdraw_liquidity(pre, provider, asset, amount);
            Step {
                result: match st.result {
                    Ok(_) => Ok(amount),
                    Err(e) => Err(e),
                },
                store: st.store,
                events: st.events,
                auths: st.auths,
            }
        }
    }

    /// Withdraws `provider`'s entire balance in `asset`, returning the
    /// amount, through [`withdraw_liquidity`](Self::withdraw_liquidity) so
    /// that both publish identical events. Fails with
    /// [`Error::InsufficientLiquidity`] if the balance is already zero.
    pub fn withdraw_all_liquidity(env: &mut Env, provider: Address, asset: Symbol) -> (r: Result<i128, Error>)
        requires
            old(env).wf(),
        ensures
            final(env).wf(),
            r == Self::spec_withdraw_all_liquidity(old(env)@, provider, asset).result,
            final(env)@ == apply(old(env)@, Self::spec_withdraw_all_liquidity(old(env)@, provider, asset)),
    {
        let amount = storage::get_balance(env, &provider, &asset);
        if amount == 0 {
            return Err(Error::InsufficientLiquidity);
        }
        Self::withdraw_liquidity(env, provider, asset, amount)?;
        Ok(amount)
    }
}

} // verus!

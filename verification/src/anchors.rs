//! Anchor registry entrypoints: registration, removal and enumeration.

use vstd::prelude::*;

use crate::admin::gated;
use crate::contract::{
    apply, count, done, fail, lemma_count_bound, lemma_scan_step, page, scan, AnchornetContract, Step,
};
use crate::error::Error;
use crate::events::{self, Event};
use crate::storage::{self, Env, EnvView, StoreView, MAX_LIST_LEN};
use crate::table::vec_contains;
use crate::types::{Address, AnchorStatus};

verus! {

/// Keeps the currently registered anchors.
pub open spec fn active_anchor(s: StoreView) -> spec_fn(Address) -> bool {
    |a: Address| s.is_anchor(a)
}

/// Keeps the currently registered anchors that hold a fee waiver.
pub open spec fn waived_anchor(s: StoreView) -> spec_fn(Address) -> bool {
    |a: Address| s.is_anchor(a) && s.fee_waived(a)
}

/// Leaves an address as it is.
pub open spec fn same_address() -> spec_fn(Address) -> Address {
    |a: Address| a
}

/// `anchor` registered: flagged active and remembered in the anchor list.
pub open spec fn register_one(s: StoreView, anchor: Address) -> StoreView {
    StoreView {
        anchors: s.anchors.insert(anchor, true),
        anchor_list: if s.anchor_list.contains(anchor) {
            s.anchor_list
        } else {
            s.anchor_list.push(anchor)
        },
        ..s
    }
}

/// Every anchor of `batch` registered, in order.
pub open spec fn register_all(s: StoreView, batch: Seq<Address>) -> StoreView
    decreases batch.len(),
{
    if batch.len() == 0 {
        s
    } else {
        register_one(register_all(s, batch.drop_last()), batch.last())
    }
}

/// The events of registering every anchor of `batch`, in order.
pub open spec fn registered_events(batch: Seq<Address>) -> Seq<Event> {
    batch.map_values(|a: Address| Event::AnchorRegistered { anchor: a })
}

/// `batch[i]` is already registered or repeats an earlier entry.
pub open spec fn conflict_at(s: StoreView, batch: Seq<Address>, i: int) -> bool {
    s.is_anchor(batch[i]) || batch.take(i).contains(batch[i])
}

/// Some entry of `batch` is already registered or repeated.
pub open spec fn batch_conflict(s: StoreView, batch: Seq<Address>) -> bool {
    exists|i: int| 0 <= i < batch.len() && #[trigger] conflict_at(s, batch, i)
}

/// How many entries of `batch` the anchor list `list` lacks.
pub open spec fn unknown(list: Seq<Address>, batch: Seq<Address>) -> nat
    decreases batch.len(),
{
    if batch.len() == 0 {
        0
    } else {
        unknown(list, batch.drop_last()) + if list.contains(batch.last()) {
            0nat
        } else {
            1nat
        }
    }
}

proof fn lemma_unknown_prefix(list: Seq<Address>, batch: Seq<Address>, i: int)
    requires
        0 <= i <= batch.len(),
    ensures
        unknown(list, batch.take(i)) <= unknown(list, batch),
    decreases batch.len(),
{
    if i == batch.len() {
        assert(batch.take(i) =~= batch);
    } else {
        assert(batch.drop_last().take(i) =~= batch.take(i));
        lemma_unknown_prefix(list, batch.drop_last(), i);
    }
}

proof fn lemma_register_all_len(s: StoreView, batch: Seq<Address>)
    ensures
        register_all(s, batch).anchor_list.len() <= s.anchor_list.len() + unknown(s.anchor_list, batch),
        forall|a: Address| s.anchor_list.contains(a) ==> #[trigger] register_all(s, batch).anchor_list.contains(a),
    decreases batch.len(),
{
    if batch.len() > 0 {
        let prev = register_all(s, batch.drop_last());
        lemma_register_all_len(s, batch.drop_last());
        assert forall|a: Address| s.anchor_list.contains(a) implies #[trigger] register_all(s, batch).anchor_list.contains(a) by {
            assert(prev.anchor_list.contains(a));
            if !prev.anchor_list.contains(batch.last()) {
                let j = choose|j: int| 0 <= j < prev.anchor_list.len() && prev.anchor_list[j] == a;
                assert(prev.anchor_list.push(batch.last())[j] == a);
            }
        }
    }
}

impl AnchornetContract {
    /// Outcome of [`register_anchor`](Self::register_anchor).
    pub open spec fn spec_register_anchor(pre: EnvView, anchor: Address) -> Step<()> {
        let s = pre.store;
        gated(
            s,
            if s.is_anchor(anchor) {
                fail(s, Error::AnchorAlreadyRegistered, Seq::empty())
            } else {
                done((), register_one(s, anchor), seq![Event::AnchorRegistered { anchor }], Seq::empty())
            },
        )
    }

    /// Registers `anchor` as an approved liquidity provider. Admin only.
    ///
    /// Returns [`Error::AnchorAlreadyRegistered`] if the anchor is already
    /// registered.
    pub fn register_anchor(env: &mut Env, anchor: Address) -> (r: Result<(), Error>)
        requires
            old(env).wf(),
            old(env)@.store.anchor_list.len() < MAX_LIST_LEN || old(env)@.store.anchor_list.contains(
                anchor,
            ),
        ensures
            final(env).wf(),
            r == Self::spec_register_anchor(old(env)@, anchor).result,
            final(env)@ == apply(old(env)@, Self::spec_register_anchor(old(env)@, anchor)),
    {
        Self::require_admin(env)?;
        if storage::is_anchor(env, &anchor) {
            return Err(Error::AnchorAlreadyRegistered);
        }
        storage::set_anchor(env, &anchor);
        storage::remember_anchor(env, &anchor);
        events::anchor_registered(env, &anchor);
        Ok(())
    }

    /// Outcome of [`register_anchors`](Self::register_anchors).
    pub open spec fn spec_register_anchors(pre: EnvView, anchors: Seq<Address>) -> Step<()> {
        let s = pre.store;
        gated(
            s,
            if batch_conflict(s, anchors) {
                fail(s, Error::AnchorAlreadyRegistered, Seq::empty())
            } else {
                done((), register_all(s, anchors), registered_events(anchors), Seq::empty())
            },
        )
    }

    /// Registers every address in `anchors` in a single call. Admin only.
    ///
    /// Validates the entire batch before registering anything: if any
    /// address is already registered, or appears more than once, the whole
    /// call fails with [`Error::AnchorAlreadyRegistered`] and no anchor is
    /// registered.
    pub fn register_anchors(env: &mut Env, anchors: Vec<Address>) -> (r: Result<(), Error>)
        requires
            old(env).wf(),
            old(env)@.store.anchor_list.len() + unknown(old(env)@.store.anchor_list, anchors@) <= MAX_LIST_LEN,
        ensures
            final(env).wf(),
            r == Self::spec_register_anchors(old(env)@, anchors@).result,
            final(env)@ == apply(old(env)@, Self::spec_register_anchors(old(env)@, anchors@)),
    {
        Self::require_admin(env)?;
        let ghost e0 = env@;
        let ghost s0 = env@.store;

        let mut seen: Vec<Address> = Vec::new();
        let mut i: usize = 0;
        while i < anchors.len()
            invariant
                env.wf(),
                env@ == e0,
                s0 == e0.store,
                s0 == old(env)@.store,
                s0.admin is Some,
                e0 == apply(old(env)@, Self::spec_require_admin(s0)),
                i <= anchors@.len(),
                seen@ == anchors@.take(i as int),
                forall|j: int| 0 <= j < i ==> !#[trigger] conflict_at(s0, anchors@, j),
            decreases anchors.len() - i,
        {
            let anchor = anchors[i];
            if storage::is_anchor(env, &anchor) || vec_contains(&seen, &anchor) {
                assert(conflict_at(s0, anchors@, i as int));
                return Err(Error::AnchorAlreadyRegistered);
            }
            seen.push(anchor);
            i = i + 1;
            assert(seen@ =~= anchors@.take(i as int));
        }
        assert(!batch_conflict(s0, anchors@));

        let mut i: usize = 0;
        while i < anchors.len()
            invariant
                env.wf(),
                s0 == e0.store,
                i <= anchors@.len(),
                s0.anchor_list.len() + unknown(s0.anchor_list, anchors@) <= MAX_LIST_LEN,
                env@ == (EnvView {
                    store: register_all(s0, anchors@.take(i as int)),
                    events: e0.events + registered_events(anchors@.take(i as int)),
                    ..e0
                }),
            decreases anchors.len() - i,
        {
            let anchor = anchors[i];
            proof {
                lemma_register_all_len(s0, anchors@.take(i as int));
                lemma_unknown_prefix(s0.anchor_list, anchors@, i + 1);
                let t = anchors@.take(i + 1);
                assert(t.drop_last() =~= anchors@.take(i as int));
                assert(t.last() == anchor);
            }
            storage::set_anchor(env, &anchor);
            storage::remember_anchor(env, &anchor);
            events::anchor_registered(env, &anchor);
            proof {
                let t = anchors@.take(i + 1);
                assert(t.drop_last() =~= anchors@.take(i as int));
                assert(registered_events(t) =~= registered_events(anchors@.take(i as int)).push(
                    Event::AnchorRegistered { anchor },
                ));
            }
            i = i + 1;
        }
        assert(anchors@.take(anchors@.len() as int) =~= anchors@);
        Ok(())
    }

    /// Returns `true` if `anchor` is a registered liquidity provider.
    pub fn is_anchor(env: &Env, anchor: Address) -> (r: bool)
        requires
            env.wf(),
        ensures
            r == env@.store.is_anchor(anchor),
    {
        storage::is_anchor(env, &anchor)
    }

    /// Returns the registration status of `anchor`.
    pub fn anchor_status(env: &Env, anchor: Address) -> (r: AnchorStatus)
        requires
            env.wf(),
        ensures
            r == env@.store.anchor_status(anchor),
    {
        storage::anchor_status(env, &anchor)
    }

    /// The page [`list_anchors`](Self::list_anchors) returns.
    pub open spec fn spec_list_anchors(s: StoreView, start: u32, limit: u32) -> Seq<Address> {
        page(s.anchor_list, start as int, active_anchor(s), same_address(), limit as nat)
    }

    /// Returns up to `limit` currently registered anchors, in registration
    /// order, scanning the registration history from list index `start`.
    /// Deregistered anchors are skipped without counting toward `limit`.
    pub fn list_anchors(env: &Env, start: u32, limit: u32) -> (r: Vec<Address>)
        requires
            env.wf(),
        ensures
            r@ == Self::spec_list_anchors(env@.store, start, limit),
    {
        let mut out: Vec<Address> = Vec::new();
        let list = storage::get_anchor_list(env);
        let total = list.len();
        let ghost keep = active_anchor(env@.store);
        let ghost f = same_address();
        if start as usize >= total {
            return out;
        }
        let mut idx: usize = start as usize;
        while idx < total && out.len() < limit as usize
            invariant
                env.wf(),
                list@ == env@.store.anchor_list,
                total == list@.len(),
                keep == active_anchor(env@.store),
                f == same_address(),
                start <= idx <= total,
                out@.len() <= limit,
                scan(list@.skip(start as int), keep, f, limit as nat) == out@ + scan(
                    list@.skip(idx as int),
                    keep,
                    f,
                    (limit - out@.len()) as nat,
                ),
            decreases total - idx,
        {
            let anchor = list[idx];
            proof {
                lemma_scan_step(list@, idx as int, keep, f, (limit - out@.len()) as nat);
            }
            if storage::is_anchor(env, &anchor) {
                out.push(anchor);
                assert(scan(list@.skip(start as int), keep, f, limit as nat) =~= out@ + scan(
                    list@.skip(idx + 1),
                    keep,
                    f,
                    (limit - out@.len()) as nat,
                ));
            }
            idx = idx + 1;
        }
        assert(scan(list@.skip(idx as int), keep, f, (limit - out@.len()) as nat) =~= Seq::empty());
        assert(out@ + Seq::<Address>::empty() =~= out@);
        out
    }

    /// Returns the number of currently registered anchors.
    pub fn anchor_count(env: &Env) -> (r: u32)
        requires
            env.wf(),
        ensures
            r == count(env@.store.anchor_list, active_anchor(env@.store)),
    {
        let list = storage::get_anchor_list(env);
        let ghost keep = active_anchor(env@.store);
        let mut n: u32 = 0;
        let mut i: usize = 0;
        assert(list@.skip(0) =~= list@);
        while i < list.len()
            invariant
                env.wf(),
                list@ == env@.store.anchor_list,
                list@.len() <= MAX_LIST_LEN,
                keep == active_anchor(env@.store),
                i <= list@.len(),
                n <= i,
                count(list@, keep) == n + count(list@.skip(i as int), keep),
            decreases list.len() - i,
        {
            proof {
                lemma_scan_step(list@, i as int, keep, same_address(), 1);
            }
            if storage::is_anchor(env, &list[i]) {
                n = n + 1;
            }
            i = i + 1;
        }
        assert(list@.skip(i as int) =~= Seq::<Address>::empty());
        n
    }

    /// The page [`list_fee_waived_anchors`](Self::list_fee_waived_anchors)
    /// returns.
    pub open spec fn spec_list_fee_waived_anchors(s: StoreView, start: u32, limit: u32) -> Seq<Address> {
        page(s.anchor_list, start as int, waived_anchor(s), same_address(), limit as nat)
    }

    /// Returns up to `limit` currently registered anchors holding an active
    /// fee waiver, in registration order, scanning from list index `start`.
    /// Other anchors are skipped without counting toward `limit`.
    pub fn list_fee_waived_anchors(env: &Env, start: u32, limit: u32) -> (r: Vec<Address>)
        requires
            env.wf(),
        ensures
            r@ == Self::spec_list_fee_waived_anchors(env@.store, start, limit),
    {
        let mut out: Vec<Address> = Vec::new();
        let list = storage::get_anchor_list(env);
        let total = list.len();
        let ghost keep = waived_anchor(env@.store);
        let ghost f = same_address();
        if start as usize >= total {
            return out;
        }
        let mut idx: usize = start as usize;
        while idx < total && out.len() < limit as usize
            invariant
                env.wf(),
                list@ == env@.store.anchor_list,
                total == list@.len(),
                keep == waived_anchor(env@.store),
                f == same_address(),
                start <= idx <= total,
                out@.len() <= limit,
                scan(list@.skip(start as int), keep, f, limit as nat) == out@ + scan(
                    list@.skip(idx as int),
                    keep,
                    f,
                    (limit - out@.len()) as nat,
                ),
            decreases total - idx,
        {
            let anchor = list[idx];
            proof {
                lemma_scan_step(list@, idx as int, keep, f, (limit - out@.len()) as nat);
            }
            if storage::is_anchor(env, &anchor) && storage::is_fee_waived(env, &anchor) {
                out.push(anchor);
                assert(scan(list@.skip(start as int), keep, f, limit as nat) =~= out@ + scan(
                    list@.skip(idx + 1),
                    keep,
                    f,
                    (limit - out@.len()) as nat,
                ));
            }
            idx = idx + 1;
        }
        assert(scan(list@.skip(idx as int), keep, f, (limit - out@.len()) as nat) =~= Seq::empty());
        assert(out@ + Seq::<Address>::empty() =~= out@);
        out
    }

    /// Returns the number of currently registered anchors that hold an
    /// active fee waiver.
    pub fn fee_waived_anchor_count(env: &Env) -> (r: u32)
        requires
            env.wf(),
        ensures
            r == count(env@.store.anchor_list, waived_anchor(env@.store)),
    {
        let list = storage::get_anchor_list(env);
        let ghost keep = waived_anchor(env@.store);
        let mut n: u32 = 0;
        let mut i: usize = 0;
        assert(list@.skip(0) =~= list@);
        while i < list.len()
            invariant
                env.wf(),
                list@ == env@.store.anchor_list,
                list@.len() <= MAX_LIST_LEN,
                keep == waived_anchor(env@.store),
                i <= list@.len(),
                n <= i,
                count(list@, keep) == n + count(list@.skip(i as int), keep),
            decreases list.len() - i,
        {
            proof {
                lemma_scan_step(list@, i as int, keep, same_address(), 1);
            }
            let anchor = list[i];
            if storage::is_anchor(env, &anchor) && storage::is_fee_waived(env, &anchor) {
                n = n + 1;
            }
            i = i + 1;
        }
        assert(list@.skip(i as int) =~= Seq::<Address>::empty());
        n
    }

    /// Outcome of [`deregister_anchor`](Self::deregister_anchor).
    pub open spec fn spec_deregister_anchor(pre: EnvView, anchor: Address) -> Step<()> {
        let s = pre.store;
        gated(
            s,
            if !s.is_anchor(anchor) {
                fail(s, Error::AnchorNotRegistered, Seq::empty())
            } else {
                done(
                    (),
                    StoreView { anchors: s.anchors.insert(anchor, false), ..s },
                    seq![Event::AnchorRemoved { anchor }],
                    Seq::empty(),
                )
            },
        )
    }

    /// Removes `anchor` from the approved set. Admin only. Existing pool
    /// liquidity is unaffected; the anchor simply cannot open new positions.
    pub fn deregister_anchor(env: &mut Env, anchor: Address) -> (r: Result<(), Error>)
        requires
            old(env).wf(),
        ensures
            final(env).wf(),
            r == Self::spec_deregister_anchor(old(env)@, anchor).result,
            final(env)@ == apply(old(env)@, Self::spec_deregister_anchor(old(env)@, anchor)),
    {
        Self::require_admin(env)?;
        if !storage::is_anchor(env, &anchor) {
            return Err(Error::AnchorNotRegistered);
        }
        storage::set_anchor_flag(env, &anchor, false);
        events::anchor_removed(env, &anchor);
        Ok(())
    }
}

} // verus!

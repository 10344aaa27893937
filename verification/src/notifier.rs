//! The change notifier: the single choke point through which mutations flow.
//!
//! An `Engine` owns a registry together with its subscribers. Every committed
//! mutation is followed, synchronously and before the mutating call returns,
//! by one notification to every current subscriber, carrying the snapshot of
//! the final state. While notifications are being delivered the registry
//! rejects every mutating call with `ReentrantMutation`, so a callback can
//! never observe or create a partial state.

use vstd::prelude::*;
use crate::layer::{Layer, LayerKind, RegistryError};
use crate::model::{
    has_name, lmodels, spec_add, spec_remove, spec_rename, spec_reorder, spec_set_visible,
    rename_conflict, vis_of_id, visible_layers, RegistryModel,
};
use crate::registry::Registry;

verus! {

/// The subscriber capability: implemented by external renderers (or any other
/// observer) to learn of visibility and order changes.
///
/// `notify` runs inline with the mutating call, on the caller's thread. The
/// registry handed to it is in its committed final state and is delivering
/// notifications, so every mutating call on it fails with
/// `ReentrantMutation` and leaves it unchanged; the contract records exactly
/// that: the registry's state when `notify` returns is the state it was
/// given.
pub trait Subscriber: Sized {
    fn notify(&mut self, registry: &mut Registry, snapshot: &Vec<Layer>)
        requires
            old(registry)@.wf(),
            old(registry)@.notifying,
        ensures
            final(registry)@ == old(registry)@,
    ;
}

/// One registered subscriber and its caller-managed handle.
struct Subscription<S> {
    id: u64,
    subscriber: S,
}

/// A registry bundled with its subscribers: the engine behind every control
/// binding. All mutations go through it; each committed one triggers one
/// round of notifications.
pub struct Engine<S: Subscriber> {
    registry: Registry,
    subs: Vec<Subscription<S>>,
    next_sub_id: u64,
}

impl<S: Subscriber> Engine<S> {
    /// The model of the owned registry.
    pub closed spec fn reg(self) -> RegistryModel {
        self.registry@
    }

    /// The registered subscription handles, in registration order.
    pub closed spec fn sub_ids(self) -> Seq<u64> {
        self.subs@.map_values(|s: Subscription<S>| s.id)
    }

    /// The next subscription handle to hand out.
    pub closed spec fn next_sub(self) -> u64 {
        self.next_sub_id
    }

    /// Engine well-formedness: the registry is well formed and not in the
    /// middle of a notification, and subscription handles are unique and
    /// below the handle counter.
    pub open spec fn wf(self) -> bool {
        &&& self.reg().wf()
        &&& !self.reg().notifying
        &&& forall|i: int, j: int|
            0 <= i < j < self.sub_ids().len() ==> #[trigger] self.sub_ids()[i]
                != #[trigger] self.sub_ids()[j]
        &&& forall|i: int|
            0 <= i < self.sub_ids().len() ==> #[trigger] self.sub_ids()[i] < self.next_sub()
    }

    /// Takes ownership of a registry; no subscribers yet.
    pub fn new(registry: Registry) -> (r: Engine<S>)
        requires
            registry@.wf(),
            !registry@.notifying,
        ensures
            r.wf(),
            r.reg() == registry@,
            r.sub_ids() == Seq::<u64>::empty(),
            r.next_sub() == 0,
    {
        let r = Engine { registry, subs: Vec::new(), next_sub_id: 0 };
        proof {
            assert(r.sub_ids() =~= Seq::<u64>::empty());
        }
        r
    }

    /// Registers a subscriber and returns its handle. The subscriber's
    /// lifetime is caller-managed: it stays registered until `unsubscribe`.
    pub fn subscribe(&mut self, subscriber: S) -> (r: u64)
        requires
            old(self).wf(),
            old(self).next_sub() < u64::MAX,
        ensures
            final(self).wf(),
            final(self).reg() == old(self).reg(),
            r == old(self).next_sub(),
            final(self).sub_ids() == old(self).sub_ids().push(r),
            final(self).next_sub() == old(self).next_sub() + 1,
    {
        let id = self.next_sub_id;
        self.next_sub_id = id + 1;
        self.subs.push(Subscription { id, subscriber });
        proof {
            assert(self.sub_ids() =~= old(self).sub_ids().push(id));
        }
        id
    }

    /// Drops the subscription with the given handle; later notifications skip
    /// it. Returns whether a subscription was removed.
    pub fn unsubscribe(&mut self, id: u64) -> (r: bool)
        requires
            old(self).wf(),
        ensures
            final(self).wf(),
            final(self).reg() == old(self).reg(),
            final(self).next_sub() == old(self).next_sub(),
            r == old(self).sub_ids().contains(id),
            r ==> exists|i: int|
                0 <= i < old(self).sub_ids().len() && #[trigger] old(self).sub_ids()[i] == id
                    && final(self).sub_ids() == old(self).sub_ids().remove(i),
            !r ==> final(self).sub_ids() == old(self).sub_ids(),
    {
        let mut i: usize = 0;
        while i < self.subs.len()
            invariant
                old(self).wf(),
                i <= self.subs.len(),
                *self == *old(self),
                forall|k: int| 0 <= k < i ==> #[trigger] self.sub_ids()[k] != id,
            decreases self.subs.len() - i,
        {
            if self.subs[i].id == id {
                self.subs.remove(i);
                proof {
                    let olds = old(self).sub_ids();
                    assert(self.sub_ids() =~= olds.remove(i as int));
                    assert(olds[i as int] == id);
                    assert(olds.contains(id));
                    assert(old(self).wf());
                    assert(old(self).registry@.wf());
                    assert(self.registry == old(self).registry);
                    assert(self.registry@.wf());
                    assert forall|a: int, b: int|
                        0 <= a < b < self.sub_ids().len() implies #[trigger] self.sub_ids()[a]
                        != #[trigger] self.sub_ids()[b] by {
                        assert(self.sub_ids()[a] == if a < i as int {
                            olds[a]
                        } else {
                            olds[a + 1]
                        });
                        assert(self.sub_ids()[b] == if b < i as int {
                            olds[b]
                        } else {
                            olds[b + 1]
                        });
                    }
                    assert forall|a: int| 0 <= a < self.sub_ids().len() implies #[trigger] self.sub_ids()[a]
                        < self.next_sub_id by {
                        assert(self.sub_ids()[a] == if a < i as int {
                            olds[a]
                        } else {
                            olds[a + 1]
                        });
                    }
                }
                return true;
            }
            i += 1;
        }
        proof {
            if old(self).sub_ids().contains(id) {
                let w = choose|w: int|
                    0 <= w < old(self).sub_ids().len() && old(self).sub_ids()[w] == id;
                assert(self.sub_ids()[w] != id);
            }
        }
        false
    }

    /// Delivers one snapshot of the current state to every subscriber, in
    /// registration order, with the registry's reentrancy guard held.
    fn broadcast(&mut self)
        requires
            old(self).wf(),
        ensures
            final(self).wf(),
            final(self).reg() == old(self).reg(),
            final(self).sub_ids() == old(self).sub_ids(),
            final(self).next_sub() == old(self).next_sub(),
    {
        let snap = self.registry.snapshot();
        self.registry.begin_notification();
        let ghost during = self.registry@;
        let n = self.subs.len();
        let mut i: usize = 0;
        while i < n
            invariant
                i <= n,
                n == self.subs.len(),
                self.registry@ == during,
                during == (RegistryModel { notifying: true, ..old(self).reg() }),
                during.wf(),
                self.sub_ids() == old(self).sub_ids(),
                self.next_sub_id == old(self).next_sub_id,
            decreases n - i,
        {
            let ghost ids_before = self.sub_ids();
            let mut entry = self.subs.remove(i);
            entry.subscriber.notify(&mut self.registry, &snap);
            self.subs.insert(i, entry);
            proof {
                assert(self.sub_ids() =~= ids_before);
            }
            i += 1;
        }
        self.registry.end_notification();
        proof {
            assert(self.registry@ =~= old(self).reg());
        }
    }

    /// Adds a layer through the choke point: on success, one notification
    /// round fires before this returns. See `Registry::add` for the layer
    /// placement rules.
    pub fn add(&mut self, name: String, kind: LayerKind, payload: u64) -> (r: Result<
        u64,
        RegistryError,
    >)
        requires
            old(self).wf(),
            old(self).reg().next_id < u64::MAX,
        ensures
            final(self).wf(),
            final(self).sub_ids() == old(self).sub_ids(),
            final(self).next_sub() == old(self).next_sub(),
            has_name(old(self).reg().namespace(kind), name@) ==> r == Err::<u64, RegistryError>(
                RegistryError::DuplicateName,
            ) && final(self).reg() == old(self).reg(),
            !has_name(old(self).reg().namespace(kind), name@) ==> r == Ok::<u64, RegistryError>(
                old(self).reg().next_id,
            ) && final(self).reg() == spec_add(old(self).reg(), name@, kind, payload),
    {
        let r = self.registry.add(name, kind, payload);
        proof {
            assert(self.subs@ == old(self).subs@);
            assert(self.sub_ids() =~= old(self).sub_ids());
            assert(!self.registry@.notifying);
        }
        if r.is_ok() {
            self.broadcast();
        }
        r
    }

    /// Removes a layer through the choke point; on success one notification
    /// round fires. See `Registry::remove`.
    pub fn remove(&mut self, id: u64) -> (r: Result<(), RegistryError>)
        requires
            old(self).wf(),
        ensures
            final(self).wf(),
            final(self).sub_ids() == old(self).sub_ids(),
            final(self).next_sub() == old(self).next_sub(),
            !old(self).reg().contains_id(id) ==> r == Err::<(), RegistryError>(
                RegistryError::UnknownLayer,
            ) && final(self).reg() == old(self).reg(),
            old(self).reg().contains_id(id) ==> r == Ok::<(), RegistryError>(()) && final(self).reg() == spec_remove(old(self).reg(), id),
    {
        let r = self.registry.remove(id);
        proof {
            assert(self.subs@ == old(self).subs@);
            assert(self.sub_ids() =~= old(self).sub_ids());
            assert(!self.registry@.notifying);
        }
        if r.is_ok() {
            self.broadcast();
        }
        r
    }

    /// Sets a layer's visibility through the choke point; on success one
    /// notification round fires. See `Registry::set_visible`.
    pub fn set_visible(&mut self, id: u64, visible: bool) -> (r: Result<(), RegistryError>)
        requires
            old(self).wf(),
        ensures
            final(self).wf(),
            final(self).sub_ids() == old(self).sub_ids(),
            final(self).next_sub() == old(self).next_sub(),
            !old(self).reg().contains_id(id) ==> r == Err::<(), RegistryError>(
                RegistryError::UnknownLayer,
            ) && final(self).reg() == old(self).reg(),
            old(self).reg().contains_id(id) ==> r == Ok::<(), RegistryError>(()) && final(self).reg() == spec_set_visible(old(self).reg(), id, visible),
    {
        let r = self.registry.set_visible(id, visible);
        proof {
            assert(self.subs@ == old(self).subs@);
            assert(self.sub_ids() =~= old(self).sub_ids());
            assert(!self.registry@.notifying);
        }
        if r.is_ok() {
            self.broadcast();
        }
        r
    }

    /// Moves an overlay to a new z-index through the choke point; on success
    /// one notification round fires. See `Registry::reorder_overlay`.
    pub fn reorder_overlay(&mut self, id: u64, new_z: u64) -> (r: Result<(), RegistryError>)
        requires
            old(self).wf(),
        ensures
            final(self).wf(),
            final(self).sub_ids() == old(self).sub_ids(),
            final(self).next_sub() == old(self).next_sub(),
            !crate::model::has_id(old(self).reg().overlays, id) ==> r == Err::<(), RegistryError>(
                RegistryError::UnknownLayer,
            ) && final(self).reg() == old(self).reg(),
            crate::model::has_id(old(self).reg().overlays, id) ==> r == Ok::<(), RegistryError>(
                (),
            ) && final(self).reg() == spec_reorder(old(self).reg(), id, new_z),
    {
        let r = self.registry.reorder_overlay(id, new_z);
        proof {
            assert(self.subs@ == old(self).subs@);
            assert(self.sub_ids() =~= old(self).sub_ids());
            assert(!self.registry@.notifying);
        }
        if r.is_ok() {
            self.broadcast();
        }
        r
    }

    /// Renames a layer through the choke point; on success one notification
    /// round fires. See `Registry::rename`.
    pub fn rename(&mut self, id: u64, new_name: String) -> (r: Result<(), RegistryError>)
        requires
            old(self).wf(),
        ensures
            final(self).wf(),
            final(self).sub_ids() == old(self).sub_ids(),
            final(self).next_sub() == old(self).next_sub(),
            !old(self).reg().contains_id(id) ==> r == Err::<(), RegistryError>(
                RegistryError::UnknownLayer,
            ) && final(self).reg() == old(self).reg(),
            old(self).reg().contains_id(id) && rename_conflict(old(self).reg(), id, new_name@)
                ==> r == Err::<(), RegistryError>(RegistryError::DuplicateName) && final(self).reg() == old(self).reg(),
            old(self).reg().contains_id(id) && !rename_conflict(old(self).reg(), id, new_name@)
                ==> r == Ok::<(), RegistryError>(()) && final(self).reg() == spec_rename(
                old(self).reg(),
                id,
                new_name@,
            ),
    {
        let r = self.registry.rename(id, new_name);
        proof {
            assert(self.subs@ == old(self).subs@);
            assert(self.sub_ids() =~= old(self).sub_ids());
            assert(!self.registry@.notifying);
        }
        if r.is_ok() {
            self.broadcast();
        }
        r
    }

    /// The current snapshot: visible base layer first, then visible overlays
    /// in order. Read-only.
    pub fn snapshot(&self) -> (r: Vec<Layer>)
        ensures
            lmodels(r@) == visible_layers(self.reg()),
    {
        self.registry.snapshot()
    }

    /// Name lookup in one kind's namespace. Read-only; see
    /// `Registry::resolve`.
    pub fn resolve(&self, name: &String, kind: LayerKind) -> (r: Result<u64, RegistryError>)
        ensures
            match r {
                Ok(id) => exists|i: int|
                    0 <= i < self.reg().namespace(kind).len() && #[trigger] self.reg().namespace(
                        kind,
                    )[i].name == name@ && self.reg().namespace(kind)[i].id == id,
                Err(e) => e == RegistryError::UnknownName && !has_name(
                    self.reg().namespace(kind),
                    name@,
                ),
            },
    {
        let r = self.registry.resolve(name, kind);
        proof {
            match r {
                Ok(id) => {
                    let ns = self.registry@.namespace(kind);
                    let i = choose|i: int|
                        0 <= i < ns.len() && #[trigger] ns[i].name == name@ && ns[i].id == id;
                    assert(0 <= i < self.reg().namespace(kind).len() && self.reg().namespace(
                        kind,
                    )[i].name == name@ && self.reg().namespace(kind)[i].id == id);
                },
                Err(_) => {},
            }
        }
        r
    }

    /// A layer's visibility flag, hidden layers included. Read-only; see
    /// `Registry::is_visible`.
    pub fn is_visible(&self, id: u64) -> (r: Result<bool, RegistryError>)
        requires
            self.wf(),
        ensures
            self.reg().contains_id(id) ==> r == Ok::<bool, RegistryError>(
                vis_of_id(self.reg(), id),
            ),
            !self.reg().contains_id(id) ==> r == Err::<bool, RegistryError>(
                RegistryError::UnknownLayer,
            ),
    {
        self.registry.is_visible(id)
    }

    /// The next layer id the registry will allocate; ids are never reused.
    pub fn allocated_ids(&self) -> (r: u64)
        ensures
            r == self.reg().next_id,
    {
        self.registry.allocated_ids()
    }
}

} // verus!

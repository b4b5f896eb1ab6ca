//! Watchers, what they do as seen from a leaf, and the handle of a
//! registration.

use vstd::prelude::*;
use crate::state::State;

verus! {

/// What a writer attaches to a change. Every watcher that the change reaches
/// receives it as the writer gave it.
#[derive(Clone, Copy, Debug, PartialEq, Eq, Structural)]
pub struct Metadata {
    pub tag: u64,
}

/// A callback for changes of a value of type `V`.
///
/// `T` is the type of the leaves that the callback may read while it runs,
/// `E` the type of its reaction: what it hands back to the writer in place of
/// a side effect. A callback that acts by side effect alone has `E = ()`.
pub trait Watcher<V, T, E> {
    /// Whether the watcher may be notified of `value` while the leaves hold
    /// `values`.
    spec fn accepts(&self, values: Seq<T>, value: V, metadata: Metadata) -> bool;

    /// The watcher's answer to `value` while the leaves hold `values`.
    spec fn reaction(&self, values: Seq<T>, value: V, metadata: Metadata) -> E;

    /// Tells the watcher that the value it watches is now `value`.
    fn notify(&self, state: &State<T>, value: V, metadata: Metadata) -> (reaction: E)
        requires
            self.accepts(state@, value, metadata),
        ensures
            reaction == self.reaction(state@, value, metadata),
    ;
}

/// Every function of a value and its metadata is a watcher: one that does not
/// look at the leaves. It can be notified where it can be called and has one
/// result only, and that result is its reaction.
impl<V, T, E, F: Fn(V, Metadata) -> E> Watcher<V, T, E> for F {
    open spec fn accepts(&self, values: Seq<T>, value: V, metadata: Metadata) -> bool {
        &&& self.requires((value, metadata))
        &&& forall|first: E, second: E|
            self.ensures((value, metadata), first) && self.ensures((value, metadata), second)
                ==> first == second
    }

    open spec fn reaction(&self, values: Seq<T>, value: V, metadata: Metadata) -> E {
        choose|reaction: E| self.ensures((value, metadata), reaction)
    }

    fn notify(&self, state: &State<T>, value: V, metadata: Metadata) -> (reaction: E) {
        self(value, metadata)
    }
}

/// What a registration does when its leaf changes, as a function of the leaf
/// values after the change and of the metadata alone.
#[verifier::ext_equal]
#[verifier::reject_recursive_types(T)]
#[verifier::reject_recursive_types(E)]
pub struct Observer<T, E> {
    /// The changes that can be delivered.
    pub accepts: spec_fn(Seq<T>, Metadata) -> bool,
    /// The reaction to a change.
    pub reaction: spec_fn(Seq<T>, Metadata) -> E,
}

impl<T, E> Observer<T, E> {
    /// The observer of a watcher that sits on the leaf `leaf` itself: it is
    /// notified of the value of that leaf.
    pub open spec fn at_leaf<W: Watcher<T, T, E>>(leaf: int, watcher: W) -> Observer<T, E> {
        Observer {
            accepts: |values: Seq<T>, metadata: Metadata|
                0 <= leaf < values.len() && watcher.accepts(values, values[leaf], metadata),
            reaction: |values: Seq<T>, metadata: Metadata|
                watcher.reaction(values, values[leaf], metadata),
        }
    }
}

/// One entry of a watcher list: the leaf that holds it and its id.
pub struct Registration {
    pub leaf: int,
    pub id: nat,
}

/// The registrations that `leaves.len()` consecutive ids starting at `first`
/// give, one on each of `leaves` in turn.
pub open spec fn registrations(leaves: Seq<int>, first: nat) -> Seq<Registration> {
    Seq::new(leaves.len(), |k: int| Registration { leaf: leaves[k], id: (first + k) as nat })
}

struct Slot {
    leaf: usize,
    id: u64,
}

/// The handle of the registrations that one call of `add_watcher` made.
/// Handing it to [`Store::release`](crate::store::Store::release) takes them
/// out of the watcher lists. It cannot be copied, so it is released once.
pub struct WatcherGuard {
    slots: Vec<Slot>,
}

impl View for WatcherGuard {
    type V = Seq<Registration>;

    closed spec fn view(&self) -> Seq<Registration> {
        Seq::new(
            self.slots@.len(),
            |k: int|
                Registration { leaf: self.slots@[k].leaf as int, id: self.slots@[k].id as nat },
        )
    }
}

impl WatcherGuard {
    /// The guard of the one registration `id` on `leaf`.
    pub(crate) fn single(leaf: usize, id: u64) -> (guard: Self)
        ensures
            guard@ == seq![Registration { leaf: leaf as int, id: id as nat }],
    {
        let mut slots: Vec<Slot> = Vec::new();
        slots.push(Slot { leaf, id });
        let guard = WatcherGuard { slots };
        assert(guard@ =~= seq![Registration { leaf: leaf as int, id: id as nat }]);
        guard
    }

    /// One guard for the registrations of both.
    pub fn join(self, other: WatcherGuard) -> (guard: Self)
        ensures
            guard@ == self@ + other@,
    {
        let mut slots = self.slots;
        let mut rest = other.slots;
        slots.append(&mut rest);
        let guard = WatcherGuard { slots };
        assert(guard@ =~= self@ + other@);
        guard
    }

    /// The number of registrations.
    pub fn len(&self) -> (n: usize)
        ensures
            n == self@.len(),
    {
        self.slots.len()
    }

    /// The leaf and the id of the registration at `k`.
    pub(crate) fn slot(&self, k: usize) -> (slot: (usize, u64))
        requires
            k < self@.len(),
        ensures
            self@[k as int] == (Registration { leaf: slot.0 as int, id: slot.1 as nat }),
    {
        (self.slots[k].leaf, self.slots[k].id)
    }
}

} // verus!

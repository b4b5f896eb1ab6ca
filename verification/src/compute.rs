//! What every node of a reactive graph offers.

use vstd::prelude::*;
use crate::state::State;
use crate::store::Store;
use crate::watcher::{registrations, Metadata, Observer, Watcher, WatcherGuard};

verus! {

/// The observer that notifies `watcher` of `value`, where `ready` holds: what
/// a registration made for `watcher` through a node does, the node being
/// given by the leaf values on which it can be computed and by its value on
/// them. The metadata of the change goes to the watcher as it is.
pub open spec fn observing<T, O, E, W: Watcher<O, T, E>>(
    ready: spec_fn(Seq<T>) -> bool,
    value: spec_fn(Seq<T>) -> O,
    watcher: W,
) -> Observer<T, E> {
    Observer {
        accepts: |values: Seq<T>, metadata: Metadata|
            ready(values) && watcher.accepts(values, value(values), metadata),
        reaction: |values: Seq<T>, metadata: Metadata|
            watcher.reaction(values, value(values), metadata),
    }
}

/// A value that can be computed on demand from the leaves, and that watchers
/// can be registered on.
///
/// A node holds no value of its own: its value is a function of the leaf
/// values, [`value`](Compute::value), and `compute` evaluates it on the state
/// that it is given.
pub trait Compute {
    /// The type of the leaves that the node reads.
    type Leaf;

    /// The type of the node's value.
    type Output;

    /// The leaves on which a watcher of this node is registered, in the
    /// order of registration. A leaf that the node reads twice is there
    /// twice.
    spec fn sources(&self) -> Seq<int>;

    /// Whether the node can be computed while the leaves hold `values`.
    spec fn ready(&self, values: Seq<Self::Leaf>) -> bool;

    /// The value of the node while the leaves hold `values`.
    spec fn value(&self, values: Seq<Self::Leaf>) -> Self::Output;

    /// The current value of the node.
    fn compute(&self, state: &State<Self::Leaf>) -> (out: Self::Output)
        requires
            self.ready(state@),
        ensures
            out == self.value(state@),
    ;

    /// Registers `watcher` for the changes of this node's value, on every
    /// leaf of [`sources`](Compute::sources). The watcher is not notified
    /// now, only when one of those leaves is written: it then receives the
    /// node's value, computed from the leaves as they are after the write,
    /// and the metadata of the write. The guard names the registrations made.
    fn add_watcher<E, W: Watcher<Self::Output, Self::Leaf, E> + 'static>(
        &self,
        store: &mut Store<Self::Leaf, E>,
        watcher: W,
    ) -> (guard: WatcherGuard)
        requires
            old(store).wf(),
            old(store)@.holds(self.sources()),
            old(store)@.next_id + self.sources().len() <= u64::MAX,
        ensures
            final(store).wf(),
            final(store)@.values == old(store)@.values,
            final(store)@ == old(store)@.subscribe(
                self.sources(),
                observing(
                    |values: Seq<Self::Leaf>| self.ready(values),
                    |values: Seq<Self::Leaf>| self.value(values),
                    watcher,
                ),
            ),
            guard@ == registrations(self.sources(), old(store)@.next_id),
    ;
}

/// What a registration made for `watcher` through `node` does when one of
/// the node's leaves changes: it notifies `watcher` of the node's value on
/// the new leaf values, with the metadata of the change.
pub open spec fn watched<N: Compute, E, W: Watcher<N::Output, N::Leaf, E>>(
    node: N,
    watcher: W,
) -> Observer<N::Leaf, E> {
    observing(
        |values: Seq<N::Leaf>| node.ready(values),
        |values: Seq<N::Leaf>| node.value(values),
        watcher,
    )
}

} // verus!

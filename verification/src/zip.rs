//! Paired nodes.
//!
//! A [`Zip`] node wraps two source nodes over the same leaves. Like a
//! [`Mapped`](crate::map::Mapped) node it stores nothing of its own: its value
//! is the pair of the sources' values, and a watcher registered on it is
//! registered on both sources, wrapped so that it receives the pair.

use vstd::prelude::*;
use std::rc::Rc;
use crate::compute::{observing, Compute};
use crate::state::State;
use crate::store::Store;
use crate::watcher::{registrations, Metadata, Watcher, WatcherGuard};

verus! {

/// The node whose value is the pair of the values of `A` and `B`.
pub struct Zip<A, B> {
    a: Rc<A>,
    b: Rc<B>,
}

impl<A, B> Zip<A, B> {
    /// The node that gives the first half of the pair.
    pub closed spec fn first(&self) -> A {
        *self.a
    }

    /// The node that gives the second half of the pair.
    pub closed spec fn second(&self) -> B {
        *self.b
    }
}

impl<A: Compute + 'static, B: Compute<Leaf = A::Leaf> + 'static> Zip<A, B> {
    /// The node that pairs the values of `a` and `b`. Nothing is registered
    /// on either until a watcher is added to the new node.
    pub fn new(a: A, b: B) -> (node: Self)
        ensures
            node.first() == a,
            node.second() == b,
    {
        Zip { a: Rc::new(a), b: Rc::new(b) }
    }
}

/// The node that pairs the values of `a` and `b`.
pub fn zip<A, B>(a: A, b: B) -> (node: Zip<A, B>) where
    A: Compute + 'static,
    B: Compute<Leaf = A::Leaf> + 'static,

    ensures
        node.first() == a,
        node.second() == b,
        node.sources() == a.sources() + b.sources(),
        forall|values: Seq<A::Leaf>| #[trigger]
            node.ready(values) <==> a.ready(values) && b.ready(values),
        forall|values: Seq<A::Leaf>| #[trigger]
            node.value(values) == (a.value(values), b.value(values)),
{
    Zip::new(a, b)
}

impl<A, B> Clone for Zip<A, B> {
    /// A second handle of the same node: it shares both sources.
    fn clone(&self) -> (node: Self)
        ensures
            node == *self,
    {
        Zip { a: self.a.clone(), b: self.b.clone() }
    }
}

impl<A: Compute, B: Compute<Leaf = A::Leaf>> Zip<A, B> {
    /// Both sources can be computed on `values`.
    pub open spec fn both_ready(&self, values: Seq<A::Leaf>) -> bool {
        self.first().ready(values) && self.second().ready(values)
    }

    /// The pair of the sources' values on `values`.
    pub open spec fn pair(&self, values: Seq<A::Leaf>) -> (A::Output, B::Output) {
        (self.first().value(values), self.second().value(values))
    }

    /// Reads both sources.
    fn current(&self, state: &State<A::Leaf>) -> (out: (A::Output, B::Output))
        requires
            self.both_ready(state@),
        ensures
            out == self.pair(state@),
    {
        (self.a.compute(state), self.b.compute(state))
    }
}

/// What a `Zip` node registers on each of its sources in place of a watcher
/// of its own: on a change of either it computes the pair anew and hands it
/// on, with the metadata as it came. The two registrations share the watcher.
struct Pairing<A, B, W> {
    node: Zip<A, B>,
    watcher: Rc<W>,
}

impl<V, A, B, E, W> Watcher<V, A::Leaf, E> for Pairing<A, B, W> where
    A: Compute,
    B: Compute<Leaf = A::Leaf>,
    W: Watcher<(A::Output, B::Output), A::Leaf, E>,
 {
    closed spec fn accepts(&self, values: Seq<A::Leaf>, value: V, metadata: Metadata) -> bool {
        self.node.both_ready(values) && self.watcher.accepts(
            values,
            self.node.pair(values),
            metadata,
        )
    }

    closed spec fn reaction(&self, values: Seq<A::Leaf>, value: V, metadata: Metadata) -> E {
        self.watcher.reaction(values, self.node.pair(values), metadata)
    }

    fn notify(&self, state: &State<A::Leaf>, value: V, metadata: Metadata) -> (reaction: E) {
        self.watcher.notify(state, self.node.current(state), metadata)
    }
}

impl<A, B> Compute for Zip<A, B> where
    A: Compute + 'static,
    B: Compute<Leaf = A::Leaf> + 'static,
 {
    type Leaf = A::Leaf;

    type Output = (A::Output, B::Output);

    open spec fn sources(&self) -> Seq<int> {
        self.first().sources() + self.second().sources()
    }

    open spec fn ready(&self, values: Seq<A::Leaf>) -> bool {
        self.both_ready(values)
    }

    open spec fn value(&self, values: Seq<A::Leaf>) -> (A::Output, B::Output) {
        self.pair(values)
    }

    /// The pair of the current values of the two sources.
    fn compute(&self, state: &State<A::Leaf>) -> (out: (A::Output, B::Output)) {
        self.current(state)
    }

    /// Registers on each source a watcher that, when that source changes,
    /// computes the pair anew and notifies `watcher` of it. The guard names
    /// the registrations on both.
    fn add_watcher<E, W: Watcher<(A::Output, B::Output), A::Leaf, E> + 'static>(
        &self,
        store: &mut Store<A::Leaf, E>,
        watcher: W,
    ) -> (guard: WatcherGuard) {
        let shared = Rc::new(watcher);
        let left = Pairing { node: self.clone(), watcher: shared.clone() };
        let right = Pairing { node: self.clone(), watcher: shared };
        let ghost before = store@;
        let ghost first = self.first().sources();
        let ghost second = self.second().sources();
        let ghost through = observing(
            |values: Seq<A::Leaf>| self.ready(values),
            |values: Seq<A::Leaf>| self.value(values),
            watcher,
        );
        proof {
            let on_first = observing(
                |values: Seq<A::Leaf>| self.first().ready(values),
                |values: Seq<A::Leaf>| self.first().value(values),
                left,
            );
            let on_second = observing(
                |values: Seq<A::Leaf>| self.second().ready(values),
                |values: Seq<A::Leaf>| self.second().value(values),
                right,
            );
            assert(on_first =~~= through);
            assert(on_second =~~= through);
            assert(before.holds(first)) by {
                assert forall|k: int| 0 <= k < first.len() implies 0 <= #[trigger] first[k]
                    < before.values.len() by {
                    assert((first + second)[k] == first[k]);
                }
            }
            assert(before.holds(second)) by {
                assert forall|k: int| 0 <= k < second.len() implies 0 <= #[trigger] second[k]
                    < before.values.len() by {
                    assert((first + second)[first.len() + k] == second[k]);
                }
            }
            before.lemma_subscribe_keeps(first, through);
            before.lemma_subscribe_both(first, second, through);
        }
        let on_a = self.a.add_watcher(store, left);
        let on_b = self.b.add_watcher(store, right);
        proof {
            assert(registrations(first, before.next_id) + registrations(
                second,
                before.next_id + first.len(),
            ) =~= registrations(first + second, before.next_id));
        }
        on_a.join(on_b)
    }
}

} // verus!

//! Transformed nodes.
//!
//! A [`Mapped`] node wraps a source node and a transform. It stores neither a
//! value nor a watcher list: reading it reads the source and applies the
//! transform, and a watcher registered on it is registered on the source,
//! wrapped so that it receives the transformed value.

use vstd::prelude::*;
use std::marker::PhantomData;
use std::rc::Rc;
use crate::compute::{observing, Compute};
use crate::state::State;
use crate::store::Store;
use crate::transform::Transform;
use crate::watcher::{Metadata, Watcher, WatcherGuard};

verus! {

/// The node whose value is the transform `F` applied to the value of the
/// source `C`. Source and transform are shared by all clones of the node.
pub struct Mapped<C, F, Output> {
    source: Rc<C>,
    f: Rc<F>,
    _marker: PhantomData<Output>,
}

impl<C, F, Output> Mapped<C, F, Output> {
    /// The node that is transformed.
    pub closed spec fn source(&self) -> C {
        *self.source
    }

    /// The transform.
    pub closed spec fn transform(&self) -> F {
        *self.f
    }
}

impl<C: Compute + 'static, F: 'static, Output> Mapped<C, F, Output> {
    /// The node that applies `f` to the value of `source`. Nothing is
    /// registered on `source` until a watcher is added to the new node.
    pub fn new(source: C, f: F) -> (node: Self)
        ensures
            node.source() == source,
            node.transform() == f,
    {
        Mapped { source: Rc::new(source), f: Rc::new(f), _marker: PhantomData }
    }
}

/// The node that applies `f` to the value of `source`: on every state its
/// value is the image under `f` of the value of `source`.
pub fn map<C, F, Output>(source: C, f: F) -> (node: Mapped<C, F, Output>) where
    C: Compute + 'static,
    F: 'static + Transform<C::Output, Output>,
    Output: 'static,

    ensures
        node.source() == source,
        node.transform() == f,
        node.sources() == source.sources(),
        forall|values: Seq<C::Leaf>| #[trigger]
            node.ready(values) <==> source.ready(values) && f.takes(source.value(values)),
        forall|values: Seq<C::Leaf>| #[trigger]
            node.value(values) == f.image(source.value(values)),
{
    Mapped::new(source, f)
}

impl<C, F, Output> Clone for Mapped<C, F, Output> {
    /// A second handle of the same node: it shares the source and the
    /// transform, and copies neither.
    fn clone(&self) -> (node: Self)
        ensures
            node == *self,
    {
        Mapped { source: self.source.clone(), f: self.f.clone(), _marker: PhantomData }
    }
}

impl<C: Compute, F: Transform<C::Output, Output>, Output> Mapped<C, F, Output> {
    /// The source can be computed on `values`, and the transform can be
    /// applied to its value.
    pub open spec fn applies(&self, values: Seq<C::Leaf>) -> bool {
        self.source().ready(values) && self.transform().takes(self.source().value(values))
    }

    /// The image under the transform of the value of the source on `values`.
    pub open spec fn image(&self, values: Seq<C::Leaf>) -> Output {
        self.transform().image(self.source().value(values))
    }

    /// Reads the source and applies the transform.
    fn current(&self, state: &State<C::Leaf>) -> (out: Output)
        requires
            self.applies(state@),
        ensures
            out == self.image(state@),
    {
        self.f.apply(self.source.compute(state))
    }
}

/// What a `Mapped` node registers on its source in place of a watcher of its
/// own: on a change it leaves the notified value aside, computes the node
/// anew and hands the result on, with the metadata as it came.
struct Forward<C, F, Output, W> {
    node: Mapped<C, F, Output>,
    watcher: W,
}

impl<C, F, Output, E, W> Watcher<C::Output, C::Leaf, E> for Forward<C, F, Output, W> where
    C: Compute,
    F: Transform<C::Output, Output>,
    W: Watcher<Output, C::Leaf, E>,
 {
    closed spec fn accepts(
        &self,
        values: Seq<C::Leaf>,
        value: C::Output,
        metadata: Metadata,
    ) -> bool {
        self.node.applies(values) && self.watcher.accepts(values, self.node.image(values), metadata)
    }

    closed spec fn reaction(
        &self,
        values: Seq<C::Leaf>,
        value: C::Output,
        metadata: Metadata,
    ) -> E {
        self.watcher.reaction(values, self.node.image(values), metadata)
    }

    fn notify(
        &self,
        state: &State<C::Leaf>,
        value: C::Output,
        metadata: Metadata,
    ) -> (reaction: E) {
        self.watcher.notify(state, self.node.current(state), metadata)
    }
}

impl<C, F, Output> Compute for Mapped<C, F, Output> where
    C: Compute + 'static,
    F: Transform<C::Output, Output> + 'static,
    Output: 'static,
 {
    type Leaf = C::Leaf;

    type Output = Output;

    open spec fn sources(&self) -> Seq<int> {
        self.source().sources()
    }

    open spec fn ready(&self, values: Seq<C::Leaf>) -> bool {
        self.applies(values)
    }

    open spec fn value(&self, values: Seq<C::Leaf>) -> Output {
        self.image(values)
    }

    /// The transform applied to the current value of the source. Nothing is
    /// kept from one call to the next.
    fn compute(&self, state: &State<C::Leaf>) -> (out: Output) {
        self.current(state)
    }

    /// Registers on the source a watcher that, when the source changes,
    /// computes this node anew and notifies `watcher` of the result. The
    /// guard is the one that the source's registration gives.
    fn add_watcher<E, W: Watcher<Output, C::Leaf, E> + 'static>(
        &self,
        store: &mut Store<C::Leaf, E>,
        watcher: W,
    ) -> (guard: WatcherGuard) {
        let this = self.clone();
        let forward = Forward { node: this, watcher };
        proof {
            let through = observing(
                |values: Seq<C::Leaf>| self.ready(values),
                |values: Seq<C::Leaf>| self.value(values),
                watcher,
            );
            let below = observing(
                |values: Seq<C::Leaf>| self.source().ready(values),
                |values: Seq<C::Leaf>| self.source().value(values),
                forward,
            );
            assert(below =~~= through);
        }
        self.source.add_watcher(store, forward)
    }
}

} // verus!

//! Leaves.

use vstd::prelude::*;
use std::marker::PhantomData;
use crate::compute::{observing, Compute};
use crate::state::State;
use crate::store::Store;
use crate::watcher::{registrations, Observer, Registration, Watcher, WatcherGuard};

verus! {

/// The name of a leaf of a [`Store`](crate::store::Store): a cell that is
/// written directly and that owns the list of the watchers registered on it.
/// The cell itself lives in the store; the binding is its index.
pub struct Binding<T> {
    index: usize,
    _marker: PhantomData<T>,
}

impl<T> Clone for Binding<T> {
    fn clone(&self) -> (binding: Self)
        ensures
            binding == *self,
    {
        Binding { index: self.index, _marker: PhantomData }
    }
}

impl<T> Copy for Binding<T> {

}

impl<T> Binding<T> {
    /// The index of the leaf.
    pub closed spec fn leaf(&self) -> int {
        self.index as int
    }

    /// The binding of the leaf at `index`.
    pub(crate) fn at(index: usize) -> (binding: Self)
        ensures
            binding.leaf() == index,
    {
        Binding { index, _marker: PhantomData }
    }

    /// The index of the leaf.
    pub fn index(&self) -> (index: usize)
        ensures
            index == self.leaf(),
    {
        self.index
    }
}

/// A leaf computes to the value that the state holds for it, and a watcher of
/// a leaf is registered on that leaf alone.
impl<T: Copy> Compute for Binding<T> {
    type Leaf = T;

    type Output = T;

    open spec fn sources(&self) -> Seq<int> {
        seq![self.leaf()]
    }

    open spec fn ready(&self, values: Seq<T>) -> bool {
        0 <= self.leaf() < values.len()
    }

    open spec fn value(&self, values: Seq<T>) -> T {
        values[self.leaf()]
    }

    fn compute(&self, state: &State<T>) -> (out: T) {
        state.get(self.index)
    }

    fn add_watcher<E, W: Watcher<T, T, E> + 'static>(
        &self,
        store: &mut Store<T, E>,
        watcher: W,
    ) -> (guard: WatcherGuard) {
        proof {
            let leaf = self.leaf();
            let before = store@;
            let through = observing(
                |values: Seq<T>| self.ready(values),
                |values: Seq<T>| self.value(values),
                watcher,
            );
            assert(Observer::at_leaf(leaf, watcher) =~~= through);
            before.lemma_subscribe_one(leaf, through);
            assert(registrations(self.sources(), before.next_id) =~= seq![
                Registration { leaf, id: before.next_id },
            ]);
        }
        store.attach(self, watcher)
    }
}

} // verus!

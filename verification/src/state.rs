//! The values of the leaves at one moment.

use vstd::prelude::*;

verus! {

/// The value of every leaf, by the leaf's index. Nodes compute from a `State`
/// and never keep a value of their own, so whatever they return is current.
pub struct State<T> {
    cells: Vec<T>,
}

impl<T> View for State<T> {
    type V = Seq<T>;

    closed spec fn view(&self) -> Seq<T> {
        self.cells@
    }
}

impl<T> State<T> {
    /// A state without leaves.
    pub fn new() -> (state: Self)
        ensures
            state@ == Seq::<T>::empty(),
    {
        State { cells: Vec::new() }
    }

    /// The number of leaves.
    pub fn len(&self) -> (n: usize)
        ensures
            n == self@.len(),
    {
        self.cells.len()
    }

    /// Adds a leaf that holds `value`; its index is the former length.
    pub(crate) fn push(&mut self, value: T)
        ensures
            final(self)@ == old(self)@.push(value),
    {
        self.cells.push(value);
    }

    /// Replaces the value of the leaf at `index`.
    pub(crate) fn replace(&mut self, index: usize, value: T)
        requires
            index < old(self)@.len(),
        ensures
            final(self)@ == old(self)@.update(index as int, value),
    {
        self.cells[index] = value;
    }
}

impl<T: Copy> State<T> {
    /// The value of the leaf at `index`.
    pub fn get(&self, index: usize) -> (value: T)
        requires
            index < self@.len(),
        ensures
            value == self@[index as int],
    {
        self.cells[index]
    }
}

} // verus!

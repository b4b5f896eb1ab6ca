//! The store: the leaf cells and the watchers registered on them.

use vstd::prelude::*;
use crate::binding::Binding;
use crate::model::{lemma_filter_all, lemma_filter_one, StoreModel, Subscription};
use crate::state::State;
use crate::watcher::{Metadata, Observer, Registration, Watcher, WatcherGuard};

verus! {

/// One registered watcher: its id and the watcher itself.
#[verifier::reject_recursive_types(T)]
#[verifier::reject_recursive_types(E)]
struct Entry<T, E> {
    id: u64,
    watcher: Box<dyn Watcher<T, T, E>>,
}

impl<T, E> Entry<T, E> {
    /// What the entry does as a watcher of the leaf at `leaf`.
    spec fn observer(&self, leaf: int) -> Observer<T, E> {
        Observer {
            accepts: |values: Seq<T>, metadata: Metadata|
                0 <= leaf < values.len() && self.watcher.accepts(values, values[leaf], metadata),
            reaction: |values: Seq<T>, metadata: Metadata|
                self.watcher.reaction(values, values[leaf], metadata),
        }
    }

    /// The entry, held by the leaf at `leaf`, as the contracts see it.
    spec fn subscription(&self, leaf: int) -> Subscription<T, E> {
        Subscription { id: self.id as nat, observer: self.observer(leaf) }
    }

    /// The entry that holds `watcher` for the leaf at `leaf`.
    fn new<W: Watcher<T, T, E> + 'static>(id: u64, leaf: usize, watcher: W) -> (entry: Self)
        ensures
            entry.id == id,
            entry.observer(leaf as int) == Observer::at_leaf(leaf as int, watcher),
    {
        let boxed: Box<dyn Watcher<T, T, E>> = Box::new(watcher);
        let entry = Entry { id, watcher: boxed };
        assert(entry.observer(leaf as int) =~~= Observer::at_leaf(leaf as int, watcher));
        entry
    }
}

/// The leaf cells of a reactive graph and, for each, the watchers registered
/// on it. Writes go through the store, which notifies the watchers of the
/// written leaf before the write returns.
#[verifier::reject_recursive_types(T)]
#[verifier::reject_recursive_types(E)]
pub struct Store<T, E> {
    state: State<T>,
    lists: Vec<Vec<Entry<T, E>>>,
    next_id: u64,
}

impl<T, E> View for Store<T, E> {
    type V = StoreModel<T, E>;

    closed spec fn view(&self) -> StoreModel<T, E> {
        StoreModel {
            values: self.state@,
            watchers: Seq::new(
                self.lists@.len(),
                |l: int|
                    Seq::new(self.lists@[l]@.len(), |k: int| self.lists@[l]@[k].subscription(l)),
            ),
            next_id: self.next_id as nat,
        }
    }
}

impl<T, E> Store<T, E> {
    /// The invariant of the store.
    pub open spec fn wf(&self) -> bool {
        self@.wf()
    }

    /// A store without leaves.
    pub fn new() -> (store: Self)
        ensures
            store.wf(),
            store@ == StoreModel::<T, E>::empty(),
    {
        let store = Store { state: State::new(), lists: Vec::new(), next_id: 0 };
        assert(store@ =~~= StoreModel::<T, E>::empty());
        store
    }

    /// Adds a leaf that holds `value`, and returns its binding.
    pub fn binding(&mut self, value: T) -> (binding: Binding<T>)
        requires
            old(self).wf(),
        ensures
            final(self).wf(),
            final(self)@ == old(self)@.with_leaf(value),
            binding.leaf() == old(self)@.values.len(),
    {
        let index = self.state.len();
        self.state.push(value);
        self.lists.push(Vec::new());
        assert(self@ =~~= old(self)@.with_leaf(value));
        Binding::at(index)
    }

    /// The current values of the leaves.
    pub fn state(&self) -> (state: &State<T>)
        ensures
            state@ == self@.values,
    {
        &self.state
    }

    /// The number of watchers registered on the leaf.
    pub fn watcher_count(&self, binding: &Binding<T>) -> (n: usize)
        requires
            self.wf(),
            binding.leaf() < self@.values.len(),
        ensures
            n == self@.watchers[binding.leaf()].len(),
    {
        self.lists[binding.index()].len()
    }

    /// How many registrations the store can still give an id to.
    pub fn ids_left(&self) -> (n: u64)
        ensures
            n == u64::MAX - self@.next_id,
    {
        u64::MAX - self.next_id
    }

    /// Registers `watcher` last on the leaf, for the changes of that leaf.
    /// The watcher is not notified now.
    pub fn attach<W: Watcher<T, T, E> + 'static>(
        &mut self,
        binding: &Binding<T>,
        watcher: W,
    ) -> (guard: WatcherGuard)
        requires
            old(self).wf(),
            binding.leaf() < old(self)@.values.len(),
            old(self)@.next_id < u64::MAX,
        ensures
            final(self).wf(),
            final(self)@ == old(self)@.attach(
                binding.leaf(),
                Observer::at_leaf(binding.leaf(), watcher),
            ),
            guard@ == seq![Registration { leaf: binding.leaf(), id: old(self)@.next_id }],
    {
        let leaf = binding.index();
        let id = self.next_id;
        let entry = Entry::new(id, leaf, watcher);
        self.lists[leaf].push(entry);
        self.next_id = id + 1;
        proof {
            let after = old(self)@.attach(leaf as int, Observer::at_leaf(leaf as int, watcher));
            assert(self.lists@[leaf as int]@ == old(self).lists@[leaf as int]@.push(entry));
            assert forall|l: int| 0 <= l < self@.watchers.len() implies #[trigger] self@.watchers[l]
                =~~= after.watchers[l] by {
                if l != leaf {
                    assert(self.lists@[l] == old(self).lists@[l]);
                }
            }
            assert(self@ =~~= after);
        }
        WatcherGuard::single(leaf, id)
    }

    /// Takes the registration `id` out of the watcher list of the leaf at
    /// `leaf`, if it is there.
    fn detach(&mut self, leaf: usize, id: u64)
        requires
            old(self).wf(),
        ensures
            final(self).wf(),
            final(self)@ == old(self)@.released(
                seq![Registration { leaf: leaf as int, id: id as nat }],
            ),
    {
        let ghost named = seq![Registration { leaf: leaf as int, id: id as nat }];
        let ghost before = self@;
        let ghost after = before.released(named);
        assert(named[0] == Registration { leaf: leaf as int, id: id as nat });
        let mut found: usize = 0;
        let mut n: usize = 0;
        if leaf < self.lists.len() {
            n = self.lists[leaf].len();
            while found < n && self.lists[leaf][found].id != id
                invariant
                    leaf < self.lists@.len(),
                    n == self.lists@[leaf as int]@.len(),
                    found <= n,
                    forall|j: int|
                        0 <= j < found ==> (#[trigger] self.lists@[leaf as int]@[j]).id != id,
                decreases n - found,
            {
                found += 1;
            }
            if found < n {
                self.lists[leaf].remove(found);
            }
        }
        proof {
            assert forall|l: int| 0 <= l < before.watchers.len() implies
                #[trigger] self@.watchers[l] == after.watchers[l] by {
                let subs = before.watchers[l];
                let pred = StoreModel::<T, E>::unnamed(l, named);
                if l == leaf && found < n {
                    assert(before.watchers[l][found as int].id == id);
                    assert forall|i: int| 0 <= i < subs.len() && i != found implies pred(
                        #[trigger] subs[i],
                    ) by {
                        if i < found {
                            assert(subs[i].id < subs[found as int].id);
                        } else {
                            assert(subs[found as int].id < subs[i].id);
                        }
                    }
                    lemma_filter_one(subs, pred, found as int);
                    assert(self@.watchers[l] =~= subs.remove(found as int));
                } else {
                    assert(self.lists@[l] == old(self).lists@[l]);
                    assert forall|i: int| 0 <= i < subs.len() implies pred(#[trigger] subs[i]) by {
                        if l == leaf {
                            assert(self.lists@[l]@[i].id != id);
                        }
                    }
                    lemma_filter_all(subs, pred);
                    assert(self@.watchers[l] =~= subs);
                }
            }
            assert(self@.watchers =~= after.watchers);
            before.lemma_released_keeps(named);
        }
    }

    /// Takes the registrations of `guard` out of the watcher lists. A write
    /// after the release no longer reaches them; the other registrations stay
    /// as they are, in their order.
    pub fn release(&mut self, guard: WatcherGuard)
        requires
            old(self).wf(),
        ensures
            final(self).wf(),
            final(self)@ == old(self)@.released(guard@),
    {
        let ghost before = self@;
        proof {
            before.lemma_released_none();
            assert(guard@.take(0) =~= Seq::empty());
        }
        let n = guard.len();
        let mut k: usize = 0;
        while k < n
            invariant
                self.wf(),
                n == guard@.len(),
                k <= n,
                self@ == before.released(guard@.take(k as int)),
            decreases n - k,
        {
            let (leaf, id) = guard.slot(k);
            self.detach(leaf, id);
            proof {
                before.lemma_released_twice(guard@.take(k as int), seq![guard@[k as int]]);
                assert(guard@.take(k as int) + seq![guard@[k as int]] =~= guard@.take(k + 1));
            }
            k += 1;
        }
        assert(guard@.take(n as int) =~= guard@);
    }
}

impl<T: Copy, E> Store<T, E> {
    /// Writes `value` to the leaf and notifies the watchers registered on it,
    /// in the order of their registration, before it returns. The reactions
    /// come back in that order.
    pub fn set(&mut self, binding: &Binding<T>, value: T, metadata: Metadata) -> (reactions: Vec<E>)
        requires
            old(self).wf(),
            binding.leaf() < old(self)@.values.len(),
            old(self)@.written(binding.leaf(), value).accepts(binding.leaf(), metadata),
        ensures
            final(self).wf(),
            final(self)@ == old(self)@.written(binding.leaf(), value),
            reactions@ == final(self)@.reactions(binding.leaf(), metadata),
    {
        let leaf = binding.index();
        self.state.replace(leaf, value);
        assert(self@ =~~= old(self)@.written(leaf as int, value));
        let mut reactions: Vec<E> = Vec::new();
        let n = self.lists[leaf].len();
        let mut k: usize = 0;
        while k < n
            invariant
                self.wf(),
                leaf < self@.values.len(),
                self@.values[leaf as int] == value,
                self@.accepts(leaf as int, metadata),
                n == self@.watchers[leaf as int].len(),
                k <= n,
                reactions@ == self@.reactions(leaf as int, metadata).take(k as int),
            decreases n - k,
        {
            proof {
                assert((self@.watchers[leaf as int][k as int].observer.accepts)(
                    self@.values,
                    metadata,
                ));
            }
            let reaction = self.lists[leaf][k].watcher.notify(&self.state, value, metadata);
            reactions.push(reaction);
            k += 1;
            assert(reactions@ =~= self@.reactions(leaf as int, metadata).take(k as int));
        }
        assert(reactions@ =~= self@.reactions(leaf as int, metadata));
        reactions
    }
}

} // verus!
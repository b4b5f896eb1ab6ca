//! What a store holds, as the contracts see it, and what the operations on
//! a store do to it.

use vstd::prelude::*;
use crate::watcher::{registrations, Metadata, Observer, Registration};

verus! {

/// One registered watcher, as the contracts see it.
#[verifier::ext_equal]
#[verifier::reject_recursive_types(T)]
#[verifier::reject_recursive_types(E)]
pub struct Subscription<T, E> {
    /// The id under which a guard names the registration.
    pub id: nat,
    /// What the registration does when its leaf changes.
    pub observer: Observer<T, E>,
}

/// What a store holds, as the contracts see it.
#[verifier::ext_equal]
#[verifier::reject_recursive_types(T)]
#[verifier::reject_recursive_types(E)]
pub struct StoreModel<T, E> {
    /// The value of each leaf.
    pub values: Seq<T>,
    /// The watcher list of each leaf, in the order of registration.
    pub watchers: Seq<Seq<Subscription<T, E>>>,
    /// The id that the next registration gets.
    pub next_id: nat,
}

/// How many times `leaf` stands in `leaves`.
pub open spec fn occurrences(leaves: Seq<int>, leaf: int) -> nat
    decreases leaves.len(),
{
    if leaves.len() == 0 {
        0
    } else if leaves[0] == leaf {
        1 + occurrences(leaves.drop_first(), leaf)
    } else {
        occurrences(leaves.drop_first(), leaf)
    }
}

impl<T, E> StoreModel<T, E> {
    /// Every leaf has a watcher list, and in each list the ids grow and stay
    /// below the next one to be given.
    pub open spec fn wf(self) -> bool {
        &&& self.watchers.len() == self.values.len()
        &&& forall|l: int, k: int|
            0 <= l < self.watchers.len() && 0 <= k < self.watchers[l].len() ==> (
            #[trigger] self.watchers[l][k]).id < self.next_id
        &&& forall|l: int, j: int, k: int|
            0 <= l < self.watchers.len() && 0 <= j < k < self.watchers[l].len() ==> (
            #[trigger] self.watchers[l][j]).id < (#[trigger] self.watchers[l][k]).id
    }

    /// The store without leaves.
    pub open spec fn empty() -> Self {
        StoreModel { values: Seq::empty(), watchers: Seq::empty(), next_id: 0 }
    }

    /// The store with one more leaf, which holds `value` and has no watcher.
    pub open spec fn with_leaf(self, value: T) -> Self {
        StoreModel {
            values: self.values.push(value),
            watchers: self.watchers.push(Seq::empty()),
            next_id: self.next_id,
        }
    }

    /// The store after `value` was written to `leaf`.
    pub open spec fn written(self, leaf: int, value: T) -> Self {
        StoreModel {
            values: self.values.update(leaf, value),
            watchers: self.watchers,
            next_id: self.next_id,
        }
    }

    /// The store with `observer` registered last on `leaf`, under the next id.
    pub open spec fn attach(self, leaf: int, observer: Observer<T, E>) -> Self {
        StoreModel {
            values: self.values,
            watchers: self.watchers.update(
                leaf,
                self.watchers[leaf].push(Subscription { id: self.next_id, observer }),
            ),
            next_id: self.next_id + 1,
        }
    }

    /// The store with `observer` registered on each of `leaves` in turn.
    pub open spec fn subscribe(self, leaves: Seq<int>, observer: Observer<T, E>) -> Self
        decreases leaves.len(),
    {
        if leaves.len() == 0 {
            self
        } else {
            self.attach(leaves[0], observer).subscribe(leaves.drop_first(), observer)
        }
    }

    /// Every leaf of `leaves` is a leaf of the store.
    pub open spec fn holds(self, leaves: Seq<int>) -> bool {
        forall|k: int| 0 <= k < leaves.len() ==> 0 <= #[trigger] leaves[k] < self.values.len()
    }

    /// Holds of the subscriptions on `leaf` that `released` does not name.
    pub open spec fn unnamed(leaf: int, released: Seq<Registration>) -> spec_fn(
        Subscription<T, E>,
    ) -> bool {
        |s: Subscription<T, E>| !released.contains(Registration { leaf, id: s.id })
    }

    /// The watcher list `subs` of `leaf` without the registrations that
    /// `released` names.
    pub open spec fn remaining(
        subs: Seq<Subscription<T, E>>,
        leaf: int,
        released: Seq<Registration>,
    ) -> Seq<Subscription<T, E>> {
        subs.filter(Self::unnamed(leaf, released))
    }

    /// The store without the registrations that `released` names.
    pub open spec fn released(self, released: Seq<Registration>) -> Self {
        StoreModel {
            values: self.values,
            watchers: Seq::new(
                self.watchers.len(),
                |l: int| Self::remaining(self.watchers[l], l, released),
            ),
            next_id: self.next_id,
        }
    }

    /// Every watcher on `leaf` can be notified of the values that the store
    /// holds.
    pub open spec fn accepts(self, leaf: int, metadata: Metadata) -> bool {
        forall|k: int|
            0 <= k < self.watchers[leaf].len() ==> #[trigger] (
            self.watchers[leaf][k].observer.accepts)(self.values, metadata)
    }

    /// The reactions of the watchers on `leaf` to the values that the store
    /// holds, in the order of registration.
    pub open spec fn reactions(self, leaf: int, metadata: Metadata) -> Seq<E> {
        Seq::new(
            self.watchers[leaf].len(),
            |k: int| (self.watchers[leaf][k].observer.reaction)(self.values, metadata),
        )
    }
}

/// The predicate that holds where both `first` and `second` hold.
pub open spec fn both<A>(first: spec_fn(A) -> bool, second: spec_fn(A) -> bool) -> spec_fn(
    A,
) -> bool {
    |a: A| first(a) && second(a)
}

/// Filtering by a predicate that holds of every element changes nothing.
pub proof fn lemma_filter_all<A>(s: Seq<A>, pred: spec_fn(A) -> bool)
    requires
        forall|i: int| 0 <= i < s.len() ==> pred(#[trigger] s[i]),
    ensures
        s.filter(pred) == s,
    decreases s.len(),
{
    reveal(Seq::filter);
    if s.len() > 0 {
        lemma_filter_all(s.drop_last(), pred);
        assert(s.drop_last().push(s.last()) =~= s);
    }
}

/// Filtering by a predicate that holds of no element leaves nothing.
pub proof fn lemma_filter_none<A>(s: Seq<A>, pred: spec_fn(A) -> bool)
    requires
        forall|i: int| 0 <= i < s.len() ==> !pred(#[trigger] s[i]),
    ensures
        s.filter(pred) == Seq::<A>::empty(),
    decreases s.len(),
{
    reveal(Seq::filter);
    if s.len() > 0 {
        lemma_filter_none(s.drop_last(), pred);
    }
}

/// Filtering by a predicate that fails at `at` and nowhere else removes the
/// element at `at`.
pub proof fn lemma_filter_one<A>(s: Seq<A>, pred: spec_fn(A) -> bool, at: int)
    requires
        0 <= at < s.len(),
        !pred(s[at]),
        forall|i: int| 0 <= i < s.len() && i != at ==> pred(#[trigger] s[i]),
    ensures
        s.filter(pred) == s.remove(at),
    decreases s.len(),
{
    reveal(Seq::filter);
    if at == s.len() - 1 {
        lemma_filter_all(s.drop_last(), pred);
        assert(s.remove(at) =~= s.drop_last());
    } else {
        lemma_filter_one(s.drop_last(), pred, at);
        assert(s.remove(at) =~= s.drop_last().remove(at).push(s.last()));
    }
}

/// Filtering twice is filtering by both predicates.
pub proof fn lemma_filter_twice<A>(s: Seq<A>, first: spec_fn(A) -> bool, second: spec_fn(A) -> bool)
    ensures
        s.filter(first).filter(second) == s.filter(both(first, second)),
    decreases s.len(),
{
    reveal(Seq::filter);
    if s.len() > 0 {
        lemma_filter_twice(s.drop_last(), first, second);
        if first(s.last()) {
            let kept = s.drop_last().filter(first).push(s.last());
            assert(kept.drop_last() =~= s.drop_last().filter(first));
            assert(kept.last() == s.last());
        }
    }
}

/// Filtering a watcher list in which the ids grow leaves a list in which the
/// ids grow, made of subscriptions of the first.
pub proof fn lemma_filter_keeps_order<T, E>(
    subs: Seq<Subscription<T, E>>,
    pred: spec_fn(Subscription<T, E>) -> bool,
)
    requires
        forall|j: int, k: int|
            0 <= j < k < subs.len() ==> (#[trigger] subs[j]).id < (#[trigger] subs[k]).id,
    ensures
        forall|k: int|
            0 <= k < subs.filter(pred).len() ==> subs.contains(#[trigger] subs.filter(pred)[k]),
        forall|j: int, k: int|
            0 <= j < k < subs.filter(pred).len() ==> (#[trigger] subs.filter(pred)[j]).id < (
            #[trigger] subs.filter(pred)[k]).id,
    decreases subs.len(),
{
    reveal(Seq::filter);
    if subs.len() > 0 {
        let front = subs.drop_last();
        let kept = front.filter(pred);
        lemma_filter_keeps_order(front, pred);
        assert forall|k: int| 0 <= k < kept.len() implies subs.contains(#[trigger] kept[k])
            && kept[k].id < subs.last().id by {
            let i = choose|i: int| 0 <= i < front.len() && front[i] == kept[k];
            assert(subs[i] == kept[k]);
        }
        assert(subs.contains(subs.last())) by {
            assert(subs[subs.len() - 1] == subs.last());
        }
    }
}

impl<T, E> StoreModel<T, E> {
    /// Registering on one leaf is attaching to it.
    pub proof fn lemma_subscribe_one(self, leaf: int, observer: Observer<T, E>)
        ensures
            self.subscribe(seq![leaf], observer) == self.attach(leaf, observer),
    {
        reveal_with_fuel(StoreModel::subscribe, 2);
        assert(seq![leaf].drop_first() =~= Seq::<int>::empty());
    }

    /// Registering on `first` and then on `second` is registering on the two
    /// in a row.
    pub proof fn lemma_subscribe_both(
        self,
        first: Seq<int>,
        second: Seq<int>,
        observer: Observer<T, E>,
    )
        ensures
            self.subscribe(first + second, observer) == self.subscribe(first, observer).subscribe(
                second,
                observer,
            ),
        decreases first.len(),
    {
        if first.len() == 0 {
            assert(first + second =~= second);
        } else {
            assert((first + second).drop_first() =~= first.drop_first() + second);
            self.attach(first[0], observer).lemma_subscribe_both(
                first.drop_first(),
                second,
                observer,
            );
        }
    }

    /// A registration leaves the values and the earlier registrations as they
    /// are, in their places, and keeps the store well formed.
    pub proof fn lemma_subscribe_keeps(self, leaves: Seq<int>, observer: Observer<T, E>)
        requires
            self.wf(),
            self.holds(leaves),
        ensures
            self.subscribe(leaves, observer).wf(),
            self.subscribe(leaves, observer).values == self.values,
            self.subscribe(leaves, observer).next_id == self.next_id + leaves.len(),
            self.subscribe(leaves, observer).watchers.len() == self.watchers.len(),
            forall|l: int|
                0 <= l < self.watchers.len() ==> self.watchers[l].is_prefix_of(
                    #[trigger] self.subscribe(leaves, observer).watchers[l],
                ),
        decreases leaves.len(),
    {
        if leaves.len() > 0 {
            let next = self.attach(leaves[0], observer);
            assert(next.holds(leaves.drop_first())) by {
                assert forall|k: int| 0 <= k < leaves.drop_first().len() implies 0
                    <= #[trigger] leaves.drop_first()[k] < next.values.len() by {
                    assert(leaves.drop_first()[k] == leaves[k + 1]);
                }
            }
            next.lemma_subscribe_keeps(leaves.drop_first(), observer);
            let last = next.subscribe(leaves.drop_first(), observer);
            assert forall|l: int| 0 <= l < self.watchers.len() implies self.watchers[l]
                .is_prefix_of(#[trigger] last.watchers[l]) by {
                assert(self.watchers[l].is_prefix_of(next.watchers[l]));
                assert(next.watchers[l].is_prefix_of(last.watchers[l]));
            }
        }
    }

    /// What a registration on `leaves` does to the watcher list of `leaf`:
    /// the list keeps what it held and gets, at its end, one subscription
    /// with `observer` for each time that `leaf` stands in `leaves`. Each new
    /// subscription has one of the ids given by the registration, and is
    /// named by the registration's guard.
    pub proof fn lemma_subscribe_list(self, leaves: Seq<int>, observer: Observer<T, E>, leaf: int)
        requires
            self.wf(),
            self.holds(leaves),
            0 <= leaf < self.values.len(),
        ensures
            self.subscribe(leaves, observer).watchers[leaf].len() == self.watchers[leaf].len()
                + occurrences(leaves, leaf),
            forall|k: int|
                0 <= k < self.watchers[leaf].len() ==> #[trigger] self.subscribe(
                    leaves,
                    observer,
                ).watchers[leaf][k] == self.watchers[leaf][k],
            forall|k: int|
                self.watchers[leaf].len() <= k < self.watchers[leaf].len() + occurrences(
                    leaves,
                    leaf,
                ) ==> {
                    let added = #[trigger] self.subscribe(leaves, observer).watchers[leaf][k];
                    &&& added.observer == observer
                    &&& self.next_id <= added.id < self.next_id + leaves.len()
                    &&& registrations(leaves, self.next_id).contains(
                        Registration { leaf, id: added.id },
                    )
                },
        decreases leaves.len(),
    {
        reveal_with_fuel(occurrences, 2);
        if leaves.len() > 0 {
            let rest = leaves.drop_first();
            let next = self.attach(leaves[0], observer);
            let after = next.subscribe(rest, observer);
            let named = registrations(leaves, self.next_id);
            assert(next.holds(rest)) by {
                assert forall|k: int| 0 <= k < rest.len() implies 0 <= #[trigger] rest[k]
                    < next.values.len() by {
                    assert(rest[k] == leaves[k + 1]);
                }
            }
            next.lemma_subscribe_list(rest, observer, leaf);
            assert forall|k: int|
                self.watchers[leaf].len() <= k < self.watchers[leaf].len() + occurrences(
                    leaves,
                    leaf,
                ) implies {
                let added = #[trigger] after.watchers[leaf][k];
                &&& added.observer == observer
                &&& self.next_id <= added.id < self.next_id + leaves.len()
                &&& named.contains(Registration { leaf, id: added.id })
            } by {
                let added = after.watchers[leaf][k];
                if k < next.watchers[leaf].len() {
                    assert(added == next.watchers[leaf][k]);
                    assert(named[0] == Registration { leaf, id: added.id });
                } else {
                    let j = choose|j: int|
                        0 <= j < rest.len() && registrations(rest, next.next_id)[j]
                            == Registration { leaf, id: added.id };
                    assert(named[j + 1] == Registration { leaf, id: added.id });
                }
            }
        }
    }

    /// Releasing nothing changes nothing.
    pub proof fn lemma_released_none(self)
        ensures
            self.released(Seq::empty()) == self,
    {
        let after = self.released(Seq::empty());
        assert forall|l: int| 0 <= l < self.watchers.len() implies #[trigger] after.watchers[l]
            == self.watchers[l] by {
            lemma_filter_all(self.watchers[l], Self::unnamed(l, Seq::empty()));
        }
        assert(after.watchers =~= self.watchers);
    }

    /// A release keeps the store well formed and the values as they are.
    pub proof fn lemma_released_keeps(self, released: Seq<Registration>)
        requires
            self.wf(),
        ensures
            self.released(released).wf(),
            self.released(released).values == self.values,
            self.released(released).next_id == self.next_id,
    {
        let after = self.released(released);
        assert forall|l: int, k: int|
            0 <= l < after.watchers.len() && 0 <= k < after.watchers[l].len() implies (
        #[trigger] after.watchers[l][k]).id < after.next_id by {
            let subs = self.watchers[l];
            lemma_filter_keeps_order(subs, Self::unnamed(l, released));
            let i = choose|i: int| 0 <= i < subs.len() && subs[i] == after.watchers[l][k];
            assert(self.watchers[l][i].id < self.next_id);
        }
        assert forall|l: int, j: int, k: int|
            0 <= l < after.watchers.len() && 0 <= j < k < after.watchers[l].len() implies (
        #[trigger] after.watchers[l][j]).id < (#[trigger] after.watchers[l][k]).id by {
            lemma_filter_keeps_order(self.watchers[l], Self::unnamed(l, released));
        }
    }

    /// Releasing `first` and then `second` is releasing both at once.
    pub proof fn lemma_released_twice(self, first: Seq<Registration>, second: Seq<Registration>)
        ensures
            self.released(first).released(second) == self.released(first + second),
    {
        let twice = self.released(first).released(second);
        let once = self.released(first + second);
        assert forall|l: int| 0 <= l < self.watchers.len() implies #[trigger] twice.watchers[l]
            == once.watchers[l] by {
            let p = Self::unnamed(l, first);
            let q = Self::unnamed(l, second);
            let r = Self::unnamed(l, first + second);
            lemma_filter_twice(self.watchers[l], p, q);
            assert forall|s: Subscription<T, E>| #[trigger] r(s) == both(p, q)(s) by {
                let named = Registration { leaf: l, id: s.id };
                if first.contains(named) {
                    let i = choose|i: int| 0 <= i < first.len() && first[i] == named;
                    assert((first + second)[i] == named);
                }
                if second.contains(named) {
                    let i = choose|i: int| 0 <= i < second.len() && second[i] == named;
                    assert((first + second)[first.len() + i] == named);
                }
                if (first + second).contains(named) {
                    let i = choose|i: int|
                        0 <= i < (first + second).len() && (first + second)[i] == named;
                    if i < first.len() {
                        assert(first[i] == named);
                    } else {
                        assert(second[i - first.len()] == named);
                    }
                }
            }
            assert(r =~= both(p, q));
        }
        assert(twice.watchers =~= once.watchers);
    }
}

} // verus!

//! What holds of the library as a whole, proved from the contracts of its
//! functions.

use vstd::prelude::*;
use crate::binding::Binding;
use crate::compute::{watched, Compute};
use crate::map::Mapped;
use crate::model::{
    lemma_filter_all, lemma_filter_keeps_order, lemma_filter_none, occurrences, StoreModel,
};
use crate::transform::Transform;
use crate::watcher::{registrations, Metadata, Observer, Registration, Watcher};

verus! {

/// On every state, the value of a mapped node is the image under its
/// transform of the value of its source, and the node can be computed where
/// the source can and the transform takes the source's value.
pub proof fn law_map_applies_transform_to_source<C, F, Output>(
    node: Mapped<C, F, Output>,
    values: Seq<C::Leaf>,
) where C: Compute + 'static, F: Transform<C::Output, Output> + 'static, Output: 'static
    ensures
        node.value(values) == node.transform().image(node.source().value(values)),
        node.ready(values) <==> node.source().ready(values) && node.transform().takes(
            node.source().value(values),
        ),
{
}

/// What a node computes changes with a write only: a node's value is a
/// function of the leaf values, and registering or releasing watchers leaves
/// the leaf values as they are.
pub proof fn law_value_changes_by_write_only<N: Compute, E>(
    node: N,
    store: StoreModel<N::Leaf, E>,
    leaves: Seq<int>,
    observer: Observer<N::Leaf, E>,
    released: Seq<Registration>,
)
    requires
        store.wf(),
        store.holds(leaves),
    ensures
        node.ready(store.subscribe(leaves, observer).values) == node.ready(store.values),
        node.value(store.subscribe(leaves, observer).values) == node.value(store.values),
        node.ready(store.released(released).values) == node.ready(store.values),
        node.value(store.released(released).values) == node.value(store.values),
{
    store.lemma_subscribe_keeps(leaves, observer);
}

/// Watchers are notified in the order of their registration: where `first`
/// and then `second` are registered on one node, a write to a leaf of the
/// node gives the reactions of the watchers that the leaf had before, then
/// those of `first`, then those of `second`. Each of the two receives the
/// value that the node has after the write.
pub proof fn law_notified_in_registration_order<N, E, W1, W2>(
    node: N,
    first: W1,
    second: W2,
    store: StoreModel<N::Leaf, E>,
    leaf: int,
    value: N::Leaf,
    metadata: Metadata,
) where N: Compute, W1: Watcher<N::Output, N::Leaf, E>, W2: Watcher<N::Output, N::Leaf, E>
    requires
        store.wf(),
        store.holds(node.sources()),
        0 <= leaf < store.values.len(),
    ensures
        ({
            let registered = store.subscribe(node.sources(), watched(node, first)).subscribe(
                node.sources(),
                watched(node, second),
            );
            let after = registered.written(leaf, value);
            let reactions = after.reactions(leaf, metadata);
            let before = store.written(leaf, value).reactions(leaf, metadata);
            let times = occurrences(node.sources(), leaf);
            &&& reactions.len() == before.len() + times + times
            &&& forall|k: int| 0 <= k < before.len() ==> #[trigger] reactions[k] == before[k]
            &&& forall|k: int|
                before.len() <= k < before.len() + times ==> #[trigger] reactions[k]
                    == first.reaction(after.values, node.value(after.values), metadata)
            &&& forall|k: int|
                before.len() + times <= k < before.len() + times + times ==> #[trigger] reactions[k]
                    == second.reaction(after.values, node.value(after.values), metadata)
        }),
{
    let once = store.subscribe(node.sources(), watched(node, first));
    store.lemma_subscribe_keeps(node.sources(), watched(node, first));
    store.lemma_subscribe_list(node.sources(), watched(node, first), leaf);
    once.lemma_subscribe_keeps(node.sources(), watched(node, second));
    once.lemma_subscribe_list(node.sources(), watched(node, second), leaf);
}

/// A write reaches every node built on the written leaf, through any chain
/// of transforms and without a call that refreshes it: after `written` is
/// written to the leaf `x`, the node that maps by `outer` over the node that
/// maps by `inner` over `x` has as its value the image under `outer` of the
/// image under `inner` of `written`.
pub proof fn law_write_reaches_chained_nodes<T: Copy + 'static, F, G, A, B, E>(
    x: Binding<T>,
    inner: Mapped<Binding<T>, F, A>,
    outer: Mapped<Mapped<Binding<T>, F, A>, G, B>,
    store: StoreModel<T, E>,
    written: T,
) where F: Transform<T, A> + 'static, G: Transform<A, B> + 'static, A: 'static, B: 'static
    requires
        inner.source() == x,
        outer.source() == inner,
        0 <= x.leaf() < store.values.len(),
    ensures
        x.value(store.written(x.leaf(), written).values) == written,
        inner.value(store.written(x.leaf(), written).values) == inner.transform().image(written),
        outer.value(store.written(x.leaf(), written).values) == outer.transform().image(
            inner.transform().image(written),
        ),
{
}

/// A release takes out the registrations that the guard names, and no
/// other: what stays on a leaf was there before and is not named, and what
/// was there and is not named stays. The order of what stays is the order
/// that it had, and the values of the leaves are as they were.
pub proof fn law_release_takes_the_named_only<T, E>(
    store: StoreModel<T, E>,
    released: Seq<Registration>,
    leaf: int,
)
    requires
        store.wf(),
        0 <= leaf < store.values.len(),
    ensures
        store.released(released).wf(),
        store.released(released).values == store.values,
        forall|k: int|
            0 <= k < store.released(released).watchers[leaf].len() ==> {
                let stays = #[trigger] store.released(released).watchers[leaf][k];
                &&& store.watchers[leaf].contains(stays)
                &&& !released.contains(Registration { leaf, id: stays.id })
            },
        forall|k: int|
            0 <= k < store.watchers[leaf].len() && !released.contains(
                Registration { leaf, id: store.watchers[leaf][k].id },
            ) ==> store.released(released).watchers[leaf].contains(
                #[trigger] store.watchers[leaf][k],
            ),
{
    let subs = store.watchers[leaf];
    let unnamed = StoreModel::<T, E>::unnamed(leaf, released);
    store.lemma_released_keeps(released);
    lemma_filter_keeps_order(subs, unnamed);
    assert forall|k: int| 0 <= k < subs.filter(unnamed).len() implies unnamed(
        #[trigger] subs.filter(unnamed)[k],
    ) by {
        subs.lemma_filter_pred(unnamed, k);
    }
    assert forall|k: int| 0 <= k < subs.len() && unnamed(subs[k]) implies subs.filter(
        unnamed,
    ).contains(#[trigger] subs[k]) by {
        subs.lemma_filter_contains(unnamed, k);
    }
}

/// A released watcher is notified no more, and the others still are: where
/// `first` is registered, then `second`, and the guard of `first` is
/// released, a write to a leaf gives the reactions of the watchers that the
/// leaf had before the two, then those of `second`, and none of `first`.
pub proof fn law_released_watcher_is_silent<T, E>(
    store: StoreModel<T, E>,
    first_leaves: Seq<int>,
    first: Observer<T, E>,
    second_leaves: Seq<int>,
    second: Observer<T, E>,
    leaf: int,
    value: T,
    metadata: Metadata,
)
    requires
        store.wf(),
        store.holds(first_leaves),
        store.holds(second_leaves),
        0 <= leaf < store.values.len(),
    ensures
        ({
            let guard = registrations(first_leaves, store.next_id);
            let registered = store.subscribe(first_leaves, first).subscribe(second_leaves, second);
            let after = registered.released(guard).written(leaf, value);
            let reactions = after.reactions(leaf, metadata);
            let before = store.written(leaf, value).reactions(leaf, metadata);
            let times = occurrences(second_leaves, leaf);
            &&& after.values == store.values.update(leaf, value)
            &&& reactions.len() == before.len() + times
            &&& forall|k: int| 0 <= k < before.len() ==> #[trigger] reactions[k] == before[k]
            &&& forall|k: int|
                before.len() <= k < before.len() + times ==> #[trigger] reactions[k] == (
                second.reaction)(after.values, metadata)
        }),
{
    let guard = registrations(first_leaves, store.next_id);
    let once = store.subscribe(first_leaves, first);
    let twice = once.subscribe(second_leaves, second);
    store.lemma_subscribe_keeps(first_leaves, first);
    store.lemma_subscribe_list(first_leaves, first, leaf);
    once.lemma_subscribe_keeps(second_leaves, second);
    once.lemma_subscribe_list(second_leaves, second, leaf);
    let kept = store.watchers[leaf];
    let n = kept.len() as int;
    let gone = once.watchers[leaf].skip(n);
    let stays = twice.watchers[leaf].skip(once.watchers[leaf].len() as int);
    let unnamed = StoreModel::<T, E>::unnamed(leaf, guard);
    assert(twice.watchers[leaf] =~= kept + gone + stays);
    assert forall|i: int| 0 <= i < kept.len() implies unnamed(#[trigger] kept[i]) by {
        assert(kept[i].id < store.next_id);
        if guard.contains(Registration { leaf, id: kept[i].id }) {
            let j = choose|j: int|
                0 <= j < guard.len() && guard[j] == Registration { leaf, id: kept[i].id };
            assert(guard[j].id == store.next_id + j);
        }
    }
    assert forall|i: int| 0 <= i < gone.len() implies !unnamed(#[trigger] gone[i]) by {
        assert(gone[i] == once.watchers[leaf][n + i]);
    }
    assert forall|i: int| 0 <= i < stays.len() implies unnamed(#[trigger] stays[i]) by {
        assert(stays[i] == twice.watchers[leaf][once.watchers[leaf].len() + i]);
        assert(stays[i].id >= once.next_id);
        if guard.contains(Registration { leaf, id: stays[i].id }) {
            let j = choose|j: int|
                0 <= j < guard.len() && guard[j] == Registration { leaf, id: stays[i].id };
            assert(guard[j].id == store.next_id + j);
        }
    }
    lemma_filter_all(kept, unnamed);
    lemma_filter_none(gone, unnamed);
    lemma_filter_all(stays, unnamed);
    Seq::filter_distributes_over_add(kept, gone, unnamed);
    Seq::filter_distributes_over_add(kept + gone, stays, unnamed);
    assert(twice.released(guard).watchers[leaf] =~= kept + stays);
}

} // verus!

use std::cell::Cell;
use std::rc::Rc;

use reactive::{Compute, Metadata, Store, Watcher};

#[test]
fn watchers_are_notified_in_registration_order() {
    let mut store: Store<i32, (u8, i32)> = Store::new();
    let x = store.binding(1);
    let doubled = reactive::map::map(x, |n: i32| n * 2);
    let _first = doubled.add_watcher(&mut store, |value: i32, _metadata: Metadata| (1u8, value));
    let _second = doubled.add_watcher(&mut store, |value: i32, _metadata: Metadata| (2u8, value));
    let received = store.set(&x, 4, Metadata { tag: 0 });
    assert_eq!(received, vec![(1, 8), (2, 8)]);
}

#[test]
fn order_holds_across_nodes_on_one_leaf() {
    let mut store: Store<i32, (u8, i32)> = Store::new();
    let x = store.binding(1);
    let doubled = reactive::map::map(x, |n: i32| n * 2);
    let negated = reactive::map::map(x, |n: i32| -n);
    let _a = negated.add_watcher(&mut store, |value: i32, _metadata: Metadata| (1u8, value));
    let _b = x.add_watcher(&mut store, |value: i32, _metadata: Metadata| (2u8, value));
    let _c = doubled.add_watcher(&mut store, |value: i32, _metadata: Metadata| (3u8, value));
    let received = store.set(&x, 5, Metadata { tag: 0 });
    assert_eq!(received, vec![(1, -5), (2, 5), (3, 10)]);
}

#[test]
fn a_released_watcher_is_silent_and_the_other_is_not() {
    let mut store: Store<i32, (u8, i32)> = Store::new();
    let x = store.binding(1);
    let doubled = reactive::map::map(x, |n: i32| n * 2);
    let first = doubled.add_watcher(&mut store, |value: i32, _metadata: Metadata| (1u8, value));
    let _second = doubled.add_watcher(&mut store, |value: i32, _metadata: Metadata| (2u8, value));
    assert_eq!(store.set(&x, 2, Metadata { tag: 0 }), vec![(1, 4), (2, 4)]);

    store.release(first);
    assert_eq!(store.watcher_count(&x), 1);
    assert_eq!(store.set(&x, 3, Metadata { tag: 0 }), vec![(2, 6)]);
}

#[test]
fn releasing_the_last_watcher_empties_the_list() {
    let mut store: Store<i32, i32> = Store::new();
    let x = store.binding(1);
    let guard = x.add_watcher(&mut store, |value: i32, _metadata: Metadata| value);
    assert_eq!(guard.len(), 1);
    assert_eq!(store.watcher_count(&x), 1);
    store.release(guard);
    assert_eq!(store.watcher_count(&x), 0);
    assert_eq!(store.set(&x, 9, Metadata { tag: 0 }), Vec::<i32>::new());
}

#[test]
fn registering_does_not_notify() {
    let calls = Rc::new(Cell::new(0u32));
    let seen = calls.clone();
    let mut store: Store<i32, ()> = Store::new();
    let x = store.binding(1);
    let doubled = reactive::map::map(x, |n: i32| n * 2);
    let _guard = doubled.add_watcher(&mut store, move |_value: i32, _metadata: Metadata| {
        seen.set(seen.get() + 1);
    });
    assert_eq!(calls.get(), 0);
    store.set(&x, 2, Metadata { tag: 0 });
    assert_eq!(calls.get(), 1);
    store.set(&x, 2, Metadata { tag: 0 });
    assert_eq!(calls.get(), 2);
}

#[test]
fn every_write_is_delivered_once_before_it_returns() {
    let last = Rc::new(Cell::new(0i32));
    let count = Rc::new(Cell::new(0u32));
    let (last_seen, count_seen) = (last.clone(), count.clone());
    let mut store: Store<i32, ()> = Store::new();
    let x = store.binding(0);
    let plus_one = reactive::map::map(x, |n: i32| n + 1);
    let times_ten = reactive::map::map(plus_one, |n: i32| n * 10);
    let _guard = times_ten.add_watcher(&mut store, move |value: i32, _metadata: Metadata| {
        last_seen.set(value);
        count_seen.set(count_seen.get() + 1);
    });
    store.set(&x, 4, Metadata { tag: 0 });
    assert_eq!(last.get(), 50);
    assert_eq!(count.get(), 1);
}

#[test]
fn metadata_reaches_the_watcher_unchanged() {
    let mut store: Store<i32, Metadata> = Store::new();
    let x = store.binding(1);
    let doubled = reactive::map::map(x, |n: i32| n * 2);
    let again = reactive::map::map(doubled, |n: i32| n * 2);
    let _guard = again.add_watcher(&mut store, |_value: i32, metadata: Metadata| metadata);
    let received = store.set(&x, 2, Metadata { tag: 77 });
    assert_eq!(received, vec![Metadata { tag: 77 }]);
    let received = store.set(&x, 2, Metadata { tag: u64::MAX });
    assert_eq!(received, vec![Metadata { tag: u64::MAX }]);
}

#[test]
fn the_forwarded_value_is_computed_from_the_live_state() {
    let mut store: Store<i32, i32> = Store::new();
    let x = store.binding(1);
    let y = store.binding(100);
    let both = reactive::zip::zip(x, y);
    let total = reactive::map::map(both, |pair: (i32, i32)| pair.0 + pair.1);
    let _guard = total.add_watcher(&mut store, |value: i32, _metadata: Metadata| value);
    store.set(&y, 200, Metadata { tag: 0 });
    assert_eq!(store.set(&x, 2, Metadata { tag: 0 }), vec![202]);
}

#[test]
fn a_write_to_another_leaf_notifies_nobody() {
    let mut store: Store<i32, i32> = Store::new();
    let x = store.binding(1);
    let y = store.binding(2);
    let _guard = x.add_watcher(&mut store, |value: i32, _metadata: Metadata| value);
    assert_eq!(store.set(&y, 5, Metadata { tag: 0 }), Vec::<i32>::new());
    assert_eq!(store.set(&x, 5, Metadata { tag: 0 }), vec![5]);
}

#[test]
fn a_function_is_a_watcher() {
    let store: Store<i32, i32> = Store::new();
    let watcher = |value: i32, metadata: Metadata| value + metadata.tag as i32;
    assert_eq!(watcher.notify(store.state(), 40, Metadata { tag: 2 }), 42);
}

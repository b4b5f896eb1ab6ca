use std::cell::Cell;
use std::rc::Rc;

use reactive::{Binding, Compute, Mapped, Metadata, Store, Transform};

fn square(n: i64) -> i64 {
    n * n
}

#[test]
fn map_computes_transform_of_source_on_every_state() {
    let mut store: Store<i64, ()> = Store::new();
    let x = store.binding(0);
    let squared = reactive::map::map(x, square);
    for n in [-3i64, -1, 0, 1, 2, 10, 1000] {
        store.set(&x, n, Metadata { tag: 0 });
        let from_source = x.compute(store.state());
        assert_eq!(from_source, n);
        assert_eq!(squared.compute(store.state()), square(from_source));
    }
}

#[test]
fn new_and_map_build_the_same_node() {
    let mut store: Store<i32, ()> = Store::new();
    let x = store.binding(4);
    let by_new: Mapped<Binding<i32>, _, i32> = Mapped::new(x, |n: i32| n + 1);
    let by_map = reactive::map::map(x, |n: i32| n + 1);
    assert_eq!(by_new.compute(store.state()), 5);
    assert_eq!(by_map.compute(store.state()), 5);
}

#[test]
fn map_may_change_the_type() {
    let mut store: Store<u8, ()> = Store::new();
    let x = store.binding(7);
    let text = reactive::map::map(x, |n: u8| format!("<{}>", n));
    assert_eq!(text.compute(store.state()), "<7>");
    let length = reactive::map::map(text, |s: String| s.len());
    assert_eq!(length.compute(store.state()), 3);
}

#[test]
fn repeated_compute_gives_the_same_result() {
    let mut store: Store<i32, i32> = Store::new();
    let x = store.binding(21);
    let doubled = reactive::map::map(x, |n: i32| n * 2);
    let first = doubled.compute(store.state());
    let second = doubled.compute(store.state());
    assert_eq!(first, 42);
    assert_eq!(first, second);
}

#[test]
fn registering_and_releasing_do_not_change_the_value() {
    let mut store: Store<i32, i32> = Store::new();
    let x = store.binding(21);
    let doubled = reactive::map::map(x, |n: i32| n * 2);
    let before = doubled.compute(store.state());
    let guard = doubled.add_watcher(&mut store, |value: i32, _metadata: Metadata| value);
    let registered = doubled.compute(store.state());
    store.release(guard);
    let released = doubled.compute(store.state());
    assert_eq!(before, 42);
    assert_eq!(registered, 42);
    assert_eq!(released, 42);
}

#[test]
fn chained_maps_follow_a_write() {
    let mut store: Store<i32, ()> = Store::new();
    let x = store.binding(1);
    let doubled = reactive::map::map(x, |n: i32| n * 2);
    let shifted = reactive::map::map(doubled.clone(), |n: i32| n + 3);
    let negated = reactive::map::map(shifted.clone(), |n: i32| -n);
    assert_eq!(negated.compute(store.state()), -5);

    store.set(&x, 10, Metadata { tag: 0 });
    assert_eq!(doubled.compute(store.state()), 20);
    assert_eq!(shifted.compute(store.state()), 23);
    assert_eq!(negated.compute(store.state()), -23);
}

#[test]
fn a_clone_is_the_same_node() {
    let mut store: Store<i32, i32> = Store::new();
    let x = store.binding(3);
    let tripled = reactive::map::map(x, |n: i32| n * 3);
    let copy = tripled.clone();
    assert_eq!(copy.compute(store.state()), 9);
    store.set(&x, 5, Metadata { tag: 0 });
    assert_eq!(tripled.compute(store.state()), 15);
    assert_eq!(copy.compute(store.state()), 15);
}

#[test]
fn unobserved_maps_leave_the_watcher_list_alone() {
    let mut store: Store<i32, i32> = Store::new();
    let x = store.binding(1);
    let _kept = store.attach(&x, |value: i32, _metadata: Metadata| value);
    assert_eq!(store.watcher_count(&x), 1);

    let mut nodes = Vec::new();
    for k in 0..100 {
        nodes.push(reactive::map::map(x, move |n: i32| n + k));
    }
    for (k, node) in nodes.iter().enumerate() {
        assert_eq!(node.compute(store.state()), 1 + k as i32);
    }
    assert_eq!(store.watcher_count(&x), 1);

    let _guard = nodes[0].add_watcher(&mut store, |value: i32, _metadata: Metadata| value);
    assert_eq!(store.watcher_count(&x), 2);
}

#[test]
fn a_function_is_a_transform() {
    assert_eq!(square.apply(12), 144);
    assert_eq!((|n: u8| n as u32 + 1).apply(255), 256);
}

#[test]
fn the_transform_runs_on_demand_only() {
    let runs = Rc::new(Cell::new(0u32));
    let counted = runs.clone();
    let mut store: Store<i32, i32> = Store::new();
    let x = store.binding(1);
    let doubled = reactive::map::map(x, move |n: i32| {
        counted.set(counted.get() + 1);
        n * 2
    });
    assert_eq!(runs.get(), 0);

    assert_eq!(doubled.compute(store.state()), 2);
    assert_eq!(doubled.compute(store.state()), 2);
    assert_eq!(runs.get(), 2);

    let _first = doubled.add_watcher(&mut store, |value: i32, _metadata: Metadata| value);
    let _second = doubled.add_watcher(&mut store, |value: i32, _metadata: Metadata| value);
    assert_eq!(runs.get(), 2);

    assert_eq!(store.set(&x, 3, Metadata { tag: 0 }), vec![6, 6]);
    assert_eq!(runs.get(), 4);
}

#[test]
fn clones_share_the_transform() {
    let runs = Rc::new(Cell::new(0u32));
    let counted = runs.clone();
    let mut store: Store<i32, ()> = Store::new();
    let x = store.binding(1);
    let node = reactive::map::map(x, move |n: i32| {
        counted.set(counted.get() + 1);
        n
    });
    let copy = node.clone();
    node.compute(store.state());
    copy.compute(store.state());
    assert_eq!(runs.get(), 2);
    assert_eq!(Rc::strong_count(&runs), 2);
}

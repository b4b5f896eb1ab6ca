use reactive::{Compute, Metadata, Store, Sum, Transform, Zip};

#[test]
fn zip_pairs_the_values() {
    let mut store: Store<i32, ()> = Store::new();
    let x = store.binding(1);
    let y = store.binding(2);
    let both = reactive::zip::zip(x, y);
    assert_eq!(both.compute(store.state()), (1, 2));
    store.set(&y, 5, Metadata { tag: 0 });
    assert_eq!(both.compute(store.state()), (1, 5));
    let by_new = Zip::new(y, x);
    assert_eq!(by_new.compute(store.state()), (5, 1));
}

#[test]
fn zip_watches_both_leaves() {
    let mut store: Store<i32, (i32, i32)> = Store::new();
    let x = store.binding(1);
    let y = store.binding(2);
    let both = reactive::zip::zip(x, y);
    let guard = both.add_watcher(&mut store, |pair: (i32, i32), _metadata: Metadata| pair);
    assert_eq!(guard.len(), 2);
    assert_eq!(store.watcher_count(&x), 1);
    assert_eq!(store.watcher_count(&y), 1);
    assert_eq!(store.set(&x, 10, Metadata { tag: 0 }), vec![(10, 2)]);
    assert_eq!(store.set(&y, 20, Metadata { tag: 0 }), vec![(10, 20)]);

    store.release(guard);
    assert_eq!(store.watcher_count(&x), 0);
    assert_eq!(store.watcher_count(&y), 0);
    assert_eq!(store.set(&x, 0, Metadata { tag: 0 }), Vec::<(i32, i32)>::new());
}

#[test]
fn add_sums_the_values() {
    let mut store: Store<u32, u32> = Store::new();
    let x = store.binding(2);
    let y = store.binding(3);
    let sum = reactive::utils::add(x, y);
    assert_eq!(sum.compute(store.state()), 5);
    let _guard = sum.add_watcher(&mut store, |value: u32, _metadata: Metadata| value);
    assert_eq!(store.set(&x, 40, Metadata { tag: 0 }), vec![43]);
    assert_eq!(store.set(&y, 2, Metadata { tag: 0 }), vec![42]);
    assert_eq!(sum.compute(store.state()), 42);
}

#[test]
fn add_of_derived_nodes() {
    let mut store: Store<i64, ()> = Store::new();
    let x = store.binding(3);
    let y = store.binding(4);
    let x_squared = reactive::map::map(x, |n: i64| n * n);
    let y_squared = reactive::map::map(y, |n: i64| n * n);
    let sum = reactive::utils::add(x_squared, y_squared);
    assert_eq!(sum.compute(store.state()), 25);
    store.set(&x, 5, Metadata { tag: 0 });
    store.set(&y, 12, Metadata { tag: 0 });
    assert_eq!(sum.compute(store.state()), 169);
}

#[test]
fn a_leaf_read_twice_is_watched_twice() {
    let mut store: Store<i32, i32> = Store::new();
    let x = store.binding(4);
    let twice = reactive::utils::add(x, x);
    assert_eq!(twice.compute(store.state()), 8);
    let guard = twice.add_watcher(&mut store, |value: i32, _metadata: Metadata| value);
    assert_eq!(guard.len(), 2);
    assert_eq!(store.watcher_count(&x), 2);
    assert_eq!(store.set(&x, 5, Metadata { tag: 0 }), vec![10, 10]);
    store.release(guard);
    assert_eq!(store.watcher_count(&x), 0);
}

#[test]
fn sum_adds_a_pair() {
    assert_eq!(Sum.apply((2u8, 3u8)), 5);
    assert_eq!(Sum.apply((-7i64, 7i64)), 0);
}

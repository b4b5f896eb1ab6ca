use reactive::{Compute, Metadata, State, Store};

#[test]
fn a_new_store_has_no_leaves() {
    let store: Store<i32, ()> = Store::new();
    assert_eq!(store.state().len(), 0);
    let state: State<i32> = State::new();
    assert_eq!(state.len(), 0);
}

#[test]
fn bindings_are_numbered_in_order() {
    let mut store: Store<char, ()> = Store::new();
    let a = store.binding('a');
    let b = store.binding('b');
    let c = store.binding('c');
    assert_eq!((a.index(), b.index(), c.index()), (0, 1, 2));
    assert_eq!(store.state().len(), 3);
    assert_eq!(store.state().get(1), 'b');
    assert_eq!(b.compute(store.state()), 'b');
    assert_eq!(b.clone().index(), 1);
}

#[test]
fn a_write_changes_one_leaf() {
    let mut store: Store<i32, ()> = Store::new();
    let x = store.binding(1);
    let y = store.binding(2);
    let received = store.set(&x, 10, Metadata { tag: 0 });
    assert_eq!(received.len(), 0);
    assert_eq!(x.compute(store.state()), 10);
    assert_eq!(y.compute(store.state()), 2);
}

#[test]
fn attach_registers_on_the_leaf_itself() {
    let mut store: Store<i32, i32> = Store::new();
    let x = store.binding(1);
    let guard = store.attach(&x, |value: i32, _metadata: Metadata| value + 1);
    assert_eq!(store.watcher_count(&x), 1);
    assert_eq!(store.set(&x, 1, Metadata { tag: 0 }), vec![2]);
    store.release(guard);
    assert_eq!(store.set(&x, 1, Metadata { tag: 0 }), Vec::<i32>::new());
}

#[test]
fn releasing_a_guard_of_another_store_changes_nothing() {
    let mut here: Store<i32, i32> = Store::new();
    let x = here.binding(1);
    let _kept = here.attach(&x, |value: i32, _metadata: Metadata| value);

    let mut elsewhere: Store<i32, i32> = Store::new();
    let _p = elsewhere.binding(0);
    let _q = elsewhere.binding(0);
    let r = elsewhere.binding(0);
    let _one = elsewhere.attach(&r, |value: i32, _metadata: Metadata| value);
    let foreign = elsewhere.attach(&r, |value: i32, _metadata: Metadata| value);

    here.release(foreign);
    assert_eq!(here.watcher_count(&x), 1);
    assert_eq!(here.set(&x, 3, Metadata { tag: 0 }), vec![3]);
}

#[test]
fn release_takes_out_the_named_registration_only() {
    let mut store: Store<i32, u8> = Store::new();
    let x = store.binding(0);
    let _a = store.attach(&x, |_value: i32, _metadata: Metadata| 1u8);
    let b = store.attach(&x, |_value: i32, _metadata: Metadata| 2u8);
    let _c = store.attach(&x, |_value: i32, _metadata: Metadata| 3u8);
    let d = store.attach(&x, |_value: i32, _metadata: Metadata| 4u8);
    store.release(b);
    assert_eq!(store.set(&x, 0, Metadata { tag: 0 }), vec![1, 3, 4]);
    store.release(d);
    assert_eq!(store.set(&x, 0, Metadata { tag: 0 }), vec![1, 3]);
    let _e = store.attach(&x, |_value: i32, _metadata: Metadata| 5u8);
    assert_eq!(store.set(&x, 0, Metadata { tag: 0 }), vec![1, 3, 5]);
}

#[test]
fn guards_join() {
    let mut store: Store<i32, u8> = Store::new();
    let x = store.binding(0);
    let y = store.binding(0);
    let a = store.attach(&x, |_value: i32, _metadata: Metadata| 1u8);
    let b = store.attach(&y, |_value: i32, _metadata: Metadata| 2u8);
    let _c = store.attach(&y, |_value: i32, _metadata: Metadata| 3u8);
    let joined = a.join(b);
    assert_eq!(joined.len(), 2);
    store.release(joined);
    assert_eq!(store.watcher_count(&x), 0);
    assert_eq!(store.set(&y, 0, Metadata { tag: 0 }), vec![3]);
}

#[test]
fn every_registration_takes_an_id() {
    let mut store: Store<i32, ()> = Store::new();
    let x = store.binding(0);
    assert_eq!(store.ids_left(), u64::MAX);
    let guard = store.attach(&x, |_value: i32, _metadata: Metadata| ());
    assert_eq!(store.ids_left(), u64::MAX - 1);
    store.release(guard);
    assert_eq!(store.ids_left(), u64::MAX - 1);
}

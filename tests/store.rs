use timeline::containers::KeyframeStore;
use timeline::interface::DataContainer;

#[test]
fn btreemap_it_works() {
    let mut bmap = KeyframeStore::new();
    bmap.set(10, 1);
    bmap.set(15, 2);
    bmap.set(20, 3);
    bmap.set(25, 4);

    let (mut past, mut future) = bmap.split_at(17);
    assert_eq!(past.next(), Some((15, 2)));
    assert_eq!(past.next(), Some((10, 1)));

    assert_eq!(future.next(), Some((20, 3)));
    assert_eq!(future.next(), Some((25, 4)));
}

#[test]
fn split_puts_exact_key_in_future() {
    let store = KeyframeStore::from_keyframes(vec![(25, 4), (10, 1), (20, 3), (15, 2)]);
    let (mut past, mut future) = store.split_at(15);
    let mut before = Vec::new();
    while let Some(k) = past.next() {
        before.push(k);
    }
    let mut after = Vec::new();
    while let Some(k) = future.next() {
        after.push(k);
    }
    assert_eq!(before, vec![(10, 1)]);
    assert_eq!(after, vec![(15, 2), (20, 3), (25, 4)]);
    before.reverse();
    before.extend(after);
    assert_eq!(&before, store.entries());
}

#[test]
fn split_outside_the_keys() {
    let store = KeyframeStore::from_keyframes(vec![(10, 1), (20, 2)]);
    let (mut past, mut future) = store.split_at(5);
    assert_eq!(past.next(), None);
    assert_eq!(future.next(), Some((10, 1)));
    let (mut past, mut future) = store.split_at(21);
    assert_eq!(past.next(), Some((20, 2)));
    assert_eq!(future.next(), None);
    let empty: KeyframeStore<i32> = KeyframeStore::new();
    let (mut past, mut future) = empty.split_at(0);
    assert_eq!(past.next(), None);
    assert_eq!(future.next(), None);
}

#[test]
fn set_overwrites_and_keeps_order() {
    let mut store = KeyframeStore::new();
    store.set(20, 2);
    store.set(10, 1);
    store.set(30, 3);
    store.set(20, 9);
    assert_eq!(store.entries(), &vec![(10, 1), (20, 9), (30, 3)]);
    assert_eq!(store.len(), 3);
    assert_eq!(store.get(20), Some(9));
    assert_eq!(store.get(25), None);
}

#[test]
fn from_keyframes_keeps_the_later_duplicate() {
    let store = KeyframeStore::from_keyframes(vec![(5, 1), (3, 2), (5, 7)]);
    assert_eq!(store.entries(), &vec![(3, 2), (5, 7)]);
}

#[test]
fn remove_returns_the_value() {
    let mut store = KeyframeStore::from_keyframes(vec![(10, 1), (20, 2)]);
    assert_eq!(store.remove(15), None);
    assert_eq!(store.entries(), &vec![(10, 1), (20, 2)]);
    assert_eq!(store.remove(10), Some(1));
    assert_eq!(store.entries(), &vec![(20, 2)]);
    assert_eq!(store.remove(10), None);
}

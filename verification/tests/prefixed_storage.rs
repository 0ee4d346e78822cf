use cw_examples::prefixed::{calculate_prefix_impl, PrefixedStorage};
use cw_examples::storage::MemoryStorage;
use cw_examples::two;

#[test]
fn two_is_two() {
    assert_eq!(two(), 2);
}

#[test]
fn calculate_prefix_impl_works() {
    assert_eq!(calculate_prefix_impl(b""), b"\x00");
    assert_eq!(calculate_prefix_impl(b"a"), b"\x01a");
    assert_eq!(calculate_prefix_impl(b"ab"), b"\x02ab");
    assert_eq!(calculate_prefix_impl(b"abc"), b"\x03abc");
}

#[test]
fn calculate_prefix_impl_works_for_long_prefix() {
    let limit = 0xFF;
    let long_prefix = vec![0; limit];
    let out = calculate_prefix_impl(&long_prefix);
    assert_eq!(out.len(), limit + 1);
    assert_eq!(out[0], 0xFF);
}

#[test]
fn prefixedstorage_works() {
    let mut store = MemoryStorage::new();

    let prefixed = PrefixedStorage::new(b"foo");
    prefixed.set(&mut store, b"bar", b"some data");
    let val = prefixed.get(&store, b"bar");
    assert_eq!(val, Some(b"some data".to_vec()));

    // now check the underlying storage
    let val = store.get(b"bar");
    assert_eq!(val, None);
    let val = store.get(b"\x03foobar");
    assert_eq!(val, Some(b"some data".to_vec()));
}

#[test]
fn prefixes_keep_namespaces_apart() {
    // "a" + "bc" and "ab" + "c" are the same bytes; the length byte keeps them apart
    let mut store = MemoryStorage::new();
    let a = PrefixedStorage::new(b"a");
    let ab = PrefixedStorage::new(b"ab");
    a.set(&mut store, b"bc", b"one");
    ab.set(&mut store, b"c", b"two");
    assert_eq!(a.get(&store, b"bc"), Some(b"one".to_vec()));
    assert_eq!(ab.get(&store, b"c"), Some(b"two".to_vec()));
    assert_eq!(store.get(b"\x01abc"), Some(b"one".to_vec()));
    assert_eq!(store.get(b"\x02abc"), Some(b"two".to_vec()));
}

#[test]
fn memory_storage_overwrites() {
    let mut store = MemoryStorage::new();
    assert_eq!(store.get(b"k"), None);
    store.set(b"k", b"v1");
    store.set(b"k", b"v2");
    assert_eq!(store.get(b"k"), Some(b"v2".to_vec()));
}

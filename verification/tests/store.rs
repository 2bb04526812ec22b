use kvs::KvStore;

// Should get previously stored value.
#[test]
fn kv_get_stored_value() {
    let mut store = KvStore::new();

    store.set("key1".to_owned(), "value1".to_owned());
    store.set("key2".to_owned(), "value2".to_owned());

    assert_eq!(store.get("key1".to_owned()), Some("value1".to_owned()));
    assert_eq!(store.get("key2".to_owned()), Some("value2".to_owned()));
}

// Should overwrite existent value.
#[test]
fn kv_overwrite_value() {
    let mut store = KvStore::new();

    store.set("key1".to_owned(), "value1".to_owned());
    assert_eq!(store.get("key1".to_owned()), Some("value1".to_owned()));

    store.set("key1".to_owned(), "value2".to_owned());
    assert_eq!(store.get("key1".to_owned()), Some("value2".to_owned()));
}

// Should get `None` when getting a non-existent key.
#[test]
fn kv_get_non_existent_value() {
    let mut store = KvStore::new();

    store.set("key1".to_owned(), "value1".to_owned());
    assert_eq!(store.get("key2".to_owned()), None);
}

// Should get `None` after removing an existing key.
#[test]
fn kv_remove_key() {
    let mut store = KvStore::new();

    store.set("key1".to_owned(), "value1".to_owned());
    store.remove("key1".to_owned());
    assert_eq!(store.get("key1".to_owned()), None);
}

// Should get previously stored value.
#[test]
fn tests_get_stored_value() {
    let mut store = KvStore::new();

    store.set("key1".to_owned(), "value1".to_owned());
    store.set("key2".to_owned(), "value2".to_owned());

    assert_eq!(store.get("key1".to_owned()), Some("value1".to_owned()));
    assert_eq!(store.get("key2".to_owned()), Some("value2".to_owned()));
}

// Should overwrite existent value.
#[test]
fn tests_overwrite_value() {
    let mut store = KvStore::new();

    store.set("key1".to_owned(), "value1".to_owned());
    assert_eq!(store.get("key1".to_owned()), Some("value1".to_owned()));

    store.set("key1".to_owned(), "value2".to_owned());
    assert_eq!(store.get("key1".to_owned()), Some("value2".to_owned()));
}

// Should get `None` when getting a non-existent key.
#[test]
fn tests_get_non_existent_value() {
    let mut store = KvStore::new();

    store.set("key1".to_owned(), "value1".to_owned());
    assert_eq!(store.get("key2".to_owned()), None);
}

// Should get `None` after removing an existing key.
#[test]
fn tests_remove_key() {
    let mut store = KvStore::new();

    store.set("key1".to_owned(), "value1".to_owned());
    store.remove("key1".to_owned());
    assert_eq!(store.get("key1".to_owned()), None);
}

// A fresh store holds nothing.
#[test]
fn get_on_fresh_store() {
    let store = KvStore::new();
    assert_eq!(store.get("key1".to_owned()), None);
}

// A defaulted store behaves like a fresh one.
#[test]
fn default_store_is_empty() {
    let store = KvStore::default();
    assert_eq!(store.get("key1".to_owned()), None);
}

// Empty strings are ordinary keys and values.
#[test]
fn empty_key_and_value() {
    let mut store = KvStore::new();

    store.set("".to_owned(), "".to_owned());
    assert_eq!(store.get("".to_owned()), Some("".to_owned()));

    store.set("key1".to_owned(), "".to_owned());
    assert_eq!(store.get("key1".to_owned()), Some("".to_owned()));

    store.remove("".to_owned());
    assert_eq!(store.get("".to_owned()), None);
    assert_eq!(store.get("key1".to_owned()), Some("".to_owned()));
}

// Removing a key never stored succeeds and disturbs nothing else.
#[test]
fn remove_unset_key_is_noop() {
    let mut store = KvStore::new();

    store.set("key1".to_owned(), "value1".to_owned());
    store.remove("key2".to_owned());

    assert_eq!(store.get("key1".to_owned()), Some("value1".to_owned()));
    assert_eq!(store.get("key2".to_owned()), None);
}

// Removing on a fresh store succeeds.
#[test]
fn remove_on_fresh_store() {
    let mut store = KvStore::new();
    store.remove("key1".to_owned());
    assert_eq!(store.get("key1".to_owned()), None);
}

// A key can be stored again after it was removed.
#[test]
fn set_after_remove() {
    let mut store = KvStore::new();

    store.set("key1".to_owned(), "value1".to_owned());
    store.remove("key1".to_owned());
    store.set("key1".to_owned(), "value2".to_owned());

    assert_eq!(store.get("key1".to_owned()), Some("value2".to_owned()));
}

// Overwriting one key leaves the others bound as they were.
#[test]
fn overwrite_keeps_other_keys() {
    let mut store = KvStore::new();

    store.set("key1".to_owned(), "value1".to_owned());
    store.set("key2".to_owned(), "value2".to_owned());
    store.set("key1".to_owned(), "value3".to_owned());

    assert_eq!(store.get("key1".to_owned()), Some("value3".to_owned()));
    assert_eq!(store.get("key2".to_owned()), Some("value2".to_owned()));
}

// Removing one key leaves the others bound as they were.
#[test]
fn remove_keeps_other_keys() {
    let mut store = KvStore::new();

    store.set("key1".to_owned(), "value1".to_owned());
    store.set("key2".to_owned(), "value2".to_owned());
    store.set("key3".to_owned(), "value3".to_owned());
    store.remove("key2".to_owned());

    assert_eq!(store.get("key1".to_owned()), Some("value1".to_owned()));
    assert_eq!(store.get("key2".to_owned()), None);
    assert_eq!(store.get("key3".to_owned()), Some("value3".to_owned()));
}

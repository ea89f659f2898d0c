use redis_starter_rust::store::{SetOptions, Store};

#[test]
fn store_ttl_expires_at_deadline() {
    let mut store = Store::new();
    let mut options = SetOptions::new();
    options.set_expire(100);
    store.set_at("k".to_string(), "v".to_string(), &options, 1_000);
    assert_eq!(store.get_at(&"k".to_string(), 1_000), Some("v".to_string()));
    assert_eq!(store.get_at(&"k".to_string(), 1_099), Some("v".to_string()));
    assert_eq!(store.get_at(&"k".to_string(), 1_100), None);
}

#[test]
fn store_ttl_with_clock() {
    let mut store = Store::new();
    let mut options = SetOptions::new();
    options.set_expire(100_000);
    store.set("k".to_string(), "v".to_string(), &options);
    assert_eq!(store.get("k".to_string()), Some("v".to_string()));
    let mut options = SetOptions::new();
    options.set_expire(0);
    store.set("k".to_string(), "w".to_string(), &options);
    assert_eq!(store.get("k".to_string()), None);
}

#[test]
fn store_set_without_expire_keeps_deadline() {
    let mut store = Store::new();
    let mut options = SetOptions::new();
    options.set_expire(10_000);
    store.set_at("k".to_string(), "v1".to_string(), &options, 5_000);
    let previous = store.set_at("k".to_string(), "v2".to_string(), &SetOptions::new(), 6_000);
    assert!(previous.is_some());
    assert_eq!(store.get_at(&"k".to_string(), 14_999), Some("v2".to_string()));
    assert_eq!(store.get_at(&"k".to_string(), 15_000), None);
}

#[test]
fn store_without_expire_never_expires() {
    let mut store = Store::new();
    assert!(store.set_at("k".to_string(), "v".to_string(), &SetOptions::new(), 0).is_none());
    assert_eq!(store.get_at(&"k".to_string(), u128::MAX), Some("v".to_string()));
    assert_eq!(store.get_at(&"other".to_string(), 0), None);
}

#[test]
fn store_overwrite_keeps_one_entry_per_key() {
    let mut store = Store::new();
    store.set_at("a".to_string(), "1".to_string(), &SetOptions::new(), 0);
    store.set_at("b".to_string(), "2".to_string(), &SetOptions::new(), 0);
    store.set_at("a".to_string(), "3".to_string(), &SetOptions::new(), 0);
    assert_eq!(store.get_at(&"a".to_string(), 0), Some("3".to_string()));
    assert_eq!(store.get_at(&"b".to_string(), 0), Some("2".to_string()));
}

#[test]
fn store_expire_saturates() {
    let mut store = Store::new();
    let mut options = SetOptions::new();
    options.set_expire(u64::MAX);
    store.set_at("k".to_string(), "v".to_string(), &options, u128::MAX - 1);
    assert_eq!(store.get_at(&"k".to_string(), u128::MAX - 1), Some("v".to_string()));
    assert_eq!(store.get_at(&"k".to_string(), u128::MAX), None);
}

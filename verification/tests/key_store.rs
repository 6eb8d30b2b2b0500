use sgx_qkms::key_store::KeyStore;

fn pairs(v: &[(String, String)]) -> Vec<(&str, &str)> {
    v.iter().map(|(a, b)| (a.as_str(), b.as_str())).collect()
}

#[test]
fn new_store_is_empty() {
    let store = KeyStore::new();
    assert_eq!(store.available_count(), 0);
    assert_eq!(store.len(), 0);
}

#[test]
fn add_key_makes_one_more_available() {
    let mut store = KeyStore::new();
    store.add_key("k1", "v1", true);
    assert_eq!(store.available_count(), 1);
    store.add_key("k2", "v2", false);
    assert_eq!(store.available_count(), 2);
    assert_eq!(store.len(), 2);
}

#[test]
fn reserve_takes_only_reservable_keys_in_order() {
    let mut store = KeyStore::new();
    store.add_key("a", "1", true);
    store.add_key("b", "2", false);
    store.add_key("c", "3", true);
    store.add_key("d", "4", true);
    let got = store.reserve_keys(2);
    assert_eq!(pairs(&got), vec![("a", "1"), ("c", "3")]);
    assert_eq!(store.available_count(), 2);
    let got = store.reserve_keys(5);
    assert_eq!(pairs(&got), vec![("d", "4")]);
    assert_eq!(store.available_count(), 1);
    assert!(store.reserve_keys(5).is_empty());
}

#[test]
fn reserve_zero_takes_nothing() {
    let mut store = KeyStore::new();
    store.add_key("a", "1", true);
    assert!(store.reserve_keys(0).is_empty());
    assert_eq!(store.available_count(), 1);
}

#[test]
fn retrieve_hands_out_a_key_once() {
    let mut store = KeyStore::new();
    store.add_key("a", "1", false);
    assert_eq!(store.retrieve_key("a"), Some(("a".to_string(), "1".to_string())));
    assert_eq!(store.available_count(), 0);
    assert_eq!(store.retrieve_key("a"), None);
}

#[test]
fn retrieve_unknown_key_is_none() {
    let mut store = KeyStore::new();
    store.add_key("a", "1", true);
    assert_eq!(store.retrieve_key("b"), None);
    assert_eq!(store.available_count(), 1);
}

#[test]
fn reserved_key_cannot_be_retrieved() {
    let mut store = KeyStore::new();
    store.add_key("a", "1", true);
    assert_eq!(store.reserve_keys(1).len(), 1);
    assert_eq!(store.retrieve_key("a"), None);
}

#[test]
fn retrieve_takes_the_first_available_duplicate() {
    let mut store = KeyStore::new();
    store.add_key("a", "first", false);
    store.add_key("a", "second", false);
    assert_eq!(store.retrieve_key("a"), Some(("a".to_string(), "first".to_string())));
    assert_eq!(store.retrieve_key("a"), Some(("a".to_string(), "second".to_string())));
    assert_eq!(store.retrieve_key("a"), None);
}

#[test]
fn retrieved_key_is_not_reserved() {
    let mut store = KeyStore::new();
    store.add_key("a", "1", true);
    store.add_key("b", "2", true);
    assert!(store.retrieve_key("a").is_some());
    let got = store.reserve_keys(2);
    assert_eq!(pairs(&got), vec![("b", "2")]);
}

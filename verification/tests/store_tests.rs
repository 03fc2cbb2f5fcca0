use nornir_core::CustomTreeMap;

#[test]
fn types_test_custom_tree_map_ordering() {
    let mut tree = CustomTreeMap::new();
    tree.insert("host1", "one".to_string());
    tree.insert("host2", "two".to_string());
    tree.insert("host10", "three10".to_string());
    tree.insert("host4", "four1".to_string());
    tree.insert("host100", "100".to_string());
    assert_eq!(tree.get("host1").unwrap(), "one");
    assert_eq!(tree.get("host10").unwrap(), "three10");
}

#[test]
fn lib_test_custom_tree_map_ordering() {
    let mut tree = CustomTreeMap::new();
    tree.insert("host1", "one".to_string());
    tree.insert("host2", "two".to_string());
    tree.insert("host10", "three10".to_string());
    tree.insert("host4", "four1".to_string());
    tree.insert("host100", "100".to_string());
    assert_eq!(tree.get("host1").unwrap(), "one");
    assert_eq!(tree.get("host10").unwrap(), "three10");
}

#[test]
fn iteration_follows_natural_order() {
    let mut tree = CustomTreeMap::new();
    tree.insert("host10", 10u64);
    tree.insert("host2", 2u64);
    tree.insert("host1", 1u64);
    tree.insert("host100", 100u64);
    let keys: Vec<String> = tree.keys().iter().map(|k| k.as_str().to_string()).collect();
    assert_eq!(keys, vec!["host1", "host2", "host10", "host100"]);
    assert_eq!(*tree.value_at(0), 1);
    assert_eq!(tree.key_at(3).as_str(), "host100");
}

#[test]
fn insert_overwrites_and_remove_evicts() {
    let mut tree = CustomTreeMap::new();
    assert!(tree.is_empty());
    tree.insert("key", 1u64);
    tree.insert("key", 2u64);
    assert_eq!(tree.len(), 1);
    assert_eq!(tree.get("key"), Some(&2));
    assert_eq!(tree.remove("key"), Some(2));
    assert_eq!(tree.remove("key"), None);
    assert!(tree.get("key").is_none());
    assert!(tree.is_empty());
}

#[test]
fn absent_keys_read_as_nothing() {
    let mut tree = CustomTreeMap::new();
    tree.insert("present", 7u64);
    assert_eq!(tree.get("absent"), None);
    assert_eq!(tree.len(), 1);
}

#[test]
fn replace_value_keeps_key_order() {
    let mut tree = CustomTreeMap::new();
    tree.insert("b", 1u64);
    tree.insert("a", 0u64);
    let old = tree.replace_value_at(0, 5u64);
    assert_eq!(old, 0);
    assert_eq!(tree.get("a"), Some(&5));
    assert_eq!(tree.key_at(0).as_str(), "a");
    assert_eq!(tree.key_at(1).as_str(), "b");
}

use nornir_core::inventory::{
    Connection, ConnectionKey, ConnectionManager, ResolvedConnectionParams,
};
use std::sync::atomic::{AtomicUsize, Ordering};
use std::sync::Arc;

#[derive(Debug)]
struct TestConnection;

impl Connection for TestConnection {
    fn is_alive(&self) -> bool {
        true
    }

    fn open(&mut self, _params: &ResolvedConnectionParams) -> Result<(), String> {
        Ok(())
    }

    fn close(&mut self) -> ConnectionKey {
        ConnectionKey::new("router1.lab", "ssh2")
    }
}

#[test]
fn connection_manager_creates_connections_lazily() {
    let manager = ConnectionManager::default();
    let key = ConnectionKey::new("router1.lab", "ssh2");
    let created = AtomicUsize::new(0);

    let first = manager.get_or_create(key.clone(), || {
        created.fetch_add(1, Ordering::SeqCst);
        TestConnection
    });
    let second = manager.get_or_create(key, || {
        created.fetch_add(1, Ordering::SeqCst);
        TestConnection
    });

    assert_eq!(created.load(Ordering::SeqCst), 1);
    assert!(Arc::ptr_eq(&first, &second));
}

#[test]
fn closing_one_key_leaves_others_alone() {
    let manager: ConnectionManager<TestConnection> = ConnectionManager::new();
    let key_a = ConnectionKey::new("router1.lab", "ssh");
    let key_b = ConnectionKey::new("switch1.lab", "ssh");
    let handle_a = manager.get_or_create(key_a.clone(), || TestConnection);
    let handle_b = manager.get_or_create(key_b.clone(), || TestConnection);
    assert!(!Arc::ptr_eq(&handle_a, &handle_b));
    assert_eq!(manager.len(), 2);

    let reported = manager.close_connection(&key_a);
    assert!(reported.is_some());
    assert_eq!(manager.len(), 1);
    // The other key still hands out the very same connection object.
    let still_b = manager.get_or_create(key_b, || TestConnection);
    assert!(Arc::ptr_eq(&handle_b, &still_b));
    // The closed key is fully evicted: a later get finds nothing.
    assert!(manager.get(&key_a).is_none());
}

#[test]
fn close_of_absent_key_is_a_no_op() {
    let manager: ConnectionManager<TestConnection> = ConnectionManager::new();
    let key = ConnectionKey::new("router1.lab", "ssh");
    assert!(manager.close_connection(&key).is_none());
    assert_eq!(manager.len(), 0);
}

#[test]
fn eviction_permits_a_fresh_connection() {
    let manager: ConnectionManager<TestConnection> = ConnectionManager::new();
    let key = ConnectionKey::new("router1.lab", "ssh");
    let counter = AtomicUsize::new(0);
    let first = manager.get_or_create(key.clone(), || {
        counter.fetch_add(1, Ordering::SeqCst);
        TestConnection
    });
    manager.close_connection(&key);
    let second = manager.get_or_create(key, || {
        counter.fetch_add(1, Ordering::SeqCst);
        TestConnection
    });
    // The constructor ran once per installation, and the two handles are
    // distinct objects.
    assert_eq!(counter.load(Ordering::SeqCst), 2);
    assert!(!Arc::ptr_eq(&first, &second));
}

#[test]
fn insert_overwrites_without_closing() {
    let manager: ConnectionManager<TestConnection> = ConnectionManager::new();
    let key = ConnectionKey::new("router1.lab", "ssh");
    let first = manager.get_or_create(key.clone(), || TestConnection);
    let replacement = manager.get_or_create(ConnectionKey::new("tmp", "tmp"), || TestConnection);
    manager.insert(key.clone(), replacement.clone());
    let now = manager.get(&key).expect("key should be filed");
    assert!(Arc::ptr_eq(&now, &replacement));
    assert!(!Arc::ptr_eq(&now, &first));
}

#[test]
fn close_all_clears_the_cache() {
    let manager: ConnectionManager<TestConnection> = ConnectionManager::new();
    manager.get_or_create(ConnectionKey::new("a", "ssh"), || TestConnection);
    manager.get_or_create(ConnectionKey::new("b", "ssh"), || TestConnection);
    assert_eq!(manager.len(), 2);
    manager.close_all_connections();
    assert_eq!(manager.len(), 0);
    assert!(manager.get(&ConnectionKey::new("a", "ssh")).is_none());
}

#[test]
fn open_connection_fails_loudly_on_absent_keys() {
    let manager: ConnectionManager<TestConnection> = ConnectionManager::new();
    let key = ConnectionKey::new("router1.lab", "ssh");
    let params = ResolvedConnectionParams {
        hostname: "router1.lab".to_string(),
        port: Some(22),
        username: None,
        password: None,
        platform: None,
        extras: None,
    };
    assert_eq!(manager.open_connection(&key, &params), None);
    manager.get_or_create(key.clone(), || TestConnection);
    assert_eq!(manager.open_connection(&key, &params), Some(Ok(())));
}

#[test]
fn connection_cell_serialises_access() {
    let manager: ConnectionManager<TestConnection> = ConnectionManager::new();
    let key = ConnectionKey::new("router1.lab", "ssh2");
    let cell = manager.get_or_create(key.clone(), || TestConnection);
    assert!(cell.is_alive());
    let params = ResolvedConnectionParams {
        hostname: "router1.lab".to_string(),
        port: Some(22),
        username: None,
        password: None,
        platform: None,
        extras: None,
    };
    assert_eq!(cell.open(&params), Ok(()));
    let reported = cell.close();
    assert_eq!(reported.hostname, "router1.lab");
    assert_eq!(reported.connection_type, "ssh2");
}

use nornir_core::inventory::{
    Connection, ConnectionKey, ConnectionManager, Host, Hosts, Inventory,
    ResolvedConnectionParams,
};
use nornir_core::Genja;
use std::sync::Arc;

#[derive(Debug)]
struct NoopConnection;

impl Connection for NoopConnection {
    fn is_alive(&self) -> bool {
        false
    }

    fn open(&mut self, _params: &ResolvedConnectionParams) -> Result<(), String> {
        Ok(())
    }

    fn close(&mut self) -> ConnectionKey {
        ConnectionKey::new("", "")
    }
}

fn small_inventory() -> Inventory<NoopConnection> {
    let mut hosts = Hosts::new();
    hosts.add_host(Host::builder("router1.lab").platform("ios").build());
    hosts.add_host(Host::builder("router2.lab").platform("junos").build());
    hosts.add_host(Host::builder("router10.lab").platform("ios").build());
    Inventory {
        hosts,
        groups: None,
        defaults: None,
        transform_function: None,
        transform_function_options: None,
        connections: Arc::new(ConnectionManager::default()),
    }
}

#[test]
fn genja_scopes_every_host() {
    let genja = Genja::new(small_inventory());
    assert_eq!(genja.host_count(), 3);
    let all = genja.iter_all_hosts();
    assert_eq!(all.len(), 3);
    // Ids come in natural order: router2 before router10.
    assert_eq!(all[0].0.as_str(), "router1.lab");
    assert_eq!(all[1].0.as_str(), "router2.lab");
    assert_eq!(all[2].0.as_str(), "router10.lab");
}

#[test]
fn genja_filter_narrows_scope_and_shares_hosts() {
    let genja = Genja::new(small_inventory());
    let ios_only = genja.filter(|h: &Host| h.platform.as_deref() == Some("ios"));
    assert_eq!(ios_only.host_count(), 2);
    assert_eq!(genja.host_count(), 3);
    let hosts = ios_only.iter_hosts();
    assert_eq!(hosts.len(), 2);
    assert_eq!(hosts[0].name, "router1.lab");
    assert_eq!(hosts[1].name, "router10.lab");
}

#[test]
fn genja_filter_can_empty_the_scope() {
    let genja = Genja::new(small_inventory());
    let none = genja.filter(|h: &Host| h.platform.as_deref() == Some("eos"));
    assert_eq!(none.host_count(), 0);
    assert!(none.iter_hosts().is_empty());
}

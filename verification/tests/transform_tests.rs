use nornir_core::inventory::{
    Connection, ConnectionKey, ConnectionManager, ConnectionOptions, Data, DataValue, Defaults,
    Host, Hosts, Inventory, ParentGroups, ResolvedConnectionParams, TransformFunction,
    TransformFunctionOptions, TransformValue,
};
use nornir_core::CustomTreeMap;
use std::sync::Arc;

#[derive(Debug)]
struct NoopConnection;

impl Connection for NoopConnection {
    fn is_alive(&self) -> bool {
        false
    }

    fn open(&mut self, _params: &ResolvedConnectionParams) -> Result<(), String> {
        Ok(())
    }

    fn close(&mut self) -> ConnectionKey {
        ConnectionKey::new("", "")
    }
}

fn build_connection_options(
    hostname: &str,
    port: u16,
    username: &str,
    password: &str,
    platform: &str,
) -> ConnectionOptions {
    let mut options = ConnectionOptions::new();
    options.hostname = Some(hostname.to_string());
    options.port = Some(port);
    options.username = Some(username.to_string());
    options.password = Some(password.to_string());
    options.platform = Some(platform.to_string());
    options
}

fn text_data(pairs: &[(&str, &str)]) -> Data {
    let mut table = CustomTreeMap::new();
    for (k, v) in pairs.iter() {
        table.insert(*k, DataValue::Text(v.to_string()));
    }
    Data::new(table)
}

#[test]
fn inventory_can_model_mock_network_devices() {
    let mut defaults_table = CustomTreeMap::new();
    defaults_table.insert("transport", DataValue::Text("ssh".to_string()));
    defaults_table.insert("connection_timeout", DataValue::Int(30));
    defaults_table.insert("global_retries", DataValue::Int(2));
    let defaults = Defaults::new(Some(defaults_table));
    let defaults_arc = Arc::new(defaults.clone());

    let mut transform_table = CustomTreeMap::new();
    transform_table.insert("strip_domain", TransformValue::Bool(true));
    transform_table.insert("sanitize_credentials", TransformValue::Bool(true));
    let transform_options = TransformFunctionOptions::new(transform_table);

    let mut hosts = Hosts::new();

    let mut router_groups = ParentGroups::new();
    router_groups.push("core".into());
    router_groups.push("routers".into());
    let router_groups_snapshot = router_groups.clone();

    let router_data = text_data(&[("role", "core_router"), ("mgmt_ip", "192.0.2.1")]);
    let router_data_snapshot = router_data.clone();

    let router_connection =
        build_connection_options("192.0.2.1", 22, "automation", "router_pass", "cisco_ios");
    let router_connection_snapshot = router_connection.clone();

    let router = Host::builder("router1.lab")
        .hostname("router1.lab")
        .platform("cisco_ios")
        .groups(router_groups)
        .data(router_data)
        .connection_options("netconf", router_connection)
        .defaults(defaults_arc.clone())
        .build();
    hosts.add_host(router);

    let mut switch_groups = ParentGroups::new();
    switch_groups.push("access".into());
    switch_groups.push("switches".into());
    let switch_groups_snapshot = switch_groups.clone();

    let switch_data = text_data(&[("role", "access_switch"), ("mgmt_ip", "192.0.2.10")]);
    let switch_data_snapshot = switch_data.clone();

    let switch_connection =
        build_connection_options("192.0.2.10", 2222, "netops", "switch_pass", "nxos");
    let switch_connection_snapshot = switch_connection.clone();

    let switch = Host::builder("switch1.lab")
        .hostname("switch1.lab")
        .platform("nxos")
        .groups(switch_groups)
        .data(switch_data)
        .connection_options("netconf", switch_connection)
        .defaults(defaults_arc.clone())
        .build();
    hosts.add_host(switch);

    let inventory: Inventory<NoopConnection> = Inventory {
        hosts,
        groups: None,
        defaults: Some(defaults.clone()),
        transform_function: None,
        transform_function_options: Some(transform_options.clone()),
        connections: Arc::new(ConnectionManager::default()),
    };

    assert_eq!(inventory.hosts.len(), 2);

    let router = inventory
        .hosts
        .get("router1.lab")
        .expect("router host should exist");
    assert_eq!(router.hostname.as_deref(), Some("router1.lab"));
    assert_eq!(router.groups.as_ref(), Some(&router_groups_snapshot));
    assert_eq!(router.data.as_ref(), Some(&router_data_snapshot));
    assert_eq!(
        router.defaults.as_ref(),
        Some(&defaults_arc),
        "router should inherit defaults"
    );
    assert_eq!(
        router
            .connection_options
            .as_ref()
            .and_then(|options| options.get("netconf")),
        Some(&router_connection_snapshot)
    );

    let switch = inventory
        .hosts
        .get("switch1.lab")
        .expect("switch host should exist");
    assert_eq!(switch.hostname.as_deref(), Some("switch1.lab"));
    assert_eq!(switch.groups.as_ref(), Some(&switch_groups_snapshot));
    assert_eq!(switch.data.as_ref(), Some(&switch_data_snapshot));
    assert_eq!(
        switch
            .connection_options
            .as_ref()
            .and_then(|options| options.get("netconf")),
        Some(&switch_connection_snapshot)
    );

    assert_eq!(inventory.defaults.as_ref(), Some(&defaults));
    assert_eq!(
        inventory.transform_function_options.as_ref(),
        Some(&transform_options)
    );
}

fn inventory_setup() -> Inventory<NoopConnection> {
    let mut ip_map = CustomTreeMap::new();
    ip_map.insert("10-0-0-1", "10.0.0.1".to_string());
    ip_map.insert("10-0-0-2", "10.0.0.2".to_string());
    let mut options_table = CustomTreeMap::new();
    options_table.insert("obfuscated_ip_map", TransformValue::Table(ip_map));
    let transform_options = TransformFunctionOptions::new(options_table);

    let mut hosts = Hosts::new();
    let host1 = Host::builder("router1.lab")
        .hostname("10-0-0-1")
        .data(text_data(&[("mgmt_ip", "10-0-0-1")]))
        .build();
    let host2 = Host::builder("switch1.lab")
        .hostname("10-0-0-2")
        .data(text_data(&[("mgmt_ip", "10-0-0-2")]))
        .build();
    hosts.add_host(host1);
    hosts.add_host(host2);

    Inventory {
        hosts,
        groups: None,
        defaults: None,
        transform_function: Some(TransformFunction::ObfuscatedIpRewrite),
        transform_function_options: Some(transform_options),
        connections: Arc::new(ConnectionManager::default()),
    }
}

#[test]
fn inventory_transform_translates_obfuscated_ips() {
    let mut inventory = inventory_setup();
    inventory.apply_transform();

    let router = inventory
        .hosts
        .get("router1.lab")
        .expect("router should exist");
    assert_eq!(router.hostname.as_deref(), Some("10.0.0.1"));
    assert_eq!(
        router.data.as_ref().and_then(|data| data.get("mgmt_ip")),
        Some(&DataValue::Text("10.0.0.1".to_string()))
    );

    let switch = inventory
        .hosts
        .get("switch1.lab")
        .expect("switch should exist");
    assert_eq!(switch.hostname.as_deref(), Some("10.0.0.2"));
    assert_eq!(
        switch.data.as_ref().and_then(|data| data.get("mgmt_ip")),
        Some(&DataValue::Text("10.0.0.2".to_string()))
    );
}

#[test]
fn transform_without_hook_changes_nothing() {
    let mut inventory = inventory_setup();
    inventory.transform_function = None;
    inventory.apply_transform();
    let router = inventory
        .hosts
        .get("router1.lab")
        .expect("router should exist");
    assert_eq!(router.hostname.as_deref(), Some("10-0-0-1"));
}

#[test]
fn transform_leaves_unmapped_hosts_alone() {
    let mut inventory = inventory_setup();
    let host3 = Host::builder("fw1.lab").hostname("203.0.113.9").build();
    inventory.hosts.add_host(host3);
    inventory.apply_transform();
    let fw = inventory.hosts.get("fw1.lab").expect("fw should exist");
    assert_eq!(fw.hostname.as_deref(), Some("203.0.113.9"));
}

#[test]
fn caller_supplied_transform_runs_over_hosts() {
    let mut inventory = inventory_setup();
    inventory.apply_transform_with(|hosts: Hosts| {
        let mut out = hosts;
        out.add_host(Host::new("extra.lab", "192.0.2.77"));
        out
    });
    assert_eq!(inventory.hosts.len(), 3);
    assert!(inventory.hosts.get("extra.lab").is_some());
}

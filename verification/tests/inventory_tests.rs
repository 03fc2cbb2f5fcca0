use nornir_core::inventory::{
    create_dummy_hosts, BaseBuilderHost, ConnectionOptions, Data, DataValue, Group, GroupBuilder,
    Groups, Host, Hosts, ParentGroups,
};
use nornir_core::CustomTreeMap;

fn staged<B: BaseBuilderHost>(builder: B) -> B::Output {
    builder.port(8022).username("svc").build()
}

#[test]
fn test_host_new() {
    let host = Host::new("example.com", "example.com");
    assert_eq!(host.hostname.as_deref(), Some("example.com"));
    assert_eq!(host.port, Some(22));
    assert_eq!(host.username, None);
    assert_eq!(host.password, None);
    assert_eq!(host.platform, None);
    assert!(host.groups.is_none());
    assert!(host.data.is_none());
    assert!(host.connection_options.is_none());
    assert!(host.defaults.is_none());
}

#[test]
fn test_hosts_new() {
    let mut hosts = Hosts::new();
    let names = [
        "host1.example.com",
        "host2.example.com",
        "host3.example.com",
        "host4.example.com",
        "host5.example.com",
        "host6.example.com",
        "host7.example.com",
        "host8.example.com",
        "host9.example.com",
        "host10.example.com",
    ];
    let mut port = 2200u16;
    for name in names.iter() {
        port += 1;
        let mut options = ConnectionOptions::new();
        options.hostname = Some(name.to_string());
        let host = Host::builder(name)
            .hostname(name)
            .port(port)
            .username("user")
            .password("password")
            .platform(if port % 2 == 0 { "linux" } else { "windows" })
            .connection_options("ssh", options)
            .build();
        hosts.add_host(host);
    }
    assert_eq!(hosts.len(), 10);
}

#[test]
fn dummy_hosts_fill_the_store() {
    let hosts = create_dummy_hosts();
    assert_eq!(hosts.len(), 10);
    let h = hosts.get("host3.example.com").expect("host3 should exist");
    assert_eq!(h.port, Some(2203));
    assert_eq!(h.platform.as_deref(), Some("windows"));
    // Names iterate in natural order: host2 before host10.
    assert_eq!(hosts.name_at(0).as_str(), "host1.example.com");
    assert_eq!(hosts.name_at(1).as_str(), "host2.example.com");
    assert_eq!(hosts.name_at(9).as_str(), "host10.example.com");
}

#[test]
fn parent_groups_drop_later_duplicates() {
    let names = vec![
        "cisco".to_string(),
        "juniper".to_string(),
        "cisco".to_string(),
        "arista".to_string(),
        "juniper".to_string(),
    ];
    let groups = ParentGroups::from_names(names);
    assert_eq!(groups.len(), 3);
    assert_eq!(groups.name_at(0).as_str(), "cisco");
    assert_eq!(groups.name_at(1).as_str(), "juniper");
    assert_eq!(groups.name_at(2).as_str(), "arista");
}

#[test]
fn parent_groups_push_keeps_first_occurrence() {
    let mut groups = ParentGroups::new();
    groups.push("core".to_string());
    groups.push("routers".to_string());
    groups.push("core".to_string());
    assert_eq!(groups.len(), 2);
    assert!(groups.contains("core"));
    assert!(groups.contains("routers"));
    assert!(!groups.contains("edge"));
}

#[test]
fn parent_groups_from_no_names_is_empty() {
    let groups = ParentGroups::from_names(Vec::new());
    assert_eq!(groups.len(), 0);
    assert!(!groups.contains("cisco"));
}

#[test]
fn add_host_overwrites_the_same_name() {
    let mut hosts = Hosts::new();
    hosts.add_host(Host::builder("router1.lab").platform("ios").build());
    hosts.add_host(Host::builder("router1.lab").platform("junos").build());
    assert_eq!(hosts.len(), 1);
    let h = hosts.get("router1.lab").expect("host should exist");
    assert_eq!(h.platform.as_deref(), Some("junos"));
}

fn host_with_override() -> Host {
    let mut options = ConnectionOptions::new();
    options.port = Some(830);
    options.username = Some("netconf-admin".to_string());
    Host::builder("router1.lab")
        .port(22)
        .username("admin")
        .connection_options("netconf", options)
        .build()
}

#[test]
fn resolve_applies_overrides_per_type() {
    let mut host = host_with_override();
    let netconf = host.resolve("netconf");
    assert_eq!(netconf.port, Some(830));
    assert_eq!(netconf.username.as_deref(), Some("netconf-admin"));
    // Fields without an override inherit the base value.
    assert_eq!(netconf.hostname, "router1.lab");
    assert_eq!(netconf.password, None);
    // A type with no override resolves to the base fields alone.
    let ssh = host.resolve("ssh");
    assert_eq!(ssh.port, Some(22));
    assert_eq!(ssh.username.as_deref(), Some("admin"));
    assert_eq!(ssh.hostname, "router1.lab");
}

#[test]
fn resolve_falls_back_to_the_name() {
    // No hostname set: the host is reached under its own name.
    let mut host = Host::builder("switch7.lab").build();
    let params = host.resolve("ssh");
    assert_eq!(params.hostname, "switch7.lab");
    assert_eq!(params.port, None);
}

#[test]
fn resolve_is_memoized() {
    let mut host = host_with_override();
    let first = host.resolve("netconf");
    // Mutating unrelated host fields does not disturb the cached outcome.
    host.platform = Some("iosxr".to_string());
    host.port = Some(2222);
    let second = host.resolve("netconf");
    assert_eq!(first, second);
    // A type not yet cached sees the mutated base fields.
    let ssh = host.resolve("ssh");
    assert_eq!(ssh.port, Some(2222));
}

#[test]
fn group_new_carries_the_ssh_default_port() {
    let group = Group::new("lab-template");
    assert_eq!(group.hostname.as_deref(), Some("lab-template"));
    assert_eq!(group.port, Some(22));
    assert!(group.data.is_none());
}

#[test]
fn groups_store_templates_by_name() {
    let mut groups = Groups::new();
    let template = Group::builder("edge-template").platform("ios").build();
    groups.add_group("edge", template);
    assert_eq!(groups.len(), 1);
    let g = groups.get("edge").expect("edge template should exist");
    assert_eq!(g.platform.as_deref(), Some("ios"));
    assert!(groups.get("core").is_none());
}

#[test]
fn builders_share_the_staging_capability() {
    let host = staged(Host::builder("router9.lab"));
    assert_eq!(host.port, Some(8022));
    assert_eq!(host.username.as_deref(), Some("svc"));
    let group: Group = staged(GroupBuilder::new("tmpl"));
    assert_eq!(group.port, Some(8022));
    assert_eq!(group.username.as_deref(), Some("svc"));
}

#[test]
fn data_blob_reads_and_writes() {
    let mut table = CustomTreeMap::new();
    table.insert("role", DataValue::Text("core_router".to_string()));
    table.insert("slot", DataValue::Int(3));
    table.insert("managed", DataValue::Bool(true));
    let mut data = Data::new(table);
    assert_eq!(data.get("role"), Some(&DataValue::Text("core_router".to_string())));
    assert_eq!(data.get("slot"), Some(&DataValue::Int(3)));
    assert_eq!(data.get("absent"), None);
    data.set("slot", DataValue::Int(4));
    assert_eq!(data.get("slot"), Some(&DataValue::Int(4)));
}

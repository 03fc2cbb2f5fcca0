//! The whole inventory: hosts, groups, defaults, the connection cache, and
//! the transform hook run once after construction.

use crate::connection::{Connection, ConnectionManager};
use crate::inventory::{DataValue, Defaults, Groups, Host, Hosts};
use crate::store::CustomTreeMap;
use std::sync::Arc;
use vstd::prelude::*;

verus! {

/// A value in the transform hook's options blob.
#[derive(Debug, PartialEq, Eq)]
pub enum TransformValue {
    Bool(bool),
    Int(i64),
    Text(String),
    Table(CustomTreeMap<String>),
}

impl Clone for TransformValue {
    fn clone(&self) -> (r: Self) {
        match self {
            TransformValue::Bool(b) => TransformValue::Bool(*b),
            TransformValue::Int(i) => TransformValue::Int(*i),
            TransformValue::Text(s) => TransformValue::Text(s.clone()),
            TransformValue::Table(t) => TransformValue::Table(t.clone()),
        }
    }
}

/// The read-only options blob handed to the transform hook.
#[derive(Debug, PartialEq, Eq, Clone)]
pub struct TransformFunctionOptions(pub CustomTreeMap<TransformValue>);

impl TransformFunctionOptions {
    /// The blob read as a map from option name to value.
    pub open spec fn spec_map(&self) -> Map<Seq<char>, TransformValue> {
        self.0.spec_map()
    }

    pub fn new(table: CustomTreeMap<TransformValue>) -> (r: Self)
        ensures
            r.0 == table,
    {
        TransformFunctionOptions(table)
    }

    pub fn get(&self, key: &str) -> (r: Option<&TransformValue>)
        ensures
            match r {
                Some(v) => self.spec_map().contains_key(key@) && *v == self.spec_map()[key@],
                None => !self.spec_map().contains_key(key@),
            },
    {
        self.0.get(key)
    }
}

/// The transform hooks this library ships. A hook mutates the whole
/// inventory once, after construction, reading the options blob; external
/// transforms run through `Inventory::apply_transform_with`.
#[derive(Debug, Clone, Copy, PartialEq, Eq, Structural)]
pub enum TransformFunction {
    /// Rewrites obfuscated addresses: a hostname, or a `mgmt_ip` entry of a
    /// host's data blob, found in the options' `obfuscated_ip_map` table is
    /// replaced by the table's value for it.
    ObfuscatedIpRewrite,
}

/// The hostname after the address rewrite through `table`.
pub open spec fn rewritten_hostname(h: Option<String>, table: Map<Seq<char>, String>) -> Option<
    String,
> {
    match h {
        Some(s) => if table.contains_key(s@) {
            Some(table[s@])
        } else {
            Some(s)
        },
        None => None,
    }
}

/// A data blob after the address rewrite through `table`: only a text value
/// under `mgmt_ip` whose text the table maps is replaced.
pub open spec fn rewritten_data(d: Map<Seq<char>, DataValue>, table: Map<Seq<char>, String>) -> Map<
    Seq<char>,
    DataValue,
> {
    if d.contains_key("mgmt_ip"@) && d["mgmt_ip"@] is Text && table.contains_key(
        d["mgmt_ip"@]->Text_0@,
    ) {
        d.insert("mgmt_ip"@, DataValue::Text(table[d["mgmt_ip"@]->Text_0@]))
    } else {
        d
    }
}

/// How one host stands after the address rewrite: hostname and data blob
/// rewritten through `table`, every other field as it was.
pub open spec fn host_rewritten(h0: Host, h1: Host, table: Map<Seq<char>, String>) -> bool {
    &&& h1.name == h0.name
    &&& h1.hostname == rewritten_hostname(h0.hostname, table)
    &&& h1.port == h0.port
    &&& h1.username == h0.username
    &&& h1.password == h0.password
    &&& h1.platform == h0.platform
    &&& h1.groups == h0.groups
    &&& h1.connection_options == h0.connection_options
    &&& h1.defaults == h0.defaults
    &&& h1.resolved == h0.resolved
    &&& match (h0.data, h1.data) {
        (None, None) => true,
        (Some(d0), Some(d1)) => d1.spec_map() == rewritten_data(d0.spec_map(), table),
        _ => false,
    }
}

/// Rewrites one host's hostname and `mgmt_ip` datum through `table`.
fn rewrite_host(host: Host, table: &CustomTreeMap<String>) -> (h: Host)
    ensures
        host_rewritten(host, h, table.spec_map()),
{
    let mut h = host;
    let mapped_hostname: Option<String> = match &h.hostname {
        Some(s) => match table.get(s.as_str()) {
            Some(t) => Some(t.clone()),
            None => None,
        },
        None => None,
    };
    if let Some(m) = mapped_hostname {
        h.hostname = Some(m);
    }
    let data = h.data.take();
    match data {
        Some(mut d) => {
            let mapped_ip: Option<String> = match d.get("mgmt_ip") {
                Some(DataValue::Text(t)) => match table.get(t.as_str()) {
                    Some(m) => Some(m.clone()),
                    None => None,
                },
                _ => None,
            };
            if let Some(m) = mapped_ip {
                d.set("mgmt_ip", DataValue::Text(m));
            }
            h.data = Some(d);
        },
        None => {
            h.data = None;
        },
    }
    h
}

/// The whole inventory: the host and group sets, shared defaults, the
/// transform hook with its options, and the connection cache. The cache is
/// shared and long-lived; it outlives mutation of the rest.
pub struct Inventory<C: Connection> {
    pub hosts: Hosts,
    pub groups: Option<Groups>,
    pub defaults: Option<Defaults>,
    pub transform_function: Option<TransformFunction>,
    pub transform_function_options: Option<TransformFunctionOptions>,
    pub connections: Arc<ConnectionManager<C>>,
}

impl<C: Connection> Inventory<C> {
    /// The lookup table the address rewrite will use: present exactly when
    /// the hook is set and the options carry a table under
    /// `obfuscated_ip_map`.
    pub open spec fn spec_transform_table(&self) -> Option<Map<Seq<char>, String>> {
        if self.transform_function == Some(TransformFunction::ObfuscatedIpRewrite)
            && self.transform_function_options is Some && self.transform_function_options
            ->0.spec_map().contains_key("obfuscated_ip_map"@) && self.transform_function_options
            ->0.spec_map()["obfuscated_ip_map"@] is Table {
            Some(self.transform_function_options->0.spec_map()["obfuscated_ip_map"@]->Table_0.spec_map())
        } else {
            None
        }
    }

    /// Runs the attached transform hook once over the whole inventory. With
    /// no hook set, or no usable options, nothing changes; with the address
    /// rewrite set, every host is rewritten through the options' table and
    /// everything else stands.
    pub fn apply_transform(&mut self)
        ensures
            old(self).spec_transform_table() is None ==> *final(self) == *old(self),
            old(self).spec_transform_table() matches Some(table) ==> {
                &&& final(self).hosts.spec_len() == old(self).hosts.spec_len()
                &&& forall|i: int|
                    0 <= i < old(self).hosts.spec_len() ==> (#[trigger] final(self).hosts.spec_kv()[i]).0
                        == old(self).hosts.spec_kv()[i].0 && host_rewritten(
                        old(self).hosts.spec_kv()[i].1,
                        final(self).hosts.spec_kv()[i].1,
                        table,
                    )
                &&& final(self).groups == old(self).groups
                &&& final(self).defaults == old(self).defaults
                &&& final(self).transform_function == old(self).transform_function
                &&& final(self).transform_function_options == old(self).transform_function_options
                &&& final(self).connections == old(self).connections
            },
    {
        match &self.transform_function {
            Some(TransformFunction::ObfuscatedIpRewrite) => {},
            None => {
                return ;
            },
        };
        let table_copy: CustomTreeMap<String> = match &self.transform_function_options {
            Some(opts) => match opts.get("obfuscated_ip_map") {
                Some(TransformValue::Table(t)) => t.clone(),
                _ => {
                    return ;
                },
            },
            None => {
                return ;
            },
        };
        let ghost table = self.spec_transform_table()->0;
        proof {
            assert(self.transform_function == Some(TransformFunction::ObfuscatedIpRewrite));
            assert(self.transform_function_options is Some);
            assert(self.transform_function_options->0.spec_map().contains_key(
                "obfuscated_ip_map"@,
            ));
            assert(self.transform_function_options->0.spec_map()["obfuscated_ip_map"@] is Table);
            assert(self.spec_transform_table() is Some);
            let src_table = self.transform_function_options->0.spec_map()["obfuscated_ip_map"@]
                ->Table_0;
            assert forall|i: int| 0 <= i < table_copy.spec_kv().len() implies table_copy.spec_kv()[i]
                == src_table.spec_kv()[i] by {
                assert(cloned::<String>(src_table.spec_kv()[i].1, table_copy.spec_kv()[i].1));
            }
            assert(table_copy.spec_kv() =~= src_table.spec_kv());
            assert(table_copy.spec_map() == table);
        }
        let ghost kv0 = self.hosts.spec_kv();
        let mut i: usize = 0;
        let n = self.hosts.len();
        while i < n
            invariant
                i <= n,
                n == self.hosts.spec_len(),
                self.hosts.spec_len() == kv0.len(),
                self.transform_function_options == old(self).transform_function_options,
                self.transform_function == old(self).transform_function,
                self.groups == old(self).groups,
                self.defaults == old(self).defaults,
                self.connections == old(self).connections,
                self.spec_transform_table() == Some(table),
                kv0 == old(self).hosts.spec_kv(),
                forall|j: int| i <= j < kv0.len() ==> #[trigger] self.hosts.spec_kv()[j] == kv0[j],
                forall|j: int|
                    0 <= j < i ==> (#[trigger] self.hosts.spec_kv()[j]).0 == kv0[j].0
                        && host_rewritten(kv0[j].1, self.hosts.spec_kv()[j].1, table),
                table_copy.spec_map() == table,
            decreases n - i,
        {
            let ghost kv_before = self.hosts.spec_kv();
            let placeholder = Host::new("", "");
            let h0 = self.hosts.replace_host_at(i, placeholder);
            let h1 = rewrite_host(h0, &table_copy);
            let _placeholder_back = self.hosts.replace_host_at(i, h1);
            proof {
                assert(h0 == kv_before[i as int].1);
                assert(host_rewritten(kv0[i as int].1, h1, table));
                assert forall|j: int| 0 <= j < i + 1 implies (#[trigger] self.hosts.spec_kv()[j]).0
                    == kv0[j].0 && host_rewritten(kv0[j].1, self.hosts.spec_kv()[j].1, table) by {
                    if j < i {
                        assert(self.hosts.spec_kv()[j] == kv_before[j]);
                    } else {
                        assert(self.hosts.spec_kv()[j] == (kv_before[j].0, h1));
                    }
                }
                assert forall|j: int| i + 1 <= j < kv0.len() implies #[trigger] self.hosts.spec_kv()[j]
                    == kv0[j] by {
                    assert(self.hosts.spec_kv()[j] == kv_before[j]);
                }
            }
            i += 1;
        }
    }

    /// Runs a caller-supplied transform once over the host set: the
    /// function takes the hosts, may capture whatever options it needs, and
    /// the inventory keeps exactly what it returns; every other field
    /// stands.
    pub fn apply_transform_with<F: FnOnce(Hosts) -> Hosts>(&mut self, transform: F)
        requires
            call_requires(transform, (old(self).hosts,)),
        ensures
            call_ensures(transform, (old(self).hosts,), final(self).hosts),
            final(self).groups == old(self).groups,
            final(self).defaults == old(self).defaults,
            final(self).transform_function == old(self).transform_function,
            final(self).transform_function_options == old(self).transform_function_options,
            final(self).connections == old(self).connections,
    {
        let mut hosts = Hosts::new();
        std::mem::swap(&mut hosts, &mut self.hosts);
        let rewritten = transform(hosts);
        self.hosts = rewritten;
    }
}

} // verus!
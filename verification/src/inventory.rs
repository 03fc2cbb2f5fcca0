//! The inventory model: hosts, groups, defaults, per-connection-type
//! options, and the per-host resolution of effective connection parameters.

use crate::natorder::str_eq;
use crate::store::CustomTreeMap;
use vstd::prelude::*;

pub use crate::connection::{
    Connection, ConnectionCell, ConnectionKey, ConnectionManager, ConnectionRegistry,
};
pub use crate::transform::{
    Inventory, TransformFunction, TransformFunctionOptions, TransformValue,
};

verus! {

/// A plain value in a host's free-form data blob.
#[derive(Debug, PartialEq, Eq)]
pub enum DataValue {
    Bool(bool),
    Int(i64),
    Text(String),
}

impl Clone for DataValue {
    fn clone(&self) -> (r: Self)
        ensures
            r == *self,
    {
        match self {
            DataValue::Bool(b) => DataValue::Bool(*b),
            DataValue::Int(i) => DataValue::Int(*i),
            DataValue::Text(s) => DataValue::Text(s.clone()),
        }
    }
}

/// A free-form blob of named plain values attached to a host.
#[derive(Debug, PartialEq, Eq)]
pub struct Data(pub CustomTreeMap<DataValue>);

impl Data {
    /// The blob read as a map from field name to value.
    pub open spec fn spec_map(&self) -> Map<Seq<char>, DataValue> {
        self.0.spec_map()
    }

    pub fn new(table: CustomTreeMap<DataValue>) -> (r: Self)
        ensures
            r.0 == table,
    {
        Data(table)
    }

    pub fn get(&self, key: &str) -> (r: Option<&DataValue>)
        ensures
            match r {
                Some(v) => self.spec_map().contains_key(key@) && *v == self.spec_map()[key@],
                None => !self.spec_map().contains_key(key@),
            },
    {
        self.0.get(key)
    }

    pub fn set(&mut self, key: &str, value: DataValue)
        ensures
            final(self).spec_map() == old(self).spec_map().insert(key@, value),
    {
        self.0.insert(key, value);
    }
}

/// A shared blob of inherited default values.
#[derive(Debug, PartialEq, Eq, Clone)]
pub struct Defaults(pub Option<CustomTreeMap<DataValue>>);

impl Defaults {
    pub fn new(table: Option<CustomTreeMap<DataValue>>) -> (r: Self)
        ensures
            r.0 == table,
    {
        Defaults(table)
    }
}

/// The sequence `s` with every later duplicate dropped: each name keeps its
/// first occurrence and the order of first occurrences.
pub open spec fn dedup_first(s: Seq<Seq<char>>) -> Seq<Seq<char>>
    decreases s.len(),
{
    if s.len() == 0 {
        s
    } else if s.drop_last().contains(s.last())  {
        dedup_first(s.drop_last())
    } else {
        dedup_first(s.drop_last()).push(s.last())
    }
}

/// Membership of the last element in a sequence split as front plus last.
proof fn lemma_contains_split(s: Seq<Seq<char>>, x: Seq<char>)
    requires
        s.len() > 0,
    ensures
        s.contains(x) <==> (s.drop_last().contains(x) || s.last() == x),
{
    if s.contains(x) {
        let i = choose|i: int| 0 <= i < s.len() && s[i] == x;
        if i < s.len() - 1 {
            assert(s.drop_last()[i] == x);
        }
    }
    if s.drop_last().contains(x) {
        let i = choose|i: int| 0 <= i < s.drop_last().len() && s.drop_last()[i] == x;
        assert(s[i] == x);
    }
    if s.last() == x {
        assert(s[s.len() - 1] == x);
    }
}

/// Membership in a sequence extended by one element.
proof fn lemma_contains_push(d: Seq<Seq<char>>, y: Seq<char>, x: Seq<char>)
    ensures
        d.push(y).contains(x) <==> (d.contains(x) || y == x),
{
    if d.push(y).contains(x) {
        let i = choose|i: int| 0 <= i < d.push(y).len() && d.push(y)[i] == x;
        if i < d.len() {
            assert(d[i] == x);
        }
    }
    if d.contains(x) {
        let i = choose|i: int| 0 <= i < d.len() && d[i] == x;
        assert(d.push(y)[i] == x);
    }
    assert(d.push(y)[d.len() as int] == y);
}

/// Deduplication keeps exactly the names of the input.
proof fn lemma_dedup_first_contains(s: Seq<Seq<char>>, x: Seq<char>)
    ensures
        dedup_first(s).contains(x) <==> s.contains(x),
    decreases s.len(),
{
    if s.len() > 0 {
        lemma_dedup_first_contains(s.drop_last(), x);
        lemma_contains_split(s, x);
        if s.drop_last().contains(s.last()) {
            lemma_dedup_first_contains(s.drop_last(), s.last());
        } else {
            lemma_contains_push(dedup_first(s.drop_last()), s.last(), x);
        }
    }
}

/// For any input sequence of names, the deduplicated list holds no name
/// twice: whatever enters a `ParentGroups`, each name keeps only its first
/// occurrence.
pub proof fn lemma_dedup_first_distinct(s: Seq<Seq<char>>)
    ensures
        forall|i: int, j: int|
            0 <= i < j < dedup_first(s).len() ==> dedup_first(s)[i] != dedup_first(s)[j],
    decreases s.len(),
{
    if s.len() > 0 {
        lemma_dedup_first_distinct(s.drop_last());
        let d = dedup_first(s.drop_last());
        if !s.drop_last().contains(s.last()) {
            lemma_dedup_first_contains(s.drop_last(), s.last());
            assert(!d.contains(s.last()));
            assert forall|i: int, j: int|
                0 <= i < j < dedup_first(s).len() implies dedup_first(s)[i] != dedup_first(
                s,
            )[j] by {
                if j < d.len() {
                } else {
                    assert(dedup_first(s)[j] == s.last());
                    assert(dedup_first(s)[i] == d[i]);
                    if d[i] == s.last() {
                        assert(d.contains(s.last()));
                    }
                }
            }
        }
    }
}

/// An ordered list of parent-group names without duplicates: the first
/// occurrence of a name wins and the order of first occurrences is kept.
#[derive(Debug, PartialEq, Eq)]
pub struct ParentGroups {
    names: Vec<String>,
}

impl Clone for ParentGroups {
    fn clone(&self) -> (r: Self)
        ensures
            r@ == self@,
    {
        proof {
            use_type_invariant(self);
        }
        let mut ns: Vec<String> = Vec::new();
        let mut i: usize = 0;
        while i < self.names.len()
            invariant
                i <= self.names@.len(),
                ns@.len() == i,
                forall|j: int| 0 <= j < i ==> ns@[j] == self.names@[j],
            decreases self.names@.len() - i,
        {
            ns.push(self.names[i].clone());
            i += 1;
        }
        proof {
            assert(ns.deep_view() =~= self.names.deep_view());
            assert forall|p: int, q: int|
                0 <= p < q < ns.deep_view().len() implies ns.deep_view()[p]
                != ns.deep_view()[q] by {
                assert(ns.deep_view()[p] == self@[p]);
                assert(ns.deep_view()[q] == self@[q]);
            }
        }
        ParentGroups { names: ns }
    }
}

impl View for ParentGroups {
    type V = Seq<Seq<char>>;

    closed spec fn view(&self) -> Seq<Seq<char>> {
        self.names.deep_view()
    }
}

impl ParentGroups {
    #[verifier::type_invariant]
    closed spec fn wf(self) -> bool {
        forall|i: int, j: int| 0 <= i < j < self@.len() ==> self@[i] != self@[j]
    }

    pub fn new() -> (r: Self)
        ensures
            r@ == Seq::<Seq<char>>::empty(),
    {
        let r = ParentGroups { names: Vec::new() };
        proof {
            assert(r@ =~= Seq::<Seq<char>>::empty());
        }
        r
    }

    pub fn len(&self) -> (n: usize)
        ensures
            n == self@.len(),
    {
        self.names.len()
    }

    /// The name at position `i`.
    pub fn name_at(&self, i: usize) -> (r: &String)
        requires
            i < self@.len(),
        ensures
            r@ == self@[i as int],
    {
        &self.names[i]
    }

    /// Whether `name` is already listed.
    pub fn contains(&self, name: &str) -> (r: bool)
        ensures
            r == self@.contains(name@),
    {
        let mut i: usize = 0;
        while i < self.names.len()
            invariant
                i <= self.names@.len(),
                self@.len() == self.names@.len(),
                forall|j: int| 0 <= j < i ==> self@[j] != name@,
            decreases self.names@.len() - i,
        {
            if str_eq(self.names[i].as_str(), name) {
                proof {
                    assert(self@[i as int] == name@);
                }
                return true;
            }
            proof {
                assert(self@[i as int] == self.names@[i as int]@);
            }
            i += 1;
        }
        false
    }

    /// Appends `name` unless it is already listed: the first occurrence wins
    /// and the order of first occurrences is kept.
    pub fn push(&mut self, name: String)
        ensures
            final(self)@ == if old(self)@.contains(name@) {
                old(self)@
            } else {
                old(self)@.push(name@)
            },
    {
        proof {
            use_type_invariant(&*self);
        }
        if !self.contains(name.as_str()) {
            let ghost v0 = self@;
            let mut ns: Vec<String> = Vec::new();
            std::mem::swap(&mut ns, &mut self.names);
            ns.push(name);
            proof {
                assert(ns.deep_view() =~= v0.push(ns@.last()@));
            }
            self.names = ns;
        }
    }

    /// Builds the list from `names`, dropping every later duplicate.
    pub fn from_names(names: Vec<String>) -> (r: Self)
        ensures
            r@ == dedup_first(names.deep_view()),
    {
        let mut r = ParentGroups::new();
        let mut i: usize = 0;
        proof {
            assert(names.deep_view().take(0) =~= Seq::<Seq<char>>::empty());
            assert(dedup_first(names.deep_view().take(0)) =~= Seq::<Seq<char>>::empty());
        }
        while i < names.len()
            invariant
                i <= names@.len(),
                names.deep_view().len() == names@.len(),
                r@ == dedup_first(names.deep_view().take(i as int)),
            decreases names@.len() - i,
        {
            let ghost t = names.deep_view().take(i as int);
            let ghost t1 = names.deep_view().take(i + 1 as int);
            proof {
                assert(t1.drop_last() =~= t);
                assert(t1.last() == names.deep_view()[i as int]);
                lemma_dedup_first_contains(t, names.deep_view()[i as int]);
            }
            r.push(names[i].clone());
            i += 1;
        }
        proof {
            assert(names.deep_view().take(names@.len() as int) =~= names.deep_view());
        }
        r
    }
}

/// Connection overrides for one named connection type. A field left unset
/// inherits the host's base value.
#[derive(Debug, PartialEq, Eq)]
pub struct ConnectionOptions {
    pub hostname: Option<String>,
    pub port: Option<u16>,
    pub username: Option<String>,
    pub password: Option<String>,
    pub platform: Option<String>,
    pub extras: Option<String>,
}

impl Clone for ConnectionOptions {
    fn clone(&self) -> (r: Self)
        ensures
            r == *self,
    {
        ConnectionOptions {
            hostname: clone_opt_string(&self.hostname),
            port: self.port,
            username: clone_opt_string(&self.username),
            password: clone_opt_string(&self.password),
            platform: clone_opt_string(&self.platform),
            extras: clone_opt_string(&self.extras),
        }
    }
}

impl ConnectionOptions {
    /// Options that override nothing.
    pub fn new() -> (r: Self)
        ensures
            r.hostname is None,
            r.port is None,
            r.username is None,
            r.password is None,
            r.platform is None,
            r.extras is None,
    {
        ConnectionOptions {
            hostname: None,
            port: None,
            username: None,
            password: None,
            platform: None,
            extras: None,
        }
    }
}

/// Clones an optional string; the copy holds the same characters.
pub fn clone_opt_string(o: &Option<String>) -> (r: Option<String>)
    ensures
        r == *o,
{
    match o {
        Some(s) => Some(s.clone()),
        None => None,
    }
}

/// The fully merged parameters used to open one connection type to a host.
#[derive(Debug, PartialEq, Eq)]
pub struct ResolvedConnectionParams {
    pub hostname: String,
    pub port: Option<u16>,
    pub username: Option<String>,
    pub password: Option<String>,
    pub platform: Option<String>,
    pub extras: Option<String>,
}

impl Clone for ResolvedConnectionParams {
    fn clone(&self) -> (r: Self)
        ensures
            r == *self,
    {
        ResolvedConnectionParams {
            hostname: self.hostname.clone(),
            port: self.port,
            username: clone_opt_string(&self.username),
            password: clone_opt_string(&self.password),
            platform: clone_opt_string(&self.platform),
            extras: clone_opt_string(&self.extras),
        }
    }
}

/// A single managed device and its connection configuration.
#[derive(Debug)]
pub struct Host {
    pub name: String,
    pub hostname: Option<String>,
    pub port: Option<u16>,
    pub username: Option<String>,
    pub password: Option<String>,
    pub platform: Option<String>,
    pub groups: Option<ParentGroups>,
    pub data: Option<Data>,
    pub connection_options: Option<CustomTreeMap<ConnectionOptions>>,
    pub defaults: Option<std::sync::Arc<Defaults>>,
    /// The parameters resolved so far, by connection type: runtime-only and
    /// filled by `resolve`.
    pub resolved: CustomTreeMap<ResolvedConnectionParams>,
}

impl Host {
    /// The parameters already resolved, by connection type.
    pub open spec fn spec_cache(&self) -> Map<Seq<char>, ResolvedConnectionParams> {
        self.resolved.spec_map()
    }

    /// The host's own fields as connection parameters: the hostname falls
    /// back to the host's name when unset, and no extras are carried.
    pub open spec fn spec_base_params(&self) -> ResolvedConnectionParams {
        ResolvedConnectionParams {
            hostname: if self.hostname is Some {
                self.hostname->0
            } else {
                self.name
            },
            port: self.port,
            username: self.username,
            password: self.password,
            platform: self.platform,
            extras: None,
        }
    }

    /// Whether the host carries an override set for `ct`.
    pub open spec fn spec_has_override(&self, ct: Seq<char>) -> bool {
        self.connection_options is Some && self.connection_options->0.spec_map().contains_key(ct)
    }

    /// The merged parameters for connection type `ct`: every field set in the
    /// override replaces the base field, an absent field inherits it.
    pub open spec fn spec_resolved(&self, ct: Seq<char>) -> ResolvedConnectionParams {
        let base = self.spec_base_params();
        if self.spec_has_override(ct) {
            let o = self.connection_options->0.spec_map()[ct];
            ResolvedConnectionParams {
                hostname: if o.hostname is Some {
                    o.hostname->0
                } else {
                    base.hostname
                },
                port: if o.port is Some {
                    o.port
                } else {
                    base.port
                },
                username: if o.username is Some {
                    o.username
                } else {
                    base.username
                },
                password: if o.password is Some {
                    o.password
                } else {
                    base.password
                },
                platform: if o.platform is Some {
                    o.platform
                } else {
                    base.platform
                },
                extras: if o.extras is Some {
                    o.extras
                } else {
                    base.extras
                },
            }
        } else {
            base
        }
    }

    /// What `resolve` hands back: the cached parameters where the type was
    /// resolved before, the merge of the host's current fields otherwise.
    pub open spec fn spec_resolve_result(&self, ct: Seq<char>) -> ResolvedConnectionParams {
        if self.spec_cache().contains_key(ct) {
            self.spec_cache()[ct]
        } else {
            self.spec_resolved(ct)
        }
    }

    pub fn new(name: &str, hostname: &str) -> (h: Host)
        ensures
            h.name@ == name@,
            h.hostname matches Some(x) && x@ == hostname@,
            h.port == Some(22u16),
            h.username is None,
            h.password is None,
            h.platform is None,
            h.groups is None,
            h.data is None,
            h.connection_options is None,
            h.defaults is None,
            h.spec_cache() == Map::<Seq<char>, ResolvedConnectionParams>::empty(),
    {
        let h = Host {
            name: name.to_owned(),
            hostname: Some(hostname.to_owned()),
            port: Some(22),
            username: None,
            password: None,
            platform: None,
            groups: None,
            data: None,
            connection_options: None,
            defaults: None,
            resolved: CustomTreeMap::new(),
        };
        proof {
            assert(h.spec_cache() =~= Map::<Seq<char>, ResolvedConnectionParams>::empty());
        }
        h
    }

    pub fn builder(name: &str) -> (b: HostBuilder)
        ensures
            b.name@ == name@,
            b.hostname is None,
            b.port is None,
            b.username is None,
            b.password is None,
            b.platform is None,
            b.groups is None,
            b.data is None,
            b.connection_options is None,
            b.defaults is None,
    {
        HostBuilder::new(name)
    }

    /// Merges the host's fields with the override set for `connection_type`,
    /// caching the outcome: a type resolved once keeps its first parameters.
    pub fn resolve(&mut self, connection_type: &str) -> (r: ResolvedConnectionParams)
        ensures
            r == old(self).spec_resolve_result(connection_type@),
            final(self).spec_cache() == old(self).spec_cache().insert(connection_type@, r),
            host_config_eq(old(self), final(self)),
    {
        let cached = match self.resolved.get(connection_type) {
            Some(p) => Some(p.clone()),
            None => None,
        };
        match cached {
            Some(p) => {
                proof {
                    assert(old(self).spec_cache().insert(connection_type@, p)
                        =~= old(self).spec_cache());
                }
                p
            },
            None => {
                let base_hostname = match &self.hostname {
                    Some(h) => h.clone(),
                    None => self.name.clone(),
                };
                let mut r = ResolvedConnectionParams {
                    hostname: base_hostname,
                    port: self.port,
                    username: clone_opt_string(&self.username),
                    password: clone_opt_string(&self.password),
                    platform: clone_opt_string(&self.platform),
                    extras: None,
                };
                if let Some(co) = &self.connection_options {
                    if let Some(o) = co.get(connection_type) {
                        if let Some(h) = &o.hostname {
                            r.hostname = h.clone();
                        }
                        if let Some(p) = o.port {
                            r.port = Some(p);
                        }
                        if let Some(u) = &o.username {
                            r.username = Some(u.clone());
                        }
                        if let Some(p) = &o.password {
                            r.password = Some(p.clone());
                        }
                        if let Some(p) = &o.platform {
                            r.platform = Some(p.clone());
                        }
                        if let Some(e) = &o.extras {
                            r.extras = Some(e.clone());
                        }
                    }
                }
                self.resolved.insert(connection_type, r.clone());
                r
            },
        }
    }
}

/// Whether two host values agree on every field but the resolution cache.
pub open spec fn host_config_eq(a: &Host, b: &Host) -> bool {
    &&& a.name == b.name
    &&& a.hostname == b.hostname
    &&& a.port == b.port
    &&& a.username == b.username
    &&& a.password == b.password
    &&& a.platform == b.platform
    &&& a.groups == b.groups
    &&& a.data == b.data
    &&& a.connection_options == b.connection_options
    &&& a.defaults == b.defaults
}

/// An overridden field applies, an absent one inherits: with an override for
/// `ct`, its port stands; without one, the host's own port stands; a host
/// without a hostname is reached under its name.
pub proof fn lemma_resolver_override(h: Host, ct: Seq<char>)
    ensures
        h.spec_has_override(ct) && h.connection_options->0.spec_map()[ct].port is Some
            ==> h.spec_resolved(ct).port == h.connection_options->0.spec_map()[ct].port,
        !(h.spec_has_override(ct) && h.connection_options->0.spec_map()[ct].port is Some)
            ==> h.spec_resolved(ct).port == h.port,
        h.hostname is None && !(h.spec_has_override(ct)
            && h.connection_options->0.spec_map()[ct].hostname is Some) ==> h.spec_resolved(
            ct,
        ).hostname == h.name,
{
}

/// Resolving a connection type a second time yields the parameters of the
/// first resolution, however the host's other fields changed in between.
pub proof fn lemma_resolve_memoized(h0: Host, h1: Host, ct: Seq<char>)
    requires
        h1.spec_cache() == h0.spec_cache().insert(ct, h0.spec_resolve_result(ct)),
    ensures
        h1.spec_resolve_result(ct) == h0.spec_resolve_result(ct),
{
}

impl Clone for Data {
    fn clone(&self) -> (r: Self)
        ensures
            r.0.spec_kv() == self.0.spec_kv(),
    {
        let t = self.0.clone();
        proof {
            assert forall|i: int| 0 <= i < t.spec_kv().len() implies t.spec_kv()[i] == self
                .0
                .spec_kv()[i] by {
                assert(cloned::<DataValue>(self.0.spec_kv()[i].1, t.spec_kv()[i].1));
            }
            assert(t.spec_kv() =~= self.0.spec_kv());
        }
        Data(t)
    }
}

/// Staged fields for building a `Host`.
pub struct HostBuilder {
    pub name: String,
    pub hostname: Option<String>,
    pub port: Option<u16>,
    pub username: Option<String>,
    pub password: Option<String>,
    pub platform: Option<String>,
    pub groups: Option<ParentGroups>,
    pub data: Option<Data>,
    pub connection_options: Option<CustomTreeMap<ConnectionOptions>>,
    pub defaults: Option<std::sync::Arc<Defaults>>,
}

impl HostBuilder {
    /// A builder with nothing staged but the host's name.
    pub fn new(name: &str) -> (b: Self)
        ensures
            b.name@ == name@,
            b.hostname is None,
            b.port is None,
            b.username is None,
            b.password is None,
            b.platform is None,
            b.groups is None,
            b.data is None,
            b.connection_options is None,
            b.defaults is None,
    {
        HostBuilder {
            name: name.to_owned(),
            hostname: None,
            port: None,
            username: None,
            password: None,
            platform: None,
            groups: None,
            data: None,
            connection_options: None,
            defaults: None,
        }
    }

    pub fn hostname(self, hostname: &str) -> (r: Self)
        ensures
            r == (HostBuilder { hostname: r.hostname, ..self }),
            r.hostname matches Some(h) && h@ == hostname@,
    {
        HostBuilder { hostname: Some(hostname.to_owned()), ..self }
    }

    pub fn port(self, port: u16) -> (r: Self)
        ensures
            r == (HostBuilder { port: Some(port), ..self }),
    {
        HostBuilder { port: Some(port), ..self }
    }

    pub fn username(self, username: &str) -> (r: Self)
        ensures
            r == (HostBuilder { username: r.username, ..self }),
            r.username matches Some(u) && u@ == username@,
    {
        HostBuilder { username: Some(username.to_owned()), ..self }
    }

    pub fn password(self, password: &str) -> (r: Self)
        ensures
            r == (HostBuilder { password: r.password, ..self }),
            r.password matches Some(p) && p@ == password@,
    {
        HostBuilder { password: Some(password.to_owned()), ..self }
    }

    pub fn platform(self, platform: &str) -> (r: Self)
        ensures
            r == (HostBuilder { platform: r.platform, ..self }),
            r.platform matches Some(p) && p@ == platform@,
    {
        HostBuilder { platform: Some(platform.to_owned()), ..self }
    }

    pub fn groups(self, groups: ParentGroups) -> (r: Self)
        ensures
            r == (HostBuilder { groups: Some(groups), ..self }),
    {
        HostBuilder { groups: Some(groups), ..self }
    }

    pub fn data(self, data: Data) -> (r: Self)
        ensures
            r == (HostBuilder { data: Some(data), ..self }),
    {
        HostBuilder { data: Some(data), ..self }
    }

    /// Stages the overrides for one named connection type; earlier overrides
    /// for other types are kept.
    pub fn connection_options(self, connection_type: &str, options: ConnectionOptions) -> (r: Self)
        ensures
            r == (HostBuilder { connection_options: r.connection_options, ..self }),
            r.connection_options matches Some(co) && co.spec_map() == (match self
                .connection_options {
                Some(old_co) => old_co.spec_map(),
                None => Map::<Seq<char>, ConnectionOptions>::empty(),
            }).insert(connection_type@, options),
    {
        let mut co = match self.connection_options {
            Some(co) => co,
            None => CustomTreeMap::new(),
        };
        let ghost m0 = co.spec_map();
        proof {
            if self.connection_options is None {
                assert(m0 =~= Map::<Seq<char>, ConnectionOptions>::empty());
            }
        }
        co.insert(connection_type, options);
        HostBuilder {
            connection_options: Some(co),
            name: self.name,
            hostname: self.hostname,
            port: self.port,
            username: self.username,
            password: self.password,
            platform: self.platform,
            groups: self.groups,
            data: self.data,
            defaults: self.defaults,
        }
    }

    pub fn defaults(self, defaults: std::sync::Arc<Defaults>) -> (r: Self)
        ensures
            r == (HostBuilder { defaults: Some(defaults), ..self }),
    {
        HostBuilder { defaults: Some(defaults), ..self }
    }

    /// Materialises the staged fields as a host with an empty resolution
    /// cache.
    pub fn build(self) -> (h: Host)
        ensures
            h.name == self.name,
            h.hostname == self.hostname,
            h.port == self.port,
            h.username == self.username,
            h.password == self.password,
            h.platform == self.platform,
            h.groups == self.groups,
            h.data == self.data,
            h.connection_options == self.connection_options,
            h.defaults == self.defaults,
            h.spec_cache() == Map::<Seq<char>, ResolvedConnectionParams>::empty(),
    {
        let h = Host {
            name: self.name,
            hostname: self.hostname,
            port: self.port,
            username: self.username,
            password: self.password,
            platform: self.platform,
            groups: self.groups,
            data: self.data,
            connection_options: self.connection_options,
            defaults: self.defaults,
            resolved: CustomTreeMap::new(),
        };
        proof {
            assert(h.spec_cache() =~= Map::<Seq<char>, ResolvedConnectionParams>::empty());
        }
        h
    }
}

/// A reusable template of inheritable host fields.
#[derive(Debug)]
pub struct Group {
    pub hostname: Option<String>,
    pub port: Option<u16>,
    pub username: Option<String>,
    pub password: Option<String>,
    pub platform: Option<String>,
    pub groups: Option<ParentGroups>,
    pub data: Option<Data>,
    pub connection_options: Option<CustomTreeMap<ConnectionOptions>>,
    pub defaults: Option<std::sync::Arc<Defaults>>,
}

impl Group {
    pub fn new(hostname: &str) -> (g: Group)
        ensures
            g.hostname matches Some(x) && x@ == hostname@,
            g.port == Some(22u16),
            g.username is None,
            g.password is None,
            g.platform is None,
            g.groups is None,
            g.data is None,
            g.connection_options is None,
            g.defaults is None,
    {
        Group {
            hostname: Some(hostname.to_owned()),
            port: Some(22),
            username: None,
            password: None,
            platform: None,
            groups: None,
            data: None,
            connection_options: None,
            defaults: None,
        }
    }

    pub fn builder(hostname: &str) -> (b: GroupBuilder)
        ensures
            b.hostname matches Some(x) && x@ == hostname@,
            b.port is None,
            b.username is None,
            b.password is None,
            b.platform is None,
            b.groups is None,
            b.data is None,
            b.connection_options is None,
            b.defaults is None,
    {
        GroupBuilder::new(hostname)
    }
}

/// Staged fields for building a `Group`.
pub struct GroupBuilder {
    pub hostname: Option<String>,
    pub port: Option<u16>,
    pub username: Option<String>,
    pub password: Option<String>,
    pub platform: Option<String>,
    pub groups: Option<ParentGroups>,
    pub data: Option<Data>,
    pub connection_options: Option<CustomTreeMap<ConnectionOptions>>,
    pub defaults: Option<std::sync::Arc<Defaults>>,
}

impl GroupBuilder {
    pub fn new(hostname: &str) -> (b: Self)
        ensures
            b.hostname matches Some(x) && x@ == hostname@,
            b.port is None,
            b.username is None,
            b.password is None,
            b.platform is None,
            b.groups is None,
            b.data is None,
            b.connection_options is None,
            b.defaults is None,
    {
        GroupBuilder {
            hostname: Some(hostname.to_owned()),
            port: None,
            username: None,
            password: None,
            platform: None,
            groups: None,
            data: None,
            connection_options: None,
            defaults: None,
        }
    }

    pub fn hostname(self, hostname: &str) -> (r: Self)
        ensures
            r == (GroupBuilder { hostname: r.hostname, ..self }),
            r.hostname matches Some(h) && h@ == hostname@,
    {
        GroupBuilder { hostname: Some(hostname.to_owned()), ..self }
    }

    pub fn port(self, port: u16) -> (r: Self)
        ensures
            r == (GroupBuilder { port: Some(port), ..self }),
    {
        GroupBuilder { port: Some(port), ..self }
    }

    pub fn username(self, username: &str) -> (r: Self)
        ensures
            r == (GroupBuilder { username: r.username, ..self }),
            r.username matches Some(u) && u@ == username@,
    {
        GroupBuilder { username: Some(username.to_owned()), ..self }
    }

    pub fn password(self, password: &str) -> (r: Self)
        ensures
            r == (GroupBuilder { password: r.password, ..self }),
            r.password matches Some(p) && p@ == password@,
    {
        GroupBuilder { password: Some(password.to_owned()), ..self }
    }

    pub fn platform(self, platform: &str) -> (r: Self)
        ensures
            r == (GroupBuilder { platform: r.platform, ..self }),
            r.platform matches Some(p) && p@ == platform@,
    {
        GroupBuilder { platform: Some(platform.to_owned()), ..self }
    }

    pub fn groups(self, groups: ParentGroups) -> (r: Self)
        ensures
            r == (GroupBuilder { groups: Some(groups), ..self }),
    {
        GroupBuilder { groups: Some(groups), ..self }
    }

    pub fn data(self, data: Data) -> (r: Self)
        ensures
            r == (GroupBuilder { data: Some(data), ..self }),
    {
        GroupBuilder { data: Some(data), ..self }
    }

    pub fn connection_options(self, connection_type: &str, options: ConnectionOptions) -> (r: Self)
        ensures
            r == (GroupBuilder { connection_options: r.connection_options, ..self }),
            r.connection_options matches Some(co) && co.spec_map() == (match self
                .connection_options {
                Some(old_co) => old_co.spec_map(),
                None => Map::<Seq<char>, ConnectionOptions>::empty(),
            }).insert(connection_type@, options),
    {
        let mut co = match self.connection_options {
            Some(co) => co,
            None => CustomTreeMap::new(),
        };
        proof {
            if self.connection_options is None {
                assert(co.spec_map() =~= Map::<Seq<char>, ConnectionOptions>::empty());
            }
        }
        co.insert(connection_type, options);
        GroupBuilder {
            connection_options: Some(co),
            hostname: self.hostname,
            port: self.port,
            username: self.username,
            password: self.password,
            platform: self.platform,
            groups: self.groups,
            data: self.data,
            defaults: self.defaults,
        }
    }

    pub fn defaults(self, defaults: std::sync::Arc<Defaults>) -> (r: Self)
        ensures
            r == (GroupBuilder { defaults: Some(defaults), ..self }),
    {
        GroupBuilder { defaults: Some(defaults), ..self }
    }

    pub fn build(self) -> (g: Group)
        ensures
            g.hostname == self.hostname,
            g.port == self.port,
            g.username == self.username,
            g.password == self.password,
            g.platform == self.platform,
            g.groups == self.groups,
            g.data == self.data,
            g.connection_options == self.connection_options,
            g.defaults == self.defaults,
    {
        Group {
            hostname: self.hostname,
            port: self.port,
            username: self.username,
            password: self.password,
            platform: self.platform,
            groups: self.groups,
            data: self.data,
            connection_options: self.connection_options,
            defaults: self.defaults,
        }
    }
}

/// The host set, keyed by host name in natural order.
#[derive(Debug)]
pub struct Hosts {
    /// The underlying ordered store, keyed by host name.
    pub store: CustomTreeMap<Host>,
}

impl Hosts {
    /// The hosts as ordered pairs of name and host.
    pub open spec fn spec_kv(&self) -> Seq<(Seq<char>, Host)> {
        self.store.spec_kv()
    }

    /// The hosts read as a map from name to host.
    pub open spec fn spec_map(&self) -> Map<Seq<char>, Host> {
        self.store.spec_map()
    }

    pub open spec fn spec_len(&self) -> nat {
        self.store.spec_len()
    }

    pub open spec fn spec_contains(&self, name: Seq<char>) -> bool {
        self.store.spec_contains(name)
    }

    pub fn new() -> (r: Self)
        ensures
            r.spec_kv() == Seq::<(Seq<char>, Host)>::empty(),
            r.spec_len() == 0,
    {
        Hosts { store: CustomTreeMap::new() }
    }

    /// Files `host` under its own name, replacing a host of the same name.
    pub fn add_host(&mut self, host: Host)
        ensures
            final(self).spec_map() == old(self).spec_map().insert(host.name@, host),
            final(self).spec_len() == old(self).spec_len() + (if old(self).spec_contains(
                host.name@,
            ) {
                0int
            } else {
                1int
            }),
    {
        let name = host.name.clone();
        self.store.insert(name.as_str(), host);
    }

    pub fn get(&self, name: &str) -> (r: Option<&Host>)
        ensures
            match r {
                Some(h) => self.spec_contains(name@) && *h == self.spec_map()[name@] && exists|
                    i: int,
                |
                    0 <= i < self.spec_kv().len() && #[trigger] self.spec_kv()[i] == (name@, *h),
                None => !self.spec_contains(name@),
            },
    {
        let r = self.store.get(name);
        proof {
            match r {
                Some(h) => {
                    let i = choose|i: int|
                        0 <= i < self.store.spec_kv().len() && #[trigger] self.store.spec_kv()[i]
                            == (name@, *h);
                    assert(self.spec_kv()[i] == (name@, *h));
                },
                None => {},
            }
        }
        r
    }

    pub fn len(&self) -> (n: usize)
        ensures
            n == self.spec_len(),
    {
        self.store.len()
    }

    pub fn is_empty(&self) -> (b: bool)
        ensures
            b == (self.spec_len() == 0),
    {
        self.store.is_empty()
    }

    /// The name under which the host at position `i` is filed.
    pub fn name_at(&self, i: usize) -> (k: &crate::natorder::NatString)
        requires
            i < self.spec_len(),
        ensures
            k@ == self.spec_kv()[i as int].0,
    {
        self.store.key_at(i)
    }

    /// The host at position `i` in name order.
    pub fn host_at(&self, i: usize) -> (h: &Host)
        requires
            i < self.spec_len(),
        ensures
            *h == self.spec_kv()[i as int].1,
    {
        self.store.value_at(i)
    }

    /// All host names, in natural order.
    pub fn names(&self) -> (r: Vec<crate::natorder::NatString>)
        ensures
            r@.len() == self.spec_len(),
            forall|i: int| 0 <= i < r@.len() ==> r@[i]@ == self.spec_kv()[i].0,
    {
        let r = self.store.keys();
        proof {
            assert forall|i: int| 0 <= i < r@.len() implies r@[i]@ == self.spec_kv()[i].0 by {
                assert(r@[i]@ == self.store.spec_keys()[i]);
            }
        }
        r
    }

    /// Swaps in a new host at position `i`, keeping the name it is filed
    /// under, and hands the old host back.
    pub(crate) fn replace_host_at(&mut self, i: usize, host: Host) -> (w: Host)
        requires
            i < old(self).spec_len(),
        ensures
            final(self).spec_kv() == old(self).spec_kv().update(
                i as int,
                (old(self).spec_kv()[i as int].0, host),
            ),
            final(self).spec_map() == old(self).spec_map().insert(
                old(self).spec_kv()[i as int].0,
                host,
            ),
            w == old(self).spec_kv()[i as int].1,
    {
        self.store.replace_value_at(i, host)
    }
}

/// The group set, keyed by group name in natural order.
#[derive(Debug)]
pub struct Groups {
    /// The underlying ordered store, keyed by group name.
    pub store: CustomTreeMap<Group>,
}

impl Groups {
    /// The groups read as a map from name to group.
    pub open spec fn spec_map(&self) -> Map<Seq<char>, Group> {
        self.store.spec_map()
    }

    pub open spec fn spec_len(&self) -> nat {
        self.store.spec_len()
    }

    pub fn new() -> (r: Self)
        ensures
            r.spec_len() == 0,
            r.spec_map() =~= Map::<Seq<char>, Group>::empty(),
    {
        let r = Groups { store: CustomTreeMap::new() };
        proof {
            assert(r.store.spec_kv() =~= Seq::<(Seq<char>, Group)>::empty());
        }
        r
    }

    /// Files `group` under `name`, replacing a group of the same name.
    pub fn add_group(&mut self, name: &str, group: Group)
        ensures
            final(self).spec_map() == old(self).spec_map().insert(name@, group),
    {
        self.store.insert(name, group);
    }

    pub fn get(&self, name: &str) -> (r: Option<&Group>)
        ensures
            match r {
                Some(g) => self.spec_map().contains_key(name@) && *g == self.spec_map()[name@],
                None => !self.spec_map().contains_key(name@),
            },
    {
        self.store.get(name)
    }

    pub fn len(&self) -> (n: usize)
        ensures
            n == self.spec_len(),
    {
        self.store.len()
    }
}

/// One ready-made example host for `create_dummy_hosts`.
fn dummy_host(name: &str, port: u16, username: &str, password: &str, platform: &str) -> (h: Host)
    ensures
        h.name@ == name@,
        h.port == Some(port),
        h.platform matches Some(p) && p@ == platform@,
{
    let mut groups = ParentGroups::new();
    groups.push("cisco".to_owned());
    let mut options = ConnectionOptions::new();
    options.hostname = Some(name.to_owned());
    Host::builder(name)
        .hostname(name)
        .port(port)
        .username(username)
        .password(password)
        .platform(platform)
        .groups(groups)
        .connection_options("ssh", options)
        .build()
}

/// Ten example hosts with distinct names, filed under their names: a
/// ready-made inventory for demonstrations.
#[verifier::rlimit(60)]
pub fn create_dummy_hosts() -> (r: Hosts)
    ensures
        r.spec_len() == 10,
{
    proof {
        reveal_strlit("host1.example.com");
        reveal_strlit("host2.example.com");
        reveal_strlit("host3.example.com");
        reveal_strlit("host4.example.com");
        reveal_strlit("host5.example.com");
        reveal_strlit("host6.example.com");
        reveal_strlit("host7.example.com");
        reveal_strlit("host8.example.com");
        reveal_strlit("host9.example.com");
        reveal_strlit("host10.example.com");
    }
    let mut hosts = Hosts::new();
    hosts.add_host(dummy_host("host1.example.com", 2201, "user1", "password1", "windows"));
    proof {
        assert(hosts.spec_len() == 1);
    }
    proof {
        assert("host2.example.com"@ != "host1.example.com"@) by {
            assert("host2.example.com"@[4] == '2');
            assert("host1.example.com"@[4] == '1');
        }
        assert(!hosts.spec_contains("host2.example.com"@));
    }
    hosts.add_host(dummy_host("host2.example.com", 2202, "user2", "password2", "linux"));
    proof {
        assert(hosts.spec_len() == 2);
    }
    proof {
        assert("host3.example.com"@ != "host1.example.com"@) by {
            assert("host3.example.com"@[4] == '3');
            assert("host1.example.com"@[4] == '1');
        }
        assert("host3.example.com"@ != "host2.example.com"@) by {
            assert("host3.example.com"@[4] == '3');
            assert("host2.example.com"@[4] == '2');
        }
        assert(!hosts.spec_contains("host3.example.com"@));
    }
    hosts.add_host(dummy_host("host3.example.com", 2203, "user3", "password3", "windows"));
    proof {
        assert(hosts.spec_len() == 3);
    }
    proof {
        assert("host4.example.com"@ != "host1.example.com"@) by {
            assert("host4.example.com"@[4] == '4');
            assert("host1.example.com"@[4] == '1');
        }
        assert("host4.example.com"@ != "host2.example.com"@) by {
            assert("host4.example.com"@[4] == '4');
            assert("host2.example.com"@[4] == '2');
        }
        assert("host4.example.com"@ != "host3.example.com"@) by {
            assert("host4.example.com"@[4] == '4');
            assert("host3.example.com"@[4] == '3');
        }
        assert(!hosts.spec_contains("host4.example.com"@));
    }
    hosts.add_host(dummy_host("host4.example.com", 2204, "user4", "password4", "linux"));
    proof {
        assert(hosts.spec_len() == 4);
    }
    proof {
        assert("host5.example.com"@ != "host1.example.com"@) by {
            assert("host5.example.com"@[4] == '5');
            assert("host1.example.com"@[4] == '1');
        }
        assert("host5.example.com"@ != "host2.example.com"@) by {
            assert("host5.example.com"@[4] == '5');
            assert("host2.example.com"@[4] == '2');
        }
        assert("host5.example.com"@ != "host3.example.com"@) by {
            assert("host5.example.com"@[4] == '5');
            assert("host3.example.com"@[4] == '3');
        }
        assert("host5.example.com"@ != "host4.example.com"@) by {
            assert("host5.example.com"@[4] == '5');
            assert("host4.example.com"@[4] == '4');
        }
        assert(!hosts.spec_contains("host5.example.com"@));
    }
    hosts.add_host(dummy_host("host5.example.com", 2205, "user5", "password5", "windows"));
    proof {
        assert(hosts.spec_len() == 5);
    }
    proof {
        assert("host6.example.com"@ != "host1.example.com"@) by {
            assert("host6.example.com"@[4] == '6');
            assert("host1.example.com"@[4] == '1');
        }
        assert("host6.example.com"@ != "host2.example.com"@) by {
            assert("host6.example.com"@[4] == '6');
            assert("host2.example.com"@[4] == '2');
        }
        assert("host6.example.com"@ != "host3.example.com"@) by {
            assert("host6.example.com"@[4] == '6');
            assert("host3.example.com"@[4] == '3');
        }
        assert("host6.example.com"@ != "host4.example.com"@) by {
            assert("host6.example.com"@[4] == '6');
            assert("host4.example.com"@[4] == '4');
        }
        assert("host6.example.com"@ != "host5.example.com"@) by {
            assert("host6.example.com"@[4] == '6');
            assert("host5.example.com"@[4] == '5');
        }
        assert(!hosts.spec_contains("host6.example.com"@));
    }
    hosts.add_host(dummy_host("host6.example.com", 2206, "user6", "password6", "linux"));
    proof {
        assert(hosts.spec_len() == 6);
    }
    proof {
        assert("host7.example.com"@ != "host1.example.com"@) by {
            assert("host7.example.com"@[4] == '7');
            assert("host1.example.com"@[4] == '1');
        }
        assert("host7.example.com"@ != "host2.example.com"@) by {
            assert("host7.example.com"@[4] == '7');
            assert("host2.example.com"@[4] == '2');
        }
        assert("host7.example.com"@ != "host3.example.com"@) by {
            assert("host7.example.com"@[4] == '7');
            assert("host3.example.com"@[4] == '3');
        }
        assert("host7.example.com"@ != "host4.example.com"@) by {
            assert("host7.example.com"@[4] == '7');
            assert("host4.example.com"@[4] == '4');
        }
        assert("host7.example.com"@ != "host5.example.com"@) by {
            assert("host7.example.com"@[4] == '7');
            assert("host5.example.com"@[4] == '5');
        }
        assert("host7.example.com"@ != "host6.example.com"@) by {
            assert("host7.example.com"@[4] == '7');
            assert("host6.example.com"@[4] == '6');
        }
        assert(!hosts.spec_contains("host7.example.com"@));
    }
    hosts.add_host(dummy_host("host7.example.com", 2207, "user7", "password7", "windows"));
    proof {
        assert(hosts.spec_len() == 7);
    }
    proof {
        assert("host8.example.com"@ != "host1.example.com"@) by {
            assert("host8.example.com"@[4] == '8');
            assert("host1.example.com"@[4] == '1');
        }
        assert("host8.example.com"@ != "host2.example.com"@) by {
            assert("host8.example.com"@[4] == '8');
            assert("host2.example.com"@[4] == '2');
        }
        assert("host8.example.com"@ != "host3.example.com"@) by {
            assert("host8.example.com"@[4] == '8');
            assert("host3.example.com"@[4] == '3');
        }
        assert("host8.example.com"@ != "host4.example.com"@) by {
            assert("host8.example.com"@[4] == '8');
            assert("host4.example.com"@[4] == '4');
        }
        assert("host8.example.com"@ != "host5.example.com"@) by {
            assert("host8.example.com"@[4] == '8');
            assert("host5.example.com"@[4] == '5');
        }
        assert("host8.example.com"@ != "host6.example.com"@) by {
            assert("host8.example.com"@[4] == '8');
            assert("host6.example.com"@[4] == '6');
        }
        assert("host8.example.com"@ != "host7.example.com"@) by {
            assert("host8.example.com"@[4] == '8');
            assert("host7.example.com"@[4] == '7');
        }
        assert(!hosts.spec_contains("host8.example.com"@));
    }
    hosts.add_host(dummy_host("host8.example.com", 2208, "user8", "password8", "linux"));
    proof {
        assert(hosts.spec_len() == 8);
    }
    proof {
        assert("host9.example.com"@ != "host1.example.com"@) by {
            assert("host9.example.com"@[4] == '9');
            assert("host1.example.com"@[4] == '1');
        }
        assert("host9.example.com"@ != "host2.example.com"@) by {
            assert("host9.example.com"@[4] == '9');
            assert("host2.example.com"@[4] == '2');
        }
        assert("host9.example.com"@ != "host3.example.com"@) by {
            assert("host9.example.com"@[4] == '9');
            assert("host3.example.com"@[4] == '3');
        }
        assert("host9.example.com"@ != "host4.example.com"@) by {
            assert("host9.example.com"@[4] == '9');
            assert("host4.example.com"@[4] == '4');
        }
        assert("host9.example.com"@ != "host5.example.com"@) by {
            assert("host9.example.com"@[4] == '9');
            assert("host5.example.com"@[4] == '5');
        }
        assert("host9.example.com"@ != "host6.example.com"@) by {
            assert("host9.example.com"@[4] == '9');
            assert("host6.example.com"@[4] == '6');
        }
        assert("host9.example.com"@ != "host7.example.com"@) by {
            assert("host9.example.com"@[4] == '9');
            assert("host7.example.com"@[4] == '7');
        }
        assert("host9.example.com"@ != "host8.example.com"@) by {
            assert("host9.example.com"@[4] == '9');
            assert("host8.example.com"@[4] == '8');
        }
        assert(!hosts.spec_contains("host9.example.com"@));
    }
    hosts.add_host(dummy_host("host9.example.com", 2209, "user9", "password9", "windows"));
    proof {
        assert(hosts.spec_len() == 9);
    }
    proof {
        assert("host10.example.com"@ != "host1.example.com"@) by {
            assert("host10.example.com"@.len() == 18);
            assert("host1.example.com"@.len() == 17);
        }
        assert("host10.example.com"@ != "host2.example.com"@) by {
            assert("host10.example.com"@.len() == 18);
            assert("host2.example.com"@.len() == 17);
        }
        assert("host10.example.com"@ != "host3.example.com"@) by {
            assert("host10.example.com"@.len() == 18);
            assert("host3.example.com"@.len() == 17);
        }
        assert("host10.example.com"@ != "host4.example.com"@) by {
            assert("host10.example.com"@.len() == 18);
            assert("host4.example.com"@.len() == 17);
        }
        assert("host10.example.com"@ != "host5.example.com"@) by {
            assert("host10.example.com"@.len() == 18);
            assert("host5.example.com"@.len() == 17);
        }
        assert("host10.example.com"@ != "host6.example.com"@) by {
            assert("host10.example.com"@.len() == 18);
            assert("host6.example.com"@.len() == 17);
        }
        assert("host10.example.com"@ != "host7.example.com"@) by {
            assert("host10.example.com"@.len() == 18);
            assert("host7.example.com"@.len() == 17);
        }
        assert("host10.example.com"@ != "host8.example.com"@) by {
            assert("host10.example.com"@.len() == 18);
            assert("host8.example.com"@.len() == 17);
        }
        assert("host10.example.com"@ != "host9.example.com"@) by {
            assert("host10.example.com"@.len() == 18);
            assert("host9.example.com"@.len() == 17);
        }
        assert(!hosts.spec_contains("host10.example.com"@));
    }
    hosts.add_host(dummy_host("host10.example.com", 2210, "user10", "password10", "linux"));
    proof {
        assert(hosts.spec_len() == 10);
    }
    hosts
}

/// The builder capability shared by host and group builders.
pub trait BaseBuilderHost {
    type Output;

    /// Stages the hostname and returns the builder.
    fn hostname(self, hostname: &str) -> Self;

    /// Stages the port and returns the builder.
    fn port(self, port: u16) -> Self;

    /// Stages the username and returns the builder.
    fn username(self, username: &str) -> Self;

    /// Stages the password and returns the builder.
    fn password(self, password: &str) -> Self;

    /// Stages the platform and returns the builder.
    fn platform(self, platform: &str) -> Self;

    /// Stages the parent groups and returns the builder.
    fn groups(self, groups: ParentGroups) -> Self;

    /// Stages the data blob and returns the builder.
    fn data(self, data: Data) -> Self;

    /// Stages the overrides for one connection type and returns the builder.
    fn connection_options(self, connection_type: &str, options: ConnectionOptions) -> Self;

    /// Stages the shared defaults and returns the builder.
    fn defaults(self, defaults: std::sync::Arc<Defaults>) -> Self;

    /// Materialises the staged fields.
    fn build(self) -> Self::Output;
}

impl BaseBuilderHost for HostBuilder {
    type Output = Host;

    fn hostname(self, hostname: &str) -> Self {
        HostBuilder::hostname(self, hostname)
    }

    fn port(self, port: u16) -> Self {
        HostBuilder::port(self, port)
    }

    fn username(self, username: &str) -> Self {
        HostBuilder::username(self, username)
    }

    fn password(self, password: &str) -> Self {
        HostBuilder::password(self, password)
    }

    fn platform(self, platform: &str) -> Self {
        HostBuilder::platform(self, platform)
    }

    fn groups(self, groups: ParentGroups) -> Self {
        HostBuilder::groups(self, groups)
    }

    fn data(self, data: Data) -> Self {
        HostBuilder::data(self, data)
    }

    fn connection_options(self, connection_type: &str, options: ConnectionOptions) -> Self {
        HostBuilder::connection_options(self, connection_type, options)
    }

    fn defaults(self, defaults: std::sync::Arc<Defaults>) -> Self {
        HostBuilder::defaults(self, defaults)
    }

    fn build(self) -> Host {
        HostBuilder::build(self)
    }
}

impl BaseBuilderHost for GroupBuilder {
    type Output = Group;

    fn hostname(self, hostname: &str) -> Self {
        GroupBuilder::hostname(self, hostname)
    }

    fn port(self, port: u16) -> Self {
        GroupBuilder::port(self, port)
    }

    fn username(self, username: &str) -> Self {
        GroupBuilder::username(self, username)
    }

    fn password(self, password: &str) -> Self {
        GroupBuilder::password(self, password)
    }

    fn platform(self, platform: &str) -> Self {
        GroupBuilder::platform(self, platform)
    }

    fn groups(self, groups: ParentGroups) -> Self {
        GroupBuilder::groups(self, groups)
    }

    fn data(self, data: Data) -> Self {
        GroupBuilder::data(self, data)
    }

    fn connection_options(self, connection_type: &str, options: ConnectionOptions) -> Self {
        GroupBuilder::connection_options(self, connection_type, options)
    }

    fn defaults(self, defaults: std::sync::Arc<Defaults>) -> Self {
        GroupBuilder::defaults(self, defaults)
    }

    fn build(self) -> Group {
        GroupBuilder::build(self)
    }
}

} // verus!
//! The keyed cache of live connection objects.
//!
//! A `ConnectionRegistry` is the cache's state: a keyed set of shared
//! handles, each guarding one live connection object, with at most one
//! handle per key. `ConnectionManager` wraps the registry in a lock so many
//! threads may call it through a shared reference; the lock serialises the
//! registry operations, so the registry's contracts carry over to each
//! manager call taken on its own.

use crate::inventory::ResolvedConnectionParams;
use crate::natorder::str_eq;
use crate::store::{kv_map, lemma_kv_map_at, lemma_kv_map_domain, lemma_map_remove_from_kv};
use std::sync::Arc;
use vstd::prelude::*;
use vstd::rwlock::{RwLock, RwLockPredicate};

verus! {

/// The key under which a live connection is filed: which host, under which
/// connection type.
#[derive(Debug, PartialEq, Eq)]
pub struct ConnectionKey {
    pub hostname: String,
    pub connection_type: String,
}

impl View for ConnectionKey {
    type V = (Seq<char>, Seq<char>);

    open spec fn view(&self) -> (Seq<char>, Seq<char>) {
        (self.hostname@, self.connection_type@)
    }
}

impl Clone for ConnectionKey {
    fn clone(&self) -> (r: Self)
        ensures
            r == *self,
    {
        ConnectionKey {
            hostname: self.hostname.clone(),
            connection_type: self.connection_type.clone(),
        }
    }
}

impl ConnectionKey {
    pub fn new(hostname: &str, connection_type: &str) -> (k: Self)
        ensures
            k@ == (hostname@, connection_type@),
    {
        ConnectionKey { hostname: hostname.to_owned(), connection_type: connection_type.to_owned() }
    }

    /// Whether the two keys name the same host and connection type.
    pub fn same_key(&self, other: &ConnectionKey) -> (b: bool)
        ensures
            b == (self@ == other@),
    {
        str_eq(self.hostname.as_str(), other.hostname.as_str()) && str_eq(
            self.connection_type.as_str(),
            other.connection_type.as_str(),
        )
    }
}

/// The capability set a live connection object must offer. Implementations
/// are supplied by callers; the cache promises nothing of their behaviour.
pub trait Connection {
    /// Whether the connection is usable.
    fn is_alive(&self) -> bool;

    /// Opens the connection with the resolved parameters; a failure is a
    /// recoverable error value for the caller's retry policy.
    fn open(&mut self, params: &ResolvedConnectionParams) -> Result<(), String>;

    /// Closes the connection and reports the key it was filed under.
    fn close(&mut self) -> ConnectionKey;
}

/// A lock predicate that admits every connection state: the cache treats
/// the object behind each handle as opaque.
pub struct AnyState;

impl<C> RwLockPredicate<C> for AnyState {
    open spec fn inv(self, v: C) -> bool {
        true
    }
}

/// One live connection behind its own exclusive lock: callers holding the
/// same shared handle serialise through it, and work on one connection
/// never touches another's lock.
pub struct ConnectionCell<C> {
    lock: RwLock<C, AnyState>,
}

impl<C: Connection> ConnectionCell<C> {
    pub fn new(conn: C) -> Self {
        ConnectionCell { lock: RwLock::new(conn, Ghost(AnyState)) }
    }

    /// Asks the connection whether it is alive, under the entry's lock.
    pub fn is_alive(&self) -> bool {
        let handle = self.lock.acquire_read();
        let r = handle.borrow().is_alive();
        handle.release_read();
        r
    }

    /// Opens the connection with `params`, under the entry's lock.
    pub fn open(&self, params: &ResolvedConnectionParams) -> Result<(), String> {
        let (mut conn, handle) = self.lock.acquire_write();
        let r = conn.open(params);
        handle.release_write(conn);
        r
    }

    /// Closes the connection, under the entry's lock, and reports the key
    /// the connection says it was filed under.
    pub fn close(&self) -> ConnectionKey {
        let (mut conn, handle) = self.lock.acquire_write();
        let r = conn.close();
        handle.release_write(conn);
        r
    }
}

/// Relies on `alloc::sync::Arc::clone`: the clone is one more handle to the
/// same allocation, so both handles stand for the same value.
#[verifier::external_body]
pub fn arc_clone<T>(a: &Arc<T>) -> (r: Arc<T>)
    ensures
        r == *a,
{
    Arc::clone(a)
}

/// The cache's state: shared handles to live connections, at most one per
/// key. Every operation that changes the state says exactly which keys it
/// touches, so a key holds one connection object for its whole stay, and
/// closing one key cannot disturb another.
pub struct ConnectionRegistry<C> {
    entries: Vec<(ConnectionKey, Arc<ConnectionCell<C>>)>,
}

impl<C> ConnectionRegistry<C> {
    /// The entries as pairs of key and handle.
    pub closed spec fn spec_kv(&self) -> Seq<((Seq<char>, Seq<char>), Arc<ConnectionCell<C>>)> {
        Seq::new(self.entries@.len(), |i: int| (self.entries@[i].0@, self.entries@[i].1))
    }

    /// The cache read as a map from key to handle.
    pub open spec fn spec_map(&self) -> Map<(Seq<char>, Seq<char>), Arc<ConnectionCell<C>>> {
        kv_map(self.spec_kv())
    }

    pub open spec fn spec_len(&self) -> nat {
        self.spec_kv().len()
    }

    #[verifier::type_invariant]
    closed spec fn wf(self) -> bool {
        forall|p: int, q: int|
            0 <= p < q < self.spec_kv().len() ==> (#[trigger] self.spec_kv()[p].0) != (
            #[trigger] self.spec_kv()[q].0)
    }
}

impl<C: Connection> ConnectionRegistry<C> {
    pub fn new() -> (r: Self)
        ensures
            r.spec_kv() == Seq::<((Seq<char>, Seq<char>), Arc<ConnectionCell<C>>)>::empty(),
    {
        let r = ConnectionRegistry { entries: Vec::new() };
        proof {
            assert(r.spec_kv() =~= Seq::<
                ((Seq<char>, Seq<char>), Arc<ConnectionCell<C>>),
            >::empty());
        }
        r
    }

    pub fn len(&self) -> (n: usize)
        ensures
            n == self.spec_len(),
    {
        self.entries.len()
    }

    /// Position of the entry filed under `key`, if one is held.
    fn find(&self, key: &ConnectionKey) -> (r: Option<usize>)
        ensures
            match r {
                Some(i) => i < self.spec_len() && self.spec_kv()[i as int].0 == key@,
                None => !self.spec_map().contains_key(key@),
            },
    {
        proof {
            use_type_invariant(self);
        }
        let mut i: usize = 0;
        while i < self.entries.len()
            invariant
                i <= self.entries@.len(),
                self.spec_kv().len() == self.entries@.len(),
                forall|j: int| 0 <= j < i ==> (#[trigger] self.spec_kv()[j].0) != key@,
            decreases self.entries@.len() - i,
        {
            if self.entries[i].0.same_key(key) {
                proof {
                    assert(self.spec_kv()[i as int].0 == key@);
                }
                return Some(i);
            }
            proof {
                assert(self.spec_kv()[i as int].0 == self.entries@[i as int].0@);
            }
            i += 1;
        }
        proof {
            lemma_kv_map_domain(self.spec_kv(), key@);
        }
        None
    }

    /// Non-blocking lookup: the handle filed under `key`, if one is held.
    pub fn get(&self, key: &ConnectionKey) -> (r: Option<Arc<ConnectionCell<C>>>)
        ensures
            match r {
                Some(h) => self.spec_map().contains_key(key@) && h == self.spec_map()[key@],
                None => !self.spec_map().contains_key(key@),
            },
    {
        proof {
            use_type_invariant(self);
        }
        match self.find(key) {
            Some(i) => {
                proof {
                    lemma_kv_map_at(self.spec_kv(), i as int);
                }
                Some(arc_clone(&self.entries[i].1))
            },
            None => None,
        }
    }

    /// Hands back the handle filed under `key`; where none is held, builds
    /// one connection with `make` and files its handle. Under a key already
    /// present nothing is built and nothing changes.
    pub fn get_or_create<F: FnOnce() -> C>(&mut self, key: ConnectionKey, make: F) -> (h: Arc<
        ConnectionCell<C>,
    >)
        requires
            call_requires(make, ()),
        ensures
            old(self).spec_map().contains_key(key@) ==> final(self).spec_kv() == old(
                self,
            ).spec_kv() && h == old(self).spec_map()[key@],
            !old(self).spec_map().contains_key(key@) ==> final(self).spec_kv() == old(
                self,
            ).spec_kv().push((key@, h)),
            final(self).spec_map() == old(self).spec_map().insert(key@, h),
    {
        proof {
            use_type_invariant(&*self);
        }
        let ghost kv0 = self.spec_kv();
        match self.find(&key) {
            Some(i) => {
                proof {
                    lemma_kv_map_at(kv0, i as int);
                    assert(old(self).spec_map().insert(key@, kv0[i as int].1) =~= old(
                        self,
                    ).spec_map());
                }
                arc_clone(&self.entries[i].1)
            },
            None => {
                let conn = make();
                let h = Arc::new(ConnectionCell::new(conn));
                let out = arc_clone(&h);
                let mut es: Vec<(ConnectionKey, Arc<ConnectionCell<C>>)> = Vec::new();
                std::mem::swap(&mut es, &mut self.entries);
                es.push((key, h));
                proof {
                    let newkv = Seq::new(es@.len(), |i: int| (es@[i].0@, es@[i].1));
                    assert(newkv =~= kv0.push((newkv.last().0, newkv.last().1)));
                    lemma_kv_map_domain(kv0, newkv.last().0);
                    assert forall|p: int, q: int|
                        0 <= p < q < newkv.len() implies (#[trigger] newkv[p].0) != (
                    #[trigger] newkv[q].0) by {
                        if q == newkv.len() - 1 {
                            assert(newkv[p] == kv0[p]);
                        }
                    }
                    lemma_kv_map_push(kv0, newkv.last().0, newkv.last().1);
                }
                self.entries = es;
                out
            },
        }
    }

    /// Unconditionally files `handle` under `key`, dropping without closing
    /// whatever handle the key held: callers replacing a live connection
    /// should close it first.
    pub fn insert(&mut self, key: ConnectionKey, handle: Arc<ConnectionCell<C>>)
        ensures
            final(self).spec_map() == old(self).spec_map().insert(key@, handle),
    {
        proof {
            use_type_invariant(&*self);
        }
        let ghost kv0 = self.spec_kv();
        match self.find(&key) {
            Some(i) => {
                let mut es: Vec<(ConnectionKey, Arc<ConnectionCell<C>>)> = Vec::new();
                std::mem::swap(&mut es, &mut self.entries);
                let _old_entry = es.remove(i);
                es.insert(i, (key, handle));
                proof {
                    let newkv = Seq::new(es@.len(), |j: int| (es@[j].0@, es@[j].1));
                    assert(newkv =~= kv0.update(i as int, (kv0[i as int].0, handle)));
                    assert forall|p: int, q: int|
                        0 <= p < q < newkv.len() implies (#[trigger] newkv[p].0) != (
                    #[trigger] newkv[q].0) by {
                        assert(newkv[p].0 == kv0[p].0);
                        assert(newkv[q].0 == kv0[q].0);
                    }
                    crate::store::lemma_kv_map_update(kv0, i as int, handle);
                }
                self.entries = es;
            },
            None => {
                let mut es: Vec<(ConnectionKey, Arc<ConnectionCell<C>>)> = Vec::new();
                std::mem::swap(&mut es, &mut self.entries);
                es.push((key, handle));
                proof {
                    let newkv = Seq::new(es@.len(), |j: int| (es@[j].0@, es@[j].1));
                    assert(newkv =~= kv0.push((newkv.last().0, newkv.last().1)));
                    lemma_kv_map_domain(kv0, newkv.last().0);
                    assert forall|p: int, q: int|
                        0 <= p < q < newkv.len() implies (#[trigger] newkv[p].0) != (
                    #[trigger] newkv[q].0) by {
                        if q == newkv.len() - 1 {
                            assert(newkv[p] == kv0[p]);
                        }
                    }
                    lemma_kv_map_push(kv0, newkv.last().0, newkv.last().1);
                }
                self.entries = es;
            },
        }
    }

    /// Evicts the entry under `key` and closes its connection under that
    /// entry's own lock; other keys are untouched. Hands back the key the
    /// connection reported on closing, or nothing where the key held no
    /// connection.
    pub fn close_connection(&mut self, key: &ConnectionKey) -> (r: Option<ConnectionKey>)
        ensures
            final(self).spec_map() == old(self).spec_map().remove(key@),
            r is Some <==> old(self).spec_map().contains_key(key@),
    {
        proof {
            use_type_invariant(&*self);
        }
        let ghost kv0 = self.spec_kv();
        match self.find(key) {
            Some(i) => {
                proof {
                    lemma_kv_map_at(kv0, i as int);
                }
                let mut es: Vec<(ConnectionKey, Arc<ConnectionCell<C>>)> = Vec::new();
                std::mem::swap(&mut es, &mut self.entries);
                let (_k, h) = es.remove(i);
                proof {
                    let newkv = Seq::new(es@.len(), |j: int| (es@[j].0@, es@[j].1));
                    assert(newkv =~= kv0.remove(i as int));
                    assert forall|p: int, q: int|
                        0 <= p < q < newkv.len() implies (#[trigger] newkv[p].0) != (
                    #[trigger] newkv[q].0) by {
                        if q < i {
                            assert(newkv[p] == kv0[p] && newkv[q] == kv0[q]);
                        } else if p < i {
                            assert(newkv[p] == kv0[p] && newkv[q] == kv0[q + 1]);
                        } else {
                            assert(newkv[p] == kv0[p + 1] && newkv[q] == kv0[q + 1]);
                        }
                    }
                    lemma_map_remove_from_kv(kv0, i as int);
                }
                self.entries = es;
                let reported = h.close();
                Some(reported)
            },
            None => {
                proof {
                    assert(old(self).spec_map().remove(key@) =~= old(self).spec_map());
                }
                None
            },
        }
    }

    /// Closes every connection, each under its own entry's lock, and clears
    /// the cache.
    pub fn close_all_connections(&mut self)
        ensures
            final(self).spec_kv() == Seq::<
                ((Seq<char>, Seq<char>), Arc<ConnectionCell<C>>),
            >::empty(),
            final(self).spec_map() == Map::<
                (Seq<char>, Seq<char>),
                Arc<ConnectionCell<C>>,
            >::empty(),
    {
        proof {
            use_type_invariant(&*self);
        }
        let mut es: Vec<(ConnectionKey, Arc<ConnectionCell<C>>)> = Vec::new();
        std::mem::swap(&mut es, &mut self.entries);
        let mut i: usize = 0;
        while i < es.len()
            decreases es@.len() - i,
        {
            let _reported = es[i].1.close();
            i += 1;
        }
        proof {
            assert(self.spec_kv() =~= Seq::<
                ((Seq<char>, Seq<char>), Arc<ConnectionCell<C>>),
            >::empty());
            assert(self.spec_map() =~= Map::<
                (Seq<char>, Seq<char>),
                Arc<ConnectionCell<C>>,
            >::empty());
        }
    }
}

/// Appending a fresh key files exactly that key in the map view.
proof fn lemma_kv_map_push<K, V>(kv: Seq<(K, V)>, k: K, v: V)
    requires
        !kv_map(kv).contains_key(k),
    ensures
        kv_map(kv.push((k, v))) == kv_map(kv).insert(k, v),
    decreases kv.len(),
{
    let r = kv.push((k, v));
    if kv.len() == 0 {
        assert(r.skip(1) =~= kv);
        assert(kv_map(r) =~= kv_map(kv).insert(k, v));
    } else {
        lemma_kv_map_domain(kv, k);
        lemma_kv_map_domain(kv.skip(1), k);
        if kv_map(kv.skip(1)).contains_key(k) {
            let i = choose|i: int| 0 <= i < kv.skip(1).len() && kv.skip(1)[i].0 == k;
            assert(kv[i + 1] == kv.skip(1)[i]);
        }
        lemma_kv_map_push(kv.skip(1), k, v);
        assert(r.skip(1) =~= kv.skip(1).push((k, v)));
        assert(r[0] == kv[0]);
        assert(kv[0].0 != k);
        assert(kv_map(r) == kv_map(kv.skip(1).push((k, v))).insert(kv[0].0, kv[0].1));
        assert(kv_map(r) =~= kv_map(kv).insert(k, v));
    }
}

/// Once a get-or-create has installed the handle `h` under a fresh `key`,
/// the key maps to `h` and to nothing else, so every later get-or-create of
/// the same key hands `h` back, builds no second connection, and leaves the
/// cache as it stands.
pub proof fn lemma_single_construction<C: Connection>(
    kv0: Seq<((Seq<char>, Seq<char>), Arc<ConnectionCell<C>>)>,
    key: (Seq<char>, Seq<char>),
    h: Arc<ConnectionCell<C>>,
)
    requires
        !kv_map(kv0).contains_key(key),
    ensures
        kv_map(kv0.push((key, h))).contains_key(key),
        kv_map(kv0.push((key, h)))[key] == h,
{
    lemma_kv_map_push(kv0, key, h);
}

/// Closing one key touches no other: after closing `closed_key`, every
/// other key still maps to the very handle it held before.
pub proof fn lemma_close_independence<C: Connection>(
    m: Map<(Seq<char>, Seq<char>), Arc<ConnectionCell<C>>>,
    closed_key: (Seq<char>, Seq<char>),
    other: (Seq<char>, Seq<char>),
)
    requires
        closed_key != other,
    ensures
        m.remove(closed_key).contains_key(other) == m.contains_key(other),
        m.contains_key(other) ==> m.remove(closed_key)[other] == m[other],
{
}

/// The concurrent face of the cache: a registry behind one lock, callable
/// through a shared reference from many threads at once. Each call holds
/// the lock only while it reads or rewrites the keyed set of handles; the
/// work on a connection object itself happens under that entry's own lock,
/// after the registry lock is released, so slow work on one key never
/// blocks another key's callers.
pub struct ConnectionManager<C> {
    state: RwLock<ConnectionRegistry<C>, AnyState>,
}

impl<C: Connection> ConnectionManager<C> {
    pub fn new() -> Self {
        ConnectionManager { state: RwLock::new(ConnectionRegistry::new(), Ghost(AnyState)) }
    }

    /// Non-blocking lookup of the handle under `key`.
    pub fn get(&self, key: &ConnectionKey) -> Option<Arc<ConnectionCell<C>>> {
        let (reg, handle) = self.state.acquire_write();
        let r = reg.get(key);
        handle.release_write(reg);
        r
    }

    /// Hands back the handle under `key`, building the connection with
    /// `make` only where the key holds none: while the registry lock is
    /// held, at most one caller can install a handle under a key, so the
    /// constructor runs for at most one of any set of racing callers.
    pub fn get_or_create<F: FnOnce() -> C>(&self, key: ConnectionKey, make: F) -> Arc<
        ConnectionCell<C>,
    >
        requires
            call_requires(make, ()),
    {
        let (mut reg, handle) = self.state.acquire_write();
        let r = reg.get_or_create(key, make);
        handle.release_write(reg);
        r
    }

    /// Unconditionally files `handle` under `key`; a prior handle is
    /// dropped without being closed.
    pub fn insert(&self, key: ConnectionKey, handle: Arc<ConnectionCell<C>>) {
        let (mut reg, lock_handle) = self.state.acquire_write();
        reg.insert(key, handle);
        lock_handle.release_write(reg);
    }

    /// Evicts and closes the connection under `key`, leaving other keys
    /// untouched; the close itself runs after the registry lock is
    /// released, under the evicted entry's own lock.
    pub fn close_connection(&self, key: &ConnectionKey) -> Option<ConnectionKey> {
        let (mut reg, handle) = self.state.acquire_write();
        let r = reg.close_connection(key);
        handle.release_write(reg);
        r
    }

    /// Explicitly (re)opens the connection under `key` with `params`. The
    /// policy here is to fail loudly: where the key holds no connection,
    /// nothing is built and nothing is returned; where it holds one, the
    /// connection's own open outcome is handed back.
    pub fn open_connection(
        &self,
        key: &ConnectionKey,
        params: &ResolvedConnectionParams,
    ) -> Option<Result<(), String>> {
        match self.get(key) {
            Some(cell) => Some(cell.open(params)),
            None => None,
        }
    }

    /// Closes every connection and clears the cache.
    pub fn close_all_connections(&self) {
        let (mut reg, handle) = self.state.acquire_write();
        reg.close_all_connections();
        handle.release_write(reg);
    }

    /// How many connections the cache holds.
    pub fn len(&self) -> usize {
        let (reg, handle) = self.state.acquire_write();
        let r = reg.len();
        handle.release_write(reg);
        r
    }
}

impl<C: Connection> Default for ConnectionManager<C> {
    /// An empty cache.
    fn default() -> Self {
        ConnectionManager::new()
    }
}

} // verus!
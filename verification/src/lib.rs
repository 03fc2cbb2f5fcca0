//! An inventory of network devices with layered connection configuration,
//! natural-order keyed storage, per-host parameter resolution, and a keyed
//! cache of live connection objects.

pub mod connection;
pub mod inventory;
pub mod natorder;
pub mod store;
pub mod transform;

pub use natorder::{NatString, Rank};
pub use store::CustomTreeMap;

use connection::arc_clone;
use connection::Connection;
use inventory::Host;
use natorder::NatString as Key;
use std::sync::Arc;
use transform::Inventory;
use vstd::prelude::*;

verus! {

/// The views of a list of keys, in order.
spec fn id_views(ids: Seq<Key>) -> Seq<Seq<char>> {
    Seq::new(ids.len(), |j: int| ids[j]@)
}

proof fn lemma_id_views_push_keeps(ids: Seq<Key>, x: Key, v: Seq<char>)
    requires
        id_views(ids).contains(v),
    ensures
        id_views(ids.push(x)).contains(v),
{
    let j = choose|j: int| 0 <= j < id_views(ids).len() && id_views(ids)[j] == v;
    assert(id_views(ids.push(x))[j] == v);
}

/// A runtime over one shared inventory: it scopes work to a list of host
/// ids, and filtering narrows the ids while the inventory stays shared.
pub struct Genja<C: Connection> {
    inventory: Arc<Inventory<C>>,
    host_ids: Arc<Vec<Key>>,
}

impl<C: Connection> Genja<C> {
    /// The shared inventory's hosts, as ordered pairs of name and host.
    pub closed spec fn spec_hosts(&self) -> Seq<(Seq<char>, Host)> {
        self.inventory.hosts.spec_kv()
    }

    /// The host ids in scope, in order.
    pub closed spec fn spec_host_ids(&self) -> Seq<Seq<char>> {
        Seq::new(self.host_ids@.len(), |i: int| self.host_ids@[i]@)
    }

    /// The names of the inventory's hosts, in natural order.
    pub open spec fn spec_names(&self) -> Seq<Seq<char>> {
        Seq::new(self.spec_hosts().len(), |i: int| self.spec_hosts()[i].0)
    }

    /// The inventory's hosts, in natural order of their names.
    pub open spec fn spec_host_values(&self) -> Seq<Host> {
        Seq::new(self.spec_hosts().len(), |i: int| self.spec_hosts()[i].1)
    }

    /// Takes ownership of an inventory and brings every host into scope.
    pub fn new(inventory: Inventory<C>) -> (r: Self)
        ensures
            r.spec_hosts() == inventory.hosts.spec_kv(),
            r.spec_host_ids().len() == inventory.hosts.spec_len(),
            forall|i: int|
                0 <= i < r.spec_host_ids().len() ==> r.spec_host_ids()[i]
                    == inventory.hosts.spec_kv()[i].0,
    {
        let ids = inventory.hosts.names();
        let r = Genja { inventory: Arc::new(inventory), host_ids: Arc::new(ids) };
        proof {
            assert forall|i: int|
                0 <= i < r.spec_host_ids().len() implies r.spec_host_ids()[i]
                == r.spec_hosts()[i].0 by {}
        }
        r
    }

    /// Narrows the scope to the hosts `pred` accepts, sharing the same
    /// inventory: every id kept names a host in it.
    pub fn filter<F: Fn(&Host) -> bool>(&self, pred: F) -> (r: Self)
        requires
            forall|h: &Host| call_requires(pred, (h,)),
        ensures
            r.spec_hosts() == self.spec_hosts(),
            r.spec_host_ids().len() <= self.spec_hosts().len(),
            forall|j: int|
                0 <= j < r.spec_host_ids().len() ==> self.spec_names().contains(
                    #[trigger] r.spec_host_ids()[j],
                ),
            forall|i: int|
                0 <= i < self.spec_hosts().len() && (forall|b: bool|
                    call_ensures(pred, (&(#[trigger] self.spec_hosts()[i]).1,), b) ==> b)
                    ==> r.spec_host_ids().contains(self.spec_hosts()[i].0),
    {
        let mut ids: Vec<Key> = Vec::new();
        let n = self.inventory.hosts.len();
        let mut i: usize = 0;
        while i < n
            invariant
                i <= n,
                n == self.spec_hosts().len(),
                self.inventory.hosts.spec_kv() == self.spec_hosts(),
                forall|h: &Host| call_requires(pred, (h,)),
                ids@.len() <= i,
                forall|j: int|
                    0 <= j < ids@.len() ==> self.spec_names().contains((#[trigger] ids@[j])@),
                forall|k: int|
                    0 <= k < i && (forall|b: bool|
                        call_ensures(pred, (&(#[trigger] self.spec_hosts()[k]).1,), b) ==> b)
                        ==> id_views(ids@).contains(self.spec_hosts()[k].0),
            decreases n - i,
        {
            let host = self.inventory.hosts.host_at(i);
            if pred(host) {
                let id = self.inventory.hosts.name_at(i).clone();
                let ghost before = ids@;
                ids.push(id);
                proof {
                    assert forall|j: int| 0 <= j < ids@.len() implies self.spec_names().contains(
                        (#[trigger] ids@[j])@,
                    ) by {
                        if j < before.len() {
                            assert(ids@[j] == before[j]);
                        } else {
                            assert(self.spec_names()[i as int] == ids@[j]@);
                        }
                    }
                    assert forall|k: int|
                        0 <= k < i + 1 && (forall|b: bool|
                            call_ensures(pred, (&(#[trigger] self.spec_hosts()[k]).1,), b)
                                ==> b) implies id_views(ids@).contains(self.spec_hosts()[k].0) by {
                        if k < i {
                            lemma_id_views_push_keeps(before, ids@.last(), self.spec_hosts()[k].0);
                        } else {
                            assert(id_views(ids@)[ids@.len() - 1] == self.spec_hosts()[k].0);
                        }
                    }
                }
            } else {
                proof {
                    assert forall|k: int|
                        0 <= k < i + 1 && (forall|b: bool|
                            call_ensures(pred, (&(#[trigger] self.spec_hosts()[k]).1,), b)
                                ==> b) implies id_views(ids@).contains(self.spec_hosts()[k].0) by {
                        if k == i {
                            assert(call_ensures(pred, (&self.spec_hosts()[i as int].1,), false));
                        }
                    }
                }
            }
            i += 1;
        }
        let r = Genja { inventory: arc_clone(&self.inventory), host_ids: Arc::new(ids) };
        proof {
            assert forall|j: int|
                0 <= j < r.spec_host_ids().len() implies self.spec_names().contains(
                #[trigger] r.spec_host_ids()[j],
            ) by {
                assert(r.spec_host_ids()[j] == ids@[j]@);
            }
            assert(r.spec_host_ids() =~= id_views(ids@));
        }
        r
    }

    /// The hosts in scope, in id order, each looked up in the inventory:
    /// ids that name no host are passed over, and where every id does name
    /// one, each id's own host comes back at its position.
    pub fn iter_hosts(&self) -> (r: Vec<&Host>)
        ensures
            r@.len() <= self.spec_host_ids().len(),
            forall|j: int|
                0 <= j < r@.len() ==> self.spec_host_values().contains(*(#[trigger] r@[j])),
            (forall|j: int|
                0 <= j < self.spec_host_ids().len() ==> self.spec_names().contains(
                    #[trigger] self.spec_host_ids()[j],
                )) ==> r@.len() == self.spec_host_ids().len() && (forall|j: int|
                0 <= j < r@.len() ==> *(#[trigger] r@[j]) == crate::store::kv_map(
                    self.spec_hosts(),
                )[self.spec_host_ids()[j]]),
    {
        let mut hosts: Vec<&Host> = Vec::new();
        let m = self.host_ids.len();
        let mut i: usize = 0;
        while i < m
            invariant
                i <= m,
                m == self.host_ids@.len(),
                self.inventory.hosts.spec_kv() == self.spec_hosts(),
                hosts@.len() <= i,
                forall|j: int|
                    0 <= j < hosts@.len() ==> self.spec_host_values().contains(
                        *(#[trigger] hosts@[j]),
                    ),
                (forall|j: int|
                    0 <= j < i ==> self.spec_names().contains(
                        #[trigger] self.spec_host_ids()[j],
                    )) ==> hosts@.len() == i && (forall|j: int|
                    0 <= j < i ==> *(#[trigger] hosts@[j]) == crate::store::kv_map(
                        self.spec_hosts(),
                    )[self.spec_host_ids()[j]]),
            decreases m - i,
        {
            let id = &self.host_ids[i];
            proof {
                assert(id@ == self.spec_host_ids()[i as int]);
            }
            match self.inventory.hosts.get(id.as_str()) {
                Some(h) => {
                    let ghost before = hosts@;
                    hosts.push(h);
                    proof {
                        let k = choose|k: int|
                            0 <= k < self.inventory.hosts.spec_kv().len()
                                && #[trigger] self.inventory.hosts.spec_kv()[k] == (id@, *h);
                        assert forall|j: int|
                            0 <= j < hosts@.len() implies self.spec_host_values().contains(
                            *(#[trigger] hosts@[j]),
                        ) by {
                            if j < before.len() {
                                assert(hosts@[j] == before[j]);
                            } else {
                                assert(self.spec_host_values()[k] == *hosts@[j]);
                            }
                        }
                        if forall|j: int|
                            0 <= j < i + 1 ==> self.spec_names().contains(
                                #[trigger] self.spec_host_ids()[j],
                            ) {
                            assert(hosts@.len() == i + 1);
                            assert forall|j: int|
                                0 <= j < i + 1 implies *(#[trigger] hosts@[j])
                                == crate::store::kv_map(self.spec_hosts())[
                                self.spec_host_ids()[j]] by {
                                if j < before.len() {
                                    assert(hosts@[j] == before[j]);
                                }
                            }
                        }
                    }
                },
                None => {
                    proof {
                        crate::store::lemma_kv_map_domain(self.spec_hosts(), id@);
                        assert(!self.spec_names().contains(self.spec_host_ids()[i as int])) by {
                            if self.spec_names().contains(self.spec_host_ids()[i as int]) {
                                let k = choose|k: int|
                                    0 <= k < self.spec_names().len() && self.spec_names()[k]
                                        == self.spec_host_ids()[i as int];
                                assert(self.spec_hosts()[k].0 == id@);
                            }
                        }
                    }
                },
            }
            i += 1;
        }
        hosts
    }

    /// Every host of the inventory with its id, in natural order.
    pub fn iter_all_hosts(&self) -> (r: Vec<(&Key, &Host)>)
        ensures
            r@.len() == self.spec_hosts().len(),
            forall|i: int|
                0 <= i < r@.len() ==> (#[trigger] r@[i]).0@ == self.spec_hosts()[i].0 && *r@[i].1
                    == self.spec_hosts()[i].1,
    {
        let mut out: Vec<(&Key, &Host)> = Vec::new();
        let n = self.inventory.hosts.len();
        let mut i: usize = 0;
        while i < n
            invariant
                i <= n,
                n == self.spec_hosts().len(),
                self.inventory.hosts.spec_kv() == self.spec_hosts(),
                out@.len() == i,
                forall|j: int|
                    0 <= j < i ==> (#[trigger] out@[j]).0@ == self.spec_hosts()[j].0 && *out@[j].1
                        == self.spec_hosts()[j].1,
            decreases n - i,
        {
            let k = self.inventory.hosts.name_at(i);
            let h = self.inventory.hosts.host_at(i);
            out.push((k, h));
            i += 1;
        }
        out
    }

    /// How many hosts are in scope.
    pub fn host_count(&self) -> (n: usize)
        ensures
            n == self.spec_host_ids().len(),
    {
        self.host_ids.len()
    }
}

} // verus!
//! An ordered associative store keyed by strings in natural order.
//!
//! The map is held as a vector of pairs whose keys ascend strictly in the
//! natural order, so iteration yields keys in that order and every key is
//! unique. Reads of absent keys return nothing; writes of present keys
//! overwrite the value in place.

use crate::natorder::{
    lemma_nat_cmp_eq_iff, lemma_nat_cmp_flip, lemma_nat_cmp_trans, nat_cmp, nat_lt,
    natural_compare, NatString, Rank,
};
use vstd::prelude::*;

verus! {

/// Keys ascend strictly between neighbours.
pub open spec fn kv_sorted<V>(kv: Seq<(Seq<char>, V)>) -> bool {
    forall|i: int| 0 <= i && i + 1 < kv.len() ==> nat_lt(#[trigger] kv[i].0, kv[i + 1].0)
}

/// The pair sequence after writing `v` under `k`: an existing entry for `k`
/// is overwritten in place, a new entry enters at its sorted position.
pub open spec fn kv_insert<V>(kv: Seq<(Seq<char>, V)>, k: Seq<char>, v: V) -> Seq<(Seq<char>, V)>
    decreases kv.len(),
{
    if kv.len() == 0 {
        seq![(k, v)]
    } else if nat_cmp(k, kv[0].0) == Rank::Less {
        seq![(k, v)] + kv
    } else if nat_cmp(k, kv[0].0) == Rank::Equal {
        seq![(k, v)] + kv.skip(1)
    } else {
        seq![kv[0]] + kv_insert(kv.skip(1), k, v)
    }
}

/// The pair sequence with the first entry keyed `k`, if any, taken out.
pub open spec fn kv_remove<V>(kv: Seq<(Seq<char>, V)>, k: Seq<char>) -> Seq<(Seq<char>, V)>
    decreases kv.len(),
{
    if kv.len() == 0 {
        kv
    } else if kv[0].0 == k {
        kv.skip(1)
    } else {
        seq![kv[0]] + kv_remove(kv.skip(1), k)
    }
}

/// The pair sequence read as a map; an earlier entry wins over a later one
/// under the same key (key-distinct sequences never hold such a pair).
pub open spec fn kv_map<K, V>(kv: Seq<(K, V)>) -> Map<K, V>
    decreases kv.len(),
{
    if kv.len() == 0 {
        Map::empty()
    } else {
        kv_map(kv.skip(1)).insert(kv[0].0, kv[0].1)
    }
}

proof fn lemma_kv_sorted_skip<V>(kv: Seq<(Seq<char>, V)>)
    requires
        kv_sorted(kv),
        kv.len() > 0,
    ensures
        kv_sorted(kv.skip(1)),
{
    assert forall|i: int| 0 <= i && i + 1 < kv.skip(1).len() implies nat_lt(
        #[trigger] kv.skip(1)[i].0,
        kv.skip(1)[i + 1].0,
    ) by {
        assert(kv.skip(1)[i] == kv[i + 1]);
        assert(kv.skip(1)[i + 1] == kv[i + 2]);
    }
}

/// In a sorted sequence every earlier key sorts before every later one.
proof fn lemma_kv_sorted_chain<V>(kv: Seq<(Seq<char>, V)>, i: int, j: int)
    requires
        kv_sorted(kv),
        0 <= i < j < kv.len(),
    ensures
        nat_lt(kv[i].0, kv[j].0),
    decreases j - i,
{
    if j == i + 1 {
    } else {
        lemma_kv_sorted_chain(kv, i, j - 1);
        lemma_nat_cmp_trans(kv[i].0, kv[j - 1].0, kv[j].0);
    }
}

/// A key is in the map view exactly when some entry holds it.
pub proof fn lemma_kv_map_domain<K, V>(kv: Seq<(K, V)>, k: K)
    ensures
        kv_map(kv).contains_key(k) <==> exists|i: int| 0 <= i < kv.len() && kv[i].0 == k,
    decreases kv.len(),
{
    if kv.len() > 0 {
        lemma_kv_map_domain(kv.skip(1), k);
        if kv_map(kv).contains_key(k) {
            if kv[0].0 != k {
                let i = choose|i: int| 0 <= i < kv.skip(1).len() && kv.skip(1)[i].0 == k;
                assert(kv[i + 1] == kv.skip(1)[i]);
            }
        }
        if exists|i: int| 0 <= i < kv.len() && kv[i].0 == k {
            let i = choose|i: int| 0 <= i < kv.len() && kv[i].0 == k;
            if i > 0 {
                assert(kv.skip(1)[i - 1] == kv[i]);
            }
        }
    }
}

/// With distinct keys, the map view reads each entry's own value.
pub proof fn lemma_kv_map_at<K, V>(kv: Seq<(K, V)>, i: int)
    requires
        0 <= i < kv.len(),
        forall|p: int, q: int| 0 <= p < q < kv.len() ==> kv[p].0 != kv[q].0,
    ensures
        kv_map(kv).contains_key(kv[i].0),
        kv_map(kv)[kv[i].0] == kv[i].1,
    decreases kv.len(),
{
    if i == 0 {
    } else {
        assert(kv.skip(1)[i - 1] == kv[i]);
        assert forall|p: int, q: int| 0 <= p < q < kv.skip(1).len() implies kv.skip(1)[p].0
            != kv.skip(1)[q].0 by {
            assert(kv.skip(1)[p] == kv[p + 1]);
            assert(kv.skip(1)[q] == kv[q + 1]);
        }
        lemma_kv_map_at(kv.skip(1), i - 1);
        assert(kv[0].0 != kv[i].0);
    }
}

/// Sorted keys are pairwise distinct.
proof fn lemma_kv_sorted_distinct<V>(kv: Seq<(Seq<char>, V)>)
    requires
        kv_sorted(kv),
    ensures
        forall|p: int, q: int| 0 <= p < q < kv.len() ==> kv[p].0 != kv[q].0,
{
    assert forall|p: int, q: int| 0 <= p < q < kv.len() implies kv[p].0 != kv[q].0 by {
        lemma_kv_sorted_chain(kv, p, q);
        lemma_nat_cmp_eq_iff(kv[p].0, kv[q].0);
    }
}

/// Writing under `k` is, at the pair level, an update or an insertion at the
/// position `idx` where the scan for `k` stops.
proof fn lemma_kv_insert_at<V>(kv: Seq<(Seq<char>, V)>, k: Seq<char>, v: V, idx: int)
    requires
        0 <= idx <= kv.len(),
        forall|i: int| 0 <= i < idx ==> nat_cmp(k, kv[i].0) == Rank::Greater,
        idx < kv.len() ==> nat_cmp(k, kv[idx].0) != Rank::Greater,
    ensures
        idx < kv.len() && nat_cmp(k, kv[idx].0) == Rank::Equal ==> kv_insert(kv, k, v) == kv.update(
            idx,
            (k, v),
        ),
        idx == kv.len() || nat_cmp(k, kv[idx].0) == Rank::Less ==> kv_insert(kv, k, v)
            == kv.insert(idx, (k, v)),
    decreases kv.len(),
{
    if idx == 0 {
        if kv.len() == 0 {
            assert(kv_insert(kv, k, v) =~= kv.insert(0, (k, v)));
        } else if nat_cmp(k, kv[0].0) == Rank::Less {
            assert(seq![(k, v)] + kv =~= kv.insert(0, (k, v)));
        } else {
            assert(nat_cmp(k, kv[0].0) == Rank::Equal);
            assert(seq![(k, v)] + kv.skip(1) =~= kv.update(0, (k, v)));
        }
    } else {
        assert(nat_cmp(k, kv[0].0) == Rank::Greater);
        assert forall|i: int| 0 <= i < idx - 1 implies nat_cmp(k, kv.skip(1)[i].0)
            == Rank::Greater by {
            assert(kv.skip(1)[i] == kv[i + 1]);
        }
        if idx - 1 < kv.skip(1).len() {
            assert(kv.skip(1)[idx - 1] == kv[idx]);
        }
        lemma_kv_insert_at(kv.skip(1), k, v, idx - 1);
        if idx < kv.len() && nat_cmp(k, kv[idx].0) == Rank::Equal {
            assert(seq![kv[0]] + kv.skip(1).update(idx - 1, (k, v)) =~= kv.update(idx, (k, v)));
        } else {
            assert(seq![kv[0]] + kv.skip(1).insert(idx - 1, (k, v)) =~= kv.insert(idx, (k, v)));
        }
    }
}

/// Writing grows the store by one entry exactly when the key was absent.
proof fn lemma_kv_insert_len<V>(kv: Seq<(Seq<char>, V)>, k: Seq<char>, v: V)
    requires
        kv_sorted(kv),
    ensures
        kv_insert(kv, k, v).len() == kv.len() + (if kv_map(kv).contains_key(k) {
            0int
        } else {
            1int
        }),
    decreases kv.len(),
{
    lemma_kv_map_domain(kv, k);
    if kv.len() == 0 {
    } else if nat_cmp(k, kv[0].0) == Rank::Less {
        assert forall|i: int| 0 <= i < kv.len() implies kv[i].0 != k by {
            if i > 0 {
                lemma_kv_sorted_chain(kv, 0, i);
                lemma_nat_cmp_trans(k, kv[0].0, kv[i].0);
            }
            lemma_nat_cmp_eq_iff(k, kv[i].0);
        }
    } else if nat_cmp(k, kv[0].0) == Rank::Equal {
        lemma_nat_cmp_eq_iff(k, kv[0].0);
    } else {
        lemma_nat_cmp_eq_iff(k, kv[0].0);
        lemma_kv_sorted_skip(kv);
        lemma_kv_insert_len(kv.skip(1), k, v);
        lemma_kv_map_domain(kv.skip(1), k);
        if kv_map(kv).contains_key(k) {
            let i = choose|i: int| 0 <= i < kv.len() && kv[i].0 == k;
            assert(i > 0);
            assert(kv.skip(1)[i - 1] == kv[i]);
        }
        if kv_map(kv.skip(1)).contains_key(k) {
            let i = choose|i: int| 0 <= i < kv.skip(1).len() && kv.skip(1)[i].0 == k;
            assert(kv[i + 1] == kv.skip(1)[i]);
        }
    }
}

/// Writing keeps the keys sorted.
proof fn lemma_kv_insert_sorted<V>(kv: Seq<(Seq<char>, V)>, k: Seq<char>, v: V)
    requires
        kv_sorted(kv),
    ensures
        kv_sorted(kv_insert(kv, k, v)),
    decreases kv.len(),
{
    let r = kv_insert(kv, k, v);
    if kv.len() == 0 {
    } else if nat_cmp(k, kv[0].0) == Rank::Less {
        assert forall|i: int| 0 <= i && i + 1 < r.len() implies nat_lt(#[trigger] r[i].0, r[i + 1].0) by {
            if i > 0 {
                assert(r[i] == kv[i - 1]);
                assert(r[i + 1] == kv[i]);
            }
        }
    } else if nat_cmp(k, kv[0].0) == Rank::Equal {
        lemma_nat_cmp_eq_iff(k, kv[0].0);
        assert forall|i: int| 0 <= i && i + 1 < r.len() implies nat_lt(#[trigger] r[i].0, r[i + 1].0) by {
            assert(r[i + 1] == kv[i + 1]);
            if i > 0 {
                assert(r[i] == kv[i]);
            }
        }
    } else {
        lemma_kv_sorted_skip(kv);
        lemma_kv_insert_sorted(kv.skip(1), k, v);
        let t = kv_insert(kv.skip(1), k, v);
        assert(nat_lt(kv[0].0, k)) by {
            lemma_nat_cmp_flip(k, kv[0].0);
        }
        assert(t.len() > 0);
        assert(nat_lt(kv[0].0, t[0].0)) by {
            if kv.skip(1).len() == 0 {
                assert(t[0] == (k, v));
            } else if nat_cmp(k, kv.skip(1)[0].0) == Rank::Less {
                assert(t[0] == (k, v));
            } else if nat_cmp(k, kv.skip(1)[0].0) == Rank::Equal {
                assert(t[0] == (k, v));
            } else {
                assert(t[0] == kv.skip(1)[0]);
                assert(kv.skip(1)[0] == kv[1]);
            }
        }
        assert forall|i: int| 0 <= i && i + 1 < r.len() implies nat_lt(#[trigger] r[i].0, r[i + 1].0) by {
            if i == 0 {
                assert(r[0] == kv[0]);
                assert(r[1] == t[0]);
            } else {
                assert(r[i] == t[i - 1]);
                assert(r[i + 1] == t[i]);
            }
        }
    }
}

/// Writing under `k` updates the map view at `k` and nothing else.
proof fn lemma_kv_insert_map<V>(kv: Seq<(Seq<char>, V)>, k: Seq<char>, v: V)
    ensures
        kv_map(kv_insert(kv, k, v)) == kv_map(kv).insert(k, v),
    decreases kv.len(),
{
    let r = kv_insert(kv, k, v);
    if kv.len() == 0 {
        assert(r.skip(1) =~= kv);
        assert(kv_map(r) =~= kv_map(kv).insert(k, v));
    } else if nat_cmp(k, kv[0].0) == Rank::Less {
        assert(r.skip(1) =~= kv);
        assert(r[0] == (k, v));
        assert(kv_map(r) =~= kv_map(kv).insert(k, v));
    } else if nat_cmp(k, kv[0].0) == Rank::Equal {
        lemma_nat_cmp_eq_iff(k, kv[0].0);
        assert(r.skip(1) =~= kv.skip(1));
        assert(r[0] == (k, v));
        assert(kv_map(r) == kv_map(kv.skip(1)).insert(k, v));
        assert(kv_map(kv) == kv_map(kv.skip(1)).insert(kv[0].0, kv[0].1));
        assert(kv_map(r) =~= kv_map(kv).insert(k, v));
    } else {
        lemma_nat_cmp_eq_iff(k, kv[0].0);
        lemma_kv_insert_map(kv.skip(1), k, v);
        let t = kv_insert(kv.skip(1), k, v);
        assert(r[0] == kv[0]);
        assert(r.skip(1) =~= t);
        assert(kv_map(r) == kv_map(t).insert(kv[0].0, kv[0].1));
        assert(k != kv[0].0);
        assert(kv_map(r) =~= kv_map(kv).insert(k, v));
    }
}

/// Taking a key out that no entry holds changes nothing.
proof fn lemma_kv_remove_noop<V>(kv: Seq<(Seq<char>, V)>, k: Seq<char>)
    requires
        forall|i: int| 0 <= i < kv.len() ==> kv[i].0 != k,
    ensures
        kv_remove(kv, k) == kv,
    decreases kv.len(),
{
    if kv.len() > 0 {
        assert forall|i: int| 0 <= i < kv.skip(1).len() implies kv.skip(1)[i].0 != k by {
            assert(kv.skip(1)[i] == kv[i + 1]);
        }
        lemma_kv_remove_noop(kv.skip(1), k);
        assert(seq![kv[0]] + kv.skip(1) =~= kv);
    }
}

/// Taking out the entry at `idx`, the first one keyed `k`, drops that index.
proof fn lemma_kv_remove_at<V>(kv: Seq<(Seq<char>, V)>, k: Seq<char>, idx: int)
    requires
        0 <= idx < kv.len(),
        kv[idx].0 == k,
        forall|i: int| 0 <= i < idx ==> kv[i].0 != k,
    ensures
        kv_remove(kv, k) == kv.remove(idx),
    decreases kv.len(),
{
    if idx == 0 {
        assert(kv.skip(1) =~= kv.remove(0));
    } else {
        assert(kv.skip(1)[idx - 1] == kv[idx]);
        assert forall|i: int| 0 <= i < idx - 1 implies kv.skip(1)[i].0 != k by {
            assert(kv.skip(1)[i] == kv[i + 1]);
        }
        lemma_kv_remove_at(kv.skip(1), k, idx - 1);
        assert(seq![kv[0]] + kv.skip(1).remove(idx - 1) =~= kv.remove(idx));
    }
}

/// Dropping an index keeps the keys sorted.
proof fn lemma_kv_remove_sorted<V>(kv: Seq<(Seq<char>, V)>, idx: int)
    requires
        kv_sorted(kv),
        0 <= idx < kv.len(),
    ensures
        kv_sorted(kv.remove(idx)),
{
    let r = kv.remove(idx);
    assert forall|i: int| 0 <= i && i + 1 < r.len() implies nat_lt(#[trigger] r[i].0, r[i + 1].0) by {
        if i + 1 < idx {
            assert(r[i] == kv[i] && r[i + 1] == kv[i + 1]);
        } else if i + 1 == idx {
            assert(r[i] == kv[i] && r[i + 1] == kv[i + 2]);
            lemma_kv_sorted_chain(kv, i, i + 2);
        } else {
            assert(r[i] == kv[i + 1] && r[i + 1] == kv[i + 2]);
        }
    }
}

/// A sorted associative store: string keys in ascending natural order, one
/// value per key.
#[derive(Debug, PartialEq, Eq)]
pub struct CustomTreeMap<V> {
    entries: Vec<(NatString, V)>,
}

impl<V> CustomTreeMap<V> {
    /// The pairs the store holds, keys ascending in natural order.
    pub closed spec fn spec_kv(&self) -> Seq<(Seq<char>, V)> {
        Seq::new(self.entries@.len(), |i: int| (self.entries@[i].0@, self.entries@[i].1))
    }

    /// The store read as a map from key to value.
    pub open spec fn spec_map(&self) -> Map<Seq<char>, V> {
        kv_map(self.spec_kv())
    }

    /// The keys in the order iteration yields them.
    pub open spec fn spec_keys(&self) -> Seq<Seq<char>> {
        Seq::new(self.spec_kv().len(), |i: int| self.spec_kv()[i].0)
    }

    pub open spec fn spec_len(&self) -> nat {
        self.spec_kv().len()
    }

    pub open spec fn spec_contains(&self, k: Seq<char>) -> bool {
        self.spec_map().contains_key(k)
    }

    #[verifier::type_invariant]
    closed spec fn wf(self) -> bool {
        kv_sorted(self.spec_kv())
    }


    pub fn new() -> (r: Self)
        ensures
            r.spec_kv() == Seq::<(Seq<char>, V)>::empty(),
    {
        let r = CustomTreeMap { entries: Vec::new() };
        proof {
            assert(r.spec_kv() =~= Seq::<(Seq<char>, V)>::empty());
        }
        r
    }

    pub fn len(&self) -> (n: usize)
        ensures
            n == self.spec_len(),
    {
        self.entries.len()
    }

    pub fn is_empty(&self) -> (b: bool)
        ensures
            b == (self.spec_len() == 0),
    {
        self.entries.len() == 0
    }

    /// Index of the first entry whose key does not sort before `key`, found
    /// by binary search over the sorted keys.
    fn scan_position(v: &Vec<(NatString, V)>, key: &str) -> (idx: usize)
        requires
            kv_sorted(Seq::new(v@.len(), |i: int| (v@[i].0@, v@[i].1))),
        ensures
            idx <= v@.len(),
            forall|i: int| 0 <= i < idx ==> nat_cmp(key@, #[trigger] v@[i].0@) == Rank::Greater,
            idx < v@.len() ==> nat_cmp(key@, v@[idx as int].0@) != Rank::Greater,
    {
        let ghost kv = Seq::new(v@.len(), |i: int| (v@[i].0@, v@[i].1));
        let mut lo: usize = 0;
        let mut hi: usize = v.len();
        while lo < hi
            invariant
                lo <= hi <= v@.len(),
                kv == Seq::new(v@.len(), |i: int| (v@[i].0@, v@[i].1)),
                kv_sorted(kv),
                forall|i: int| 0 <= i < lo ==> nat_cmp(key@, #[trigger] v@[i].0@)
                    == Rank::Greater,
                forall|i: int| hi <= i < v@.len() ==> nat_cmp(key@, #[trigger] v@[i].0@)
                    != Rank::Greater,
            decreases hi - lo,
        {
            let mid = lo + (hi - lo) / 2;
            let c = natural_compare(key, v[mid].0.as_str());
            if c == Rank::Greater {
                proof {
                    assert forall|i: int| 0 <= i < mid + 1 implies nat_cmp(
                        key@,
                        #[trigger] v@[i].0@,
                    ) == Rank::Greater by {
                        if i < mid {
                            lemma_kv_sorted_chain(kv, i, mid as int);
                            lemma_nat_cmp_flip(key@, v@[mid as int].0@);
                            lemma_nat_cmp_flip(kv[i].0, key@);
                            lemma_nat_cmp_trans(kv[i].0, kv[mid as int].0, key@);
                        }
                    }
                }
                lo = mid + 1;
            } else {
                proof {
                    assert forall|i: int| mid <= i < v@.len() implies nat_cmp(
                        key@,
                        #[trigger] v@[i].0@,
                    ) != Rank::Greater by {
                        if i > mid {
                            lemma_kv_sorted_chain(kv, mid as int, i);
                            if c == Rank::Equal {
                                lemma_nat_cmp_eq_iff(key@, kv[mid as int].0);
                                assert(nat_lt(key@, kv[i].0));
                            } else {
                                lemma_nat_cmp_trans(key@, kv[mid as int].0, kv[i].0);
                            }
                            lemma_nat_cmp_flip(key@, kv[i].0);
                            assert(nat_cmp(key@, kv[i].0) == Rank::Less);
                        }
                    }
                }
                hi = mid;
            }
        }
        lo
    }

    /// Writes `value` under `key`, overwriting an entry already keyed `key`.
    #[verifier::rlimit(60)]
    pub fn insert(&mut self, key: &str, value: V)
        ensures
            final(self).spec_kv() == kv_insert(old(self).spec_kv(), key@, value),
            final(self).spec_map() == old(self).spec_map().insert(key@, value),
            final(self).spec_len() == old(self).spec_len() + (if old(self).spec_contains(key@) {
                0int
            } else {
                1int
            }),
    {
        proof {
            use_type_invariant(&*self);
        }
        let ghost kv0 = self.spec_kv();
        let idx = Self::scan_position(&self.entries, key);
        proof {
            lemma_kv_insert_at(kv0, key@, value, idx as int);
            lemma_kv_insert_sorted(kv0, key@, value);
            lemma_kv_insert_map(kv0, key@, value);
            lemma_kv_insert_len(kv0, key@, value);
        }
        let mut es: Vec<(NatString, V)> = Vec::new();
        std::mem::swap(&mut es, &mut self.entries);
        if idx < es.len() {
            let c = natural_compare(key, es[idx].0.as_str());
            if c == Rank::Equal {
                es.set(idx, (NatString::new(key.to_owned()), value));
                proof {
                    let newkv = Seq::new(es@.len(), |i: int| (es@[i].0@, es@[i].1));
                    assert(newkv =~= kv0.update(idx as int, (key@, value)));
                    assert(kv_sorted(newkv));
                }
                self.entries = es;
                return ;
            }
        }
        es.insert(idx, (NatString::new(key.to_owned()), value));
        proof {
            let newkv = Seq::new(es@.len(), |i: int| (es@[i].0@, es@[i].1));
            assert(newkv =~= kv0.insert(idx as int, (key@, value)));
            assert(kv_sorted(newkv));
        }
        self.entries = es;
    }

    /// Reads the value under `key`, if one is held.
    pub fn get(&self, key: &str) -> (r: Option<&V>)
        ensures
            match r {
                Some(v) => self.spec_contains(key@) && *v == self.spec_map()[key@] && exists|i: int|
                    0 <= i < self.spec_kv().len() && #[trigger] self.spec_kv()[i] == (key@, *v),
                None => !self.spec_contains(key@),
            },
    {
        proof {
            use_type_invariant(self);
        }
        let ghost kv0 = self.spec_kv();
        let idx = Self::scan_position(&self.entries, key);
        proof {
            lemma_kv_sorted_distinct(kv0);
            lemma_kv_map_domain(kv0, key@);
        }
        if idx < self.entries.len() {
            let c = natural_compare(key, self.entries[idx].0.as_str());
            if c == Rank::Equal {
                proof {
                    lemma_nat_cmp_eq_iff(key@, kv0[idx as int].0);
                    lemma_kv_map_at(kv0, idx as int);
                }
                return Some(&self.entries[idx].1);
            }
        }
        proof {
            assert forall|i: int| 0 <= i < kv0.len() implies kv0[i].0 != key@ by {
                lemma_nat_cmp_eq_iff(key@, kv0[i].0);
                if i < idx {
                } else if i == idx {
                } else {
                    lemma_kv_sorted_chain(kv0, idx as int, i);
                    lemma_nat_cmp_trans(key@, kv0[idx as int].0, kv0[i].0);
                }
            }
        }
        None
    }

    /// Takes the entry under `key` out and hands its value back.
    #[verifier::rlimit(60)]
    pub fn remove(&mut self, key: &str) -> (r: Option<V>)
        ensures
            final(self).spec_kv() == kv_remove(old(self).spec_kv(), key@),
            final(self).spec_map() == old(self).spec_map().remove(key@),
            match r {
                Some(v) => old(self).spec_contains(key@) && v == old(self).spec_map()[key@],
                None => !old(self).spec_contains(key@) && *final(self) == *old(self),
            },
    {
        proof {
            use_type_invariant(&*self);
        }
        let ghost kv0 = self.spec_kv();
        let idx = Self::scan_position(&self.entries, key);
        proof {
            lemma_kv_sorted_distinct(kv0);
            lemma_kv_map_domain(kv0, key@);
        }
        if idx < self.entries.len() {
            let c = natural_compare(key, self.entries[idx].0.as_str());
            if c == Rank::Equal {
                proof {
                    lemma_nat_cmp_eq_iff(key@, kv0[idx as int].0);
                    lemma_kv_map_at(kv0, idx as int);
                    assert forall|i: int| 0 <= i < idx implies kv0[i].0 != key@ by {
                        lemma_nat_cmp_eq_iff(key@, kv0[i].0);
                    }
                    lemma_kv_remove_at(kv0, key@, idx as int);
                    lemma_kv_remove_sorted(kv0, idx as int);
                }
                let mut es: Vec<(NatString, V)> = Vec::new();
                std::mem::swap(&mut es, &mut self.entries);
                let (_k, v) = es.remove(idx);
                proof {
                    let newkv = Seq::new(es@.len(), |i: int| (es@[i].0@, es@[i].1));
                    assert(newkv =~= kv0.remove(idx as int));
                    assert(kv_sorted(newkv));
                    lemma_map_remove_from_kv(kv0, idx as int);
                }
                self.entries = es;
                return Some(v);
            }
        }
        proof {
            assert forall|i: int| 0 <= i < kv0.len() implies kv0[i].0 != key@ by {
                lemma_nat_cmp_eq_iff(key@, kv0[i].0);
                if i > idx {
                    lemma_kv_sorted_chain(kv0, idx as int, i);
                    lemma_nat_cmp_trans(key@, kv0[idx as int].0, kv0[i].0);
                }
            }
            lemma_kv_remove_noop(kv0, key@);
            assert(self.spec_map() =~= self.spec_map().remove(key@));
        }
        None
    }

    /// Swaps in a new value at position `i`, keeping the key and the order,
    /// and hands the old value back.
    #[verifier::rlimit(60)]
    pub fn replace_value_at(&mut self, i: usize, value: V) -> (w: V)
        requires
            i < old(self).spec_len(),
        ensures
            final(self).spec_kv() == old(self).spec_kv().update(
                i as int,
                (old(self).spec_kv()[i as int].0, value),
            ),
            final(self).spec_map() == old(self).spec_map().insert(
                old(self).spec_kv()[i as int].0,
                value,
            ),
            w == old(self).spec_kv()[i as int].1,
    {
        proof {
            use_type_invariant(&*self);
        }
        let ghost kv0 = self.spec_kv();
        let mut es: Vec<(NatString, V)> = Vec::new();
        std::mem::swap(&mut es, &mut self.entries);
        let (k, w) = es.remove(i);
        es.insert(i, (k, value));
        proof {
            let newkv = Seq::new(es@.len(), |j: int| (es@[j].0@, es@[j].1));
            assert(newkv =~= kv0.update(i as int, (kv0[i as int].0, value)));
            assert forall|j: int| 0 <= j < newkv.len() implies newkv[j].0 == kv0[j].0 by {}
            assert(kv_sorted(newkv));
            lemma_kv_sorted_distinct(kv0);
            lemma_kv_map_update(kv0, i as int, value);
        }
        self.entries = es;
        w
    }

    /// The key at position `i` in iteration order.
    pub fn key_at(&self, i: usize) -> (k: &NatString)
        requires
            i < self.spec_len(),
        ensures
            k@ == self.spec_keys()[i as int],
    {
        &self.entries[i].0
    }

    /// The value at position `i` in iteration order.
    pub fn value_at(&self, i: usize) -> (v: &V)
        requires
            i < self.spec_len(),
        ensures
            *v == self.spec_kv()[i as int].1,
    {
        &self.entries[i].1
    }

    /// All keys, in iteration order.
    pub fn keys(&self) -> (r: Vec<NatString>)
        ensures
            r@.len() == self.spec_len(),
            forall|i: int| 0 <= i < r@.len() ==> r@[i]@ == self.spec_keys()[i],
    {
        let mut r: Vec<NatString> = Vec::new();
        let mut i: usize = 0;
        while i < self.entries.len()
            invariant
                i <= self.entries@.len(),
                self.entries@.len() == self.spec_len(),
                r@.len() == i,
                forall|j: int| 0 <= j < i ==> r@[j]@ == self.spec_keys()[j],
            decreases self.entries@.len() - i,
        {
            r.push(self.entries[i].0.clone());
            i += 1;
        }
        r
    }
}

impl<V: Clone> Clone for CustomTreeMap<V> {
    /// The copy holds the same keys in the same order; each value is what
    /// `V::clone` made of the original.
    fn clone(&self) -> (r: Self)
        ensures
            r.spec_len() == self.spec_len(),
            forall|i: int| 0 <= i < self.spec_len() ==> #[trigger] r.spec_kv()[i].0
                == self.spec_kv()[i].0,
            forall|i: int|
                0 <= i < self.spec_len() ==> cloned::<V>(
                    self.spec_kv()[i].1,
                    #[trigger] r.spec_kv()[i].1,
                ),
    {
        proof {
            use_type_invariant(self);
        }
        let mut es: Vec<(NatString, V)> = Vec::new();
        let mut i: usize = 0;
        while i < self.entries.len()
            invariant
                i <= self.entries@.len(),
                es@.len() == i,
                forall|j: int| 0 <= j < i ==> #[trigger] es@[j].0@ == self.spec_kv()[j].0,
                forall|j: int| 0 <= j < i ==> cloned::<V>(self.spec_kv()[j].1, #[trigger] es@[j].1),
            decreases self.entries@.len() - i,
        {
            let k = self.entries[i].0.clone();
            let v = self.entries[i].1.clone();
            es.push((k, v));
            i += 1;
        }
        proof {
            let newkv = Seq::new(es@.len(), |j: int| (es@[j].0@, es@[j].1));
            assert forall|p: int| 0 <= p && p + 1 < newkv.len() implies nat_lt(
                #[trigger] newkv[p].0,
                newkv[p + 1].0,
            ) by {
                assert(newkv[p].0 == self.spec_kv()[p].0);
                assert(newkv[p + 1].0 == self.spec_kv()[p + 1].0);
            }
        }
        CustomTreeMap { entries: es }
    }
}

/// Replacing the value at `i` rewrites exactly that key in the map view.
pub proof fn lemma_kv_map_update<K, V>(kv: Seq<(K, V)>, i: int, v: V)
    requires
        0 <= i < kv.len(),
        forall|p: int, q: int| 0 <= p < q < kv.len() ==> kv[p].0 != kv[q].0,
    ensures
        kv_map(kv.update(i, (kv[i].0, v))) == kv_map(kv).insert(kv[i].0, v),
    decreases kv.len(),
{
    let u = kv.update(i, (kv[i].0, v));
    if i == 0 {
        assert(u.skip(1) =~= kv.skip(1));
        assert(kv_map(u) == kv_map(kv.skip(1)).insert(kv[0].0, v));
        assert(kv_map(u) =~= kv_map(kv).insert(kv[0].0, v));
    } else {
        assert forall|p: int, q: int| 0 <= p < q < kv.skip(1).len() implies kv.skip(1)[p].0
            != kv.skip(1)[q].0 by {
            assert(kv.skip(1)[p] == kv[p + 1]);
            assert(kv.skip(1)[q] == kv[q + 1]);
        }
        assert(kv.skip(1)[i - 1] == kv[i]);
        lemma_kv_map_update(kv.skip(1), i - 1, v);
        assert(u.skip(1) =~= kv.skip(1).update(i - 1, (kv[i].0, v)));
        assert(u[0] == kv[0]);
        assert(kv_map(u) == kv_map(kv.skip(1).update(i - 1, (kv[i].0, v))).insert(
            kv[0].0,
            kv[0].1,
        ));
        assert(kv[0].0 != kv[i].0);
        assert(kv_map(u) =~= kv_map(kv).insert(kv[i].0, v));
    }
}

/// Dropping the entry at `idx` takes exactly its key out of the map view.
pub proof fn lemma_map_remove_from_kv<K, V>(kv: Seq<(K, V)>, idx: int)
    requires
        0 <= idx < kv.len(),
        forall|p: int, q: int| 0 <= p < q < kv.len() ==> kv[p].0 != kv[q].0,
    ensures
        kv_map(kv.remove(idx)) == kv_map(kv).remove(kv[idx].0),
    decreases kv.len(),
{
    if idx == 0 {
        assert(kv.remove(0) =~= kv.skip(1));
        let m = kv_map(kv.skip(1));
        assert(!m.contains_key(kv[0].0)) by {
            lemma_kv_map_domain(kv.skip(1), kv[0].0);
            if m.contains_key(kv[0].0) {
                let i = choose|i: int|
                    0 <= i < kv.skip(1).len() && kv.skip(1)[i].0 == kv[0].0;
                assert(kv.skip(1)[i] == kv[i + 1]);
                assert(kv[0].0 != kv[i + 1].0);
            }
        }
        assert(kv_map(kv) == m.insert(kv[0].0, kv[0].1));
        assert(m.insert(kv[0].0, kv[0].1).remove(kv[0].0) =~= m);
        assert(kv_map(kv.remove(0)) == kv_map(kv).remove(kv[0].0));
    } else {
        assert forall|p: int, q: int| 0 <= p < q < kv.skip(1).len() implies kv.skip(1)[p].0
            != kv.skip(1)[q].0 by {
            assert(kv.skip(1)[p] == kv[p + 1]);
            assert(kv.skip(1)[q] == kv[q + 1]);
        }
        assert(kv.skip(1)[idx - 1] == kv[idx]);
        lemma_map_remove_from_kv(kv.skip(1), idx - 1);
        assert(kv.remove(idx).skip(1) =~= kv.skip(1).remove(idx - 1));
        assert(kv.remove(idx)[0] == kv[0]);
        assert(kv_map(kv.remove(idx)) == kv_map(kv.skip(1).remove(idx - 1)).insert(
            kv[0].0,
            kv[0].1,
        ));
        assert(kv[0].0 != kv[idx].0);
        assert(kv_map(kv.remove(idx)) =~= kv_map(kv).remove(kv[idx].0));
    }
}

} // verus!
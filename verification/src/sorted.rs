//! Ordered maps and sets kept as sorted vectors.
//!
//! The volatile indexes and allocators of the file system are ordered
//! trees: iterating them yields keys in increasing order, and taking
//! the first entry yields the smallest key.  `SortedMap` keeps its keys
//! strictly increasing under an order supplied by `MapKey`, so that the
//! same guarantees are stated and proved here.
use vstd::prelude::*;

verus! {

/// Result of comparing two keys.
pub enum KeyOrder {
    Less,
    Equal,
    Greater,
}

/// A key type with a strict total order.
pub trait MapKey: Copy + Sized {
    spec fn key_lt(self, other: Self) -> bool;

    proof fn lemma_lt_irreflexive(a: Self)
        ensures
            !a.key_lt(a),
    ;

    proof fn lemma_lt_transitive(a: Self, b: Self, c: Self)
        requires
            a.key_lt(b),
            b.key_lt(c),
        ensures
            a.key_lt(c),
    ;

    proof fn lemma_lt_total(a: Self, b: Self)
        ensures
            a.key_lt(b) || b.key_lt(a) || a == b,
    ;

    fn compare_key(&self, other: &Self) -> (r: KeyOrder)
        ensures
            (match r {
                KeyOrder::Less => self.key_lt(*other),
                KeyOrder::Equal => *self == *other,
                KeyOrder::Greater => other.key_lt(*self),
            }),
    ;
}

impl MapKey for u64 {
    open spec fn key_lt(self, other: Self) -> bool {
        self < other
    }

    proof fn lemma_lt_irreflexive(a: Self) {
    }

    proof fn lemma_lt_transitive(a: Self, b: Self, c: Self) {
    }

    proof fn lemma_lt_total(a: Self, b: Self) {
    }

    fn compare_key(&self, other: &Self) -> (r: KeyOrder) {
        if *self < *other {
            KeyOrder::Less
        } else if *self == *other {
            KeyOrder::Equal
        } else {
            KeyOrder::Greater
        }
    }
}

/// The keys of `s` are strictly increasing.
pub open spec fn strictly_sorted<K: MapKey>(s: Seq<K>) -> bool {
    forall|i: int, j: int| 0 <= i < j < s.len() ==> (#[trigger] s[i]).key_lt(#[trigger] s[j])
}

/// `s` holds no key twice.
pub open spec fn distinct<K>(s: Seq<K>) -> bool {
    forall|i: int, j: int| 0 <= i < s.len() && 0 <= j < s.len() && i != j ==> s[i] != s[j]
}

pub proof fn lemma_sorted_distinct<K: MapKey>(s: Seq<K>)
    requires
        strictly_sorted(s),
    ensures
        distinct(s),
{
    assert forall|i: int, j: int| 0 <= i < s.len() && 0 <= j < s.len() && i != j implies s[i]
        != s[j] by {
        if s[i] == s[j] {
            K::lemma_lt_irreflexive(s[i]);
            if i < j {
                assert(s[i].key_lt(s[j]));
            } else {
                assert(s[j].key_lt(s[i]));
            }
        }
    }
}

/// The first `i + 1` elements of `s`, as a set, add `s[i]` to the first `i`.
pub proof fn lemma_prefix_to_set<A>(s: Seq<A>, i: int)
    requires
        0 <= i < s.len(),
    ensures
        s.subrange(0, i + 1).to_set() == s.subrange(0, i).to_set().insert(s[i]),
{
    let a = s.subrange(0, i + 1);
    let b = s.subrange(0, i);
    assert forall|x: A| #[trigger] a.to_set().contains(x) <==> b.to_set().insert(s[i]).contains(x) by {
        if a.contains(x) {
            let j = choose|j: int| 0 <= j < a.len() && a[j] == x;
            if j < i {
                assert(b[j] == x);
            }
        }
        if b.contains(x) {
            let j = choose|j: int| 0 <= j < b.len() && b[j] == x;
            assert(a[j] == x);
        }
        if x == s[i] {
            assert(a[i] == x);
        }
    }
    assert(a.to_set() =~= b.to_set().insert(s[i]));
}

/// A finite map whose keys are kept in increasing order.
pub struct SortedMap<K, V> {
    keys: Vec<K>,
    vals: Vec<V>,
}

impl<K: MapKey, V> SortedMap<K, V> {
    /// The map is well formed: as many values as keys, keys increasing.
    pub closed spec fn wf(&self) -> bool {
        &&& self.keys@.len() == self.vals@.len()
        &&& strictly_sorted(self.keys@)
    }

    /// The keys in increasing order.
    pub closed spec fn key_seq(&self) -> Seq<K> {
        self.keys@
    }

    /// The values, in the order of their keys.
    pub closed spec fn val_seq(&self) -> Seq<V> {
        self.vals@
    }

    pub closed spec fn view(&self) -> Map<K, V> {
        Map::new(
            |k: K| self.keys@.contains(k),
            |k: K| self.vals@[self.keys@.index_of(k)],
        )
    }

    /// What a well formed map states about its parts.
    pub proof fn lemma_wf(&self)
        requires
            self.wf(),
        ensures
            self.key_seq().len() == self.val_seq().len(),
            strictly_sorted(self.key_seq()),
            distinct(self.key_seq()),
            self.view().dom().finite(),
            self.view().dom() == self.key_seq().to_set(),
            self.view().len() == self.key_seq().len(),
            forall|i: int|
                0 <= i < self.key_seq().len() ==> #[trigger] self.view()[self.key_seq()[i]]
                    == self.val_seq()[i],
    {
        lemma_sorted_distinct(self.keys@);
        self.lemma_index_of();
        assert(self.view().dom() =~= self.keys@.to_set());
        self.keys@.unique_seq_to_set();
    }

    proof fn lemma_index_of(&self)
        requires
            self.wf(),
        ensures
            forall|i: int|
                0 <= i < self.keys@.len() ==> #[trigger] self.keys@.index_of(self.keys@[i]) == i,
    {
        lemma_sorted_distinct(self.keys@);
        assert forall|i: int| 0 <= i < self.keys@.len() implies #[trigger] self.keys@.index_of(
            self.keys@[i],
        ) == i by {
            assert(self.keys@.contains(self.keys@[i]));
            let j = self.keys@.index_of(self.keys@[i]);
            assert(0 <= j < self.keys@.len() && self.keys@[j] == self.keys@[i]);
        }
    }

    pub fn new() -> (r: Self)
        ensures
            r.wf(),
            r.view() == Map::<K, V>::empty(),
            r.key_seq() == Seq::<K>::empty(),
    {
        let r = SortedMap { keys: Vec::new(), vals: Vec::new() };
        assert(r.view() =~= Map::<K, V>::empty());
        r
    }

    pub fn len(&self) -> (r: usize)
        requires
            self.wf(),
        ensures
            r == self.view().len(),
            r == self.key_seq().len(),
    {
        proof {
            self.lemma_wf();
        }
        self.keys.len()
    }

    pub fn is_empty(&self) -> (r: bool)
        requires
            self.wf(),
        ensures
            r == (self.view().len() == 0),
            r == self.view().dom().is_empty(),
    {
        proof {
            self.lemma_wf();
            if self.keys@.len() > 0 {
                assert(self.view().dom().contains(self.keys@[0]));
            }
        }
        self.keys.len() == 0
    }

    /// The first index whose key is not below `k`, and whether it equals `k`.
    fn locate(&self, k: &K) -> (r: (usize, bool))
        requires
            self.wf(),
        ensures
            r.0 <= self.keys@.len(),
            forall|i: int| 0 <= i < r.0 ==> (#[trigger] self.keys@[i]).key_lt(*k),
            r.0 < self.keys@.len() ==> !self.keys@[r.0 as int].key_lt(*k),
            r.1 == (r.0 < self.keys@.len() && self.keys@[r.0 as int] == *k),
            !r.1 ==> forall|i: int| r.0 <= i < self.keys@.len() ==> k.key_lt(
                #[trigger] self.keys@[i],
            ),
            r.1 <==> self.keys@.contains(*k),
    {
        let mut i: usize = 0;
        while i < self.keys.len()
            invariant
                self.wf(),
                i <= self.keys@.len(),
                forall|j: int| 0 <= j < i ==> (#[trigger] self.keys@[j]).key_lt(*k),
            decreases self.keys@.len() - i,
        {
            match self.keys[i].compare_key(k) {
                KeyOrder::Less => {
                    i = i + 1;
                },
                KeyOrder::Equal => {
                    proof {
                        K::lemma_lt_irreflexive(*k);
                        assert(self.keys@.contains(*k));
                    }
                    return (i, true);
                },
                KeyOrder::Greater => {
                    proof {
                        if self.keys@[i as int].key_lt(*k) {
                            K::lemma_lt_transitive(*k, self.keys@[i as int], *k);
                            K::lemma_lt_irreflexive(*k);
                        }
                        assert forall|j: int| i <= j < self.keys@.len() implies k.key_lt(
                            #[trigger] self.keys@[j],
                        ) by {
                            if j > i {
                                K::lemma_lt_transitive(*k, self.keys@[i as int], self.keys@[j]);
                            }
                        }
                        if self.keys@.contains(*k) {
                            let j = choose|j: int| 0 <= j < self.keys@.len() && self.keys@[j] == *k;
                            if j < i {
                                K::lemma_lt_irreflexive(*k);
                            } else {
                                K::lemma_lt_irreflexive(*k);
                            }
                        }
                    }
                    return (i, false);
                },
            }
        }
        proof {
            if self.keys@.contains(*k) {
                let j = choose|j: int| 0 <= j < self.keys@.len() && self.keys@[j] == *k;
                K::lemma_lt_irreflexive(*k);
            }
        }
        (i, false)
    }

    pub fn contains_key(&self, k: &K) -> (r: bool)
        requires
            self.wf(),
        ensures
            r == self.view().contains_key(*k),
    {
        let (_, found) = self.locate(k);
        found
    }

    pub fn get(&self, k: &K) -> (r: Option<&V>)
        requires
            self.wf(),
        ensures
            (match r {
                Some(v) => self.view().contains_key(*k) && *v == self.view()[*k],
                None => !self.view().contains_key(*k),
            }),
    {
        let (i, found) = self.locate(k);
        if found {
            proof {
                self.lemma_index_of();
            }
            Some(&self.vals[i])
        } else {
            None
        }
    }

    /// Inserts `v` under `k`, handing back the value it replaces.
    pub fn insert(&mut self, k: K, v: V) -> (r: Option<V>)
        requires
            old(self).wf(),
        ensures
            final(self).wf(),
            final(self).view() == old(self).view().insert(k, v),
            (match r {
                Some(o) => old(self).view().contains_key(k) && o == old(self).view()[k],
                None => !old(self).view().contains_key(k),
            }),
    {
        let (i, found) = self.locate(&k);
        proof {
            self.lemma_index_of();
        }
        if found {
            let ghost old_keys = self.keys@;
            let mut vals = Vec::new();
            std::mem::swap(&mut vals, &mut self.vals);
            let o = vals.remove(i);
            vals.insert(i, v);
            self.vals = vals;
            proof {
                assert(self.keys@ == old_keys);
                self.lemma_index_of();
                assert(self.view() =~= old(self).view().insert(k, v));
            }
            Some(o)
        } else {
            self.keys.insert(i, k);
            self.vals.insert(i, v);
            proof {
                let ks = self.keys@;
                let ok = old(self).keys@;
                assert forall|a: int, b: int| 0 <= a < b < ks.len() implies (#[trigger] ks[a]).key_lt(
                    #[trigger] ks[b],
                ) by {
                    if a < i && b > i {
                        assert(ok[a].key_lt(k));
                        assert(k.key_lt(ok[b - 1]));
                        K::lemma_lt_transitive(ok[a], k, ok[b - 1]);
                    } else if a < i && b == i {
                    } else if a == i {
                        assert(k.key_lt(ok[b - 1]));
                    } else if a > i {
                        assert(ok[a - 1].key_lt(ok[b - 1]));
                    } else {
                        assert(ok[a].key_lt(ok[b]));
                    }
                }
                self.lemma_index_of();
                assert forall|x: K| #[trigger] self.keys@.contains(x) == (ok.contains(x) || x == k) by {
                    if self.keys@.contains(x) {
                        let j = choose|j: int| 0 <= j < ks.len() && ks[j] == x;
                        if j < i {
                            assert(ok[j] == x);
                        } else if j > i {
                            assert(ok[j - 1] == x);
                        }
                    }
                    if ok.contains(x) {
                        let j = choose|j: int| 0 <= j < ok.len() && ok[j] == x;
                        if j < i {
                            assert(ks[j] == x);
                        } else {
                            assert(ks[j + 1] == x);
                        }
                    }
                    if x == k {
                        assert(ks[i as int] == k);
                    }
                }
                assert forall|x: K| #[trigger] self.view().contains_key(x) implies self.view()[x]
                    == old(self).view().insert(k, v)[x] by {
                    let j = choose|j: int| 0 <= j < ks.len() && ks[j] == x;
                    assert(self.keys@.index_of(x) == j);
                    if j < i {
                        assert(ok[j] == x);
                        old(self).lemma_index_of();
                        assert(ok.index_of(x) == j);
                    } else if j > i {
                        assert(ok[j - 1] == x);
                        old(self).lemma_index_of();
                        assert(ok.index_of(x) == j - 1);
                    }
                }
                assert(self.view() =~= old(self).view().insert(k, v));
            }
            None
        }
    }

    /// Removes the entry under `k`, handing back its value.
    pub fn remove(&mut self, k: &K) -> (r: Option<V>)
        requires
            old(self).wf(),
        ensures
            final(self).wf(),
            final(self).view() == old(self).view().remove(*k),
            (match r {
                Some(o) => old(self).view().contains_key(*k) && o == old(self).view()[*k],
                None => !old(self).view().contains_key(*k) && *final(self) == *old(self),
            }),
    {
        let (i, found) = self.locate(k);
        if !found {
            proof {
                assert(self.view() =~= old(self).view().remove(*k));
            }
            return None;
        }
        proof {
            self.lemma_index_of();
        }
        self.keys.remove(i);
        let o = self.vals.remove(i);
        proof {
            let ks = self.keys@;
            let ok = old(self).keys@;
            assert forall|a: int, b: int| 0 <= a < b < ks.len() implies (#[trigger] ks[a]).key_lt(
                #[trigger] ks[b],
            ) by {
                if a < i && b >= i {
                    assert(ok[a].key_lt(ok[b + 1]));
                } else if a >= i {
                    assert(ok[a + 1].key_lt(ok[b + 1]));
                } else {
                    assert(ok[a].key_lt(ok[b]));
                }
            }
            lemma_sorted_distinct(ok);
            self.lemma_index_of();
            old(self).lemma_index_of();
            assert forall|x: K| #[trigger] self.keys@.contains(x) == (ok.contains(x) && x != *k) by {
                if self.keys@.contains(x) {
                    let j = choose|j: int| 0 <= j < ks.len() && ks[j] == x;
                    if j < i {
                        assert(ok[j] == x);
                    } else {
                        assert(ok[j + 1] == x);
                    }
                }
                if ok.contains(x) && x != *k {
                    let j = choose|j: int| 0 <= j < ok.len() && ok[j] == x;
                    if j < i {
                        assert(ks[j] == x);
                    } else {
                        assert(j != i);
                        assert(ks[j - 1] == x);
                    }
                }
            }
            assert forall|x: K| #[trigger] self.view().contains_key(x) implies self.view()[x]
                == old(self).view().remove(*k)[x] by {
                let j = choose|j: int| 0 <= j < ks.len() && ks[j] == x;
                assert(self.keys@.index_of(x) == j);
                if j < i {
                    assert(ok[j] == x);
                    assert(ok.index_of(x) == j);
                } else {
                    assert(ok[j + 1] == x);
                    assert(ok.index_of(x) == j + 1);
                }
            }
            assert(self.view() =~= old(self).view().remove(*k));
        }
        Some(o)
    }

    /// The smallest key, if any.
    pub fn first_key(&self) -> (r: Option<K>)
        requires
            self.wf(),
        ensures
            (match r {
                Some(k) => self.view().contains_key(k) && forall|x: K| #[trigger]
                    self.view().contains_key(x) && x != k ==> k.key_lt(x),
                None => self.view().dom().is_empty(),
            }),
            r is Some ==> r == Some(self.key_seq()[0]),
    {
        proof {
            self.lemma_wf();
        }
        if self.keys.len() == 0 {
            proof {
                assert(self.view().dom() =~= Set::<K>::empty());
            }
            None
        } else {
            let k = self.keys[0];
            proof {
                assert(self.keys@.contains(k));
                assert forall|x: K| #[trigger] self.view().contains_key(x) && x != k implies k.key_lt(
                    x,
                ) by {
                    let j = choose|j: int| 0 <= j < self.keys@.len() && self.keys@[j] == x;
                    assert(j != 0);
                }
            }
            Some(k)
        }
    }

    /// The keys, in increasing order.
    pub fn keys(&self) -> (r: Vec<K>)
        requires
            self.wf(),
        ensures
            r@ == self.key_seq(),
    {
        let mut out: Vec<K> = Vec::new();
        let mut i: usize = 0;
        while i < self.keys.len()
            invariant
                i <= self.keys@.len(),
                out@ == self.keys@.subrange(0, i as int),
            decreases self.keys@.len() - i,
        {
            out.push(self.keys[i]);
            i = i + 1;
            proof {
                assert(out@ =~= self.keys@.subrange(0, i as int));
            }
        }
        proof {
            assert(out@ =~= self.keys@);
        }
        out
    }

    /// The key at position `i` in increasing order.
    pub fn key_at(&self, i: usize) -> (r: K)
        requires
            self.wf(),
            i < self.key_seq().len(),
        ensures
            r == self.key_seq()[i as int],
    {
        self.keys[i]
    }

    /// The value at position `i` in increasing key order.
    pub fn value_at(&self, i: usize) -> (r: &V)
        requires
            self.wf(),
            i < self.key_seq().len(),
        ensures
            *r == self.val_seq()[i as int],
    {
        &self.vals[i]
    }
}


impl<K: MapKey, V: Copy> SortedMap<K, V> {
    /// A copy of the map.
    pub fn copy(&self) -> (r: Self)
        requires
            self.wf(),
        ensures
            r.wf(),
            r.view() == self.view(),
            r.key_seq() == self.key_seq(),
            r.val_seq() == self.val_seq(),
    {
        let mut keys: Vec<K> = Vec::new();
        let mut vals: Vec<V> = Vec::new();
        let mut i: usize = 0;
        while i < self.keys.len()
            invariant
                self.wf(),
                i <= self.keys@.len(),
                keys@ == self.keys@.subrange(0, i as int),
                vals@ == self.vals@.subrange(0, i as int),
            decreases self.keys@.len() - i,
        {
            keys.push(self.keys[i]);
            vals.push(self.vals[i]);
            i = i + 1;
            proof {
                assert(keys@ =~= self.keys@.subrange(0, i as int));
                assert(vals@ =~= self.vals@.subrange(0, i as int));
            }
        }
        proof {
            assert(keys@ =~= self.keys@);
            assert(vals@ =~= self.vals@);
        }
        SortedMap { keys, vals }
    }

    /// The values, in increasing key order.
    pub fn values(&self) -> (r: Vec<V>)
        requires
            self.wf(),
        ensures
            r@ == self.val_seq(),
    {
        let mut out: Vec<V> = Vec::new();
        let mut i: usize = 0;
        while i < self.vals.len()
            invariant
                self.wf(),
                i <= self.vals@.len(),
                out@ == self.vals@.subrange(0, i as int),
            decreases self.vals@.len() - i,
        {
            out.push(self.vals[i]);
            i = i + 1;
            proof {
                assert(out@ =~= self.vals@.subrange(0, i as int));
            }
        }
        proof {
            assert(out@ =~= self.vals@);
        }
        out
    }
}

} // verus!

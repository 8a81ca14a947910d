//! A small association map, the store behind every tile and search cache in
//! this crate. Keys compare by their mathematical value, so entry addresses,
//! tile extents and strings can all serve as keys.

use vstd::prelude::*;

verus! {

broadcast use vstd::seq::group_seq_axioms;

/// A key of an [`AssocMap`]: it can decide equality of its mathematical
/// value and produce a copy with the same value.
pub trait MapKey: View + Sized {
    fn key_eq(&self, other: &Self) -> (r: bool)
        ensures
            r == (self@ == other@),
    ;

    fn key_clone(&self) -> (r: Self)
        ensures
            r@ == self@,
    ;
}

/// A finite map from keys to values, stored as parallel vectors with
/// pairwise-distinct key values. Its mathematical value is the [`Map`] from
/// key views to values.
pub struct AssocMap<K: MapKey, V> {
    keys: Vec<K>,
    vals: Vec<V>,
}

impl<K: MapKey, V> AssocMap<K, V> {
    /// The stored key values, in storage order.
    pub closed spec fn key_seq(&self) -> Seq<K::V> {
        Seq::new(self.keys@.len(), |i: int| self.keys@[i]@)
    }

    /// The stored values, in storage order.
    pub closed spec fn val_seq(&self) -> Seq<V> {
        self.vals@
    }

    /// One value per key, keys pairwise distinct.
    pub open spec fn wf(&self) -> bool {
        &&& self.key_seq().len() == self.val_seq().len()
        &&& forall|i: int, j: int|
            0 <= i < j < self.key_seq().len() ==> self.key_seq()[i] != self.key_seq()[j]
    }

    /// The storage index of key value `k`.
    pub open spec fn spec_index_of(&self, k: K::V) -> int {
        choose|i: int| 0 <= i < self.key_seq().len() && self.key_seq()[i] == k
    }
}

impl<K: MapKey, V> View for AssocMap<K, V> {
    type V = Map<K::V, V>;

    open spec fn view(&self) -> Map<K::V, V> {
        Map::new(
            |k: K::V| exists|i: int| 0 <= i < self.key_seq().len() && self.key_seq()[i] == k,
            |k: K::V| self.val_seq()[self.spec_index_of(k)],
        )
    }
}

impl<K: MapKey, V> AssocMap<K, V> {
    /// Each stored entry is in the map, and every map entry is stored.
    pub proof fn lemma_entries(&self)
        requires
            self.wf(),
        ensures
            forall|i: int|
                0 <= i < self.key_seq().len() ==> #[trigger] self@.contains_key(self.key_seq()[i])
                    && self@[self.key_seq()[i]] == self.val_seq()[i],
            forall|k: <K as View>::V|
                self@.contains_key(k) ==> exists|i: int|
                    0 <= i < self.key_seq().len() && self.key_seq()[i] == k,
    {
        assert forall|i: int| 0 <= i < self.key_seq().len() implies #[trigger] self@.contains_key(
            self.key_seq()[i],
        ) && self@[self.key_seq()[i]] == self.val_seq()[i] by {
            let k = self.key_seq()[i];
            assert(self@.contains_key(k));
            let j = self.spec_index_of(k);
            assert(0 <= j < self.key_seq().len() && self.key_seq()[j] == k);
            assert(j == i);
        }
    }

    pub fn new() -> (r: AssocMap<K, V>)
        ensures
            r.wf(),
            r@ =~= Map::<K::V, V>::empty(),
            r.key_seq().len() == 0,
    {
        let r = AssocMap { keys: Vec::new(), vals: Vec::new() };
        proof {
            assert(r.key_seq() =~= Seq::<K::V>::empty());
        }
        r
    }

    /// The number of entries.
    pub fn len(&self) -> (r: usize)
        ensures
            r == self.key_seq().len(),
    {
        self.keys.len()
    }

    pub fn is_empty(&self) -> (r: bool)
        ensures
            r == (self.key_seq().len() == 0),
    {
        self.keys.len() == 0
    }

    /// The storage index of `k`, if present.
    fn find(&self, k: &K) -> (r: Option<usize>)
        requires
            self.wf(),
        ensures
            match r {
                Some(i) => i < self.key_seq().len() && self.key_seq()[i as int] == k@,
                None => !self@.contains_key(k@),
            },
    {
        for i in 0..self.keys.len()
            invariant
                self.wf(),
                forall|j: int| 0 <= j < i ==> self.key_seq()[j] != k@,
        {
            if self.keys[i].key_eq(k) {
                proof {
                    assert(self.key_seq()[i as int] == k@);
                }
                return Some(i);
            }
            proof {
                assert(self.key_seq()[i as int] == self.keys@[i as int]@);
            }
        }
        None
    }

    pub fn contains_key(&self, k: &K) -> (r: bool)
        requires
            self.wf(),
        ensures
            r == self@.contains_key(k@),
    {
        proof {
            self.lemma_entries();
        }
        match self.find(k) {
            Some(i) => {
                proof {
                    self.lemma_entries();
                }
                true
            },
            None => false,
        }
    }

    pub fn get(&self, k: &K) -> (r: Option<&V>)
        requires
            self.wf(),
        ensures
            match r {
                Some(v) => self@.contains_key(k@) && *v == self@[k@],
                None => !self@.contains_key(k@),
            },
    {
        match self.find(k) {
            Some(i) => {
                proof {
                    self.lemma_entries();
                }
                Some(&self.vals[i])
            },
            None => None,
        }
    }

    /// Insert or replace: the new value wins.
    pub fn insert(&mut self, k: K, v: V)
        requires
            old(self).wf(),
        ensures
            final(self).wf(),
            final(self)@ =~= old(self)@.insert(k@, v),
            old(self)@.contains_key(k@) ==> final(self).key_seq() == old(self).key_seq(),
            !old(self)@.contains_key(k@) ==> final(self).key_seq() == old(self).key_seq().push(
                k@,
            ),
    {
        proof {
            self.lemma_entries();
        }
        match self.find(&k) {
            Some(i) => {
                self.vals.set(i, v);
                proof {
                    assert(self.key_seq() =~= old(self).key_seq());
                    self.lemma_entries();
                    assert(self@ =~= old(self)@.insert(k@, v));
                }
            },
            None => {
                self.keys.push(k);
                self.vals.push(v);
                proof {
                    old(self).lemma_entries();
                    assert(self.key_seq() =~= old(self).key_seq().push(k@));
                    assert(self.val_seq() =~= old(self).val_seq().push(v));
                    let m = self.key_seq().len() - 1;
                    assert forall|a: int, b: int|
                        0 <= a < b < self.key_seq().len() implies self.key_seq()[a]
                        != self.key_seq()[b] by {
                        if b == m && self.key_seq()[a] == k@ {
                            assert(old(self).key_seq()[a] == k@);
                            assert(old(self)@.contains_key(k@));
                        }
                    }
                    self.lemma_entries();
                    assert forall|kk: <K as View>::V| #[trigger] self@.contains_key(kk) implies old(
                        self,
                    )@.insert(k@, v).contains_key(kk) && self@[kk] == old(self)@.insert(k@, v)[kk]
                        by {
                        let a = choose|a: int|
                            0 <= a < self.key_seq().len() && self.key_seq()[a] == kk;
                        let aa = self.spec_index_of(kk);
                        assert(aa == a);
                        if a == m {
                            assert(kk == k@);
                        } else {
                            assert(old(self).key_seq()[a] == kk);
                            assert(kk != k@);
                            assert(old(self)@[kk] == old(self).val_seq()[a]);
                        }
                    }
                    assert forall|kk: <K as View>::V| #[trigger]
                        old(self)@.insert(k@, v).contains_key(kk) implies self@.contains_key(
                        kk,
                    ) by {
                        if kk == k@ {
                            assert(self.key_seq()[m] == kk);
                        } else {
                            let a = choose|a: int|
                                0 <= a < old(self).key_seq().len() && old(self).key_seq()[a] == kk;
                            assert(self.key_seq()[a] == kk);
                        }
                    }
                    assert(self@ =~= old(self)@.insert(k@, v));
                }
            },
        }
    }

    /// Replace the value of `k` only when `k` is already present.
    pub fn update_if_present(&mut self, k: &K, v: V) -> (r: bool)
        requires
            old(self).wf(),
        ensures
            final(self).wf(),
            r == old(self)@.contains_key(k@),
            r ==> final(self)@ =~= old(self)@.insert(k@, v),
            !r ==> final(self)@ == old(self)@,
            final(self).key_seq() == old(self).key_seq(),
    {
        proof {
            self.lemma_entries();
        }
        match self.find(k) {
            Some(i) => {
                self.vals.set(i, v);
                proof {
                    assert(self.key_seq() =~= old(self).key_seq());
                    self.lemma_entries();
                    assert(self@ =~= old(self)@.insert(k@, v));
                }
                true
            },
            None => false,
        }
    }

    /// Remove `k` if present. The storage order of the other entries may
    /// change; the map value loses exactly `k`.
    pub fn remove(&mut self, k: &K) -> (r: Option<V>)
        requires
            old(self).wf(),
        ensures
            final(self).wf(),
            final(self)@ =~= old(self)@.remove(k@),
            match r {
                Some(v) => old(self)@.contains_key(k@) && v == old(self)@[k@],
                None => !old(self)@.contains_key(k@),
            },
    {
        proof {
            self.lemma_entries();
        }
        match self.find(k) {
            Some(i) => {
                let v = self.vals.swap_remove(i);
                let _key = self.keys.swap_remove(i);
                proof {
                    let n = old(self).key_seq().len();
                    assert(self.key_seq() =~= old(self).key_seq().update(
                        i as int,
                        old(self).key_seq()[n - 1],
                    ).subrange(0, n - 1));
                    self.lemma_entries();
                    old(self).lemma_entries();
                    assert forall|kk: <K as View>::V| #[trigger]
                        self@.contains_key(kk) implies old(self)@.remove(k@).contains_key(kk)
                        && self@[kk] == old(self)@.remove(k@)[kk] by {
                        let j = choose|j: int|
                            0 <= j < self.key_seq().len() && self.key_seq()[j] == kk;
                        let jj = self.spec_index_of(kk);
                        assert(jj == j);
                        if j == i {
                            assert(old(self).key_seq()[n - 1] == kk);
                            assert(old(self)@[kk] == old(self).val_seq()[n - 1]);
                        } else {
                            assert(old(self).key_seq()[j] == kk);
                        }
                    }
                    assert forall|kk: <K as View>::V| #[trigger]
                        old(self)@.remove(k@).contains_key(kk) implies self@.contains_key(kk) by {
                        let j = choose|j: int|
                            0 <= j < old(self).key_seq().len() && old(self).key_seq()[j] == kk;
                        if j == i {
                            assert(old(self).key_seq()[i as int] == k@);
                            assert(kk == k@);
                        } else if j == n - 1 {
                            assert(self.key_seq()[i as int] == kk);
                        } else {
                            assert(self.key_seq()[j] == kk);
                        }
                    }
                    assert(self@ =~= old(self)@.remove(k@));
                }
                Some(v)
            },
            None => {
                proof {
                    assert(self@ =~= old(self)@.remove(k@));
                }
                None
            },
        }
    }
}

/// The entry `(kv, v)` occurs among the original entries `[lo, n)` and its
/// key is kept.
spec fn kept_entry_at<K: MapKey, V>(
    kv: K::V,
    v: V,
    okeys: Seq<K>,
    ovals: Seq<V>,
    keep: Set<K::V>,
    lo: int,
    n: int,
) -> bool {
    exists|b: int| #![trigger okeys[b]]
        lo <= b < n && okeys[b]@ == kv && v == ovals[b] && keep.contains(okeys[b]@)
}

/// Every stored entry comes from the suffix `[lo, n)` of the original
/// entries and its key is kept.
spec fn from_kept_suffix<K: MapKey, V>(
    kseq: Seq<K::V>,
    vseq: Seq<V>,
    okeys: Seq<K>,
    ovals: Seq<V>,
    keep: Set<K::V>,
    lo: int,
    n: int,
) -> bool {
    forall|a: int| #![trigger kseq[a]]
        0 <= a < kseq.len() ==> kept_entry_at(kseq[a], vseq[a], okeys, ovals, keep, lo, n)
}

/// The set of key values of a key list.
pub open spec fn key_view_set<K: MapKey>(ks: Seq<K>) -> Set<K::V> {
    Set::new(|kv: K::V| exists|i: int| 0 <= i < ks.len() && ks[i]@ == kv)
}

impl<K: MapKey, V> AssocMap<K, V> {
    /// Whether the key value of `k` occurs in `ks`.
    fn list_contains(ks: &Vec<K>, k: &K) -> (r: bool)
        ensures
            r == key_view_set(ks@).contains(k@),
    {
        for i in 0..ks.len()
            invariant
                forall|j: int| 0 <= j < i ==> ks@[j]@ != k@,
        {
            if ks[i].key_eq(k) {
                proof {
                    assert(key_view_set(ks@).contains(k@));
                }
                return true;
            }
        }
        false
    }

    /// Keep only the entries whose keys occur in `keep`; every other entry is
    /// dropped. Afterwards the map's domain is a subset of `keep`'s keys.
    pub fn retain_keys(&mut self, keep: &Vec<K>)
        requires
            old(self).wf(),
        ensures
            final(self).wf(),
            final(self)@ =~= old(self)@.restrict(key_view_set(keep@)),
    {
        let mut keys: Vec<K> = Vec::new();
        let mut vals: Vec<V> = Vec::new();
        core::mem::swap(&mut keys, &mut self.keys);
        core::mem::swap(&mut vals, &mut self.vals);
        let ghost okeys = keys@;
        let ghost ovals = vals@;
        let ghost n = okeys.len();
        proof {
            assert(okeys =~= old(self).keys@);
            assert(ovals =~= old(self).vals@);
            assert(self.key_seq() =~= Seq::<K::V>::empty());
            assert forall|a: int, b: int| 0 <= a < b < okeys.len() implies okeys[a]@
                != okeys[b]@ by {
                assert(old(self).key_seq()[a] == okeys[a]@);
                assert(old(self).key_seq()[b] == okeys[b]@);
            }
        }
        while keys.len() > 0
            invariant
                okeys.len() == n && ovals.len() == n,
                keys@.len() == vals@.len(),
                keys@.len() <= n,
                keys@ =~= okeys.subrange(0, keys@.len() as int),
                vals@ =~= ovals.subrange(0, vals@.len() as int),
                forall|a: int, b: int| 0 <= a < b < n ==> okeys[a]@ != okeys[b]@,
                self.key_seq().len() == self.val_seq().len(),
                forall|a: int, b: int|
                    0 <= a < b < self.key_seq().len() ==> self.key_seq()[a] != self.key_seq()[b],
                from_kept_suffix(
                    self.key_seq(),
                    self.val_seq(),
                    okeys,
                    ovals,
                    key_view_set(keep@),
                    keys@.len() as int,
                    n as int,
                ),
                forall|b: int|
                    keys@.len() <= b < n && key_view_set(keep@).contains(#[trigger] okeys[b]@)
                        ==> self.key_seq().contains(okeys[b]@),
            decreases keys@.len(),
        {
            let ghost m = keys@.len() as int;
            proof {
                assert(keys@ == okeys.subrange(0, m));
                assert(keys@[m - 1] == okeys.subrange(0, m)[m - 1]);
                assert(keys@[m - 1] == okeys[m - 1]);
                assert(vals@ == ovals.subrange(0, m));
                assert(vals@[m - 1] == ovals[m - 1]);
                assert(keys@.subrange(0, m - 1) =~= okeys.subrange(0, m - 1));
                assert(vals@.subrange(0, m - 1) =~= ovals.subrange(0, m - 1));
            }
            let k = match keys.pop() {
                Some(k) => k,
                None => {
                    proof {
                        assert(false);
                    }
                    unreached()
                },
            };
            let v = match vals.pop() {
                Some(v) => v,
                None => {
                    proof {
                        assert(false);
                    }
                    unreached()
                },
            };
            proof {
                assert(k == okeys[m - 1]);
                assert(v == ovals[m - 1]);
                assert(keys@ =~= okeys.subrange(0, m - 1));
                assert(vals@ =~= ovals.subrange(0, m - 1));
            }
            if Self::list_contains(keep, &k) {
                let ghost prevk = self.key_seq();
                let ghost prevv = self.val_seq();
                self.keys.push(k);
                self.vals.push(v);
                proof {
                    assert(self.key_seq() =~= prevk.push(okeys[m - 1]@));
                    assert(self.val_seq() =~= prevv.push(ovals[m - 1]));
                    assert forall|a: int, b: int|
                        0 <= a < b < self.key_seq().len() implies self.key_seq()[a]
                        != self.key_seq()[b] by {
                        if b == self.key_seq().len() - 1 {
                            let w = choose|w: int|
                                m <= w < n && okeys[w]@ == prevk[a] && prevv[a] == ovals[w]
                                    && key_view_set(keep@).contains(okeys[w]@);
                            assert(okeys[w]@ != okeys[m - 1]@);
                        }
                    }
                    assert forall|a: int| #![trigger self.key_seq()[a]]
                        0 <= a < self.key_seq().len() implies kept_entry_at(
                        self.key_seq()[a],
                        self.val_seq()[a],
                        okeys,
                        ovals,
                        key_view_set(keep@),
                        keys@.len() as int,
                        n as int,
                    ) by {
                        if a == self.key_seq().len() - 1 {
                            assert(keys@.len() <= m - 1 < n && okeys[m - 1]@ == self.key_seq()[a]
                                && self.val_seq()[a] == ovals[m - 1] && key_view_set(
                                keep@,
                            ).contains(okeys[m - 1]@));
                        } else {
                            assert(kept_entry_at(
                                prevk[a],
                                prevv[a],
                                okeys,
                                ovals,
                                key_view_set(keep@),
                                m,
                                n as int,
                            ));
                            let b = choose|b: int| #![trigger okeys[b]]
                                m <= b < n && okeys[b]@ == prevk[a] && prevv[a] == ovals[b]
                                    && key_view_set(keep@).contains(okeys[b]@);
                            assert(keys@.len() <= b < n && okeys[b]@ == self.key_seq()[a]
                                && self.val_seq()[a] == ovals[b] && key_view_set(keep@).contains(
                                okeys[b]@,
                            ));
                        }
                    }
                    assert forall|b: int|
                        keys@.len() <= b < n && key_view_set(keep@).contains(
                            #[trigger] okeys[b]@,
                        ) implies self.key_seq().contains(okeys[b]@) by {
                        if b == m - 1 {
                            assert(self.key_seq()[self.key_seq().len() - 1] == okeys[b]@);
                        } else {
                            let a = choose|a: int|
                                0 <= a < prevk.len() && prevk[a] == okeys[b]@;
                            assert(self.key_seq()[a] == okeys[b]@);
                        }
                    }
                }
            } else {
                proof {
                    assert(!key_view_set(keep@).contains(okeys[m - 1]@));
                    assert forall|b: int|
                        keys@.len() <= b < n && key_view_set(keep@).contains(
                            #[trigger] okeys[b]@,
                        ) implies self.key_seq().contains(okeys[b]@) by {
                        assert(b != m - 1);
                    }
                    assert forall|a: int| #![trigger self.key_seq()[a]]
                        0 <= a < self.key_seq().len() implies kept_entry_at(
                        self.key_seq()[a],
                        self.val_seq()[a],
                        okeys,
                        ovals,
                        key_view_set(keep@),
                        keys@.len() as int,
                        n as int,
                    ) by {
                        assert(kept_entry_at(
                            self.key_seq()[a],
                            self.val_seq()[a],
                            okeys,
                            ovals,
                            key_view_set(keep@),
                            m,
                            n as int,
                        ));
                        let b = choose|b: int| #![trigger okeys[b]]
                            m <= b < n && okeys[b]@ == self.key_seq()[a] && self.val_seq()[a]
                                == ovals[b] && key_view_set(keep@).contains(okeys[b]@);
                        assert(keys@.len() <= b < n && okeys[b]@ == self.key_seq()[a]
                            && self.val_seq()[a] == ovals[b] && key_view_set(keep@).contains(
                            okeys[b]@,
                        ));
                    }
                }
            }
        }
        proof {
            self.lemma_entries();
            old(self).lemma_entries();
            assert(old(self).key_seq() =~= Seq::new(okeys.len(), |i: int| okeys[i]@));
            assert forall|kk: <K as View>::V| #[trigger] self@.contains_key(kk) implies old(
                self,
            )@.restrict(key_view_set(keep@)).contains_key(kk) && self@[kk] == old(self)@.restrict(
                key_view_set(keep@),
            )[kk] by {
                let a = choose|a: int|
                    0 <= a < self.key_seq().len() && self.key_seq()[a] == kk;
                let aa = self.spec_index_of(kk);
                assert(aa == a);
                assert(kept_entry_at(
                    self.key_seq()[a],
                    self.val_seq()[a],
                    okeys,
                    ovals,
                    key_view_set(keep@),
                    0,
                    n as int,
                ));
                let b = choose|b: int| #![trigger okeys[b]]
                    0 <= b < n && okeys[b]@ == self.key_seq()[a] && self.val_seq()[a] == ovals[b]
                        && key_view_set(keep@).contains(okeys[b]@);
                assert(old(self).key_seq()[b] == kk);
                assert(old(self)@.contains_key(kk));
                assert(old(self)@[kk] == ovals[b]);
            }
            assert forall|kk: <K as View>::V| #[trigger]
                old(self)@.restrict(key_view_set(keep@)).contains_key(kk) implies self@.contains_key(
                kk,
            ) by {
                let b = choose|b: int|
                    0 <= b < old(self).key_seq().len() && old(self).key_seq()[b] == kk;
                assert(okeys[b]@ == kk);
                assert(self.key_seq().contains(okeys[b]@));
            }
            assert(self@ =~= old(self)@.restrict(key_view_set(keep@)));
        }
    }

    /// The key at a storage position, for iteration.
    pub fn key_at(&self, i: usize) -> (r: &K)
        requires
            i < self.key_seq().len(),
        ensures
            r@ == self.key_seq()[i as int],
    {
        &self.keys[i]
    }

    /// The value at a storage position, for iteration.
    pub fn val_at(&self, i: usize) -> (r: &V)
        requires
            self.wf(),
            i < self.key_seq().len(),
        ensures
            *r == self.val_seq()[i as int],
            self@.contains_key(self.key_seq()[i as int]),
            *r == self@[self.key_seq()[i as int]],
    {
        proof {
            self.lemma_entries();
        }
        &self.vals[i]
    }
}

/// Keys of the plain integer kinds.
impl MapKey for u64 {
    fn key_eq(&self, other: &Self) -> (r: bool) {
        *self == *other
    }

    fn key_clone(&self) -> (r: Self) {
        *self
    }
}

impl MapKey for usize {
    fn key_eq(&self, other: &Self) -> (r: bool) {
        *self == *other
    }

    fn key_clone(&self) -> (r: Self) {
        *self
    }
}

} // verus!

//! A least-recently-used cache keyed by tile requests, and the deferred
//! source wrapper that serves repeated fetches from it.

use vstd::prelude::*;

use crate::data::DataSourceDescription;
use crate::data::DataSourceInfo;
use crate::data::EntryID;
use crate::data::TileID;
use crate::data::TileResult;
use crate::deferred_data::DeferredDataSource;
use crate::deferred_data::SlotMetaTileResponse;
use crate::deferred_data::SlotTileResponse;
use crate::deferred_data::SummaryTileResponse;
use crate::deferred_data::TileReqV;
use crate::deferred_data::TileRequest;
use crate::map::MapKey;

verus! {

broadcast use vstd::seq::group_seq_axioms;

/// The key values of an entry list, in storage order.
pub open spec fn keys_of<V>(es: Seq<(TileRequest, V)>) -> Seq<TileReqV> {
    Seq::new(es.len(), |i: int| es[i].0@)
}

/// The stored values, in storage order.
pub open spec fn vals_of<V>(es: Seq<(TileRequest, V)>) -> Seq<V> {
    Seq::new(es.len(), |i: int| es[i].1)
}

/// Pairwise distinct keys.
pub open spec fn entries_distinct<V>(es: Seq<(TileRequest, V)>) -> bool {
    forall|i: int, j: int| 0 <= i < j < es.len() ==> keys_of(es)[i] != keys_of(es)[j]
}

/// The storage index of key `k`.
pub open spec fn index_of_key<V>(es: Seq<(TileRequest, V)>, k: TileReqV) -> int {
    choose|i: int| 0 <= i < es.len() && keys_of(es)[i] == k
}

/// The map an entry list denotes.
pub open spec fn map_of<V>(es: Seq<(TileRequest, V)>) -> Map<TileReqV, V> {
    Map::new(
        |k: TileReqV| exists|i: int| 0 <= i < es.len() && keys_of(es)[i] == k,
        |k: TileReqV| es[index_of_key(es, k)].1,
    )
}

/// Each stored entry is in the map, and every map entry is stored.
proof fn lemma_map_entries<V>(es: Seq<(TileRequest, V)>)
    requires
        entries_distinct(es),
    ensures
        forall|i: int|
            0 <= i < es.len() ==> #[trigger] map_of(es).contains_key(keys_of(es)[i]) && map_of(
                es,
            )[keys_of(es)[i]] == es[i].1,
        forall|k: TileReqV|
            map_of(es).contains_key(k) ==> exists|i: int|
                0 <= i < es.len() && keys_of(es)[i] == k,
{
    assert forall|i: int| 0 <= i < es.len() implies #[trigger] map_of(es).contains_key(
        keys_of(es)[i],
    ) && map_of(es)[keys_of(es)[i]] == es[i].1 by {
        let k = keys_of(es)[i];
        assert(map_of(es).contains_key(k));
        let j = index_of_key(es, k);
        assert(0 <= j < es.len() && keys_of(es)[j] == k);
        assert(j == i);
    }
}

/// Removing the entry at `i` removes exactly its key from the map.
proof fn lemma_remove_entry<V>(es: Seq<(TileRequest, V)>, i: int)
    requires
        entries_distinct(es),
        0 <= i < es.len(),
    ensures
        entries_distinct(es.remove(i)),
        map_of(es.remove(i)) =~= map_of(es).remove(keys_of(es)[i]),
{
    let rest = es.remove(i);
    let kv = keys_of(es)[i];
    assert forall|a: int, b: int| 0 <= a < b < rest.len() implies keys_of(rest)[a] != keys_of(
        rest,
    )[b] by {
        let oa = if a < i {
            a
        } else {
            a + 1
        };
        let ob = if b < i {
            b
        } else {
            b + 1
        };
        assert(keys_of(rest)[a] == keys_of(es)[oa]);
        assert(keys_of(rest)[b] == keys_of(es)[ob]);
    }
    lemma_map_entries(es);
    lemma_map_entries(rest);
    assert forall|kk: TileReqV| #[trigger] map_of(rest).contains_key(kk) implies map_of(es).remove(
        kv,
    ).contains_key(kk) && map_of(rest)[kk] == map_of(es).remove(kv)[kk] by {
        let a = choose|a: int| 0 <= a < rest.len() && keys_of(rest)[a] == kk;
        let oa = if a < i {
            a
        } else {
            a + 1
        };
        assert(keys_of(es)[oa] == kk);
        assert(oa != i);
        assert(rest[a] == es[oa]);
    }
    assert forall|kk: TileReqV| #[trigger]
        map_of(es).remove(kv).contains_key(kk) implies map_of(rest).contains_key(kk) by {
        let oa = choose|oa: int| 0 <= oa < es.len() && keys_of(es)[oa] == kk;
        assert(oa != i);
        let a = if oa < i {
            oa
        } else {
            oa - 1
        };
        assert(keys_of(rest)[a] == kk);
    }
}

/// Pushing an entry with a fresh key inserts exactly that key.
proof fn lemma_push_entry<V>(es: Seq<(TileRequest, V)>, k: TileRequest, v: V)
    requires
        entries_distinct(es),
        !map_of(es).contains_key(k@),
    ensures
        entries_distinct(es.push((k, v))),
        map_of(es.push((k, v))) =~= map_of(es).insert(k@, v),
{
    let post = es.push((k, v));
    let m = post.len() - 1;
    lemma_map_entries(es);
    assert forall|a: int, b: int| 0 <= a < b < post.len() implies keys_of(post)[a] != keys_of(
        post,
    )[b] by {
        if b < m {
            assert(post[a] == es[a]);
            assert(post[b] == es[b]);
            assert(keys_of(post)[a] == keys_of(es)[a]);
            assert(keys_of(post)[b] == keys_of(es)[b]);
        } else {
            assert(keys_of(post)[b] == k@);
            assert(post[a] == es[a]);
            assert(keys_of(post)[a] == keys_of(es)[a]);
            if keys_of(es)[a] == k@ {
                assert(map_of(es).contains_key(k@));
            }
        }
    }
    lemma_map_entries(post);
    assert forall|kk: TileReqV| #[trigger] map_of(post).contains_key(kk) implies map_of(es).insert(
        k@,
        v,
    ).contains_key(kk) && map_of(post)[kk] == map_of(es).insert(k@, v)[kk] by {
        let a = choose|a: int| 0 <= a < post.len() && keys_of(post)[a] == kk;
        if a == m {
            assert(kk == k@);
        } else {
            assert(keys_of(es)[a] == kk);
            assert(kk != k@);
            assert(es[a] == post[a]);
        }
    }
    assert forall|kk: TileReqV| #[trigger]
        map_of(es).insert(k@, v).contains_key(kk) implies map_of(post).contains_key(kk) by {
        if kk == k@ {
            assert(keys_of(post)[m] == kk);
        } else {
            let a = choose|a: int| 0 <= a < es.len() && keys_of(es)[a] == kk;
            assert(keys_of(post)[a] == kk);
        }
    }
}

/// The storage index of `k` in a local entry list, by linear search.
fn find_entry<V>(es: &Vec<(TileRequest, V)>, k: &TileRequest) -> (r: Option<usize>)
    ensures
        match r {
            Some(i) => i < es@.len() && keys_of(es@)[i as int] == k@,
            None => !map_of(es@).contains_key(k@),
        },
{
    for i in 0..es.len()
        invariant
            forall|j: int| 0 <= j < i ==> keys_of(es@)[j] != k@,
    {
        if es[i].0.key_eq(k) {
            proof {
                assert(keys_of(es@)[i as int] == k@);
            }
            return Some(i);
        }
        proof {
            assert(keys_of(es@)[i as int] == es@[i as int].0@);
        }
    }
    proof {
        if map_of(es@).contains_key(k@) {
            let i = choose|i: int| 0 <= i < es@.len() && keys_of(es@)[i] == k@;
            assert(keys_of(es@)[i] != k@);
        }
    }
    None
}

/// A bounded map from tile requests to values, evicting the least recently
/// used entry: the entry order is the recency order, oldest first.
pub struct LruMap<V> {
    capacity: usize,
    entries: Vec<(TileRequest, V)>,
}

impl<V> LruMap<V> {
    /// The stored key values, least recently used first.
    pub closed spec fn key_seq(&self) -> Seq<TileReqV> {
        keys_of(self.entries@)
    }

    pub closed spec fn spec_capacity(&self) -> usize {
        self.capacity
    }

    /// The recency position of a stored key.
    pub closed spec fn spec_position(&self, k: TileReqV) -> int {
        index_of_key(self.entries@, k)
    }

    /// One value per distinct key, never more than the capacity.
    #[verifier::type_invariant]
    closed spec fn inv(&self) -> bool {
        &&& entries_distinct(self.entries@)
        &&& self.entries@.len() <= self.capacity
        &&& self.capacity >= 1
    }
}

impl<V> View for LruMap<V> {
    type V = Map<TileReqV, V>;

    closed spec fn view(&self) -> Map<TileReqV, V> {
        map_of(self.entries@)
    }
}

impl<V> LruMap<V> {
    pub fn new(capacity: usize) -> (r: LruMap<V>)
        requires
            capacity >= 1,
        ensures
            r@ =~= Map::<TileReqV, V>::empty(),
            r.key_seq().len() == 0,
            r.spec_capacity() == capacity,
    {
        let r = LruMap { capacity, entries: Vec::new() };
        proof {
            assert(r.key_seq() =~= Seq::<TileReqV>::empty());
        }
        r
    }

    /// Look a request up; a hit makes it the most recently used and returns
    /// its value. The map's contents do not change, only the recency order.
    pub fn get_hit(&mut self, k: &TileRequest) -> (r: Option<&V>)
        ensures
            final(self)@ =~= old(self)@,
            final(self).spec_capacity() == old(self).spec_capacity(),
            match r {
                Some(v) => old(self)@.contains_key(k@) && *v == old(self)@[k@]
                    && final(self).key_seq() =~= old(self).key_seq().remove(
                    old(self).spec_position(k@),
                ).push(k@),
                None => !old(self)@.contains_key(k@)
                    && final(self).key_seq() == old(self).key_seq(),
            },
    {
        proof {
            use_type_invariant(&*self);
        }
        let mut es: Vec<(TileRequest, V)> = Vec::new();
        core::mem::swap(&mut es, &mut self.entries);
        let ghost es0 = es@;
        match find_entry(&es, k) {
            Some(i) => {
                proof {
                    lemma_map_entries(es0);
                    assert(index_of_key(es0, k@) == i);
                    lemma_remove_entry(es0, i as int);
                }
                let pair = es.remove(i);
                let ghost mid = es@;
                proof {
                    assert(map_of(mid) =~= map_of(es0).remove(k@));
                    lemma_push_entry(mid, pair.0, pair.1);
                    assert(pair.0@ == k@);
                    assert(pair.1 == map_of(es0)[k@]);
                }
                es.push(pair);
                proof {
                    assert(map_of(es@) =~= map_of(es0).remove(k@).insert(k@, map_of(es0)[k@]));
                    assert(map_of(es@) =~= map_of(es0));
                    assert(keys_of(es@) =~= keys_of(es0).remove(i as int).push(k@));
                }
                core::mem::swap(&mut es, &mut self.entries);
                let n = self.entries.len();
                let v = &self.entries[n - 1].1;
                proof {
                    lemma_map_entries(self.entries@);
                }
                Some(v)
            },
            None => {
                core::mem::swap(&mut es, &mut self.entries);
                None
            },
        }
    }

    /// Insert a value as the most recently used entry. An existing key is
    /// replaced in place; at capacity the least recently used entry (the
    /// first key) is evicted.
    pub fn put(&mut self, k: TileRequest, v: V)
        ensures
            final(self).spec_capacity() == old(self).spec_capacity(),
            final(self)@.contains_key(k@) && final(self)@[k@] == v,
            final(self).key_seq().len() <= old(self).spec_capacity(),
            old(self)@.contains_key(k@) ==> final(self)@ =~= old(self)@.insert(k@, v),
            !old(self)@.contains_key(k@) && old(self).key_seq().len() < old(self).spec_capacity()
                ==> final(self)@ =~= old(self)@.insert(k@, v),
            !old(self)@.contains_key(k@) && old(self).key_seq().len() == old(self).spec_capacity()
                ==> final(self)@ =~= old(self)@.remove(old(self).key_seq()[0]).insert(k@, v),
    {
        proof {
            use_type_invariant(&*self);
        }
        let mut es: Vec<(TileRequest, V)> = Vec::new();
        core::mem::swap(&mut es, &mut self.entries);
        let ghost es0 = es@;
        match find_entry(&es, &k) {
            Some(i) => {
                proof {
                    lemma_map_entries(es0);
                    lemma_remove_entry(es0, i as int);
                }
                let _old_entry = es.remove(i);
                proof {
                    lemma_push_entry(es@, k, v);
                    assert(map_of(es0).remove(k@).insert(k@, v) =~= map_of(es0).insert(k@, v));
                }
                es.push((k, v));
            },
            None => {
                if es.len() >= self.capacity {
                    proof {
                        lemma_map_entries(es0);
                        lemma_remove_entry(es0, 0);
                    }
                    let _evicted = es.remove(0);
                    proof {
                        assert(!map_of(es@).contains_key(k@)) by {
                            if map_of(es@).contains_key(k@) {
                                lemma_map_entries(es@);
                                let a = choose|a: int|
                                    0 <= a < es@.len() && keys_of(es@)[a] == k@;
                                assert(keys_of(es0)[a + 1] == k@);
                                lemma_map_entries(es0);
                            }
                        }
                        lemma_push_entry(es@, k, v);
                    }
                    es.push((k, v));
                } else {
                    proof {
                        lemma_push_entry(es0, k, v);
                    }
                    es.push((k, v));
                }
            },
        }
        core::mem::swap(&mut es, &mut self.entries);
    }
}

/// Whether two summary responses carry the same request and the same
/// mathematical tile value (or the same error text).
pub open spec fn summary_resp_matches(a: SummaryTileResponse, b: SummaryTileResponse) -> bool {
    &&& a.1@ == b.1@
    &&& match (a.0, b.0) {
        (Ok(x), Ok(y)) => x.entry_id@ == y.entry_id@ && x.tile_id == y.tile_id && x.data.dview()
            == y.data.dview(),
        (Err(x), Err(y)) => x@ == y@,
        _ => false,
    }
}

/// Whether two slot tile responses carry the same request and value.
pub open spec fn slot_resp_matches(a: SlotTileResponse, b: SlotTileResponse) -> bool {
    &&& a.1@ == b.1@
    &&& match (a.0, b.0) {
        (Ok(x), Ok(y)) => x.entry_id@ == y.entry_id@ && x.tile_id == y.tile_id && x.data.dview()
            == y.data.dview(),
        (Err(x), Err(y)) => x@ == y@,
        _ => false,
    }
}

/// Whether two metadata tile responses carry the same request and value.
pub open spec fn slot_meta_resp_matches(a: SlotMetaTileResponse, b: SlotMetaTileResponse) -> bool {
    &&& a.1@ == b.1@
    &&& match (a.0, b.0) {
        (Ok(x), Ok(y)) => x.entry_id@ == y.entry_id@ && x.tile_id == y.tile_id && x.data.dview()
            == y.data.dview(),
        (Err(x), Err(y)) => x@ == y@,
        _ => false,
    }
}

/// Whether some response in `arr` answers the request `kv`.
pub open spec fn arrived_req<T>(arr: Seq<(TileResult<T>, TileRequest)>, kv: TileReqV) -> bool {
    exists|j: int| 0 <= j < arr.len() && (#[trigger] arr[j]).1@ == kv
}

/// How draining settles a cache: every surviving entry is an old one or
/// stems from an arrival; entries untouched by arrivals keep their values;
/// an entry touched by arrivals matches one of them; and the last arrival's
/// request is cached.
pub open spec fn summary_cache_absorbed(
    old_m: Map<TileReqV, SummaryTileResponse>,
    new_m: Map<TileReqV, SummaryTileResponse>,
    arr: Seq<SummaryTileResponse>,
) -> bool {
    &&& forall|kv: TileReqV|
        #[trigger] new_m.contains_key(kv) ==> old_m.contains_key(kv) || arrived_req(arr, kv)
    &&& forall|kv: TileReqV|
        #[trigger] new_m.contains_key(kv) && !arrived_req(arr, kv) ==> old_m.contains_key(kv)
            && new_m[kv] == old_m[kv]
    &&& forall|kv: TileReqV|
        #[trigger] new_m.contains_key(kv) && arrived_req(arr, kv) ==> exists|j: int|
            0 <= j < arr.len() && (#[trigger] arr[j]).1@ == kv && summary_resp_matches(
                arr[j],
                new_m[kv],
            )
    &&& arr.len() > 0 ==> new_m.contains_key(arr.last().1@)
}

/// As `summary_cache_absorbed`, for slot tile responses.
pub open spec fn slot_cache_absorbed(
    old_m: Map<TileReqV, SlotTileResponse>,
    new_m: Map<TileReqV, SlotTileResponse>,
    arr: Seq<SlotTileResponse>,
) -> bool {
    &&& forall|kv: TileReqV|
        #[trigger] new_m.contains_key(kv) ==> old_m.contains_key(kv) || arrived_req(arr, kv)
    &&& forall|kv: TileReqV|
        #[trigger] new_m.contains_key(kv) && !arrived_req(arr, kv) ==> old_m.contains_key(kv)
            && new_m[kv] == old_m[kv]
    &&& forall|kv: TileReqV|
        #[trigger] new_m.contains_key(kv) && arrived_req(arr, kv) ==> exists|j: int|
            0 <= j < arr.len() && (#[trigger] arr[j]).1@ == kv && slot_resp_matches(
                arr[j],
                new_m[kv],
            )
    &&& arr.len() > 0 ==> new_m.contains_key(arr.last().1@)
}

/// As `summary_cache_absorbed`, for metadata tile responses.
pub open spec fn slot_meta_cache_absorbed(
    old_m: Map<TileReqV, SlotMetaTileResponse>,
    new_m: Map<TileReqV, SlotMetaTileResponse>,
    arr: Seq<SlotMetaTileResponse>,
) -> bool {
    &&& forall|kv: TileReqV|
        #[trigger] new_m.contains_key(kv) ==> old_m.contains_key(kv) || arrived_req(arr, kv)
    &&& forall|kv: TileReqV|
        #[trigger] new_m.contains_key(kv) && !arrived_req(arr, kv) ==> old_m.contains_key(kv)
            && new_m[kv] == old_m[kv]
    &&& forall|kv: TileReqV|
        #[trigger] new_m.contains_key(kv) && arrived_req(arr, kv) ==> exists|j: int|
            0 <= j < arr.len() && (#[trigger] arr[j]).1@ == kv && slot_meta_resp_matches(
                arr[j],
                new_m[kv],
            )
    &&& arr.len() > 0 ==> new_m.contains_key(arr.last().1@)
}


/// One put into the cache extends the absorbed relation by one arrival: the
/// new map is the old one with at most one entry evicted and the arrival's
/// request bound to a matching value.
proof fn lemma_absorb_step_summary(
    base: Map<TileReqV, SummaryTileResponse>,
    pre: Map<TileReqV, SummaryTileResponse>,
    post: Map<TileReqV, SummaryTileResponse>,
    prefix: Seq<SummaryTileResponse>,
    cur: Seq<SummaryTileResponse>,
    arrival: SummaryTileResponse,
    copy: SummaryTileResponse,
    evw: TileReqV,
)
    requires
        summary_cache_absorbed(base, pre, prefix),
        cur == prefix.push(arrival),
        summary_resp_matches(arrival, copy),
        copy.1@ == arrival.1@,
        post =~= pre.remove(evw).insert(arrival.1@, copy),
    ensures
        summary_cache_absorbed(base, post, cur),
{
    let kv = arrival.1@;
    assert forall|k: TileReqV| #[trigger] post.contains_key(k) implies base.contains_key(k)
        || arrived_req(cur, k) by {
        if k == kv {
            assert(cur[cur.len() - 1].1@ == k);
        } else {
            assert(pre.contains_key(k));
            if arrived_req(prefix, k) {
                let j = choose|j: int| 0 <= j < prefix.len() && (#[trigger] prefix[j]).1@ == k;
                assert(cur[j].1@ == k);
            }
        }
    }
    assert forall|k: TileReqV| #[trigger] post.contains_key(k) && !arrived_req(
        cur,
        k,
    ) implies base.contains_key(k) && post[k] == base[k] by {
        assert(cur[cur.len() - 1].1@ == kv);
        assert(k != kv);
        assert(pre.contains_key(k));
        assert(!arrived_req(prefix, k)) by {
            if arrived_req(prefix, k) {
                let j = choose|j: int| 0 <= j < prefix.len() && (#[trigger] prefix[j]).1@ == k;
                assert(cur[j].1@ == k);
            }
        }
    }
    assert forall|k: TileReqV| #[trigger] post.contains_key(k) && arrived_req(
        cur,
        k,
    ) implies exists|j: int|
        0 <= j < cur.len() && (#[trigger] cur[j]).1@ == k && summary_resp_matches(
            cur[j],
            post[k],
        ) by {
        if k == kv {
            assert(cur[cur.len() - 1].1@ == k && summary_resp_matches(
                cur[cur.len() - 1],
                post[k],
            ));
        } else {
            assert(pre.contains_key(k) && post[k] == pre[k]);
            assert(arrived_req(prefix, k)) by {
                let j = choose|j: int| 0 <= j < cur.len() && (#[trigger] cur[j]).1@ == k;
                assert(j < prefix.len());
                assert(prefix[j].1@ == k);
            }
            let j = choose|j: int|
                0 <= j < prefix.len() && (#[trigger] prefix[j]).1@ == k && summary_resp_matches(
                    prefix[j],
                    pre[k],
                );
            assert(cur[j].1@ == k && summary_resp_matches(cur[j], post[k]));
        }
    }
    assert(post.contains_key(cur.last().1@));
}

/// One put into the cache extends the absorbed relation by one arrival: the
/// new map is the old one with at most one entry evicted and the arrival's
/// request bound to a matching value.
proof fn lemma_absorb_step_slot(
    base: Map<TileReqV, SlotTileResponse>,
    pre: Map<TileReqV, SlotTileResponse>,
    post: Map<TileReqV, SlotTileResponse>,
    prefix: Seq<SlotTileResponse>,
    cur: Seq<SlotTileResponse>,
    arrival: SlotTileResponse,
    copy: SlotTileResponse,
    evw: TileReqV,
)
    requires
        slot_cache_absorbed(base, pre, prefix),
        cur == prefix.push(arrival),
        slot_resp_matches(arrival, copy),
        copy.1@ == arrival.1@,
        post =~= pre.remove(evw).insert(arrival.1@, copy),
    ensures
        slot_cache_absorbed(base, post, cur),
{
    let kv = arrival.1@;
    assert forall|k: TileReqV| #[trigger] post.contains_key(k) implies base.contains_key(k)
        || arrived_req(cur, k) by {
        if k == kv {
            assert(cur[cur.len() - 1].1@ == k);
        } else {
            assert(pre.contains_key(k));
            if arrived_req(prefix, k) {
                let j = choose|j: int| 0 <= j < prefix.len() && (#[trigger] prefix[j]).1@ == k;
                assert(cur[j].1@ == k);
            }
        }
    }
    assert forall|k: TileReqV| #[trigger] post.contains_key(k) && !arrived_req(
        cur,
        k,
    ) implies base.contains_key(k) && post[k] == base[k] by {
        assert(cur[cur.len() - 1].1@ == kv);
        assert(k != kv);
        assert(pre.contains_key(k));
        assert(!arrived_req(prefix, k)) by {
            if arrived_req(prefix, k) {
                let j = choose|j: int| 0 <= j < prefix.len() && (#[trigger] prefix[j]).1@ == k;
                assert(cur[j].1@ == k);
            }
        }
    }
    assert forall|k: TileReqV| #[trigger] post.contains_key(k) && arrived_req(
        cur,
        k,
    ) implies exists|j: int|
        0 <= j < cur.len() && (#[trigger] cur[j]).1@ == k && slot_resp_matches(
            cur[j],
            post[k],
        ) by {
        if k == kv {
            assert(cur[cur.len() - 1].1@ == k && slot_resp_matches(
                cur[cur.len() - 1],
                post[k],
            ));
        } else {
            assert(pre.contains_key(k) && post[k] == pre[k]);
            assert(arrived_req(prefix, k)) by {
                let j = choose|j: int| 0 <= j < cur.len() && (#[trigger] cur[j]).1@ == k;
                assert(j < prefix.len());
                assert(prefix[j].1@ == k);
            }
            let j = choose|j: int|
                0 <= j < prefix.len() && (#[trigger] prefix[j]).1@ == k && slot_resp_matches(
                    prefix[j],
                    pre[k],
                );
            assert(cur[j].1@ == k && slot_resp_matches(cur[j], post[k]));
        }
    }
    assert(post.contains_key(cur.last().1@));
}

/// One put into the cache extends the absorbed relation by one arrival: the
/// new map is the old one with at most one entry evicted and the arrival's
/// request bound to a matching value.
proof fn lemma_absorb_step_slot_meta(
    base: Map<TileReqV, SlotMetaTileResponse>,
    pre: Map<TileReqV, SlotMetaTileResponse>,
    post: Map<TileReqV, SlotMetaTileResponse>,
    prefix: Seq<SlotMetaTileResponse>,
    cur: Seq<SlotMetaTileResponse>,
    arrival: SlotMetaTileResponse,
    copy: SlotMetaTileResponse,
    evw: TileReqV,
)
    requires
        slot_meta_cache_absorbed(base, pre, prefix),
        cur == prefix.push(arrival),
        slot_meta_resp_matches(arrival, copy),
        copy.1@ == arrival.1@,
        post =~= pre.remove(evw).insert(arrival.1@, copy),
    ensures
        slot_meta_cache_absorbed(base, post, cur),
{
    let kv = arrival.1@;
    assert forall|k: TileReqV| #[trigger] post.contains_key(k) implies base.contains_key(k)
        || arrived_req(cur, k) by {
        if k == kv {
            assert(cur[cur.len() - 1].1@ == k);
        } else {
            assert(pre.contains_key(k));
            if arrived_req(prefix, k) {
                let j = choose|j: int| 0 <= j < prefix.len() && (#[trigger] prefix[j]).1@ == k;
                assert(cur[j].1@ == k);
            }
        }
    }
    assert forall|k: TileReqV| #[trigger] post.contains_key(k) && !arrived_req(
        cur,
        k,
    ) implies base.contains_key(k) && post[k] == base[k] by {
        assert(cur[cur.len() - 1].1@ == kv);
        assert(k != kv);
        assert(pre.contains_key(k));
        assert(!arrived_req(prefix, k)) by {
            if arrived_req(prefix, k) {
                let j = choose|j: int| 0 <= j < prefix.len() && (#[trigger] prefix[j]).1@ == k;
                assert(cur[j].1@ == k);
            }
        }
    }
    assert forall|k: TileReqV| #[trigger] post.contains_key(k) && arrived_req(
        cur,
        k,
    ) implies exists|j: int|
        0 <= j < cur.len() && (#[trigger] cur[j]).1@ == k && slot_meta_resp_matches(
            cur[j],
            post[k],
        ) by {
        if k == kv {
            assert(cur[cur.len() - 1].1@ == k && slot_meta_resp_matches(
                cur[cur.len() - 1],
                post[k],
            ));
        } else {
            assert(pre.contains_key(k) && post[k] == pre[k]);
            assert(arrived_req(prefix, k)) by {
                let j = choose|j: int| 0 <= j < cur.len() && (#[trigger] cur[j]).1@ == k;
                assert(j < prefix.len());
                assert(prefix[j].1@ == k);
            }
            let j = choose|j: int|
                0 <= j < prefix.len() && (#[trigger] prefix[j]).1@ == k && slot_meta_resp_matches(
                    prefix[j],
                    pre[k],
                );
            assert(cur[j].1@ == k && slot_meta_resp_matches(cur[j], post[k]));
        }
    }
    assert(post.contains_key(cur.last().1@));
}

/// Clone a summary response so a cache hit can be handed out again.
fn clone_summary_response(r: &SummaryTileResponse) -> (c: SummaryTileResponse)
    ensures
        summary_resp_matches(*r, c),
{
    let result = match &r.0 {
        Ok(t) => Ok(t.clone()),
        Err(e) => Err(e.clone()),
    };
    (result, r.1.clone())
}

/// Clone a slot tile response.
fn clone_slot_response(r: &SlotTileResponse) -> (c: SlotTileResponse)
    ensures
        slot_resp_matches(*r, c),
{
    let result = match &r.0 {
        Ok(t) => Ok(t.clone()),
        Err(e) => Err(e.clone()),
    };
    (result, r.1.clone())
}

/// Clone a metadata tile response.
fn clone_slot_meta_response(r: &SlotMetaTileResponse) -> (c: SlotMetaTileResponse)
    ensures
        slot_meta_resp_matches(*r, c),
{
    let result = match &r.0 {
        Ok(t) => Ok(t.clone()),
        Err(e) => Err(e.clone()),
    };
    (result, r.1.clone())
}

/// The default cache capacity per tile kind.
pub const LRU_CAPACITY: usize = 1024;

/// Serves repeated tile fetches from a bounded cache, one per tile kind: a
/// hit enqueues the cached response without a downstream call, a miss
/// forwards to the wrapped source, and arriving responses fill the cache.
/// Errors are cached too, so a failing tile does not thrash until the
/// viewport changes. Placed outside a counting wrapper, hits never count.
pub struct LruDeferredDataSource<T: DeferredDataSource> {
    data_source: T,
    summary_cache: LruMap<SummaryTileResponse>,
    slot_cache: LruMap<SlotTileResponse>,
    slot_meta_cache: LruMap<SlotMetaTileResponse>,
    summary_tiles: Vec<SummaryTileResponse>,
    slot_tiles: Vec<SlotTileResponse>,
    slot_meta_tiles: Vec<SlotMetaTileResponse>,
}

impl<T: DeferredDataSource> LruDeferredDataSource<T> {
    pub closed spec fn spec_summary_cache(&self) -> Map<TileReqV, SummaryTileResponse> {
        self.summary_cache@
    }

    pub closed spec fn spec_slot_cache(&self) -> Map<TileReqV, SlotTileResponse> {
        self.slot_cache@
    }

    pub closed spec fn spec_slot_meta_cache(&self) -> Map<TileReqV, SlotMetaTileResponse> {
        self.slot_meta_cache@
    }

    pub closed spec fn spec_summary_queue(&self) -> Seq<SummaryTileResponse> {
        self.summary_tiles@
    }

    pub closed spec fn spec_slot_queue(&self) -> Seq<SlotTileResponse> {
        self.slot_tiles@
    }

    pub closed spec fn spec_slot_meta_queue(&self) -> Seq<SlotMetaTileResponse> {
        self.slot_meta_tiles@
    }

    pub fn new(data_source: T, capacity: usize) -> (r: LruDeferredDataSource<T>)
        requires
            capacity >= 1,
        ensures
            r.spec_summary_cache() =~= Map::<TileReqV, SummaryTileResponse>::empty(),
            r.spec_slot_cache() =~= Map::<TileReqV, SlotTileResponse>::empty(),
            r.spec_slot_meta_cache() =~= Map::<TileReqV, SlotMetaTileResponse>::empty(),
            r.spec_summary_queue().len() == 0,
    {
        LruDeferredDataSource {
            data_source,
            summary_cache: LruMap::new(capacity),
            slot_cache: LruMap::new(capacity),
            slot_meta_cache: LruMap::new(capacity),
            summary_tiles: Vec::new(),
            slot_tiles: Vec::new(),
            slot_meta_tiles: Vec::new(),
        }
    }
}

impl<T: DeferredDataSource> DeferredDataSource for LruDeferredDataSource<T> {
    fn fetch_description(&self) -> DataSourceDescription {
        self.data_source.fetch_description()
    }

    fn fetch_info(&mut self) {
        self.data_source.fetch_info()
    }

    fn get_infos(&mut self) -> Vec<TileResult<DataSourceInfo>> {
        self.data_source.get_infos()
    }

    fn fetch_summary_tile(&mut self, entry_id: &EntryID, tile_id: TileID, full: bool)
        ensures
            final(self).spec_summary_cache() =~= old(self).spec_summary_cache(),
            final(self).spec_slot_cache() == old(self).spec_slot_cache(),
            final(self).spec_slot_meta_cache() == old(self).spec_slot_meta_cache(),
            final(self).spec_slot_queue() == old(self).spec_slot_queue(),
            final(self).spec_slot_meta_queue() == old(self).spec_slot_meta_queue(),
            old(self).spec_summary_cache().contains_key((entry_id@, tile_id, full)) ==> {
                &&& final(self).spec_summary_queue().len() == old(
                    self,
                ).spec_summary_queue().len() + 1
                &&& final(self).spec_summary_queue().subrange(
                    0,
                    old(self).spec_summary_queue().len() as int,
                ) == old(self).spec_summary_queue()
                &&& summary_resp_matches(
                    old(self).spec_summary_cache()[(entry_id@, tile_id, full)],
                    final(self).spec_summary_queue().last(),
                )
            },
            !old(self).spec_summary_cache().contains_key((entry_id@, tile_id, full))
                ==> final(self).spec_summary_queue() == old(self).spec_summary_queue(),
    {
        let req = TileRequest { entry_id: entry_id.clone(), tile_id, full };
        let hit = match self.summary_cache.get_hit(&req) {
            Some(resp) => Some(clone_summary_response(resp)),
            None => None,
        };
        match hit {
            Some(resp) => {
                self.summary_tiles.push(resp);
                proof {
                    assert(self.spec_summary_queue().subrange(
                        0,
                        old(self).spec_summary_queue().len() as int,
                    ) =~= old(self).spec_summary_queue());
                }
            },
            None => {
                self.data_source.fetch_summary_tile(entry_id, tile_id, full);
            },
        }
    }

    fn get_summary_tiles(&mut self) -> (r: Vec<SummaryTileResponse>)
        ensures
            final(self).spec_summary_queue().len() == 0,
            final(self).spec_slot_cache() == old(self).spec_slot_cache(),
            final(self).spec_slot_meta_cache() == old(self).spec_slot_meta_cache(),
            final(self).spec_slot_queue() == old(self).spec_slot_queue(),
            final(self).spec_slot_meta_queue() == old(self).spec_slot_meta_queue(),
            r@.len() >= old(self).spec_summary_queue().len(),
            forall|j: int|
                0 <= j < old(self).spec_summary_queue().len() ==> r@[j] == old(
                    self,
                ).spec_summary_queue()[j],
            summary_cache_absorbed(
                old(self).spec_summary_cache(),
                final(self).spec_summary_cache(),
                r@.subrange(old(self).spec_summary_queue().len() as int, r@.len() as int),
            ),
    {
        let arrived = self.data_source.get_summary_tiles();
        let n = arrived.len();
        let mut i: usize = 0;
        let mut arrived = arrived;
        let ghost arr = arrived@;
        while i < n
            invariant
                i <= n,
                n == arr.len(),
                arrived@ == arr,
                self.summary_tiles == old(self).summary_tiles,
                self.slot_tiles == old(self).slot_tiles,
                self.slot_meta_tiles == old(self).slot_meta_tiles,
                self.slot_cache == old(self).slot_cache,
                self.slot_meta_cache == old(self).slot_meta_cache,
                summary_cache_absorbed(
                    old(self).spec_summary_cache(),
                    self.spec_summary_cache(),
                    arr.subrange(0, i as int),
                ),
            decreases n - i,
        {
            let ghost pre = self.spec_summary_cache();
            let ghost preks = self.summary_cache.key_seq();
            proof {
                use_type_invariant(&self.summary_cache);
            }
            let ghost prefix = arr.subrange(0, i as int);
            let copy = clone_summary_response(&arrived[i]);
            let ghost copyg = copy;
            let key = arrived[i].1.clone();
            let ghost kv = key@;
            self.summary_cache.put(key, copy);
            proof {
                let cur = arr.subrange(0, i + 1);
                assert(cur.subrange(0, i as int) =~= prefix);
                assert(cur[i as int] == arr[i as int]);
                assert(cur =~= prefix.push(arr[i as int]));
                assert(kv == arr[i as int].1@);
                let evw = if !pre.contains_key(kv) && preks.len()
                    == self.summary_cache.spec_capacity() {
                    preks[0]
                } else {
                    kv
                };
                assert(self.spec_summary_cache() =~= pre.remove(evw).insert(kv, copyg)) by {
                    if pre.contains_key(kv) || preks.len()
                        < self.summary_cache.spec_capacity() {
                        assert(self.spec_summary_cache() =~= pre.insert(kv, copyg));
                        assert(pre.remove(kv).insert(kv, copyg) =~= pre.insert(kv, copyg));
                    }
                }
                lemma_absorb_step_summary(
                    old(self).spec_summary_cache(),
                    pre,
                    self.spec_summary_cache(),
                    prefix,
                    cur,
                    arr[i as int],
                    copyg,
                    evw,
                );
            }
            i = i + 1;
        }
        proof {
            assert(arr.subrange(0, n as int) =~= arr);
        }
        self.summary_tiles.append(&mut arrived);
        let mut out: Vec<SummaryTileResponse> = Vec::new();
        core::mem::swap(&mut out, &mut self.summary_tiles);
        proof {
            assert(out@ == old(self).spec_summary_queue() + arr);
            assert(out@.subrange(old(self).spec_summary_queue().len() as int, out@.len() as int)
                =~= arr);
        }
        out
    }

    fn fetch_slot_tile(&mut self, entry_id: &EntryID, tile_id: TileID, full: bool)
        ensures
            final(self).spec_slot_cache() =~= old(self).spec_slot_cache(),
            final(self).spec_summary_cache() == old(self).spec_summary_cache(),
            final(self).spec_slot_meta_cache() == old(self).spec_slot_meta_cache(),
            final(self).spec_summary_queue() == old(self).spec_summary_queue(),
            final(self).spec_slot_meta_queue() == old(self).spec_slot_meta_queue(),
            old(self).spec_slot_cache().contains_key((entry_id@, tile_id, full)) ==> {
                &&& final(self).spec_slot_queue().len() == old(self).spec_slot_queue().len() + 1
                &&& final(self).spec_slot_queue().subrange(
                    0,
                    old(self).spec_slot_queue().len() as int,
                ) == old(self).spec_slot_queue()
                &&& slot_resp_matches(
                    old(self).spec_slot_cache()[(entry_id@, tile_id, full)],
                    final(self).spec_slot_queue().last(),
                )
            },
            !old(self).spec_slot_cache().contains_key((entry_id@, tile_id, full))
                ==> final(self).spec_slot_queue() == old(self).spec_slot_queue(),
    {
        let req = TileRequest { entry_id: entry_id.clone(), tile_id, full };
        let hit = match self.slot_cache.get_hit(&req) {
            Some(resp) => Some(clone_slot_response(resp)),
            None => None,
        };
        match hit {
            Some(resp) => {
                self.slot_tiles.push(resp);
                proof {
                    assert(self.spec_slot_queue().subrange(
                        0,
                        old(self).spec_slot_queue().len() as int,
                    ) =~= old(self).spec_slot_queue());
                }
            },
            None => {
                self.data_source.fetch_slot_tile(entry_id, tile_id, full);
            },
        }
    }

    fn get_slot_tiles(&mut self) -> (r: Vec<SlotTileResponse>)
        ensures
            final(self).spec_slot_queue().len() == 0,
            final(self).spec_summary_cache() == old(self).spec_summary_cache(),
            final(self).spec_slot_meta_cache() == old(self).spec_slot_meta_cache(),
            final(self).spec_summary_queue() == old(self).spec_summary_queue(),
            final(self).spec_slot_meta_queue() == old(self).spec_slot_meta_queue(),
            r@.len() >= old(self).spec_slot_queue().len(),
            forall|j: int|
                0 <= j < old(self).spec_slot_queue().len() ==> r@[j] == old(
                    self,
                ).spec_slot_queue()[j],
            slot_cache_absorbed(
                old(self).spec_slot_cache(),
                final(self).spec_slot_cache(),
                r@.subrange(old(self).spec_slot_queue().len() as int, r@.len() as int),
            ),
    {
        let arrived = self.data_source.get_slot_tiles();
        let n = arrived.len();
        let mut i: usize = 0;
        let mut arrived = arrived;
        let ghost arr = arrived@;
        while i < n
            invariant
                i <= n,
                n == arr.len(),
                arrived@ == arr,
                self.slot_tiles == old(self).slot_tiles,
                self.summary_tiles == old(self).summary_tiles,
                self.slot_meta_tiles == old(self).slot_meta_tiles,
                self.summary_cache == old(self).summary_cache,
                self.slot_meta_cache == old(self).slot_meta_cache,
                slot_cache_absorbed(
                    old(self).spec_slot_cache(),
                    self.spec_slot_cache(),
                    arr.subrange(0, i as int),
                ),
            decreases n - i,
        {
            let ghost pre = self.spec_slot_cache();
            let ghost preks = self.slot_cache.key_seq();
            proof {
                use_type_invariant(&self.slot_cache);
            }
            let ghost prefix = arr.subrange(0, i as int);
            let copy = clone_slot_response(&arrived[i]);
            let ghost copyg = copy;
            let key = arrived[i].1.clone();
            let ghost kv = key@;
            self.slot_cache.put(key, copy);
            proof {
                let cur = arr.subrange(0, i + 1);
                assert(cur.subrange(0, i as int) =~= prefix);
                assert(cur[i as int] == arr[i as int]);
                assert(cur =~= prefix.push(arr[i as int]));
                assert(kv == arr[i as int].1@);
                let evw = if !pre.contains_key(kv) && preks.len()
                    == self.slot_cache.spec_capacity() {
                    preks[0]
                } else {
                    kv
                };
                assert(self.spec_slot_cache() =~= pre.remove(evw).insert(kv, copyg)) by {
                    if pre.contains_key(kv) || preks.len() < self.slot_cache.spec_capacity() {
                        assert(self.spec_slot_cache() =~= pre.insert(kv, copyg));
                        assert(pre.remove(kv).insert(kv, copyg) =~= pre.insert(kv, copyg));
                    }
                }
                lemma_absorb_step_slot(
                    old(self).spec_slot_cache(),
                    pre,
                    self.spec_slot_cache(),
                    prefix,
                    cur,
                    arr[i as int],
                    copyg,
                    evw,
                );
            }
            i = i + 1;
        }
        proof {
            assert(arr.subrange(0, n as int) =~= arr);
        }
        self.slot_tiles.append(&mut arrived);
        let mut out: Vec<SlotTileResponse> = Vec::new();
        core::mem::swap(&mut out, &mut self.slot_tiles);
        proof {
            assert(out@ == old(self).spec_slot_queue() + arr);
            assert(out@.subrange(old(self).spec_slot_queue().len() as int, out@.len() as int)
                =~= arr);
        }
        out
    }

    fn fetch_slot_meta_tile(&mut self, entry_id: &EntryID, tile_id: TileID, full: bool)
        ensures
            final(self).spec_slot_meta_cache() =~= old(self).spec_slot_meta_cache(),
            final(self).spec_summary_cache() == old(self).spec_summary_cache(),
            final(self).spec_slot_cache() == old(self).spec_slot_cache(),
            final(self).spec_summary_queue() == old(self).spec_summary_queue(),
            final(self).spec_slot_queue() == old(self).spec_slot_queue(),
            old(self).spec_slot_meta_cache().contains_key((entry_id@, tile_id, full)) ==> {
                &&& final(self).spec_slot_meta_queue().len() == old(self).spec_slot_meta_queue().len() + 1
                &&& final(self).spec_slot_meta_queue().subrange(
                    0,
                    old(self).spec_slot_meta_queue().len() as int,
                ) == old(self).spec_slot_meta_queue()
                &&& slot_meta_resp_matches(
                    old(self).spec_slot_meta_cache()[(entry_id@, tile_id, full)],
                    final(self).spec_slot_meta_queue().last(),
                )
            },
            !old(self).spec_slot_meta_cache().contains_key((entry_id@, tile_id, full))
                ==> final(self).spec_slot_meta_queue() == old(self).spec_slot_meta_queue(),
    {
        let req = TileRequest { entry_id: entry_id.clone(), tile_id, full };
        let hit = match self.slot_meta_cache.get_hit(&req) {
            Some(resp) => Some(clone_slot_meta_response(resp)),
            None => None,
        };
        match hit {
            Some(resp) => {
                self.slot_meta_tiles.push(resp);
                proof {
                    assert(self.spec_slot_meta_queue().subrange(
                        0,
                        old(self).spec_slot_meta_queue().len() as int,
                    ) =~= old(self).spec_slot_meta_queue());
                }
            },
            None => {
                self.data_source.fetch_slot_meta_tile(entry_id, tile_id, full);
            },
        }
    }

    fn get_slot_meta_tiles(&mut self) -> (r: Vec<SlotMetaTileResponse>)
        ensures
            final(self).spec_slot_meta_queue().len() == 0,
            final(self).spec_summary_cache() == old(self).spec_summary_cache(),
            final(self).spec_slot_cache() == old(self).spec_slot_cache(),
            final(self).spec_summary_queue() == old(self).spec_summary_queue(),
            final(self).spec_slot_queue() == old(self).spec_slot_queue(),
            r@.len() >= old(self).spec_slot_meta_queue().len(),
            forall|j: int|
                0 <= j < old(self).spec_slot_meta_queue().len() ==> r@[j] == old(
                    self,
                ).spec_slot_meta_queue()[j],
            slot_meta_cache_absorbed(
                old(self).spec_slot_meta_cache(),
                final(self).spec_slot_meta_cache(),
                r@.subrange(old(self).spec_slot_meta_queue().len() as int, r@.len() as int),
            ),
    {
        let arrived = self.data_source.get_slot_meta_tiles();
        let n = arrived.len();
        let mut i: usize = 0;
        let mut arrived = arrived;
        let ghost arr = arrived@;
        while i < n
            invariant
                i <= n,
                n == arr.len(),
                arrived@ == arr,
                self.slot_meta_tiles == old(self).slot_meta_tiles,
                self.summary_tiles == old(self).summary_tiles,
                self.slot_tiles == old(self).slot_tiles,
                self.summary_cache == old(self).summary_cache,
                self.slot_cache == old(self).slot_cache,
                slot_meta_cache_absorbed(
                    old(self).spec_slot_meta_cache(),
                    self.spec_slot_meta_cache(),
                    arr.subrange(0, i as int),
                ),
            decreases n - i,
        {
            let ghost pre = self.spec_slot_meta_cache();
            let ghost preks = self.slot_meta_cache.key_seq();
            proof {
                use_type_invariant(&self.slot_meta_cache);
            }
            let ghost prefix = arr.subrange(0, i as int);
            let copy = clone_slot_meta_response(&arrived[i]);
            let ghost copyg = copy;
            let key = arrived[i].1.clone();
            let ghost kv = key@;
            self.slot_meta_cache.put(key, copy);
            proof {
                let cur = arr.subrange(0, i + 1);
                assert(cur.subrange(0, i as int) =~= prefix);
                assert(cur[i as int] == arr[i as int]);
                assert(cur =~= prefix.push(arr[i as int]));
                assert(kv == arr[i as int].1@);
                let evw = if !pre.contains_key(kv) && preks.len()
                    == self.slot_meta_cache.spec_capacity() {
                    preks[0]
                } else {
                    kv
                };
                assert(self.spec_slot_meta_cache() =~= pre.remove(evw).insert(kv, copyg)) by {
                    if pre.contains_key(kv) || preks.len() < self.slot_meta_cache.spec_capacity() {
                        assert(self.spec_slot_meta_cache() =~= pre.insert(kv, copyg));
                        assert(pre.remove(kv).insert(kv, copyg) =~= pre.insert(kv, copyg));
                    }
                }
                lemma_absorb_step_slot_meta(
                    old(self).spec_slot_meta_cache(),
                    pre,
                    self.spec_slot_meta_cache(),
                    prefix,
                    cur,
                    arr[i as int],
                    copyg,
                    evw,
                );
            }
            i = i + 1;
        }
        proof {
            assert(arr.subrange(0, n as int) =~= arr);
        }
        self.slot_meta_tiles.append(&mut arrived);
        let mut out: Vec<SlotMetaTileResponse> = Vec::new();
        core::mem::swap(&mut out, &mut self.slot_meta_tiles);
        proof {
            assert(out@ == old(self).spec_slot_meta_queue() + arr);
            assert(out@.subrange(old(self).spec_slot_meta_queue().len() as int, out@.len() as int)
                =~= arr);
        }
        out
    }
}

} // verus!

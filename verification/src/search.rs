//! Search over item metadata: query state, the cache invalidation policy,
//! match semantics (substring or whole word, recursing through nested
//! fields), and the bounded per-entry/per-tile result cache.

use vstd::prelude::*;

use crate::data::Field;
use crate::data::FieldID;
use crate::data::FieldV;
use crate::data::ItemMeta;
use crate::data::ItemMetaV;
use crate::data::ItemUID;
use crate::data::EntryID;
use crate::data::EntryIndex;
use crate::data::TileID;
use crate::map::AssocMap;
use crate::map::MapKey;
use crate::text::contains_seq;
use crate::text::chars_of;
use crate::text::spec_contains_seq;
use crate::timestamp::Interval;

verus! {

broadcast use vstd::seq::group_seq_axioms;

/// What it means for `s` to contain `q` as a whole word: the result of the
/// word-boundary regex match, a function of the two strings alone.
pub uninterp spec fn word_match(q: Seq<char>, s: Seq<char>) -> bool;

/// Relies on `regex::Regex::is_match` with the pattern built by wrapping the
/// `regex::escape`d query in word-boundary anchors: whether `s` holds the
/// query as a whole word. `escape`'s result is documented to be a valid
/// literal pattern, so compilation succeeds.
#[verifier::external_body]
fn is_word_match(q: &str, s: &str) -> (r: bool)
    ensures
        r == word_match(q@, s@),
{
    let pattern = format!("\\b{}\\b", regex::escape(q));
    regex::Regex::new(&pattern).map(|re| re.is_match(s)).unwrap_or(false)
}

/// Whether `s` matches the query: substring, or whole word when asked.
pub open spec fn spec_string_match(query: Seq<char>, whole: bool, s: Seq<char>) -> bool {
    if whole {
        word_match(query, s)
    } else {
        spec_contains_seq(s, query)
    }
}

/// Whether a field value matches: text and link titles by their text, lists
/// by any element, every other kind never.
pub open spec fn spec_field_match(query: Seq<char>, whole: bool, f: FieldV) -> bool
    decreases f,
{
    match f {
        FieldV::String(s) => spec_string_match(query, whole, s),
        FieldV::ItemLink(l) => spec_string_match(query, whole, l.title),
        FieldV::Vec(fs) => spec_any_field_match(query, whole, fs),
        _ => false,
    }
}

/// Whether any element of a list matches.
pub open spec fn spec_any_field_match(query: Seq<char>, whole: bool, fs: Seq<FieldV>) -> bool
    decreases fs,
    via spec_any_field_match_decreases
{
    if fs.len() == 0 {
        false
    } else {
        spec_field_match(query, whole, fs[0]) || spec_any_field_match(
            query,
            whole,
            fs.subrange(1, fs.len() as int),
        )
    }
}

#[via_fn]
proof fn spec_any_field_match_decreases(query: Seq<char>, whole: bool, fs: Seq<FieldV>) {
    if fs.len() > 0 {
        vstd::seq::axiom_seq_index_decreases(fs, 0);
        vstd::seq::axiom_seq_subrange_decreases(fs, 1, fs.len() as int);
    }
}

/// The first field with the given identifier, if any.
pub open spec fn spec_find_field(fields: Seq<crate::data::ItemFieldV>, id: FieldID) -> Option<
    FieldV,
>
    decreases fields.len(),
{
    if fields.len() == 0 {
        None
    } else if fields[0].id == id {
        Some(fields[0].value)
    } else {
        spec_find_field(fields.subrange(1, fields.len() as int), id)
    }
}

/// Whether an item matches: by its title when the search field is the title
/// field, else by its first field with the searched identifier.
pub open spec fn spec_item_match(
    query: Seq<char>,
    whole: bool,
    search_field: FieldID,
    title_field: FieldID,
    item: ItemMetaV,
) -> bool {
    if search_field == title_field {
        spec_string_match(query, whole, item.title)
    } else {
        match spec_find_field(item.fields, search_field) {
            Some(f) => spec_field_match(query, whole, f),
            None => false,
        }
    }
}

/// A cached search hit: enough to display it and scroll to it.
#[derive(Debug)]
pub struct SearchCacheItem {
    pub item_uid: ItemUID,
    pub title: String,
    pub interval: Interval,
    pub irow: usize,
}

/// The most results a search will collect.
pub const MAX_SEARCH_RESULTS: usize = 100000;

/// The search state: the query knobs, their last-observed copies, and the
/// result cache, keyed by entry, then tile, then item.
pub struct SearchState {
    title_field: FieldID,
    pub query: String,
    last_query: String,
    pub search_field: FieldID,
    last_search_field: FieldID,
    pub whole_word: bool,
    last_whole_word: bool,
    pub include_collapsed_entries: bool,
    last_include_collapsed_entries: bool,
    last_view_interval: Option<Interval>,
    result_set: AssocMap<ItemUID, ()>,
    result_cache: AssocMap<EntryID, AssocMap<TileID, AssocMap<ItemUID, SearchCacheItem>>>,
    entry_tree: AssocMap<u64, AssocMap<u64, AssocMap<u64, ()>>>,
}

/// The grouped display tree: the first three slot positions of each entry
/// with results.
pub type EntryTree = AssocMap<u64, AssocMap<u64, AssocMap<u64, ()>>>;

/// Whether the tree holds the path `(l0, l1, l2)`.
pub open spec fn tree_has(tree: Map<u64, AssocMap<u64, AssocMap<u64, ()>>>, l0: u64, l1: u64, l2: u64) -> bool {
    tree.contains_key(l0) && tree[l0]@.contains_key(l1) && tree[l0]@[l1]@.contains_key(l2)
}

impl SearchState {
    pub closed spec fn spec_title_field(&self) -> FieldID {
        self.title_field
    }

    pub closed spec fn spec_query(&self) -> Seq<char> {
        self.query@
    }

    pub closed spec fn spec_whole_word(&self) -> bool {
        self.whole_word
    }

    pub closed spec fn spec_search_field(&self) -> FieldID {
        self.search_field
    }

    pub closed spec fn spec_include_collapsed(&self) -> bool {
        self.include_collapsed_entries
    }

    pub closed spec fn spec_last(&self) -> (Seq<char>, FieldID, bool, bool, Option<Interval>) {
        (
            self.last_query@,
            self.last_search_field,
            self.last_whole_word,
            self.last_include_collapsed_entries,
            self.last_view_interval,
        )
    }

    /// The set of items found so far.
    pub closed spec fn spec_results(&self) -> Map<ItemUID, ()> {
        self.result_set@
    }

    /// How many items were found so far.
    pub closed spec fn spec_result_count(&self) -> nat {
        self.result_set.key_seq().len()
    }

    /// The per-entry, per-tile cache.
    pub closed spec fn spec_cache(&self) -> Map<
        Seq<EntryIndex>,
        AssocMap<TileID, AssocMap<ItemUID, SearchCacheItem>>,
    > {
        self.result_cache@
    }

    /// The stores are well-formed and the result set never exceeds the
    /// bound.
    pub closed spec fn wf(&self) -> bool {
        &&& self.result_set.wf()
        &&& self.result_cache.wf()
        &&& self.spec_result_count() <= MAX_SEARCH_RESULTS
        &&& forall|e: Seq<EntryIndex>|
            #[trigger] self.result_cache@.contains_key(e) ==> self.result_cache@[e].wf()
        &&& forall|e: Seq<EntryIndex>, t: TileID|
            #![trigger self.result_cache@[e]@[t]]
            self.result_cache@.contains_key(e) && self.result_cache@[e]@.contains_key(t)
                ==> self.result_cache@[e]@[t].wf()
        &&& self.entry_tree.wf()
        &&& forall|l0: u64|
            #[trigger] self.entry_tree@.contains_key(l0) ==> self.entry_tree@[l0].wf()
        &&& forall|l0: u64, l1: u64|
            #![trigger self.entry_tree@[l0]@[l1]]
            self.entry_tree@.contains_key(l0) && self.entry_tree@[l0]@.contains_key(l1)
                ==> self.entry_tree@[l0]@[l1].wf()
    }

    /// The grouped display tree built by `build_entry_tree`.
    pub closed spec fn spec_tree(&self) -> Map<u64, AssocMap<u64, AssocMap<u64, ()>>> {
        self.entry_tree@
    }

    /// The result-set bound, as spec.
    pub open spec fn result_bound_ok(&self) -> bool {
        self.spec_result_count() <= MAX_SEARCH_RESULTS
    }

    /// The bound holds in every well-formed state: the result set never
    /// outgrows the limit, whatever sequence of searches produced it.
    pub proof fn lemma_result_bound(&self)
        requires
            self.wf(),
        ensures
            self.result_bound_ok(),
    {
    }

    pub fn new(title_field: FieldID) -> (r: SearchState)
        ensures
            r.wf(),
            r.spec_title_field() == title_field,
            r.spec_search_field() == title_field,
            r.spec_query().len() == 0,
            !r.spec_whole_word(),
            !r.spec_include_collapsed(),
            r.spec_results() =~= Map::<ItemUID, ()>::empty(),
            r.spec_cache() =~= Map::<
                Seq<EntryIndex>,
                AssocMap<TileID, AssocMap<ItemUID, SearchCacheItem>>,
            >::empty(),
            r.spec_result_count() == 0,
    {
        SearchState {
            title_field,
            query: String::new(),
            last_query: String::new(),
            search_field: title_field,
            last_search_field: title_field,
            whole_word: false,
            last_whole_word: false,
            include_collapsed_entries: false,
            last_include_collapsed_entries: false,
            last_view_interval: None,
            result_set: AssocMap::new(),
            result_cache: AssocMap::new(),
            entry_tree: AssocMap::new(),
        }
    }

    /// How many distinct items have been found.
    pub fn result_count(&self) -> (r: usize)
        ensures
            r == self.spec_result_count(),
    {
        self.result_set.len()
    }

    /// Whether an item is among the results, for highlighting.
    pub fn contains_result(&self, item_uid: ItemUID) -> (r: bool)
        requires
            self.wf(),
        ensures
            r == self.spec_results().contains_key(item_uid),
    {
        self.result_set.contains_key(&item_uid)
    }

    /// Drop all cached results.
    pub fn clear(&mut self)
        ensures
            final(self).wf(),
            final(self).spec_results() =~= Map::<ItemUID, ()>::empty(),
            final(self).spec_cache() =~= Map::<
                Seq<EntryIndex>,
                AssocMap<TileID, AssocMap<ItemUID, SearchCacheItem>>,
            >::empty(),
            final(self).spec_tree() =~= Map::<u64, AssocMap<u64, AssocMap<u64, ()>>>::empty(),
            final(self).spec_result_count() == 0,
            final(self).spec_query() == old(self).spec_query(),
            final(self).spec_search_field() == old(self).spec_search_field(),
            final(self).spec_whole_word() == old(self).spec_whole_word(),
            final(self).spec_include_collapsed() == old(self).spec_include_collapsed(),
            final(self).spec_title_field() == old(self).spec_title_field(),
            final(self).spec_last() == old(self).spec_last(),
    {
        self.result_set = AssocMap::new();
        self.result_cache = AssocMap::new();
        self.entry_tree = AssocMap::new();
    }

    /// Whether the knobs demand dropping the cache: the query, the search
    /// field or the whole-word flag changed; the view interval changed; or
    /// the include-collapsed flag was switched off, shrinking the searched
    /// domain. Enlarging the domain keeps the cache: search only grows.
    pub open spec fn spec_invalidate_needed(&self, view: Interval) -> bool {
        ||| self.spec_query() != self.spec_last().0
        ||| self.spec_search_field() != self.spec_last().1
        ||| self.spec_whole_word() != self.spec_last().2
        ||| (self.spec_last().3 && !self.spec_include_collapsed())
        ||| self.spec_last().4 != Some(view)
    }

    /// Compare the knobs with their last-observed copies, dropping the cache
    /// when the policy requires it, and remember the current knobs.
    pub fn ensure_valid_cache(&mut self, view_interval: Interval)
        requires
            old(self).wf(),
        ensures
            final(self).wf(),
            final(self).spec_query() == old(self).spec_query(),
            final(self).spec_search_field() == old(self).spec_search_field(),
            final(self).spec_whole_word() == old(self).spec_whole_word(),
            final(self).spec_include_collapsed() == old(self).spec_include_collapsed(),
            final(self).spec_title_field() == old(self).spec_title_field(),
            final(self).spec_last() == (
                old(self).spec_query(),
                old(self).spec_search_field(),
                old(self).spec_whole_word(),
                old(self).spec_include_collapsed(),
                Some(view_interval),
            ),
            old(self).spec_invalidate_needed(view_interval) ==> final(self).spec_results()
                =~= Map::<ItemUID, ()>::empty() && final(self).spec_result_count() == 0
                && final(self).spec_cache() =~= Map::<
                Seq<EntryIndex>,
                AssocMap<TileID, AssocMap<ItemUID, SearchCacheItem>>,
            >::empty() && final(self).spec_tree() =~= Map::<
                u64,
                AssocMap<u64, AssocMap<u64, ()>>,
            >::empty(),
            !old(self).spec_invalidate_needed(view_interval) ==> final(self).spec_results()
                == old(self).spec_results() && final(self).spec_cache() == old(self).spec_cache()
                && final(self).spec_tree() == old(self).spec_tree()
                && final(self).spec_result_count() == old(self).spec_result_count(),
    {
        let mut invalidate = false;
        if !crate::data::str_eq(self.query.as_str(), self.last_query.as_str()) {
            invalidate = true;
        }
        if self.search_field.0 != self.last_search_field.0 {
            invalidate = true;
        }
        if self.whole_word != self.last_whole_word {
            invalidate = true;
        }
        if self.last_include_collapsed_entries && !self.include_collapsed_entries {
            invalidate = true;
        }
        let view_same = match self.last_view_interval {
            Some(prev) => prev.start.0 == view_interval.start.0 && prev.stop.0
                == view_interval.stop.0,
            None => false,
        };
        if !view_same {
            invalidate = true;
        }
        self.last_query = self.query.clone();
        self.last_search_field = self.search_field;
        self.last_whole_word = self.whole_word;
        self.last_include_collapsed_entries = self.include_collapsed_entries;
        self.last_view_interval = Some(view_interval);
        if invalidate {
            self.clear();
        }
    }

    /// Whether `s` matches the current query.
    pub fn is_string_match(&self, s: &str) -> (r: bool)
        ensures
            r == spec_string_match(self.spec_query(), self.spec_whole_word(), s@),
    {
        if self.whole_word {
            is_word_match(self.query.as_str(), s)
        } else {
            let hay = chars_of(s);
            let needle = chars_of(self.query.as_str());
            contains_seq(&hay, &needle)
        }
    }

    /// Whether a field value matches the current query.
    pub fn is_field_match(&self, field: &Field) -> (r: bool)
        ensures
            r == spec_field_match(self.spec_query(), self.spec_whole_word(), field.dview()),
        decreases field,
    {
        match field {
            Field::String(s) => self.is_string_match(s.as_str()),
            Field::ItemLink(l) => self.is_string_match(l.title.as_str()),
            Field::Vec(v) => {
                proof {
                    crate::data::lemma_seq_dview(v@);
                }
                let ghost fs = crate::data::seq_dview(v@);
                proof {
                    assert(fs.subrange(0, fs.len() as int) =~= fs);
                }
                let mut i: usize = 0;
                while i < v.len()
                    invariant
                        fs == crate::data::seq_dview(v@),
                        fs.len() == v@.len(),
                        field.dview() == FieldV::Vec(fs),
                        forall|j: int| 0 <= j < fs.len() ==> fs[j] == v@[j].dview(),
                        i <= v@.len(),
                        spec_any_field_match(self.spec_query(), self.spec_whole_word(), fs)
                            == spec_any_field_match(
                            self.spec_query(),
                            self.spec_whole_word(),
                            fs.subrange(i as int, fs.len() as int),
                        ),
                        decreases_to!(*field => *v),
                    decreases v@.len() - i,
                {
                    proof {
                        broadcast use vstd::std_specs::vec::group_vec_axioms;

                        assert(decreases_to!(*v => v@));
                        assert(decreases_to!(v@ => v@[i as int]));
                    }
                    let ghost rest = fs.subrange(i as int, fs.len() as int);
                    if self.is_field_match(&v[i]) {
                        proof {
                            assert(rest[0] == fs[i as int]);
                        }
                        return true;
                    }
                    proof {
                        assert(rest[0] == fs[i as int]);
                        assert(rest.subrange(1, rest.len() as int) =~= fs.subrange(
                            i + 1,
                            fs.len() as int,
                        ));
                    }
                    i = i + 1;
                }
                proof {
                    assert(fs.subrange(i as int, fs.len() as int) =~= Seq::<FieldV>::empty());
                }
                false
            },
            _ => false,
        }
    }

    /// Whether an item matches the current query on the current search
    /// field.
    pub fn is_match(&self, item: &ItemMeta) -> (r: bool)
        ensures
            r == spec_item_match(
                self.spec_query(),
                self.spec_whole_word(),
                self.spec_search_field(),
                self.spec_title_field(),
                item.dview(),
            ),
    {
        if self.search_field.0 == self.title_field.0 {
            self.is_string_match(item.title.as_str())
        } else {
            let ghost fields_v = item.dview().fields;
            proof {
                assert(fields_v.subrange(0, fields_v.len() as int) =~= fields_v);
            }
            let mut i: usize = 0;
            while i < item.fields.len()
                invariant
                    self.spec_search_field() != self.spec_title_field(),
                    fields_v == item.dview().fields,
                    fields_v.len() == item.fields@.len(),
                    forall|j: int|
                        0 <= j < fields_v.len() ==> fields_v[j] == (
                        #[trigger] item.fields@[j]).dview(),
                    i <= item.fields@.len(),
                    spec_find_field(fields_v, self.spec_search_field()) == spec_find_field(
                        fields_v.subrange(i as int, fields_v.len() as int),
                        self.spec_search_field(),
                    ),
                decreases item.fields@.len() - i,
            {
                let ghost rest = fields_v.subrange(i as int, fields_v.len() as int);
                proof {
                    assert(rest[0] == fields_v[i as int]);
                    assert(rest.subrange(1, rest.len() as int) =~= fields_v.subrange(
                        i + 1,
                        fields_v.len() as int,
                    ));
                }
                if item.fields[i].0.0 == self.search_field.0 {
                    proof {
                        assert(rest[0] == fields_v[i as int]);
                        assert(fields_v[i as int].id == self.spec_search_field());
                        assert(spec_find_field(rest, self.spec_search_field()) == Some(
                            rest[0].value,
                        ));
                        assert(fields_v[i as int].value == item.fields@[i as int].1.dview());
                    }
                    return self.is_field_match(&item.fields[i].1);
                }
                i = i + 1;
            }
            proof {
                assert(fields_v.subrange(i as int, fields_v.len() as int)
                    =~= Seq::<crate::data::ItemFieldV>::empty());
            }
            false
        }
    }

    /// Begin searching an entry: make room in the cache for it and say
    /// whether the search should proceed, which it does unless the result
    /// set is full.
    pub fn start_entry(&mut self, entry_id: &EntryID) -> (r: bool)
        requires
            old(self).wf(),
        ensures
            final(self).wf(),
            r == (old(self).spec_result_count() < MAX_SEARCH_RESULTS),
            final(self).spec_results() == old(self).spec_results(),
            final(self).spec_result_count() == old(self).spec_result_count(),
            r ==> final(self).spec_cache().contains_key(entry_id@),
            r && old(self).spec_cache().contains_key(entry_id@) ==> final(self).spec_cache()
                == old(self).spec_cache(),
            r && !old(self).spec_cache().contains_key(entry_id@) ==> final(self).spec_cache()
                =~= old(self).spec_cache().insert(
                entry_id@,
                final(self).spec_cache()[entry_id@],
            ) && final(self).spec_cache()[entry_id@]@ =~= Map::<
                TileID,
                AssocMap<ItemUID, SearchCacheItem>,
            >::empty(),
            !r ==> final(self).spec_cache() == old(self).spec_cache(),
            final(self).spec_query() == old(self).spec_query(),
            final(self).spec_whole_word() == old(self).spec_whole_word(),
            final(self).spec_search_field() == old(self).spec_search_field(),
            final(self).spec_title_field() == old(self).spec_title_field(),
    {
        if self.result_set.len() >= MAX_SEARCH_RESULTS {
            return false;
        }
        if !self.result_cache.contains_key(entry_id) {
            let inner: AssocMap<TileID, AssocMap<ItemUID, SearchCacheItem>> = AssocMap::new();
            self.result_cache.insert(entry_id.key_clone(), inner);
        }
        true
    }

    /// Begin searching one tile of an entry: say whether the tile still
    /// needs processing, and remember that it was processed. A tile already
    /// in the cache is skipped; each tile is processed at most once per
    /// cache lifetime.
    pub fn start_tile(&mut self, entry_id: &EntryID, tile_id: TileID) -> (r: bool)
        requires
            old(self).wf(),
            old(self).spec_cache().contains_key(entry_id@),
        ensures
            final(self).wf(),
            final(self).spec_results() == old(self).spec_results(),
            final(self).spec_result_count() == old(self).spec_result_count(),
            old(self).spec_result_count() >= MAX_SEARCH_RESULTS ==> !r && final(self).spec_cache()
                == old(self).spec_cache(),
            old(self).spec_result_count() < MAX_SEARCH_RESULTS ==> {
                &&& r == !old(self).spec_cache()[entry_id@]@.contains_key(tile_id)
                &&& final(self).spec_cache().contains_key(entry_id@)
                &&& r ==> final(self).spec_cache()[entry_id@]@ =~= old(self).spec_cache()[entry_id@]@.insert(
                    tile_id,
                    final(self).spec_cache()[entry_id@]@[tile_id],
                ) && final(self).spec_cache()[entry_id@]@[tile_id]@ =~= Map::<
                    ItemUID,
                    SearchCacheItem,
                >::empty()
                &&& !r ==> final(self).spec_cache() == old(self).spec_cache()
            },
            final(self).spec_query() == old(self).spec_query(),
            final(self).spec_whole_word() == old(self).spec_whole_word(),
            final(self).spec_search_field() == old(self).spec_search_field(),
            final(self).spec_title_field() == old(self).spec_title_field(),
    {
        if self.result_set.len() >= MAX_SEARCH_RESULTS {
            return false;
        }
        let taken = self.result_cache.remove(entry_id);
        match taken {
            Some(mut tiles) => {
                proof {
                    assert(tiles == old(self).result_cache@[entry_id@]);
                    assert(tiles.wf());
                }
                let fresh = !tiles.contains_key(&tile_id);
                if fresh {
                    let uids: AssocMap<ItemUID, SearchCacheItem> = AssocMap::new();
                    tiles.insert(tile_id, uids);
                }
                let ghost newtiles = tiles;
                self.result_cache.insert(entry_id.key_clone(), tiles);
                proof {
                    assert(self.result_cache@ =~= old(self).result_cache@.remove(
                        entry_id@,
                    ).insert(entry_id@, newtiles));
                    if !fresh {
                        assert(newtiles == old(self).result_cache@[entry_id@]);
                        assert(self.result_cache@ =~= old(self).result_cache@);
                    }
                    assert forall|e: Seq<EntryIndex>| #[trigger]
                        self.result_cache@.contains_key(e) implies self.result_cache@[e].wf() by {
                        if e != entry_id@ {
                            assert(self.result_cache@[e] == old(self).result_cache@[e]);
                        }
                    }
                    assert forall|e: Seq<EntryIndex>, t: TileID|
                        self.result_cache@.contains_key(e) && self.result_cache@[e]@.contains_key(
                            t,
                        ) implies (#[trigger] self.result_cache@[e]@[t]).wf() by {
                        if e != entry_id@ {
                            assert(self.result_cache@[e] == old(self).result_cache@[e]);
                            assert(old(self).result_cache@[e]@[t].wf());
                        } else {
                            if fresh && t == tile_id {
                            } else {
                                assert(newtiles@[t] == old(self).result_cache@[entry_id@]@[t]);
                                assert(old(self).result_cache@[entry_id@]@[t].wf());
                            }
                        }
                    }
                }
                fresh
            },
            None => {
                proof {
                    assert(false);
                }
                false
            },
        }
    }

    /// Record a match found in a tile. A new item grows the result set by
    /// one, up to the bound; an item found before is not recorded twice.
    pub fn insert(&mut self, entry_id: &EntryID, tile_id: TileID, irow: usize, item: &ItemMeta)
        requires
            old(self).wf(),
            old(self).spec_cache().contains_key(entry_id@),
            old(self).spec_cache()[entry_id@]@.contains_key(tile_id),
        ensures
            final(self).wf(),
            final(self).spec_result_count() >= old(self).spec_result_count(),
            forall|u: ItemUID|
                old(self).spec_results().contains_key(u)
                    ==> final(self).spec_results().contains_key(u),
            old(self).spec_result_count() >= MAX_SEARCH_RESULTS || old(self).spec_results().contains_key(
                item.item_uid,
            ) ==> final(self).spec_results() == old(self).spec_results()
                && final(self).spec_cache() == old(self).spec_cache(),
            old(self).spec_result_count() < MAX_SEARCH_RESULTS && !old(self).spec_results().contains_key(
                item.item_uid,
            ) ==> {
                &&& final(self).spec_results() =~= old(self).spec_results().insert(
                    item.item_uid,
                    (),
                )
                &&& final(self).spec_result_count() == old(self).spec_result_count() + 1
                &&& final(self).spec_cache().contains_key(entry_id@)
                &&& final(self).spec_cache()[entry_id@]@.contains_key(tile_id)
                &&& final(self).spec_cache()[entry_id@]@[tile_id]@.contains_key(item.item_uid)
                &&& {
                    let hit = final(self).spec_cache()[entry_id@]@[tile_id]@[item.item_uid];
                    hit.item_uid == item.item_uid && hit.title@ == item.title@ && hit.interval
                        == item.original_interval && hit.irow == irow
                }
            },
            final(self).spec_query() == old(self).spec_query(),
            final(self).spec_whole_word() == old(self).spec_whole_word(),
            final(self).spec_search_field() == old(self).spec_search_field(),
            final(self).spec_title_field() == old(self).spec_title_field(),
    {
        if self.result_set.len() >= MAX_SEARCH_RESULTS {
            return ;
        }
        if self.result_set.contains_key(&item.item_uid) {
            return ;
        }
        self.result_set.insert(item.item_uid, ());
        let taken = self.result_cache.remove(entry_id);
        match taken {
            Some(mut tiles) => {
                proof {
                    assert(tiles == old(self).result_cache@[entry_id@]);
                    assert(tiles.wf());
                }
                let inner_taken = tiles.remove(&tile_id);
                match inner_taken {
                    Some(mut uids) => {
                        proof {
                            assert(uids == old(self).result_cache@[entry_id@]@[tile_id]);
                            assert(uids.wf());
                        }
                        let hit = SearchCacheItem {
                            item_uid: item.item_uid,
                            title: item.title.clone(),
                            interval: item.original_interval,
                            irow,
                        };
                        uids.insert(item.item_uid, hit);
                        tiles.insert(tile_id, uids);
                        let ghost newtiles = tiles;
                        self.result_cache.insert(entry_id.key_clone(), tiles);
                        proof {
                            assert forall|e: Seq<EntryIndex>| #[trigger]
                                self.result_cache@.contains_key(
                                e,
                            ) implies self.result_cache@[e].wf() by {
                                if e != entry_id@ {
                                    assert(self.result_cache@[e] == old(
                                        self,
                                    ).result_cache@[e]);
                                }
                            }
                            assert forall|e: Seq<EntryIndex>, t: TileID|
                                self.result_cache@.contains_key(e)
                                    && self.result_cache@[e]@.contains_key(t) implies (
                            #[trigger] self.result_cache@[e]@[t]).wf() by {
                                if e != entry_id@ {
                                    assert(self.result_cache@[e] == old(
                                        self,
                                    ).result_cache@[e]);
                                    assert(old(self).result_cache@[e]@[t].wf());
                                } else {
                                    if t == tile_id {
                                    } else {
                                        assert(newtiles@[t] == old(
                                            self,
                                        ).result_cache@[entry_id@]@[t]);
                                        assert(old(self).result_cache@[entry_id@]@[t].wf());
                                    }
                                }
                            }
                            assert(self.result_cache@[entry_id@]@[tile_id]@[item.item_uid].title@
                                == item.title@);
                        }
                    },
                    None => {
                        proof {
                            assert(false);
                        }
                    },
                }
            },
            None => {
                proof {
                    assert(false);
                }
            },
        }
    }
}


/// Put the path `(l0, l1, l2)` into a grouped tree: afterwards the tree
/// holds it, and everything else is as before.
fn tree_insert(tree: &mut EntryTree, l0: u64, l1: u64, l2: u64)
    requires
        old(tree).wf(),
        forall|a: u64| #[trigger] old(tree)@.contains_key(a) ==> old(tree)@[a].wf(),
        forall|a: u64, b: u64|
            #![trigger old(tree)@[a]@[b]]
            old(tree)@.contains_key(a) && old(tree)@[a]@.contains_key(b)
                ==> old(tree)@[a]@[b].wf(),
    ensures
        final(tree).wf(),
        forall|a: u64| #[trigger] final(tree)@.contains_key(a) ==> final(tree)@[a].wf(),
        forall|a: u64, b: u64|
            #![trigger final(tree)@[a]@[b]]
            final(tree)@.contains_key(a) && final(tree)@[a]@.contains_key(b)
                ==> final(tree)@[a]@[b].wf(),
        forall|a: u64, b: u64, c: u64|
            #![trigger tree_has(final(tree)@, a, b, c)]
            tree_has(final(tree)@, a, b, c) == (tree_has(old(tree)@, a, b, c) || (a == l0 && b
                == l1 && c == l2)),
{
    let level0_taken = tree.remove(&l0);
    let mut level0 = match level0_taken {
        Some(m) => m,
        None => AssocMap::new(),
    };
    let ghost level0_pre = level0;
    let level1_taken = level0.remove(&l1);
    let mut level1 = match level1_taken {
        Some(m) => m,
        None => AssocMap::new(),
    };
    let ghost level1_pre = level1;
    level1.insert(l2, ());
    let ghost level1_post = level1;
    level0.insert(l1, level1);
    let ghost level0_post = level0;
    tree.insert(l0, level0);
    proof {
        assert forall|a: u64, b: u64, c: u64|
            #![trigger tree_has(tree@, a, b, c)]
            tree_has(tree@, a, b, c) == (tree_has(old(tree)@, a, b, c) || (a == l0 && b == l1 && c
                == l2)) by {
            if a == l0 {
                if b == l1 {
                } else {
                    assert(level0_post@.contains_key(b) == level0_pre@.contains_key(b));
                    if level0_pre@.contains_key(b) {
                        assert(level0_post@[b] == level0_pre@[b]);
                    }
                }
            } else {
                assert(tree@.contains_key(a) == old(tree)@.contains_key(a));
                if old(tree)@.contains_key(a) {
                    assert(tree@[a] == old(tree)@[a]);
                }
            }
        }
        assert forall|a: u64, b: u64|
            #![trigger tree@[a]@[b]]
            tree@.contains_key(a) && tree@[a]@.contains_key(b) implies tree@[a]@[b].wf() by {
            if a == l0 {
                if b != l1 {
                    assert(level0_pre@.contains_key(b) && level0_post@[b] == level0_pre@[b]);
                }
            } else {
                assert(tree@[a] == old(tree)@[a]);
                assert(old(tree)@[a]@[b].wf());
            }
        }
    }
}

impl SearchState {
    /// Whether some tile of an entry's cache holds at least one result.
    pub open spec fn entry_nonempty(
        tiles: AssocMap<TileID, AssocMap<ItemUID, SearchCacheItem>>,
    ) -> bool {
        exists|t: TileID| #[trigger] tiles@.contains_key(t) && tiles@[t].key_seq().len() > 0
    }

    /// Whether the cache holds a nonempty entry whose first three path steps
    /// are the slot positions `(l0, l1, l2)`.
    pub open spec fn grouped_entry(
        cache: Map<Seq<EntryIndex>, AssocMap<TileID, AssocMap<ItemUID, SearchCacheItem>>>,
        l0: u64,
        l1: u64,
        l2: u64,
    ) -> bool {
        exists|e: Seq<EntryIndex>|
            #[trigger] cache.contains_key(e) && e.len() >= 3 && e[0] == EntryIndex::Slot(l0)
                && e[1] == EntryIndex::Slot(l1) && e[2] == EntryIndex::Slot(l2)
                && Self::entry_nonempty(cache[e])
    }

    /// Rebuild the grouped display tree: it holds exactly the first three
    /// slot positions of every entry with at least one cached result.
    /// Searched entries are leaf timelines at least three levels deep, so
    /// their first three path steps are slot positions.
    pub fn build_entry_tree(&mut self)
        requires
            old(self).wf(),
            forall|e: Seq<EntryIndex>|
                #[trigger] old(self).spec_cache().contains_key(e) ==> e.len() >= 3 && e[0]
                    is Slot && e[1] is Slot && e[2] is Slot,
        ensures
            final(self).wf(),
            forall|l0: u64, l1: u64, l2: u64|
                #![trigger tree_has(final(self).spec_tree(), l0, l1, l2)]
                tree_has(final(self).spec_tree(), l0, l1, l2) == Self::grouped_entry(
                    old(self).spec_cache(),
                    l0,
                    l1,
                    l2,
                ),
            final(self).spec_cache() == old(self).spec_cache(),
            final(self).spec_results() == old(self).spec_results(),
            final(self).spec_result_count() == old(self).spec_result_count(),
            final(self).spec_query() == old(self).spec_query(),
            final(self).spec_whole_word() == old(self).spec_whole_word(),
            final(self).spec_search_field() == old(self).spec_search_field(),
            final(self).spec_title_field() == old(self).spec_title_field(),
            final(self).spec_last() == old(self).spec_last(),
    {
        self.entry_tree = AssocMap::new();
        let n = self.result_cache.len();
        proof {
            self.result_cache.lemma_entries();
        }
        for i in 0..n
            invariant
                self.result_cache == old(self).result_cache,
                self.result_set == old(self).result_set,
                self.query == old(self).query,
                self.last_query == old(self).last_query,
                self.search_field == old(self).search_field,
                self.last_search_field == old(self).last_search_field,
                self.whole_word == old(self).whole_word,
                self.last_whole_word == old(self).last_whole_word,
                self.include_collapsed_entries == old(self).include_collapsed_entries,
                self.last_include_collapsed_entries == old(self).last_include_collapsed_entries,
                self.last_view_interval == old(self).last_view_interval,
                self.title_field == old(self).title_field,
                n == self.result_cache.key_seq().len(),
                old(self).wf(),
                self.wf(),
                forall|e: Seq<EntryIndex>|
                    #[trigger] old(self).spec_cache().contains_key(e) ==> e.len() >= 3 && e[0]
                        is Slot && e[1] is Slot && e[2] is Slot,
                forall|l0: u64, l1: u64, l2: u64|
                    #![trigger tree_has(self.entry_tree@, l0, l1, l2)]
                    tree_has(self.entry_tree@, l0, l1, l2) == (exists|j: int|
                        0 <= j < i && #[trigger] entry_at_matches(
                            self.result_cache.key_seq()[j],
                            self.result_cache.val_seq()[j],
                            l0,
                            l1,
                            l2,
                        )),
        {
            proof {
                self.result_cache.lemma_entries();
            }
            let key = self.result_cache.key_at(i).key_clone();
            let tiles = self.result_cache.get(&key);
            let tiles = match tiles {
                Some(t) => t,
                None => {
                    proof {
                        assert(self.result_cache@.contains_key(
                            self.result_cache.key_seq()[i as int],
                        ));
                        assert(false);
                    }
                    unreached()
                },
            };
            // Count the cached results of this entry; empty entries are not
            // grouped.
            let mut nonempty = false;
            let tn = tiles.len();
            for j in 0..tn
                invariant
                    tiles.wf(),
                    tn == tiles.key_seq().len(),
                    nonempty ==> SearchState::entry_nonempty(*tiles),
                    !nonempty ==> forall|jj: int|
                        0 <= jj < j ==> (#[trigger] tiles.val_seq()[jj]).key_seq().len() == 0,
            {
                let uids = tiles.val_at(j);
                if uids.len() > 0 {
                    proof {
                        tiles.lemma_entries();
                        assert(tiles@.contains_key(tiles.key_seq()[j as int]));
                        assert(tiles@[tiles.key_seq()[j as int]].key_seq().len() > 0);
                    }
                    nonempty = true;
                }

            }
            let ghost keyv = self.result_cache.key_seq()[i as int];
            let ghost tilesv = self.result_cache.val_seq()[i as int];
            if nonempty {
                let l0 = match key.slot_index(0) {
                    Some(v) => v,
                    None => {
                        proof {
                            assert(self.result_cache@.contains_key(keyv));
                            assert(old(self).spec_cache().contains_key(keyv));
                            assert(key@ == keyv);
                            assert(keyv.len() >= 3 && keyv[0] is Slot);
                            assert(false);
                        }
                        unreached()
                    },
                };
                let l1 = match key.slot_index(1) {
                    Some(v) => v,
                    None => {
                        proof {
                            assert(self.result_cache@.contains_key(keyv));
                            assert(old(self).spec_cache().contains_key(keyv));
                            assert(key@ == keyv);
                            assert(keyv.len() >= 3 && keyv[1] is Slot);
                            assert(false);
                        }
                        unreached()
                    },
                };
                let l2 = match key.slot_index(2) {
                    Some(v) => v,
                    None => {
                        proof {
                            assert(self.result_cache@.contains_key(keyv));
                            assert(old(self).spec_cache().contains_key(keyv));
                            assert(key@ == keyv);
                            assert(keyv.len() >= 3 && keyv[2] is Slot);
                            assert(false);
                        }
                        unreached()
                    },
                };
                tree_insert(&mut self.entry_tree, l0, l1, l2);
                proof {
                    assert(*tiles == tilesv);
                    assert(keyv == key@);
                    assert(self.result_cache@.contains_key(keyv));
                    assert(old(self).spec_cache().contains_key(keyv));
                    assert(keyv.len() >= 3);
                    assert(keyv[0] == EntryIndex::Slot(l0));
                    assert(keyv[1] == EntryIndex::Slot(l1));
                    assert(keyv[2] == EntryIndex::Slot(l2));
                    assert(entry_at_matches(keyv, tilesv, l0, l1, l2));
                    assert forall|a: u64, b: u64, c: u64|
                        #![trigger tree_has(self.entry_tree@, a, b, c)]
                        tree_has(self.entry_tree@, a, b, c) == (exists|j: int|
                            0 <= j < i + 1 && #[trigger] entry_at_matches(
                                self.result_cache.key_seq()[j],
                                self.result_cache.val_seq()[j],
                                a,
                                b,
                                c,
                            )) by {
                        if tree_has(self.entry_tree@, a, b, c) {
                            if a == l0 && b == l1 && c == l2 {
                                assert(entry_at_matches(
                                    self.result_cache.key_seq()[i as int],
                                    self.result_cache.val_seq()[i as int],
                                    a,
                                    b,
                                    c,
                                ));
                            }
                        } else {
                            assert(!(a == l0 && b == l1 && c == l2));
                        }
                    }
                }
            } else {
                proof {
                    assert(!SearchState::entry_nonempty(tilesv)) by {
                        if SearchState::entry_nonempty(tilesv) {
                            let t = choose|t: TileID|
                                #[trigger] tilesv@.contains_key(t) && tilesv@[t].key_seq().len()
                                    > 0;
                            tiles.lemma_entries();
                            let jj = choose|jj: int|
                                0 <= jj < tiles.key_seq().len() && tiles.key_seq()[jj] == t;
                            assert(tiles.val_seq()[jj] == tilesv@[t]);
                        }
                    }
                    assert forall|a: u64, b: u64, c: u64|
                        #![trigger tree_has(self.entry_tree@, a, b, c)]
                        tree_has(self.entry_tree@, a, b, c) == (exists|j: int|
                            0 <= j < i + 1 && #[trigger] entry_at_matches(
                                self.result_cache.key_seq()[j],
                                self.result_cache.val_seq()[j],
                                a,
                                b,
                                c,
                            )) by {
                        if !tree_has(self.entry_tree@, a, b, c) {
                            assert(!entry_at_matches(keyv, tilesv, a, b, c));
                        }
                    }
                }
            }
        }
        proof {
            self.result_cache.lemma_entries();
            assert forall|l0: u64, l1: u64, l2: u64|
                #![trigger tree_has(self.spec_tree(), l0, l1, l2)]
                tree_has(self.spec_tree(), l0, l1, l2) == Self::grouped_entry(
                old(self).spec_cache(),
                l0,
                l1,
                l2,
            ) by {
                if tree_has(self.spec_tree(), l0, l1, l2) {
                    let j = choose|j: int|
                        0 <= j < n && #[trigger] entry_at_matches(
                            self.result_cache.key_seq()[j],
                            self.result_cache.val_seq()[j],
                            l0,
                            l1,
                            l2,
                        );
                    let e = self.result_cache.key_seq()[j];
                    assert(self.result_cache@.contains_key(e));
                    assert(self.result_cache@[e] == self.result_cache.val_seq()[j]);
                    assert(Self::grouped_entry(old(self).spec_cache(), l0, l1, l2));
                } else {
                    if Self::grouped_entry(old(self).spec_cache(), l0, l1, l2) {
                        let e = choose|e: Seq<EntryIndex>|
                            #[trigger] old(self).spec_cache().contains_key(e) && e.len() >= 3
                                && e[0] == EntryIndex::Slot(l0) && e[1] == EntryIndex::Slot(l1)
                                && e[2] == EntryIndex::Slot(l2) && Self::entry_nonempty(
                                old(self).spec_cache()[e],
                            );
                        let j = choose|j: int|
                            0 <= j < self.result_cache.key_seq().len()
                                && self.result_cache.key_seq()[j] == e;
                        assert(entry_at_matches(
                            self.result_cache.key_seq()[j],
                            self.result_cache.val_seq()[j],
                            l0,
                            l1,
                            l2,
                        ));
                    }
                }
            }
        }
    }
}

impl SearchState {
    /// Whether the grouped tree holds the path `(l0, l1, l2)`.
    pub fn tree_contains(&self, l0: u64, l1: u64, l2: u64) -> (r: bool)
        requires
            self.wf(),
        ensures
            r == tree_has(self.spec_tree(), l0, l1, l2),
    {
        match self.entry_tree.get(&l0) {
            Some(level0) => match level0.get(&l1) {
                Some(level1) => level1.contains_key(&l2),
                None => false,
            },
            None => false,
        }
    }
}

/// Whether a cache entry has the given first three slot positions and a
/// nonempty result set.
pub open spec fn entry_at_matches(
    e: Seq<EntryIndex>,
    tiles: AssocMap<TileID, AssocMap<ItemUID, SearchCacheItem>>,
    l0: u64,
    l1: u64,
    l2: u64,
) -> bool {
    e.len() >= 3 && e[0] == EntryIndex::Slot(l0) && e[1] == EntryIndex::Slot(l1) && e[2]
        == EntryIndex::Slot(l2) && SearchState::entry_nonempty(tiles)
}

} // verus!

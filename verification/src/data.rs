//! The profile data model: entries, tiles, items and their metadata fields.

use vstd::prelude::*;

use crate::timestamp::Interval;
use crate::timestamp::Timestamp;

verus! {

/// The result of a fetch: a value, or a backend error message.
pub type TileResult<T> = core::result::Result<T, String>;

/// An RGBA color, 8 bits per channel.
#[derive(Debug, Copy, Clone, PartialEq, Eq, Structural, Hash)]
pub struct Color {
    pub r: u8,
    pub g: u8,
    pub b: u8,
    pub a: u8,
}

/// A process-wide unique identifier of a displayed item.
#[derive(Debug, Copy, Clone, PartialEq, Eq, Structural, Hash)]
pub struct ItemUID(pub u64);

/// The identifier of a metadata field, assigned by the [`FieldSchema`].
#[derive(Debug, Copy, Clone, PartialEq, Eq, Structural, Hash)]
pub struct FieldID(pub u64);

/// One step in an [`EntryID`] path: a slot position, or the summary marker.
#[derive(Debug, Copy, Clone, PartialEq, Eq, Structural, Hash)]
pub enum EntryIndex {
    Slot(u64),
    Summary,
}

/// The address of an entry in the profile tree: a path of indices from the
/// root panel.
#[derive(Debug, Hash)]
pub struct EntryID {
    indices: Vec<EntryIndex>,
}

impl View for EntryID {
    type V = Seq<EntryIndex>;

    closed spec fn view(&self) -> Seq<EntryIndex> {
        self.indices@
    }
}

impl PartialEq for EntryID {
    fn eq(&self, other: &EntryID) -> (r: bool) {
        if self.indices.len() != other.indices.len() {
            return false;
        }
        for i in 0..self.indices.len()
            invariant
                self.indices.len() == other.indices.len(),
                forall|j: int| 0 <= j < i ==> self.indices@[j] == other.indices@[j],
        {
            if self.indices[i] != other.indices[i] {
                return false;
            }
        }
        proof {
            assert(self.indices@ =~= other.indices@);
        }
        true
    }
}

impl Eq for EntryID {}

impl vstd::std_specs::cmp::PartialEqSpecImpl for EntryID {
    open spec fn obeys_eq_spec() -> bool {
        true
    }

    open spec fn eq_spec(&self, other: &EntryID) -> bool {
        self@ == other@
    }
}

impl EntryID {
    /// The root of the entry tree, at level 0.
    pub fn root() -> (r: EntryID)
        ensures
            r@ =~= Seq::<EntryIndex>::empty(),
    {
        EntryID { indices: Vec::new() }
    }

    /// The depth of this entry below the root.
    pub fn level(&self) -> (r: u64)
        requires
            self@.len() <= u64::MAX,
        ensures
            r == self@.len(),
    {
        self.indices.len() as u64
    }

    pub open spec fn spec_level(&self) -> nat {
        self@.len()
    }

    /// The child entry at slot position `index`.
    pub fn child(&self, index: u64) -> (r: EntryID)
        ensures
            r@ =~= self@.push(EntryIndex::Slot(index)),
    {
        let mut indices = clone_index_vec(&self.indices);
        indices.push(EntryIndex::Slot(index));
        EntryID { indices }
    }

    /// The summary entry attached to this panel.
    pub fn summary(&self) -> (r: EntryID)
        ensures
            r@ =~= self@.push(EntryIndex::Summary),
    {
        let mut indices = clone_index_vec(&self.indices);
        indices.push(EntryIndex::Summary);
        EntryID { indices }
    }

    /// The index at depth `level`, if that deep.
    pub fn index(&self, level: u64) -> (r: Option<EntryIndex>)
        ensures
            r == if level < self@.len() {
                Some(self@[level as int])
            } else {
                None::<EntryIndex>
            },
    {
        let n = self.indices.len();
        if level < n as u64 {
            Some(self.indices[level as usize])
        } else {
            None
        }
    }

    /// The slot position at depth `level`: `None` when out of range or when
    /// the index there is the summary marker.
    pub fn slot_index(&self, level: u64) -> (r: Option<u64>)
        ensures
            r == self.spec_slot_index(level as int),
    {
        let n = self.indices.len();
        if level < n as u64 {
            match self.indices[level as usize] {
                EntryIndex::Slot(i) => Some(i),
                EntryIndex::Summary => None,
            }
        } else {
            None
        }
    }

    pub open spec fn spec_slot_index(&self, level: int) -> Option<u64> {
        if 0 <= level < self@.len() {
            match self@[level] {
                EntryIndex::Slot(i) => Some(i),
                EntryIndex::Summary => None,
            }
        } else {
            None
        }
    }

    /// The slot position of the last path step.
    pub fn last_slot_index(&self) -> (r: Option<u64>)
        ensures
            r == self.spec_slot_index(self@.len() - 1),
    {
        if self.indices.len() == 0 {
            None
        } else {
            self.slot_index((self.indices.len() - 1) as u64)
        }
    }

    /// Whether `prefix` is an ancestor-or-self path of this entry.
    pub fn has_prefix(&self, prefix: &EntryID) -> (r: bool)
        ensures
            r == self.spec_has_prefix(*prefix),
    {
        if prefix.indices.len() > self.indices.len() {
            return false;
        }
        for i in 0..prefix.indices.len()
            invariant
                prefix.indices.len() <= self.indices.len(),
                forall|j: int| 0 <= j < i ==> self@[j] == prefix@[j],
        {
            if self.indices[i] != prefix.indices[i] {
                return false;
            }
        }
        proof {
            assert(self@.subrange(0, prefix@.len() as int) =~= prefix@);
        }
        true
    }

    pub open spec fn spec_has_prefix(&self, prefix: EntryID) -> bool {
        prefix@.len() <= self@.len() && self@.subrange(0, prefix@.len() as int) == prefix@
    }

    /// The number of path steps, as the index type.
    pub fn len_indices(&self) -> (r: usize)
        ensures
            r == self@.len(),
    {
        self.indices.len()
    }

    /// The path step at position `i`.
    pub fn index_at(&self, i: usize) -> (r: EntryIndex)
        requires
            i < self@.len(),
        ensures
            r == self@[i as int],
    {
        self.indices[i]
    }

    /// An entry address from its path steps.
    pub fn from_indices(indices: Vec<EntryIndex>) -> (r: EntryID)
        ensures
            r@ == indices@,
    {
        EntryID { indices }
    }
}

/// Clones a vector of path indices element by element, so that the copy's
/// view is known to equal the original's.
fn clone_index_vec(v: &Vec<EntryIndex>) -> (r: Vec<EntryIndex>)
    ensures
        r@ =~= v@,
{
    let mut r: Vec<EntryIndex> = Vec::new();
    for i in 0..v.len()
        invariant
            r@ =~= v@.subrange(0, i as int),
    {
        r.push(v[i]);
    }
    r
}

/// A tile's time extent. A tile covers its interval for one entry.
#[derive(Debug, Copy, Clone, PartialEq, Eq, Structural, Hash)]
pub struct TileID(pub Interval);

/// The tile pyramid advertised by a backend: empty for a dynamic profile,
/// otherwise a list of levels, each a list of tiles covering the profile
/// interval, finer levels later.
#[derive(Debug, Clone)]
pub struct TileSet {
    pub tiles: Vec<Vec<TileID>>,
}

impl Default for TileSet {
    /// The dynamic profile: no precomputed pyramid.
    fn default() -> (r: TileSet)
        ensures
            r.tiles@.len() == 0,
    {
        TileSet { tiles: Vec::new() }
    }
}

/// A display record in a slot row.
#[derive(Debug, Copy, Clone)]
pub struct Item {
    pub item_uid: ItemUID,
    pub interval: Interval,
    pub color: Color,
}

/// A link from one item's metadata to another item, by entry address rather
/// than by reference.
#[derive(Debug)]
pub struct ItemLink {
    pub item_uid: ItemUID,
    pub title: String,
    pub interval: Interval,
    pub entry_id: EntryID,
}

/// A metadata value. `Vec` nests; `Empty` is a present field with no value.
#[derive(Debug)]
pub enum Field {
    I64(i64),
    U64(u64),
    String(String),
    Interval(Interval),
    ItemLink(ItemLink),
    Vec(Vec<Field>),
    Empty,
}

/// A field identifier with its value and an optional display color.
#[derive(Debug)]
pub struct ItemField(pub FieldID, pub Field, pub Option<Color>);

/// Full metadata of one item.
#[derive(Debug)]
pub struct ItemMeta {
    pub item_uid: ItemUID,
    pub original_interval: Interval,
    pub title: String,
    pub fields: Vec<ItemField>,
}

/// The mathematical value of an [`ItemLink`].
pub struct ItemLinkV {
    pub item_uid: ItemUID,
    pub title: Seq<char>,
    pub interval: Interval,
    pub entry_id: Seq<EntryIndex>,
}

/// The mathematical value of a [`Field`].
pub enum FieldV {
    I64(i64),
    U64(u64),
    String(Seq<char>),
    Interval(Interval),
    ItemLink(ItemLinkV),
    Vec(Seq<FieldV>),
    Empty,
}

/// The mathematical value of an [`ItemField`].
pub struct ItemFieldV {
    pub id: FieldID,
    pub value: FieldV,
    pub color: Option<Color>,
}

/// The mathematical value of an [`ItemMeta`].
pub struct ItemMetaV {
    pub item_uid: ItemUID,
    pub original_interval: Interval,
    pub title: Seq<char>,
    pub fields: Seq<ItemFieldV>,
}

impl ItemLink {
    pub open spec fn dview(&self) -> ItemLinkV {
        ItemLinkV {
            item_uid: self.item_uid,
            title: self.title@,
            interval: self.interval,
            entry_id: self.entry_id@,
        }
    }
}

/// The mathematical values of a sequence of fields.
pub open spec fn seq_dview(s: Seq<Field>) -> Seq<FieldV>
    decreases s,
    via seq_dview_decreases
{
    if s.len() == 0 {
        Seq::empty()
    } else {
        seq_dview(s.subrange(0, s.len() - 1)).push(s[s.len() - 1].dview())
    }
}

#[via_fn]
proof fn seq_dview_decreases(s: Seq<Field>) {
    if s.len() > 0 {
        vstd::seq::axiom_seq_index_decreases(s, s.len() - 1);
        vstd::seq::axiom_seq_subrange_decreases(s, 0, s.len() - 1);
    }
}

/// What `seq_dview` says element by element.
pub proof fn lemma_seq_dview(s: Seq<Field>)
    ensures
        seq_dview(s).len() == s.len(),
        forall|i: int| 0 <= i < s.len() ==> seq_dview(s)[i] == s[i].dview(),
    decreases s.len(),
{
    if s.len() > 0 {
        lemma_seq_dview(s.subrange(0, s.len() - 1));
        assert forall|i: int| 0 <= i < s.len() implies seq_dview(s)[i] == s[i].dview() by {
            if i < s.len() - 1 {
                assert(s.subrange(0, s.len() - 1)[i] == s[i]);
            }
        }
    }
}

impl Field {
    pub open spec fn dview(&self) -> FieldV
        decreases self,
        via Self::dview_decreases
    {
        match self {
            Field::I64(x) => FieldV::I64(*x),
            Field::U64(x) => FieldV::U64(*x),
            Field::String(s) => FieldV::String(s@),
            Field::Interval(i) => FieldV::Interval(*i),
            Field::ItemLink(l) => FieldV::ItemLink(l.dview()),
            Field::Vec(v) => FieldV::Vec(seq_dview(v@)),
            Field::Empty => FieldV::Empty,
        }
    }

    #[via_fn]
    proof fn dview_decreases(&self) {
        broadcast use vstd::std_specs::vec::group_vec_axioms;

        match self {
            Field::Vec(v) => {
                assert(decreases_to!(*self => *v));
                assert(decreases_to!(*v => v@));
            },
            _ => {},
        }
    }
}

impl ItemField {
    pub open spec fn dview(&self) -> ItemFieldV {
        ItemFieldV { id: self.0, value: self.1.dview(), color: self.2 }
    }
}

impl ItemMeta {
    pub open spec fn dview(&self) -> ItemMetaV {
        ItemMetaV {
            item_uid: self.item_uid,
            original_interval: self.original_interval,
            title: self.title@,
            fields: Seq::new(self.fields@.len(), |i: int| self.fields@[i].dview()),
        }
    }
}

impl Clone for EntryID {
    fn clone(&self) -> (r: EntryID)
        ensures
            r@ == self@,
    {
        let r = EntryID { indices: clone_index_vec(&self.indices) };
        proof {
            assert(r@ =~= self@);
        }
        r
    }
}

impl Clone for ItemLink {
    fn clone(&self) -> (r: ItemLink)
        ensures
            r.dview() == self.dview(),
    {
        ItemLink {
            item_uid: self.item_uid,
            title: self.title.clone(),
            interval: self.interval,
            entry_id: self.entry_id.clone(),
        }
    }
}

impl Clone for Field {
    fn clone(&self) -> (r: Field)
        ensures
            r.dview() == self.dview(),
        decreases self,
    {
        match self {
            Field::I64(x) => Field::I64(*x),
            Field::U64(x) => Field::U64(*x),
            Field::String(s) => Field::String(s.clone()),
            Field::Interval(i) => Field::Interval(*i),
            Field::ItemLink(l) => Field::ItemLink(l.clone()),
            Field::Vec(v) => {
                let mut elems: Vec<Field> = Vec::new();
                for i in 0..v.len()
                    invariant
                        elems@.len() == i,
                        forall|j: int| 0 <= j < i ==> elems@[j].dview() == v@[j].dview(),
                        decreases_to!(*self => *v),
                    decreases v@.len() - i,
                {
                    proof {
                        broadcast use vstd::std_specs::vec::group_vec_axioms;

                        assert(decreases_to!(*v => v@));
                        assert(decreases_to!(v@ => v@[i as int]));
                    }
                    elems.push(v[i].clone());
                }
                let r = Field::Vec(elems);
                proof {
                    lemma_seq_dview(elems@);
                    lemma_seq_dview(v@);
                    assert(seq_dview(elems@) =~= seq_dview(v@));
                }
                r
            },
            Field::Empty => Field::Empty,
        }
    }
}

impl Clone for ItemField {
    fn clone(&self) -> (r: ItemField)
        ensures
            r.dview() == self.dview(),
    {
        ItemField(self.0, self.1.clone(), self.2)
    }
}

impl Clone for ItemMeta {
    fn clone(&self) -> (r: ItemMeta)
        ensures
            r.dview() == self.dview(),
    {
        let mut fields: Vec<ItemField> = Vec::new();
        for i in 0..self.fields.len()
            invariant
                fields@.len() == i,
                forall|j: int| 0 <= j < i ==> fields@[j].dview() == self.fields@[j].dview(),
        {
            fields.push(self.fields[i].clone());
        }
        let r = ItemMeta {
            item_uid: self.item_uid,
            original_interval: self.original_interval,
            title: self.title.clone(),
            fields,
        };
        proof {
            assert(Seq::new(r.fields@.len(), |i: int| r.fields@[i].dview()) =~= Seq::new(
                self.fields@.len(),
                |i: int| self.fields@[i].dview(),
            ));
        }
        r
    }
}

/// Scale of [`UtilPoint::util`]: this value stands for a utilization of 1.0.
pub const UTIL_ONE: u32 = 1000000000;

/// One sample of a piecewise-linear utilization curve. `util` is a fixed
/// point fraction: `UTIL_ONE` stands for full utilization.
#[derive(Debug, Copy, Clone, PartialEq, Eq, Structural, Hash)]
pub struct UtilPoint {
    pub time: Timestamp,
    pub util: u32,
}

#[derive(Debug)]
pub struct SummaryTileData {
    pub utilization: Vec<UtilPoint>,
}

#[derive(Debug)]
pub struct SlotTileData {
    /// Rows of items; within a row, ascending by start and non-overlapping.
    pub items: Vec<Vec<Item>>,
}

#[derive(Debug)]
pub struct SlotMetaTileData {
    /// Rows of item metadata, parallel to the matching slot tile.
    pub items: Vec<Vec<ItemMeta>>,
}

#[derive(Debug)]
pub struct SummaryTile {
    pub entry_id: EntryID,
    pub tile_id: TileID,
    pub data: SummaryTileData,
}

#[derive(Debug)]
pub struct SlotTile {
    pub entry_id: EntryID,
    pub tile_id: TileID,
    pub data: SlotTileData,
}

#[derive(Debug)]
pub struct SlotMetaTile {
    pub entry_id: EntryID,
    pub tile_id: TileID,
    pub data: SlotMetaTileData,
}

/// The mathematical value of an [`Item`] row list.
pub open spec fn item_rows_view(rows: Seq<Vec<Item>>) -> Seq<Seq<Item>> {
    Seq::new(rows.len(), |i: int| rows[i]@)
}

/// The mathematical value of one row of item metadata.
pub open spec fn meta_row_view(row: Seq<ItemMeta>) -> Seq<ItemMetaV> {
    Seq::new(row.len(), |i: int| row[i].dview())
}

/// The mathematical value of an [`ItemMeta`] row list.
pub open spec fn meta_rows_view(rows: Seq<Vec<ItemMeta>>) -> Seq<Seq<ItemMetaV>> {
    Seq::new(rows.len(), |i: int| meta_row_view(rows[i]@))
}

impl SummaryTileData {
    pub open spec fn dview(&self) -> Seq<UtilPoint> {
        self.utilization@
    }
}

impl SlotTileData {
    pub open spec fn dview(&self) -> Seq<Seq<Item>> {
        item_rows_view(self.items@)
    }
}

impl SlotMetaTileData {
    pub open spec fn dview(&self) -> Seq<Seq<ItemMetaV>> {
        meta_rows_view(self.items@)
    }
}

impl Clone for SummaryTileData {
    fn clone(&self) -> (r: SummaryTileData)
        ensures
            r.dview() == self.dview(),
    {
        let mut utilization: Vec<UtilPoint> = Vec::new();
        for i in 0..self.utilization.len()
            invariant
                utilization@ =~= self.utilization@.subrange(0, i as int),
        {
            utilization.push(self.utilization[i]);
        }
        let r = SummaryTileData { utilization };
        proof {
            assert(r.dview() =~= self.dview());
        }
        r
    }
}

fn clone_item_row(row: &Vec<Item>) -> (r: Vec<Item>)
    ensures
        r@ =~= row@,
{
    let mut r: Vec<Item> = Vec::new();
    for i in 0..row.len()
        invariant
            r@ =~= row@.subrange(0, i as int),
    {
        r.push(row[i]);
    }
    r
}

impl Clone for SlotTileData {
    fn clone(&self) -> (r: SlotTileData)
        ensures
            r.dview() == self.dview(),
    {
        let mut items: Vec<Vec<Item>> = Vec::new();
        for i in 0..self.items.len()
            invariant
                items@.len() == i,
                forall|j: int| 0 <= j < i ==> items@[j]@ == self.items@[j]@,
        {
            items.push(clone_item_row(&self.items[i]));
        }
        let r = SlotTileData { items };
        proof {
            assert(r.dview() =~= self.dview());
        }
        r
    }
}

fn clone_meta_row(row: &Vec<ItemMeta>) -> (r: Vec<ItemMeta>)
    ensures
        r@.len() == row@.len(),
        forall|j: int| 0 <= j < row@.len() ==> r@[j].dview() == row@[j].dview(),
{
    let mut r: Vec<ItemMeta> = Vec::new();
    for i in 0..row.len()
        invariant
            r@.len() == i,
            forall|j: int| 0 <= j < i ==> r@[j].dview() == row@[j].dview(),
    {
        r.push(row[i].clone());
    }
    r
}

impl Clone for SlotMetaTileData {
    fn clone(&self) -> (r: SlotMetaTileData)
        ensures
            r.dview() == self.dview(),
    {
        let mut items: Vec<Vec<ItemMeta>> = Vec::new();
        for i in 0..self.items.len()
            invariant
                items@.len() == i,
                forall|j: int|
                    0 <= j < i ==> meta_row_view(#[trigger] items@[j]@) == meta_row_view(
                        self.items@[j]@,
                    ),
        {
            let row = clone_meta_row(&self.items[i]);
            proof {
                assert(meta_row_view(row@) =~= meta_row_view(self.items@[i as int]@));
            }
            items.push(row);
        }
        let r = SlotMetaTileData { items };
        proof {
            assert(r.dview() =~= self.dview());
        }
        r
    }
}

impl Clone for SummaryTile {
    fn clone(&self) -> (r: SummaryTile)
        ensures
            r.entry_id@ == self.entry_id@,
            r.tile_id == self.tile_id,
            r.data.dview() == self.data.dview(),
    {
        SummaryTile {
            entry_id: self.entry_id.clone(),
            tile_id: self.tile_id,
            data: self.data.clone(),
        }
    }
}

impl Clone for SlotTile {
    fn clone(&self) -> (r: SlotTile)
        ensures
            r.entry_id@ == self.entry_id@,
            r.tile_id == self.tile_id,
            r.data.dview() == self.data.dview(),
    {
        SlotTile {
            entry_id: self.entry_id.clone(),
            tile_id: self.tile_id,
            data: self.data.clone(),
        }
    }
}

impl Clone for SlotMetaTile {
    fn clone(&self) -> (r: SlotMetaTile)
        ensures
            r.entry_id@ == self.entry_id@,
            r.tile_id == self.tile_id,
            r.data.dview() == self.data.dview(),
    {
        SlotMetaTile {
            entry_id: self.entry_id.clone(),
            tile_id: self.tile_id,
            data: self.data.clone(),
        }
    }
}

/// A node of the profile tree a backend advertises.
#[derive(Debug)]
pub enum EntryInfo {
    Panel {
        short_name: String,
        long_name: String,
        summary: Option<Box<EntryInfo>>,
        slots: Vec<EntryInfo>,
    },
    Slot {
        short_name: String,
        long_name: String,
        max_rows: u64,
    },
    Summary {
        color: Color,
    },
}

/// Compares two strings by characters.
pub fn str_eq(a: &str, b: &str) -> (r: bool)
    ensures
        r == (a@ == b@),
{
    let alen = a.unicode_len();
    if alen != b.unicode_len() {
        return false;
    }
    for i in 0..alen
        invariant
            alen == a@.len() && alen == b@.len(),
            forall|j: int| 0 <= j < i ==> a@[j] == b@[j],
    {
        if a.get_char(i) != b.get_char(i) {
            return false;
        }
    }
    proof {
        assert(a@ =~= b@);
    }
    true
}

/// The append-only mapping between field identifiers and field names, with a
/// "searchable" flag per field. A field's identifier is its insertion rank.
#[derive(Debug, Clone)]
pub struct FieldSchema {
    names: Vec<String>,
    searchable_flags: Vec<bool>,
}

impl FieldSchema {
    pub closed spec fn spec_names(&self) -> Seq<Seq<char>> {
        Seq::new(self.names@.len(), |i: int| self.names@[i]@)
    }

    pub closed spec fn spec_searchable(&self) -> Seq<bool> {
        self.searchable_flags@
    }

    /// Names are unique and every field has a flag.
    pub open spec fn wf(&self) -> bool {
        &&& self.spec_names().len() == self.spec_searchable().len()
        &&& forall|i: int, j: int|
            0 <= i < j < self.spec_names().len() ==> self.spec_names()[i] != self.spec_names()[j]
    }

    pub open spec fn spec_contains_name(&self, name: Seq<char>) -> bool {
        exists|i: int| 0 <= i < self.spec_names().len() && self.spec_names()[i] == name
    }

    pub fn new() -> (r: FieldSchema)
        ensures
            r.wf(),
            r.spec_names().len() == 0,
    {
        FieldSchema { names: Vec::new(), searchable_flags: Vec::new() }
    }

    pub fn len(&self) -> (r: usize)
        ensures
            r == self.spec_names().len(),
    {
        self.names.len()
    }

    /// The name of a field, or `None` for an identifier never assigned.
    pub fn get_name(&self, field: FieldID) -> (r: Option<&String>)
        ensures
            match r {
                Some(name) => field.0 < self.spec_names().len() && name@ == self.spec_names()[field.0 as int],
                None => field.0 >= self.spec_names().len(),
            },
    {
        if (field.0 as usize) < self.names.len() && field.0 <= usize::MAX as u64 {
            Some(&self.names[field.0 as usize])
        } else {
            None
        }
    }

    pub fn contains_name(&self, name: &str) -> (r: bool)
        ensures
            r == self.spec_contains_name(name@),
    {
        proof {
            assert(forall|i: int|
                0 <= i < self.names@.len() ==> #[trigger] self.spec_names()[i] == self.names@[i]@);
        }
        for i in 0..self.names.len()
            invariant
                forall|j: int|
                    0 <= j < i ==> #[trigger] self.spec_names()[j] != name@,
                forall|k: int|
                    0 <= k < self.names@.len() ==> #[trigger] self.spec_names()[k]
                        == self.names@[k]@,
        {
            if str_eq(self.names[i].as_str(), name) {
                proof {
                    assert(self.spec_names()[i as int] == name@);
                }
                return true;
            }
        }
        false
    }

    /// Assign the next identifier to a new name. Names are unique; the caller
    /// checks `contains_name` first.
    pub fn insert(&mut self, name: String, searchable: bool) -> (r: FieldID)
        requires
            old(self).wf(),
            !old(self).spec_contains_name(name@),
            old(self).spec_names().len() < u64::MAX,
        ensures
            final(self).wf(),
            r.0 == old(self).spec_names().len(),
            final(self).spec_names() =~= old(self).spec_names().push(name@),
            final(self).spec_searchable() =~= old(self).spec_searchable().push(searchable),
    {
        let id = FieldID(self.names.len() as u64);
        self.names.push(name);
        self.searchable_flags.push(searchable);
        proof {
            assert(self.spec_names() =~= old(self).spec_names().push(name@));
            assert(forall|i: int|
                0 <= i < self.spec_names().len() - 1 ==> #[trigger] self.spec_names()[i] == old(
                    self,
                ).spec_names()[i]);
        }
        id
    }

    /// The identifiers of the searchable fields, in ascending order.
    pub fn searchable(&self) -> (r: Vec<FieldID>)
        ensures
            forall|j: int|
                0 <= j < r@.len() ==> r@[j].0 < self.spec_searchable().len()
                    && self.spec_searchable()[r@[j].0 as int],
            forall|i: int|
                0 <= i < self.spec_searchable().len() && self.spec_searchable()[i] ==> r@.contains(
                    FieldID(i as u64),
                ),
            forall|j1: int, j2: int| 0 <= j1 < j2 < r@.len() ==> r@[j1].0 < r@[j2].0,
    {
        let mut r: Vec<FieldID> = Vec::new();
        for i in 0..self.searchable_flags.len()
            invariant
                forall|j: int|
                    0 <= j < r@.len() ==> (#[trigger] r@[j]).0 < i
                        && self.spec_searchable()[r@[j].0 as int],
                forall|k: int|
                    0 <= k < i && self.spec_searchable()[k] ==> r@.contains(FieldID(k as u64)),
                forall|j1: int, j2: int| 0 <= j1 < j2 < r@.len() ==> r@[j1].0 < r@[j2].0,
        {
            let ghost prev = r@;
            if self.searchable_flags[i] {
                r.push(FieldID(i as u64));
                proof {
                    assert forall|k: int|
                        0 <= k < i + 1 && self.spec_searchable()[k] implies r@.contains(
                        FieldID(k as u64),
                    ) by {
                        if k < i {
                            let idx = choose|idx: int|
                                0 <= idx < prev.len() && prev[idx] == FieldID(k as u64);
                            assert(r@[idx] == FieldID(k as u64));
                        } else {
                            assert(r@[r@.len() - 1] == FieldID(k as u64));
                        }
                    }
                }
            } else {
                proof {
                    assert forall|k: int|
                        0 <= k < i + 1 && self.spec_searchable()[k] implies r@.contains(
                        FieldID(k as u64),
                    ) by {
                        assert(k != i);
                    }
                }
            }
        }
        r
    }
}


/// The mathematical value of an [`EntryInfo`] node.
pub enum EntryInfoV {
    Panel {
        short_name: Seq<char>,
        long_name: Seq<char>,
        summary: Option<Box<EntryInfoV>>,
        slots: Seq<EntryInfoV>,
    },
    Slot { short_name: Seq<char>, long_name: Seq<char>, max_rows: u64 },
    Summary { color: Color },
}

/// The mathematical values of a list of entry nodes.
pub open spec fn entry_list_dview(s: Seq<EntryInfo>) -> Seq<EntryInfoV>
    decreases s,
    via entry_list_dview_decreases
{
    if s.len() == 0 {
        Seq::empty()
    } else {
        entry_list_dview(s.subrange(0, s.len() - 1)).push(s[s.len() - 1].dview())
    }
}

#[via_fn]
proof fn entry_list_dview_decreases(s: Seq<EntryInfo>) {
    if s.len() > 0 {
        vstd::seq::axiom_seq_index_decreases(s, s.len() - 1);
        vstd::seq::axiom_seq_subrange_decreases(s, 0, s.len() - 1);
    }
}

/// What `entry_list_dview` says element by element.
pub proof fn lemma_entry_list_dview(s: Seq<EntryInfo>)
    ensures
        entry_list_dview(s).len() == s.len(),
        forall|i: int| 0 <= i < s.len() ==> entry_list_dview(s)[i] == s[i].dview(),
    decreases s.len(),
{
    if s.len() > 0 {
        lemma_entry_list_dview(s.subrange(0, s.len() - 1));
        assert forall|i: int| 0 <= i < s.len() implies entry_list_dview(s)[i]
            == s[i].dview() by {
            if i < s.len() - 1 {
                assert(s.subrange(0, s.len() - 1)[i] == s[i]);
            }
        }
    }
}

impl EntryInfo {
    pub open spec fn dview(&self) -> EntryInfoV
        decreases self,
        via Self::dview_decreases
    {
        match self {
            EntryInfo::Panel { short_name, long_name, summary, slots } => EntryInfoV::Panel {
                short_name: short_name@,
                long_name: long_name@,
                summary: match summary {
                    Some(b) => Some(Box::new((**b).dview())),
                    None => None,
                },
                slots: entry_list_dview(slots@),
            },
            EntryInfo::Slot { short_name, long_name, max_rows } => EntryInfoV::Slot {
                short_name: short_name@,
                long_name: long_name@,
                max_rows: *max_rows,
            },
            EntryInfo::Summary { color } => EntryInfoV::Summary { color: *color },
        }
    }

    #[via_fn]
    proof fn dview_decreases(&self) {
        broadcast use vstd::std_specs::vec::group_vec_axioms;

        match self {
            EntryInfo::Panel { summary, slots, .. } => {
                assert(decreases_to!(*self => *slots));
                assert(decreases_to!(*slots => slots@));
            },
            _ => {},
        }
    }
}

impl EntryInfoV {
    /// The node at the end of `path[i..]`, walking panels by slot position
    /// and the summary marker.
    pub open spec fn spec_get(self, path: Seq<EntryIndex>, i: int) -> Option<EntryInfoV>
        decreases self, path.len() - i,
    {
        if i < 0 || i > path.len() {
            None
        } else if i == path.len() {
            Some(self)
        } else {
            match self {
                EntryInfoV::Panel { summary, slots, .. } => match path[i] {
                    EntryIndex::Slot(k) => {
                        if k < slots.len() {
                            slots[k as int].spec_get(path, i + 1)
                        } else {
                            None
                        }
                    },
                    EntryIndex::Summary => match summary {
                        Some(b) => {
                            if i + 1 == path.len() {
                                Some(*b)
                            } else {
                                None
                            }
                        },
                        None => None,
                    },
                },
                _ => None,
            }
        }
    }
}

impl EntryInfo {
    /// The node addressed by an entry path, or `None` when the path leaves
    /// the tree. A summary marker resolves to its panel's summary node and
    /// ends the path.
    pub fn get(&self, entry_id: &EntryID) -> (r: Option<&EntryInfo>)
        ensures
            match r {
                Some(node) => self.dview().spec_get(entry_id@, 0) == Some(node.dview()),
                None => self.dview().spec_get(entry_id@, 0) is None,
            },
    {
        let n = entry_id.len_indices();
        let mut cur: &EntryInfo = self;
        let mut i: usize = 0;
        while i < n
            invariant
                n == entry_id@.len(),
                i <= n,
                self.dview().spec_get(entry_id@, 0) == cur.dview().spec_get(entry_id@, i as int),
            decreases n - i,
        {
            match cur {
                EntryInfo::Panel { summary, slots, .. } => {
                    match entry_id.index_at(i) {
                        EntryIndex::Slot(k) => {
                            proof {
                                crate::data::lemma_entry_list_dview(slots@);
                            }
                            if k < slots.len() as u64 {
                                cur = &slots[k as usize];
                                i = i + 1;
                            } else {
                                return None;
                            }
                        },
                        EntryIndex::Summary => {
                            match summary {
                                Some(b) => {
                                    if i + 1 == n {
                                        proof {
                                            assert(cur.dview().spec_get(entry_id@, i as int)
                                                == Some((**b).dview()));
                                        }
                                        return Some(&**b);
                                    } else {
                                        return None;
                                    }
                                },
                                None => {
                                    return None;
                                },
                            }
                        },
                    }
                },
                _ => {
                    return None;
                },
            }
        }
        Some(cur)
    }
}

/// Where a profile was loaded from, for window titles and the export.
#[derive(Debug, Clone)]
pub struct DataSourceDescription {
    pub source_locator: Vec<String>,
}

/// Everything a backend announces once at startup.
#[derive(Debug)]
pub struct DataSourceInfo {
    pub entry_info: EntryInfo,
    pub interval: Interval,
    pub tile_set: TileSet,
    pub field_schema: FieldSchema,
    pub warning_message: Option<String>,
}

/// The synchronous read contract of a backend.
pub trait DataSource {
    fn fetch_description(&self) -> DataSourceDescription;

    fn fetch_info(&self) -> TileResult<DataSourceInfo>;

    fn fetch_summary_tile(&self, entry_id: &EntryID, tile_id: TileID, full: bool) -> TileResult<
        SummaryTile,
    >;

    fn fetch_slot_tile(&self, entry_id: &EntryID, tile_id: TileID, full: bool) -> TileResult<
        SlotTile,
    >;

    fn fetch_slot_meta_tile(&self, entry_id: &EntryID, tile_id: TileID, full: bool) -> TileResult<
        SlotMetaTile,
    >;
}

} // verus!

use crate::map::MapKey;

verus! {

impl View for TileID {
    type V = TileID;

    open spec fn view(&self) -> TileID {
        *self
    }
}

impl View for ItemUID {
    type V = ItemUID;

    open spec fn view(&self) -> ItemUID {
        *self
    }
}

impl View for FieldID {
    type V = FieldID;

    open spec fn view(&self) -> FieldID {
        *self
    }
}

impl MapKey for TileID {
    fn key_eq(&self, other: &Self) -> (r: bool) {
        self.0.start.0 == other.0.start.0 && self.0.stop.0 == other.0.stop.0
    }

    fn key_clone(&self) -> (r: Self) {
        *self
    }
}

impl MapKey for ItemUID {
    fn key_eq(&self, other: &Self) -> (r: bool) {
        self.0 == other.0
    }

    fn key_clone(&self) -> (r: Self) {
        *self
    }
}

impl MapKey for FieldID {
    fn key_eq(&self, other: &Self) -> (r: bool) {
        self.0 == other.0
    }

    fn key_clone(&self) -> (r: Self) {
        *self
    }
}

impl MapKey for EntryID {
    fn key_eq(&self, other: &Self) -> (r: bool) {
        self.eq(other)
    }

    fn key_clone(&self) -> (r: Self) {
        self.clone()
    }
}

impl MapKey for String {
    fn key_eq(&self, other: &Self) -> (r: bool) {
        str_eq(self.as_str(), other.as_str())
    }

    fn key_clone(&self) -> (r: Self) {
        self.clone()
    }
}

} // verus!

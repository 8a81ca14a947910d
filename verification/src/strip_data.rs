//! A synchronous source wrapper that redacts all text in item metadata
//! before handing tiles on, for sharing profiles without their labels.

use vstd::prelude::*;

use crate::data::DataSource;
use crate::data::DataSourceDescription;
use crate::data::DataSourceInfo;
use crate::data::EntryID;
use crate::data::Field;
use crate::data::FieldV;
use crate::data::ItemField;
use crate::data::ItemFieldV;
use crate::data::ItemLink;
use crate::data::ItemLinkV;
use crate::data::ItemMeta;
use crate::data::ItemMetaV;
use crate::data::SlotMetaTile;
use crate::data::SlotMetaTileData;
use crate::data::SlotTile;
use crate::data::SummaryTile;
use crate::data::TileID;
use crate::data::TileResult;

verus! {

broadcast use vstd::seq::group_seq_axioms;

/// A field value with every piece of text replaced by the redaction marker:
/// strings and link titles; lists elementwise; numbers, intervals and
/// markers untouched.
pub open spec fn spec_redact(f: FieldV) -> FieldV
    decreases f,
{
    match f {
        FieldV::String(_) => FieldV::String("Redacted"@),
        FieldV::ItemLink(l) => FieldV::ItemLink(
            ItemLinkV {
                item_uid: l.item_uid,
                title: "Redacted"@,
                interval: l.interval,
                entry_id: l.entry_id,
            },
        ),
        FieldV::Vec(s) => FieldV::Vec(spec_redact_seq(s)),
        other => other,
    }
}

/// A list of field values, each redacted.
pub open spec fn spec_redact_seq(s: Seq<FieldV>) -> Seq<FieldV>
    decreases s,
    via spec_redact_seq_decreases
{
    if s.len() == 0 {
        Seq::empty()
    } else {
        seq![spec_redact(s[0])] + spec_redact_seq(s.subrange(1, s.len() as int))
    }
}

#[via_fn]
proof fn spec_redact_seq_decreases(s: Seq<FieldV>) {
    if s.len() > 0 {
        vstd::seq::axiom_seq_index_decreases(s, 0);
        vstd::seq::axiom_seq_subrange_decreases(s, 1, s.len() as int);
    }
}

/// An item's metadata with its title and every textual field redacted.
pub open spec fn spec_redact_meta(m: ItemMetaV) -> ItemMetaV {
    ItemMetaV {
        item_uid: m.item_uid,
        original_interval: m.original_interval,
        title: "Redacted"@,
        fields: Seq::new(
            m.fields.len(),
            |i: int|
                ItemFieldV { id: m.fields[i].id, value: spec_redact(m.fields[i].value), color: m.fields[i].color },
        ),
    }
}

/// Redact one field value.
fn redact_field(f: &Field) -> (r: Field)
    ensures
        r.dview() == spec_redact(f.dview()),
    decreases f,
{
    match f {
        Field::String(_) => Field::String("Redacted".to_owned()),
        Field::ItemLink(l) => Field::ItemLink(
            ItemLink {
                item_uid: l.item_uid,
                title: "Redacted".to_owned(),
                interval: l.interval,
                entry_id: l.entry_id.clone(),
            },
        ),
        Field::Vec(v) => {
            proof {
                crate::data::lemma_seq_dview(v@);
            }
            let ghost s = crate::data::seq_dview(v@);
            let mut out: Vec<Field> = Vec::new();
            proof {
                assert(s.subrange(0, s.len() as int) =~= s);
            }
            for i in 0..v.len()
                invariant
                    s == crate::data::seq_dview(v@),
                    s.len() == v@.len(),
                    forall|j: int| 0 <= j < s.len() ==> s[j] == v@[j].dview(),
                    out@.len() == i,
                    crate::data::seq_dview(out@) + spec_redact_seq(
                        s.subrange(i as int, s.len() as int),
                    ) =~= spec_redact_seq(s),
                    decreases_to!(*f => *v),
                decreases v@.len() - i,
            {
                proof {
                    broadcast use vstd::std_specs::vec::group_vec_axioms;

                    assert(decreases_to!(*v => v@));
                    assert(decreases_to!(v@ => v@[i as int]));
                }
                let ghost outpre = out@;
                let ghost rest = s.subrange(i as int, s.len() as int);
                let e = redact_field(&v[i]);
                out.push(e);
                proof {
                    crate::data::lemma_seq_dview(outpre);
                    crate::data::lemma_seq_dview(out@);
                    assert(out@ =~= outpre.push(e));
                    assert(crate::data::seq_dview(out@) =~= crate::data::seq_dview(outpre).push(
                        spec_redact(s[i as int]),
                    ));
                    assert(rest[0] == s[i as int]);
                    assert(rest.subrange(1, rest.len() as int) =~= s.subrange(
                        i + 1,
                        s.len() as int,
                    ));
                    assert(crate::data::seq_dview(out@) + spec_redact_seq(
                        s.subrange(i + 1, s.len() as int),
                    ) =~= spec_redact_seq(s));
                }
            }
            let r = Field::Vec(out);
            proof {
                assert(s.subrange(s.len() as int, s.len() as int) =~= Seq::<FieldV>::empty());
                assert(crate::data::seq_dview(r->Vec_0@) =~= spec_redact_seq(s));
            }
            r
        },
        Field::I64(x) => Field::I64(*x),
        Field::U64(x) => Field::U64(*x),
        Field::Interval(x) => Field::Interval(*x),
        Field::Empty => Field::Empty,
    }
}

/// Redact one item's metadata.
fn redact_meta(m: &ItemMeta) -> (r: ItemMeta)
    ensures
        r.dview() == spec_redact_meta(m.dview()),
{
    let mut fields: Vec<ItemField> = Vec::new();
    for i in 0..m.fields.len()
        invariant
            fields@.len() == i,
            forall|j: int|
                0 <= j < i ==> #[trigger] fields@[j].dview() == (ItemFieldV {
                    id: m.fields@[j].dview().id,
                    value: spec_redact(m.fields@[j].dview().value),
                    color: m.fields@[j].dview().color,
                }),
    {
        let ItemField(id, value, color) = &m.fields[i];
        fields.push(ItemField(*id, redact_field(value), *color));
    }
    let r = ItemMeta {
        item_uid: m.item_uid,
        original_interval: m.original_interval,
        title: "Redacted".to_owned(),
        fields,
    };
    proof {
        assert(r.dview().fields =~= spec_redact_meta(m.dview()).fields);
        assert(r.dview() == spec_redact_meta(m.dview()));
    }
    r
}

/// A row of metadata, each item redacted.
pub open spec fn redacted_row(r: Seq<ItemMetaV>) -> Seq<ItemMetaV> {
    Seq::new(r.len(), |j: int| spec_redact_meta(r[j]))
}

/// Redact every item of a metadata tile.
pub fn redact_tile(tile: SlotMetaTile) -> (r: SlotMetaTile)
    ensures
        r.entry_id@ == tile.entry_id@,
        r.tile_id == tile.tile_id,
        r.data.dview().len() == tile.data.dview().len(),
        forall|row: int|
            0 <= row < tile.data.dview().len() ==> #[trigger] r.data.dview()[row] == redacted_row(
                tile.data.dview()[row],
            ),
{
    let ghost src_rows = tile.data.dview();
    let mut items: Vec<Vec<ItemMeta>> = Vec::new();
    for row in 0..tile.data.items.len()
        invariant
            src_rows == tile.data.dview(),
            src_rows.len() == tile.data.items@.len(),
            items@.len() == row,
            forall|rr: int|
                0 <= rr < row ==> crate::data::meta_row_view(#[trigger] items@[rr]@)
                    =~= redacted_row(src_rows[rr]),
    {
        let src_row = &tile.data.items[row];
        let mut out_row: Vec<ItemMeta> = Vec::new();
        for j in 0..src_row.len()
            invariant
                out_row@.len() == j,
                src_row == tile.data.items@[row as int],
                src_rows == tile.data.dview(),
                row < tile.data.items@.len(),
                forall|jj: int|
                    0 <= jj < j ==> #[trigger] out_row@[jj].dview() == spec_redact_meta(
                        src_row@[jj].dview(),
                    ),
        {
            out_row.push(redact_meta(&src_row[j]));
        }
        proof {
            assert(src_rows[row as int] == crate::data::meta_row_view(
                tile.data.items@[row as int]@,
            ));
            assert(crate::data::meta_row_view(out_row@) =~= redacted_row(src_rows[row as int]));
        }
        items.push(out_row);
    }
    let r = SlotMetaTile {
        entry_id: tile.entry_id,
        tile_id: tile.tile_id,
        data: SlotMetaTileData { items },
    };
    proof {
        assert(r.data.dview().len() == tile.data.dview().len());
        assert forall|row: int| 0 <= row < tile.data.dview().len() implies (
        #[trigger] r.data.dview()[row]) == redacted_row(tile.data.dview()[row]) by {
            assert(r.data.dview()[row] == crate::data::meta_row_view(r.data.items@[row]@));
            assert(crate::data::meta_row_view(r.data.items@[row]@) =~= redacted_row(
                src_rows[row],
            ));
        }
    }
    r
}

/// Forwards a synchronous source, redacting every metadata tile's text.
pub struct StripDataSource<T: DataSource> {
    data_source: T,
}

impl<T: DataSource> StripDataSource<T> {
    pub fn new(data_source: T) -> (r: StripDataSource<T>) {
        StripDataSource { data_source }
    }
}

impl<T: DataSource> DataSource for StripDataSource<T> {
    fn fetch_description(&self) -> DataSourceDescription {
        self.data_source.fetch_description()
    }

    fn fetch_info(&self) -> TileResult<DataSourceInfo> {
        self.data_source.fetch_info()
    }

    fn fetch_summary_tile(&self, entry_id: &EntryID, tile_id: TileID, full: bool) -> TileResult<
        SummaryTile,
    > {
        self.data_source.fetch_summary_tile(entry_id, tile_id, full)
    }

    fn fetch_slot_tile(&self, entry_id: &EntryID, tile_id: TileID, full: bool) -> TileResult<
        SlotTile,
    > {
        self.data_source.fetch_slot_tile(entry_id, tile_id, full)
    }

    fn fetch_slot_meta_tile(&self, entry_id: &EntryID, tile_id: TileID, full: bool) -> TileResult<
        SlotMetaTile,
    > {
        match self.data_source.fetch_slot_meta_tile(entry_id, tile_id, full) {
            Ok(tile) => Ok(redact_tile(tile)),
            Err(e) => Err(e),
        }
    }
}

} // verus!

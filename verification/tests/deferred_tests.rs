use prof_viewer::data::{
    Color, DataSource, DataSourceDescription, DataSourceInfo, EntryID, Field, ItemField, ItemLink,
    ItemMeta, ItemUID, SlotMetaTile, SlotMetaTileData, SlotTile, SlotTileData, SummaryTile,
    SummaryTileData, TileID, TileResult,
};
use prof_viewer::deferred_data::{
    CountingDeferredDataSource, DeferredDataSource, DeferredDataSourceWrapper,
};
use prof_viewer::strip_data::StripDataSource;
use prof_viewer::timestamp::{Interval, Timestamp};

/// A tiny synchronous backend producing fixed tiles.
struct FixedSource;

fn meta_item() -> ItemMeta {
    ItemMeta {
        item_uid: ItemUID(42),
        original_interval: Interval::new(Timestamp(1), Timestamp(5)),
        title: "secret title".to_owned(),
        fields: vec![
            ItemField(prof_viewer::data::FieldID(0), Field::U64(7), None),
            ItemField(
                prof_viewer::data::FieldID(1),
                Field::String("secret value".to_owned()),
                None,
            ),
            ItemField(
                prof_viewer::data::FieldID(2),
                Field::Vec(vec![Field::String("inner".to_owned()), Field::I64(-1)]),
                None,
            ),
            ItemField(
                prof_viewer::data::FieldID(3),
                Field::ItemLink(ItemLink {
                    item_uid: ItemUID(7),
                    title: "linked".to_owned(),
                    interval: Interval::new(Timestamp(0), Timestamp(1)),
                    entry_id: EntryID::root(),
                }),
                None,
            ),
        ],
    }
}

impl DataSource for FixedSource {
    fn fetch_description(&self) -> DataSourceDescription {
        DataSourceDescription { source_locator: vec!["fixed".to_owned()] }
    }

    fn fetch_info(&self) -> TileResult<DataSourceInfo> {
        Err("no info".to_owned())
    }

    fn fetch_summary_tile(
        &self,
        entry_id: &EntryID,
        tile_id: TileID,
        _full: bool,
    ) -> TileResult<SummaryTile> {
        Ok(SummaryTile {
            entry_id: entry_id.clone(),
            tile_id,
            data: SummaryTileData { utilization: vec![] },
        })
    }

    fn fetch_slot_tile(
        &self,
        entry_id: &EntryID,
        tile_id: TileID,
        _full: bool,
    ) -> TileResult<SlotTile> {
        Ok(SlotTile {
            entry_id: entry_id.clone(),
            tile_id,
            data: SlotTileData { items: vec![] },
        })
    }

    fn fetch_slot_meta_tile(
        &self,
        entry_id: &EntryID,
        tile_id: TileID,
        _full: bool,
    ) -> TileResult<SlotMetaTile> {
        Ok(SlotMetaTile {
            entry_id: entry_id.clone(),
            tile_id,
            data: SlotMetaTileData { items: vec![vec![meta_item()]] },
        })
    }
}

fn tid(a: i64, b: i64) -> TileID {
    TileID(Interval::new(Timestamp(a), Timestamp(b)))
}

#[test]
fn wrapper_queues_and_drains() {
    let mut src = DeferredDataSourceWrapper::new(FixedSource);
    let e = EntryID::root().child(0);
    src.fetch_summary_tile(&e, tid(0, 10), false);
    src.fetch_summary_tile(&e, tid(10, 20), true);
    let got = src.get_summary_tiles();
    assert_eq!(got.len(), 2);
    assert_eq!(got[0].1.tile_id, tid(0, 10));
    assert!(!got[0].1.full);
    assert_eq!(got[1].1.tile_id, tid(10, 20));
    assert!(got[1].1.full);
    // Draining empties the queue.
    assert!(src.get_summary_tiles().is_empty());
}

#[test]
fn counter_arithmetic() {
    // Issue 3 fetches, drain 2, then the last: 3 -> 1 -> 0.
    let mut c = CountingDeferredDataSource::new(DeferredDataSourceWrapper::new(FixedSource));
    c.start_request();
    c.start_request();
    c.start_request();
    assert_eq!(c.outstanding_requests(), 3);
    let drained = c.finish_request(vec![1u32, 2u32]);
    assert_eq!(drained, vec![1u32, 2u32]);
    assert_eq!(c.outstanding_requests(), 1);
    c.finish_request(vec![3u32]);
    assert_eq!(c.outstanding_requests(), 0);
}

#[test]
fn counter_follows_fetch_and_drain() {
    let mut c = CountingDeferredDataSource::new(DeferredDataSourceWrapper::new(FixedSource));
    let e = EntryID::root().child(0);
    c.fetch_slot_tile(&e, tid(0, 10), false);
    c.fetch_slot_tile(&e, tid(10, 20), false);
    c.fetch_summary_tile(&e, tid(0, 10), false);
    assert_eq!(c.outstanding_requests(), 3);
    let slots = c.get_slot_tiles();
    assert_eq!(slots.len(), 2);
    assert_eq!(c.outstanding_requests(), 1);
    let summaries = c.get_summary_tiles();
    assert_eq!(summaries.len(), 1);
    assert_eq!(c.outstanding_requests(), 0);
}

#[test]
fn strip_redacts_all_text() {
    let src = StripDataSource::new(FixedSource);
    let e = EntryID::root().child(0);
    let tile = src
        .fetch_slot_meta_tile(&e, tid(0, 10), true)
        .expect("fixed source always answers");
    let item = &tile.data.items[0][0];
    assert_eq!(item.title, "Redacted");
    assert_eq!(item.item_uid, ItemUID(42));
    match &item.fields[0].1 {
        Field::U64(v) => assert_eq!(*v, 7),
        other => panic!("number changed kind: {:?}", other),
    }
    match &item.fields[1].1 {
        Field::String(s) => assert_eq!(s, "Redacted"),
        other => panic!("text kept its kind: {:?}", other),
    }
    match &item.fields[2].1 {
        Field::Vec(inner) => {
            match &inner[0] {
                Field::String(s) => assert_eq!(s, "Redacted"),
                other => panic!("nested text kept its kind: {:?}", other),
            }
            match &inner[1] {
                Field::I64(v) => assert_eq!(*v, -1),
                other => panic!("nested number changed kind: {:?}", other),
            }
        }
        other => panic!("list kept its kind: {:?}", other),
    }
    match &item.fields[3].1 {
        Field::ItemLink(l) => {
            assert_eq!(l.title, "Redacted");
            assert_eq!(l.item_uid, ItemUID(7));
        }
        other => panic!("link kept its kind: {:?}", other),
    }
}

#[test]
fn file_paths_use_slugs() {
    let fd = prof_viewer::file_data::FileDataSource::new("/tmp/prof".to_owned());
    assert_eq!(fd.info_path(), "/tmp/prof/info");
    let req = prof_viewer::deferred_data::TileRequest {
        entry_id: EntryID::root().child(0),
        tile_id: tid(0, 10),
        full: false,
    };
    let p = fd.summary_tile_path(&req);
    assert!(p.starts_with("/tmp/prof/summary_tile/"));
    assert!(p.ends_with(&req.to_slug()));
    assert!(fd.slot_tile_path(&req).starts_with("/tmp/prof/slot_tile/"));
    assert!(fd
        .slot_meta_tile_path(&req)
        .starts_with("/tmp/prof/slot_meta_tile/"));
}

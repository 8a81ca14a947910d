use prof_viewer::data::{
    DataSourceDescription, DataSourceInfo, EntryID, SlotMetaTile, SummaryTile, SummaryTileData,
    TileID, TileResult,
};
use prof_viewer::deferred_data::{
    DeferredDataSource, SlotMetaTileResponse, SlotTileResponse, SummaryTileResponse, TileRequest,
};
use prof_viewer::lru::LruDeferredDataSource;
use prof_viewer::timestamp::{Interval, Timestamp};

fn tid(a: i64, b: i64) -> TileID {
    TileID(Interval::new(Timestamp(a), Timestamp(b)))
}

/// A deferred backend that counts fetches and answers each pending summary
/// fetch at the next drain.
struct CountingBackend {
    summary_fetches: u64,
    pending: Vec<TileRequest>,
}

impl CountingBackend {
    fn new() -> Self {
        CountingBackend { summary_fetches: 0, pending: Vec::new() }
    }
}

impl DeferredDataSource for CountingBackend {
    fn fetch_description(&self) -> DataSourceDescription {
        DataSourceDescription { source_locator: vec![] }
    }

    fn fetch_info(&mut self) {}

    fn get_infos(&mut self) -> Vec<TileResult<DataSourceInfo>> {
        vec![]
    }

    fn fetch_summary_tile(&mut self, entry_id: &EntryID, tile_id: TileID, full: bool) {
        self.summary_fetches += 1;
        self.pending.push(TileRequest { entry_id: entry_id.clone(), tile_id, full });
    }

    fn get_summary_tiles(&mut self) -> Vec<SummaryTileResponse> {
        std::mem::take(&mut self.pending)
            .into_iter()
            .map(|req| {
                let tile = SummaryTile {
                    entry_id: req.entry_id.clone(),
                    tile_id: req.tile_id,
                    data: SummaryTileData { utilization: vec![] },
                };
                (Ok(tile), req)
            })
            .collect()
    }

    fn fetch_slot_tile(&mut self, _entry_id: &EntryID, _tile_id: TileID, _full: bool) {}

    fn get_slot_tiles(&mut self) -> Vec<SlotTileResponse> {
        vec![]
    }

    fn fetch_slot_meta_tile(&mut self, _entry_id: &EntryID, _tile_id: TileID, _full: bool) {}

    fn get_slot_meta_tiles(&mut self) -> Vec<SlotMetaTileResponse> {
        vec![]
    }
}

#[test]
fn cache_hit_skips_the_backend() {
    let mut lru = LruDeferredDataSource::new(CountingBackend::new(), 16);
    let e = EntryID::root().child(0);
    let t = tid(0, 10);

    // First fetch misses and goes downstream.
    lru.fetch_summary_tile(&e, t, false);
    let first = lru.get_summary_tiles();
    assert_eq!(first.len(), 1);
    assert_eq!(first[0].1.tile_id, t);

    // The same fetch again is served from the cache: the response appears in
    // the queue without another downstream call.
    lru.fetch_summary_tile(&e, t, false);
    let second = lru.get_summary_tiles();
    assert_eq!(second.len(), 1);
    assert_eq!(second[0].1.tile_id, t);
    assert!(second[0].0.is_ok());

    // A different fidelity is a different request and misses.
    lru.fetch_summary_tile(&e, t, true);
    let third = lru.get_summary_tiles();
    assert_eq!(third.len(), 1);
    assert!(third[0].1.full);
}

#[test]
fn capacity_evicts_least_recently_used() {
    let mut lru = LruDeferredDataSource::new(CountingBackend::new(), 2);
    let e = EntryID::root().child(0);
    let t1 = tid(0, 10);
    let t2 = tid(10, 20);
    let t3 = tid(20, 30);

    // Fill the cache with two tiles.
    lru.fetch_summary_tile(&e, t1, false);
    lru.fetch_summary_tile(&e, t2, false);
    assert_eq!(lru.get_summary_tiles().len(), 2);

    // A third tile evicts the least recently used one.
    lru.fetch_summary_tile(&e, t3, false);
    assert_eq!(lru.get_summary_tiles().len(), 1);

    // The first tile was evicted, so asking again goes downstream: draining
    // yields the fresh response rather than an immediate cached one.
    lru.fetch_summary_tile(&e, t1, false);
    let drained = lru.get_summary_tiles();
    assert_eq!(drained.len(), 1);
    assert_eq!(drained[0].1.tile_id, t1);
}

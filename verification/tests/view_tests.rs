use prof_viewer::data::{Color, Item, ItemUID, SlotTileData, TileID, TileResult};
use prof_viewer::view::{
    absorb_tile, ensure_requested, expand_row, invalidate_and_fill, is_slot_visible,
    select_interval_start, select_interval_stop, Context, IntervalSelectError, ItemLocator,
    ScrollState, Slot, TileCache,
};
use prof_viewer::data::EntryID;
use prof_viewer::map::AssocMap;
use prof_viewer::timestamp::{Interval, Timestamp};

fn iv(a: i64, b: i64) -> Interval {
    Interval::new(Timestamp(a), Timestamp(b))
}

fn tid(a: i64, b: i64) -> TileID {
    TileID(iv(a, b))
}

fn item(uid: u64, a: i64, b: i64) -> Item {
    Item {
        item_uid: ItemUID(uid),
        interval: iv(a, b),
        color: Color { r: 1, g: 2, b: 3, a: 255 },
    }
}

#[test]
fn subpixel_expansion_clamps_to_neighbours() {
    // Items [100,101) and [102,103) at a pixel of 5 ns: both are widened,
    // but the drawn intervals stay disjoint and the stored row is untouched.
    let row = vec![item(1, 100, 101), item(2, 102, 103)];
    let tile = iv(0, 1000);
    let drawn = expand_row(&row, tile, 5);
    assert_eq!(drawn.len(), 2);
    // Each drawn interval contains its item.
    assert!(drawn[0].start.0 <= 100 && drawn[0].stop.0 >= 101);
    assert!(drawn[1].start.0 <= 102 && drawn[1].stop.0 >= 103);
    // Widened to at least something and clamped at the shared midpoint.
    assert_eq!(drawn[0], iv(98, 101));
    assert_eq!(drawn[1], iv(101, 105));
    assert!(drawn[0].stop.0 <= drawn[1].start.0);
    // Storage is untouched.
    assert_eq!(row[0].interval, iv(100, 101));
    assert_eq!(row[1].interval, iv(102, 103));
}

#[test]
fn subpixel_expansion_leaves_wide_items_alone() {
    let row = vec![item(1, 0, 50), item(2, 60, 100)];
    let drawn = expand_row(&row, iv(0, 1000), 5);
    assert_eq!(drawn[0], iv(0, 50));
    assert_eq!(drawn[1], iv(60, 100));
}

#[test]
fn navigation_history_undo_redo() {
    let total = iv(0, 1000);
    let mut cx = Context::new(total);
    cx.zoom(iv(0, 100));
    cx.zoom(iv(10, 50));
    assert_eq!(cx.view_interval, iv(10, 50));
    cx.undo_pan_zoom();
    assert_eq!(cx.view_interval, iv(0, 100));
    cx.redo_pan_zoom();
    assert_eq!(cx.view_interval, iv(10, 50));
    // Undo at the oldest entry stays put.
    cx.undo_pan_zoom();
    cx.undo_pan_zoom();
    assert_eq!(cx.view_interval, iv(0, 100));
}

#[test]
fn pan_moves_by_percent_and_dedups() {
    let total = iv(0, 1000);
    let mut cx = Context::new(total);
    cx.zoom(iv(0, 100));
    cx.pan(5, true);
    assert_eq!(cx.view_interval, iv(5, 105));
    cx.pan(5, false);
    assert_eq!(cx.view_interval, iv(0, 100));
    // Two pans in a row collapse to one history entry: one undo returns to
    // the zoomed interval.
    cx.undo_pan_zoom();
    assert_eq!(cx.view_interval, iv(0, 100));
}

#[test]
fn interval_selection_checks() {
    let view = iv(10, 90);
    let total = iv(0, 100);
    assert_eq!(
        select_interval_start(Timestamp(95), view, total),
        Err(IntervalSelectError::StartAfterStop)
    );
    assert_eq!(
        select_interval_start(Timestamp(5), view, total),
        Ok(iv(5, 90))
    );
    assert_eq!(
        select_interval_stop(Timestamp(5), view),
        Err(IntervalSelectError::StopBeforeStart)
    );
    assert_eq!(select_interval_stop(Timestamp(95), view), Ok(iv(10, 95)));
    // A start beyond the whole profile is its own error.
    let wide_view = iv(10, 200);
    assert_eq!(
        select_interval_start(Timestamp(150), wide_view, total),
        Err(IntervalSelectError::StartAfterEnd)
    );
}

#[test]
fn visibility_filters() {
    let empty: Vec<String> = vec![];
    let kinds = vec!["cpu".to_owned(), "io".to_owned()];
    // Level one filters by node position.
    assert!(is_slot_visible(1, Some(3), "x", 0, 5, &empty));
    assert!(!is_slot_visible(1, Some(7), "x", 0, 5, &empty));
    // Level two filters by kind; an empty filter admits everything.
    assert!(is_slot_visible(2, None, "cpu", 0, 0, &kinds));
    assert!(!is_slot_visible(2, None, "gpu", 0, 0, &kinds));
    assert!(is_slot_visible(2, None, "gpu", 0, 0, &empty));
    // Other levels always pass.
    assert!(is_slot_visible(3, None, "anything", 0, 0, &kinds));
}

#[test]
fn tile_cache_lifecycle() {
    let mut cache: TileCache<SlotTileData> = AssocMap::new();
    let a = tid(0, 10);
    let b = tid(10, 20);
    let c = tid(20, 30);
    // First frame: everything is new and needs fetching.
    let fetch1 = invalidate_and_fill(&mut cache, &vec![a, b]);
    assert_eq!(fetch1, vec![a, b]);
    // A response for a wanted tile is stored.
    let data: TileResult<SlotTileData> = Ok(SlotTileData { items: vec![] });
    assert!(absorb_tile(&mut cache, a, data));
    // A response for a tile nobody wants anymore is dropped.
    let late: TileResult<SlotTileData> = Ok(SlotTileData { items: vec![] });
    assert!(!absorb_tile(&mut cache, c, late));
    // The viewport moves: only b and c are wanted now; a is dropped, b kept,
    // c is newly pending.
    let fetch2 = invalidate_and_fill(&mut cache, &vec![b, c]);
    assert_eq!(fetch2, vec![c]);
    assert!(!cache.contains_key(&a));
    assert!(cache.contains_key(&b));
    assert!(cache.contains_key(&c));
    // Metadata requests are issued once.
    let mut metas: TileCache<SlotTileData> = AssocMap::new();
    assert!(ensure_requested(&mut metas, a));
    assert!(!ensure_requested(&mut metas, a));
}

#[test]
fn slot_rows_and_item_lookup() {
    let mut slot = Slot::new(
        EntryID::root().child(0).child(0).child(1),
        "CPU 1".to_owned(),
        "cpu one".to_owned(),
        6,
    );
    assert_eq!(slot.rows(), 6);
    slot.toggle_expanded();
    assert_eq!(slot.rows(), 2);
    slot.toggle_expanded();

    // Load one tile with two rows; the item's screen row is reversed.
    let t = tid(0, 100);
    invalidate_and_fill(&mut slot.tiles, &vec![t]);
    let data = SlotTileData {
        items: vec![vec![item(10, 0, 5)], vec![item(11, 5, 8)]],
    };
    assert!(absorb_tile(&mut slot.tiles, t, Ok(data)));
    assert_eq!(slot.find_item_irow(ItemUID(11)), Some(0));
    assert_eq!(slot.find_item_irow(ItemUID(10)), Some(1));
    assert_eq!(slot.find_item_irow(ItemUID(99)), None);
}

#[test]
fn scroll_protocol_retries_until_found() {
    let mut s = ScrollState::new();
    // A request without a row scrolls to the top and becomes a retry.
    s.request(ItemLocator {
        entry_id: EntryID::root().child(0),
        irow: None,
        item_uid: ItemUID(5),
    });
    assert_eq!(s.first_frame(), Some(0));
    // Nothing found yet: the retry stays armed.
    assert_eq!(s.resolve_retry(None), None);
    // The tile arrived and the row is known: scroll and clear.
    assert_eq!(s.resolve_retry(Some(4)), Some(4));
    assert_eq!(s.resolve_retry(Some(4)), None);
    // A request that knows its row scrolls immediately, without a retry.
    s.request(ItemLocator {
        entry_id: EntryID::root().child(0),
        irow: Some(2),
        item_uid: ItemUID(6),
    });
    assert_eq!(s.first_frame(), Some(2));
    assert_eq!(s.resolve_retry(Some(9)), None);
}

use prof_viewer::codec::parse_slug;
use prof_viewer::data::{EntryID, TileID};
use prof_viewer::deferred_data::TileRequest;
use prof_viewer::timestamp::{Interval, Timestamp};

fn req(entry_id: EntryID, a: i64, b: i64, full: bool) -> TileRequest {
    TileRequest {
        entry_id,
        tile_id: TileID(Interval::new(Timestamp(a), Timestamp(b))),
        full,
    }
}

#[test]
fn slug_round_trip_plain() {
    let e = EntryID::root().child(1).child(0).child(3);
    let r = req(e, 0, 100, false);
    let slug = r.to_slug();
    let back = parse_slug(&slug).expect("a produced slug must decode");
    assert_eq!(back, r);
}

#[test]
fn slug_round_trip_negative_times_and_summary() {
    let e = EntryID::root().child(2).summary();
    let r = req(e, -50, -1, true);
    let slug = r.to_slug();
    let back = parse_slug(&slug).expect("a produced slug must decode");
    assert_eq!(back, r);
}

#[test]
fn slug_round_trip_extremes() {
    let e = EntryID::root();
    let r = req(e, i64::MIN, i64::MAX, true);
    let slug = r.to_slug();
    let back = parse_slug(&slug).expect("a produced slug must decode");
    assert_eq!(back, r);
}

#[test]
fn slug_is_url_safe() {
    let e = EntryID::root().child(7).summary();
    let r = req(e, -3, 12, false);
    let slug = r.to_slug();
    assert!(slug
        .chars()
        .all(|c| c.is_ascii_alphanumeric()));
}

#[test]
fn parse_rejects_garbage() {
    assert_eq!(parse_slug(""), None);
    assert_eq!(parse_slug("hello"), None);
    assert_eq!(parse_slug("p0000000000000000p0000000000000000x"), None);
    // One character short of a well-formed slug.
    let r = req(EntryID::root(), 0, 1, false);
    let mut slug = r.to_slug();
    slug.pop();
    assert_eq!(parse_slug(&slug), None);
}

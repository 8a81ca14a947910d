use prof_viewer::data::{TileID, TileSet};
use prof_viewer::map::AssocMap;
use prof_viewer::tile_manager::{tile_set_ok, TileManager};
use prof_viewer::timestamp::{Interval, Timestamp};

fn iv(a: i64, b: i64) -> Interval {
    Interval::new(Timestamp(a), Timestamp(b))
}

#[test]
fn request_dynamic_empty() {
    let int = Interval::new(Timestamp(0), Timestamp(10));
    let req = Interval::new(Timestamp(5), Timestamp(5));
    let mut tm = TileManager::new(TileSet::default(), int);
    assert!(tm.request_tiles(req, false).is_empty());
    assert!(tm.request_tiles(req, true).is_empty());
}

#[test]
fn request_static_empty() {
    let int = Interval::new(Timestamp(0), Timestamp(100));
    let req = Interval::new(Timestamp(25), Timestamp(25));
    let ts = TileSet {
        tiles: vec![
            vec![TileID(int)],
            vec![
                TileID(Interval::new(Timestamp(0), Timestamp(50))),
                TileID(Interval::new(Timestamp(50), Timestamp(100))),
            ],
        ],
    };
    let mut tm = TileManager::new(ts, int);
    assert!(tm.request_tiles(req, false).is_empty());
    assert!(tm.request_tiles(req, true).is_empty());
}

#[test]
fn request_dynamic_repeat() {
    let int = Interval::new(Timestamp(0), Timestamp(10));
    let req = Interval::new(Timestamp(0), Timestamp(10));
    let mut tm = TileManager::new(TileSet::default(), int);
    // Answer should be stable on repeat queries.
    assert_eq!(tm.request_tiles(req, false), vec![TileID(req)]);
    assert_eq!(tm.request_tiles(req, false), vec![TileID(req)]);
    assert_eq!(tm.request_tiles(req, true), vec![TileID(req)]);
    assert_eq!(tm.request_tiles(req, true), vec![TileID(req)]);
}

#[test]
fn request_static_repeat() {
    let int = Interval::new(Timestamp(0), Timestamp(100));
    let req = Interval::new(Timestamp(10), Timestamp(90));
    let ts = TileSet {
        tiles: vec![
            vec![TileID(int)],
            vec![
                TileID(Interval::new(Timestamp(0), Timestamp(50))),
                TileID(Interval::new(Timestamp(50), Timestamp(100))),
            ],
        ],
    };
    let mut tm = TileManager::new(ts, int);
    let part = vec![TileID(Interval::new(Timestamp(0), Timestamp(100)))];
    let full = vec![
        TileID(Interval::new(Timestamp(0), Timestamp(50))),
        TileID(Interval::new(Timestamp(50), Timestamp(100))),
    ];
    // Answer should be stable on repeat queries.
    assert_eq!(&tm.request_tiles(req, false), &part);
    assert_eq!(&tm.request_tiles(req, false), &part);
    assert_eq!(&tm.request_tiles(req, true), &full);
    assert_eq!(&tm.request_tiles(req, true), &full);
    assert_eq!(&tm.request_tiles(req, false), &part);
    assert_eq!(&tm.request_tiles(req, false), &part);
    assert_eq!(&tm.request_tiles(req, true), &full);
    assert_eq!(&tm.request_tiles(req, true), &full);
}

#[test]
fn dynamic_cover_single_tile() {
    // A dynamic profile answers every nonempty request with one tile that is
    // exactly the clipped request.
    let int = iv(0, 10);
    let mut tm = TileManager::new(TileSet::default(), int);
    assert_eq!(tm.request_tiles(iv(0, 10), false), vec![TileID(iv(0, 10))]);
    assert_eq!(tm.request_tiles(iv(0, 10), true), vec![TileID(iv(0, 10))]);
    // A view beyond the profile is clipped first.
    assert_eq!(tm.request_tiles(iv(-5, 25), false), vec![TileID(iv(0, 10))]);
    assert_eq!(tm.request_tiles(iv(3, 7), false), vec![TileID(iv(3, 7))]);
}

#[test]
fn static_level_selection() {
    // The narrow view picks the coarse level; full fidelity always picks the
    // finest level, and only overlapping tiles come back.
    let int = iv(0, 100);
    let ts = TileSet {
        tiles: vec![
            vec![TileID(iv(0, 100))],
            vec![TileID(iv(0, 50)), TileID(iv(50, 100))],
        ],
    };
    let mut tm = TileManager::new(ts, int);
    assert_eq!(tm.request_tiles(iv(10, 90), false), vec![TileID(iv(0, 100))]);
    assert_eq!(
        tm.request_tiles(iv(10, 90), true),
        vec![TileID(iv(0, 50)), TileID(iv(50, 100))]
    );
    // A view inside the second half overlaps only the second fine tile.
    assert_eq!(tm.request_tiles(iv(60, 80), true), vec![TileID(iv(50, 100))]);
}

#[test]
fn static_fine_view_picks_fine_level() {
    let int = iv(0, 100);
    let ts = TileSet {
        tiles: vec![
            vec![TileID(iv(0, 100))],
            vec![TileID(iv(0, 25)), TileID(iv(25, 50)), TileID(iv(50, 75)), TileID(iv(75, 100))],
        ],
    };
    let mut tm = TileManager::new(ts, int);
    // A 20-wide view matches the 25-wide tiles far better than the 100-wide.
    assert_eq!(
        tm.request_tiles(iv(20, 40), false),
        vec![TileID(iv(0, 25)), TileID(iv(25, 50))]
    );
}

#[test]
fn invalidate_cache_keeps_only_given_keys() {
    // Keys {A, B, C}; invalidating with [B, D] leaves exactly {B}.
    let a = TileID(iv(0, 10));
    let b = TileID(iv(10, 20));
    let c = TileID(iv(20, 30));
    let d = TileID(iv(30, 40));
    let mut cache: AssocMap<TileID, u32> = AssocMap::new();
    cache.insert(a, 1);
    cache.insert(b, 2);
    cache.insert(c, 3);
    let keep = vec![b, d];
    TileManager::invalidate_cache(&keep, &mut cache);
    assert_eq!(cache.len(), 1);
    assert!(!cache.contains_key(&a));
    assert!(cache.contains_key(&b));
    assert!(!cache.contains_key(&c));
    assert!(!cache.contains_key(&d));
    assert_eq!(cache.get(&b), Some(&2));
}

#[test]
fn pyramid_gate_accepts_good_and_rejects_bad() {
    let total = iv(0, 100);
    let good = TileSet {
        tiles: vec![
            vec![TileID(iv(0, 100))],
            vec![TileID(iv(0, 50)), TileID(iv(50, 100))],
        ],
    };
    assert!(tile_set_ok(&good, total));
    assert!(tile_set_ok(&TileSet::default(), total));
    // An empty level is malformed.
    let empty_level = TileSet { tiles: vec![vec![]] };
    assert!(!tile_set_ok(&empty_level, total));
    // A gap in a level leaves part of the profile uncovered.
    let gap = TileSet {
        tiles: vec![vec![TileID(iv(0, 40)), TileID(iv(60, 100))]],
    };
    assert!(!tile_set_ok(&gap, total));
    // A later level coarser than an earlier one is malformed.
    let coarser = TileSet {
        tiles: vec![
            vec![TileID(iv(0, 50)), TileID(iv(50, 100))],
            vec![TileID(iv(0, 100))],
        ],
    };
    assert!(!tile_set_ok(&coarser, total));
}

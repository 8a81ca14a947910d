use prof_viewer::data::{EntryID, Field, FieldID, ItemField, ItemLink, ItemMeta, ItemUID, TileID};
use prof_viewer::search::SearchState;
use prof_viewer::timestamp::{Interval, Timestamp};

fn tid(a: i64, b: i64) -> TileID {
    TileID(Interval::new(Timestamp(a), Timestamp(b)))
}

fn item(uid: u64, title: &str, fields: Vec<ItemField>) -> ItemMeta {
    ItemMeta {
        item_uid: ItemUID(uid),
        original_interval: Interval::new(Timestamp(0), Timestamp(10)),
        title: title.to_owned(),
        fields,
    }
}

#[test]
fn substring_match_on_title() {
    let title_field = FieldID(0);
    let mut s = SearchState::new(title_field);
    s.query = "cat".to_owned();
    assert!(s.is_match(&item(1, "concatenate", vec![])));
    assert!(!s.is_match(&item(2, "dog", vec![])));
    // The empty query matches everything by substring.
    s.query = String::new();
    assert!(s.is_match(&item(3, "anything", vec![])));
}

#[test]
fn whole_word_match_uses_boundaries() {
    // A query matched as a whole word must not fire inside a longer word:
    // this fails if the regex wrapper were to report plain containment.
    let title_field = FieldID(0);
    let mut s = SearchState::new(title_field);
    s.query = "cat".to_owned();
    s.whole_word = true;
    assert!(!s.is_match(&item(1, "concatenate", vec![])));
    assert!(s.is_match(&item(2, "a cat sat", vec![])));
    assert!(s.is_match(&item(3, "cat", vec![])));
    // Regex metacharacters in the query are taken literally.
    s.query = "a+b".to_owned();
    assert!(s.is_match(&item(4, "sum a+b here", vec![])));
    assert!(!s.is_match(&item(5, "aab", vec![])));
}

#[test]
fn field_match_recurses_into_lists_and_links() {
    let title_field = FieldID(0);
    let data_field = FieldID(5);
    let mut s = SearchState::new(title_field);
    s.query = "needle".to_owned();
    s.search_field = data_field;
    let with_list = item(
        1,
        "no match here",
        vec![ItemField(
            data_field,
            Field::Vec(vec![Field::U64(5), Field::String("a needle!".to_owned())]),
            None,
        )],
    );
    assert!(s.is_match(&with_list));
    let with_link = item(
        2,
        "no match here",
        vec![ItemField(
            data_field,
            Field::ItemLink(ItemLink {
                item_uid: ItemUID(9),
                title: "needle factory".to_owned(),
                interval: Interval::new(Timestamp(0), Timestamp(1)),
                entry_id: EntryID::root(),
            }),
            None,
        )],
    );
    assert!(s.is_match(&with_link));
    // Numbers never match text queries.
    let numeric = item(3, "no", vec![ItemField(data_field, Field::U64(7), None)]);
    assert!(!s.is_match(&numeric));
    // The title is not searched when another field is selected.
    let title_only = item(4, "needle", vec![]);
    assert!(!s.is_match(&title_only));
}

#[test]
fn results_deduplicate_and_count() {
    let title_field = FieldID(0);
    let mut s = SearchState::new(title_field);
    s.query = "x".to_owned();
    let e = EntryID::root().child(0);
    let t = tid(0, 10);
    assert!(s.start_entry(&e));
    assert!(s.start_tile(&e, t));
    let m = item(7, "x marks", vec![]);
    s.insert(&e, t, 3, &m);
    s.insert(&e, t, 3, &m);
    assert_eq!(s.result_count(), 1);
    assert!(s.contains_result(ItemUID(7)));
    assert!(!s.contains_result(ItemUID(8)));
}

#[test]
fn tiles_processed_once_per_cache_lifetime() {
    let title_field = FieldID(0);
    let mut s = SearchState::new(title_field);
    s.query = "x".to_owned();
    let e = EntryID::root().child(0);
    let t = tid(0, 10);
    assert!(s.start_entry(&e));
    assert!(s.start_tile(&e, t));
    // The same tile is skipped the second time.
    assert!(s.start_entry(&e));
    assert!(!s.start_tile(&e, t));
    // A different tile is fresh.
    assert!(s.start_tile(&e, tid(10, 20)));
}

#[test]
fn invalidation_policy() {
    let title_field = FieldID(0);
    let view = Interval::new(Timestamp(0), Timestamp(100));
    let mut s = SearchState::new(title_field);
    s.query = "x".to_owned();
    s.ensure_valid_cache(view);
    let e = EntryID::root().child(0);
    let t = tid(0, 10);
    s.start_entry(&e);
    s.start_tile(&e, t);
    s.insert(&e, t, 0, &item(1, "x", vec![]));
    assert_eq!(s.result_count(), 1);

    // Same knobs, same view: the cache survives.
    s.ensure_valid_cache(view);
    assert_eq!(s.result_count(), 1);

    // Enabling include-collapsed grows the domain: the cache survives, so
    // the result set can only grow from here.
    s.include_collapsed_entries = true;
    s.ensure_valid_cache(view);
    assert_eq!(s.result_count(), 1);

    // Disabling shrinks the domain: full recompute.
    s.include_collapsed_entries = false;
    s.ensure_valid_cache(view);
    assert_eq!(s.result_count(), 0);

    // A changed query clears too.
    s.start_entry(&e);
    s.start_tile(&e, t);
    s.insert(&e, t, 0, &item(1, "x", vec![]));
    s.query = "y".to_owned();
    s.ensure_valid_cache(view);
    assert_eq!(s.result_count(), 0);

    // A changed view interval clears as well.
    s.query = "x".to_owned();
    s.ensure_valid_cache(view);
    s.start_entry(&e);
    s.start_tile(&e, t);
    s.insert(&e, t, 0, &item(1, "x", vec![]));
    s.ensure_valid_cache(Interval::new(Timestamp(0), Timestamp(50)));
    assert_eq!(s.result_count(), 0);
}

#[test]
fn entry_tree_groups_nonempty_entries() {
    let title_field = FieldID(0);
    let mut s = SearchState::new(title_field);
    s.query = "x".to_owned();
    // A hit under node 2, kind 1, position 4; an empty entry under node 0.
    let hit_entry = EntryID::root().child(2).child(1).child(4);
    let empty_entry = EntryID::root().child(0).child(0).child(0);
    let t = tid(0, 10);
    s.start_entry(&hit_entry);
    s.start_tile(&hit_entry, t);
    s.insert(&hit_entry, t, 0, &item(1, "x", vec![]));
    s.start_entry(&empty_entry);
    s.start_tile(&empty_entry, t);
    s.build_entry_tree();
    assert!(s.tree_contains(2, 1, 4));
    assert!(!s.tree_contains(0, 0, 0));
    assert!(!s.tree_contains(2, 1, 5));
}

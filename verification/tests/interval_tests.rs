use prof_viewer::data::{EntryID, FieldID, FieldSchema};
use prof_viewer::text::{chars_of, chars_to_string, contains_seq};
use prof_viewer::timestamp::{Interval, Timestamp, TimestampParseError};

fn iv(a: i64, b: i64) -> Interval {
    Interval::new(Timestamp(a), Timestamp(b))
}

#[test]
fn interval_arithmetic() {
    let a = iv(0, 10);
    let b = iv(5, 20);
    assert_eq!(a.intersection(b), iv(5, 10));
    assert_eq!(a.union(b), iv(0, 20));
    assert!(a.overlaps(b));
    assert!(!iv(0, 5).overlaps(iv(5, 10)));
    assert!(a.contains(Timestamp(0)));
    assert!(!a.contains(Timestamp(10)));
    assert!(b.contains_interval(iv(6, 19)));
    assert_eq!(iv(10, 20).grow(5), iv(5, 25));
    assert_eq!(iv(10, 20).translate(-10), iv(0, 10));
    assert_eq!(iv(10, 20).subtract_before(Timestamp(15)), iv(15, 20));
    assert_eq!(iv(10, 20).subtract_after(Timestamp(15)), iv(10, 15));
    assert_eq!(iv(10, 20).center(), Timestamp(15));
    assert_eq!(iv(0, 9).duration_ns(), 9);
    // Growing saturates instead of wrapping at the ends of time.
    assert_eq!(iv(i64::MIN + 1, i64::MAX - 1).grow(5).start.0, i64::MIN);
    assert_eq!(iv(i64::MIN + 1, i64::MAX - 1).grow(5).stop.0, i64::MAX);
}

#[test]
fn entry_id_paths() {
    let root = EntryID::root();
    assert_eq!(root.level(), 0);
    let node = root.child(2);
    let slot = node.child(7);
    let summary = node.summary();
    assert_eq!(slot.level(), 2);
    assert_eq!(slot.slot_index(0), Some(2));
    assert_eq!(slot.slot_index(1), Some(7));
    assert_eq!(slot.slot_index(2), None);
    assert_eq!(slot.last_slot_index(), Some(7));
    assert_eq!(summary.last_slot_index(), None);
    assert!(slot.has_prefix(&node));
    assert!(slot.has_prefix(&root));
    assert!(!node.has_prefix(&slot));
    assert!(slot == node.child(7));
    assert!(slot != node.child(8));
}

#[test]
fn field_schema_names() {
    let mut schema = FieldSchema::new();
    assert!(!schema.contains_name("Title"));
    let title = schema.insert("Title".to_owned(), true);
    let hidden = schema.insert("Internal".to_owned(), false);
    assert_eq!(title, FieldID(0));
    assert_eq!(hidden, FieldID(1));
    assert!(schema.contains_name("Title"));
    assert_eq!(schema.get_name(title).map(|s| s.as_str()), Some("Title"));
    assert_eq!(schema.get_name(FieldID(9)), None);
    assert_eq!(schema.searchable(), vec![title]);
}

#[test]
fn text_helpers() {
    let hay = chars_of("the needle in the haystack");
    assert!(contains_seq(&hay, &chars_of("needle")));
    assert!(contains_seq(&hay, &chars_of("")));
    assert!(!contains_seq(&hay, &chars_of("thimble")));
    let round = chars_to_string(&chars_of("résumé"));
    assert_eq!(round, "résumé");
}

#[test]
fn timestamp_parse_units_and_errors() {
    assert_eq!(Timestamp::parse("123 ns"), Ok(Timestamp(123)));
    assert_eq!(Timestamp::parse("123ns"), Ok(Timestamp(123)));
    assert_eq!(Timestamp::parse("5 us"), Ok(Timestamp(5_000)));
    assert_eq!(Timestamp::parse("7 ms"), Ok(Timestamp(7_000_000)));
    assert_eq!(Timestamp::parse("2 s"), Ok(Timestamp(2_000_000_000)));
    assert_eq!(Timestamp::parse("-42 ms"), Ok(Timestamp(-42_000_000)));
    assert_eq!(Timestamp::parse("0ns"), Ok(Timestamp(0)));
    // Errors, each on the input kind that provokes it.
    assert_eq!(Timestamp::parse(""), Err(TimestampParseError::InvalidValue));
    assert_eq!(Timestamp::parse("ms"), Err(TimestampParseError::InvalidValue));
    assert_eq!(Timestamp::parse("123"), Err(TimestampParseError::NoUnit));
    assert_eq!(Timestamp::parse("123 "), Err(TimestampParseError::NoUnit));
    assert_eq!(
        Timestamp::parse("123 lightyears"),
        Err(TimestampParseError::InvalidUnit)
    );
    // The scaled value must fit the nanosecond range.
    assert_eq!(
        Timestamp::parse("99999999999999999999 s"),
        Err(TimestampParseError::InvalidValue)
    );
    assert_eq!(
        Timestamp::parse("9223372036854775807 ns"),
        Ok(Timestamp(i64::MAX))
    );
    assert_eq!(
        Timestamp::parse("9223372036854775808 ns"),
        Err(TimestampParseError::InvalidValue)
    );
    assert_eq!(
        Timestamp::parse("-9223372036854775808 ns"),
        Ok(Timestamp(i64::MIN))
    );
}

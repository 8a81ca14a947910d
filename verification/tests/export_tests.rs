use prof_viewer::data::{
    Color, EntryInfo, Field, FieldID, FieldSchema, ItemField, ItemMeta, ItemUID, SlotMetaTileData,
};
use prof_viewer::export::{
    sanitize, slugs_unique, sql_type_text, upgrade_column_sql, walk_entry_list, ExportError,
    FieldType, SlotMetaTable,
};
use prof_viewer::timestamp::{Interval, Timestamp};

#[test]
fn meet_concrete_pairs() {
    // infer(U64(3)) = U64, infer(String("x")) = String,
    // meet(U64, String) = String, then meet(String, ItemLink) = ItemLink.
    assert_eq!(FieldType::infer_type(&Field::U64(3)), FieldType::U64);
    assert_eq!(
        FieldType::infer_type(&Field::String("x".to_owned())),
        FieldType::String
    );
    let met = FieldType::U64.meet(&FieldType::String);
    assert_eq!(met, FieldType::String);
    assert_eq!(met.meet(&FieldType::ItemLink), FieldType::ItemLink);
}

#[test]
fn meet_is_idempotent_and_commutative_on_samples() {
    let samples = vec![
        FieldType::I64,
        FieldType::U64,
        FieldType::String,
        FieldType::Interval,
        FieldType::ItemLink,
        FieldType::Vec(Box::new(FieldType::U64)),
        FieldType::Empty,
        FieldType::Unknown,
    ];
    for t in &samples {
        assert_eq!(t.meet(t), t.clone());
    }
    for a in &samples {
        for b in &samples {
            match (a.try_meet(b), b.try_meet(a)) {
                (Some(x), Some(y)) => assert_eq!(x, y),
                (None, None) => {}
                _ => panic!("compatibility must be symmetric"),
            }
        }
    }
}

#[test]
fn meet_rejects_unrelated_kinds() {
    assert_eq!(FieldType::I64.try_meet(&FieldType::U64), None);
    assert_eq!(FieldType::Interval.try_meet(&FieldType::String), None);
    assert_eq!(
        FieldType::Unknown.try_meet(&FieldType::Interval),
        Some(FieldType::Interval)
    );
}

#[test]
fn infer_nested_list() {
    let v = Field::Vec(vec![Field::U64(1), Field::String("x".to_owned())]);
    assert_eq!(
        FieldType::try_infer(&v),
        Some(FieldType::Vec(Box::new(FieldType::String)))
    );
    let bad = Field::Vec(vec![Field::I64(1), Field::Interval(Interval::new(
        Timestamp(0),
        Timestamp(1),
    ))]);
    assert_eq!(FieldType::try_infer(&bad), None);
    let empty = Field::Vec(vec![]);
    assert_eq!(
        FieldType::try_infer(&empty),
        Some(FieldType::Vec(Box::new(FieldType::Unknown)))
    );
}

#[test]
fn sanitize_keeps_alnum_runs() {
    assert_eq!(sanitize("Hello, World!"), "hello_world");
    assert_eq!(sanitize("CPU 3 (util)"), "cpu_3_util");
    assert_eq!(sanitize("___"), "");
    assert_eq!(sanitize(""), "");
    // The one rule applies to path segments too.
    assert_eq!(sanitize("Node 0"), "node_0");
    assert_eq!(sanitize("My CPU-7"), "my_cpu_7");
}

#[test]
fn sql_text_of_types() {
    assert_eq!(sql_type_text(&FieldType::I64), "BIGINT");
    assert_eq!(sql_type_text(&FieldType::U64), "UBIGINT");
    assert_eq!(sql_type_text(&FieldType::String), "TEXT");
    assert_eq!(
        sql_type_text(&FieldType::Interval),
        "STRUCT(start BIGINT, stop BIGINT, duration BIGINT)"
    );
    assert_eq!(
        sql_type_text(&FieldType::Vec(Box::new(FieldType::U64))),
        "UBIGINT[]"
    );
    assert_eq!(sql_type_text(&FieldType::Empty), "BOOLEAN");
}

#[test]
fn upgrade_sql_rewrites_column() {
    let sql = upgrade_column_sql("items", "owner", &FieldType::U64, &FieldType::ItemLink);
    assert!(sql.starts_with("ALTER TABLE items ALTER COLUMN owner TYPE STRUCT(item_uid UBIGINT"));
    assert!(sql.contains("'title': owner"));
    assert!(sql.ends_with("'entry_slug': NULL};"));
}

fn small_tree() -> EntryInfo {
    EntryInfo::Panel {
        short_name: "root".to_owned(),
        long_name: "the root".to_owned(),
        summary: None,
        slots: vec![
            EntryInfo::Panel {
                short_name: "Node 0".to_owned(),
                long_name: "node zero".to_owned(),
                summary: Some(Box::new(EntryInfo::Summary {
                    color: Color { r: 0, g: 0, b: 0, a: 255 },
                })),
                slots: vec![EntryInfo::Slot {
                    short_name: "CPU 0".to_owned(),
                    long_name: "cpu zero".to_owned(),
                    max_rows: 4,
                }],
            },
            EntryInfo::Slot {
                short_name: "IO".to_owned(),
                long_name: "io channel".to_owned(),
                max_rows: 1,
            },
        ],
    }
}

#[test]
fn walk_assigns_nested_slugs() {
    let rows = walk_entry_list(&small_tree());
    assert_eq!(rows.len(), 3);
    assert_eq!(rows[0].entry_id_slug, "node_0");
    assert_eq!(rows[0].parent_id_slug, None);
    assert_eq!(rows[1].entry_id_slug, "node_0_cpu_0");
    assert_eq!(rows[1].parent_id_slug.as_deref(), Some("node_0"));
    assert_eq!(rows[2].entry_id_slug, "io");
    assert_eq!(rows[2].parent_id_slug, None);
    assert!(slugs_unique(&rows));
}

#[test]
fn schema_inference_adds_and_upgrades_columns() {
    let mut schema = FieldSchema::new();
    let owner = schema.insert("Owner".to_owned(), true);
    let size = schema.insert("Size".to_owned(), false);

    let item = |fields: Vec<ItemField>| ItemMeta {
        item_uid: ItemUID(1),
        original_interval: Interval::new(Timestamp(0), Timestamp(1)),
        title: "t".to_owned(),
        fields,
    };

    let mut table = SlotMetaTable::new();

    // First tile: Owner starts as a number, Size as a number.
    let tile1 = SlotMetaTileData {
        items: vec![vec![item(vec![
            ItemField(owner, Field::U64(7), None),
            ItemField(size, Field::I64(9), None),
        ])]],
    };
    let actions1 = table.ingest_tile(&tile1, &schema).unwrap();
    assert_eq!(actions1.new_columns.len(), 2);
    assert_eq!(actions1.new_columns[0].0, "owner");
    assert_eq!(actions1.new_columns[0].1, FieldType::U64);
    assert_eq!(actions1.new_columns[1].0, "size");
    assert_eq!(actions1.new_columns[1].1, FieldType::I64);
    assert!(actions1.upgrades.is_empty());

    // Second tile: Owner appears as text, upgrading its column.
    let tile2 = SlotMetaTileData {
        items: vec![vec![item(vec![ItemField(
            owner,
            Field::String("alice".to_owned()),
            None,
        )])]],
    };
    let actions2 = table.ingest_tile(&tile2, &schema).unwrap();
    assert!(actions2.new_columns.is_empty());
    assert_eq!(
        actions2.upgrades,
        vec![(0usize, FieldType::U64, FieldType::String)]
    );

    // A tile with an incompatible value is a schema error.
    let tile3 = SlotMetaTileData {
        items: vec![vec![item(vec![ItemField(
            size,
            Field::String("nine".to_owned()),
            None,
        )])]],
    };
    match table.ingest_tile(&tile3, &schema) {
        Err(e) => assert_eq!(e, ExportError::SchemaIncompatible),
        Ok(_) => panic!("an incompatible value must be a schema error"),
    }

    // A field the schema does not know is an error too.
    let tile4 = SlotMetaTileData {
        items: vec![vec![item(vec![ItemField(FieldID(99), Field::U64(0), None)])]],
    };
    match table.ingest_tile(&tile4, &schema) {
        Err(e) => assert_eq!(e, ExportError::UnknownField),
        Ok(_) => panic!("an unnamed field must be a schema error"),
    }
}

#[test]
fn item_rows_route_values_and_keep_first_duplicates() {
    let mut schema = FieldSchema::new();
    let owner = schema.insert("Owner".to_owned(), true);
    let size = schema.insert("Size".to_owned(), false);
    let mut table = SlotMetaTable::new();
    let seed = SlotMetaTileData {
        items: vec![vec![ItemMeta {
            item_uid: ItemUID(1),
            original_interval: Interval::new(Timestamp(0), Timestamp(1)),
            title: "t".to_owned(),
            fields: vec![
                ItemField(owner, Field::U64(7), None),
                ItemField(size, Field::I64(9), None),
            ],
        }]],
    };
    table.ingest_tile(&seed, &schema).unwrap();

    // A duplicate Owner keeps its first value; Size is absent.
    let item = ItemMeta {
        item_uid: ItemUID(2),
        original_interval: Interval::new(Timestamp(0), Timestamp(1)),
        title: "u".to_owned(),
        fields: vec![
            ItemField(owner, Field::U64(3), None),
            ItemField(owner, Field::U64(4), None),
        ],
    };
    let row = prof_viewer::export::item_row(&item, &table);
    assert_eq!(row.len(), 2);
    match &row[0] {
        Some(Field::U64(v)) => assert_eq!(*v, 3),
        other => panic!("first value not kept: {:?}", other),
    }
    assert!(row[1].is_none());
    let dups = prof_viewer::export::duplicate_column_slots(&item, &table);
    assert_eq!(dups, vec![0usize]);

    // An item without duplicates reports none.
    let clean = ItemMeta {
        item_uid: ItemUID(3),
        original_interval: Interval::new(Timestamp(0), Timestamp(1)),
        title: "v".to_owned(),
        fields: vec![ItemField(size, Field::I64(1), None)],
    };
    assert!(prof_viewer::export::duplicate_column_slots(&clean, &table).is_empty());
}

#[test]
fn interval_row_carries_duration() {
    let (start, stop, duration) =
        prof_viewer::export::interval_row(Interval::new(Timestamp(3), Timestamp(10)));
    assert_eq!((start, stop, duration), (3, 10, 7));
}

use parquet_exp::encoder::{
    encode, encode_i64_column, encode_utf8_column, ColumnBatch, ColumnData, MAX_TEXT_BYTES,
};
use parquet_exp::error::WriteError;
use parquet_exp::record::{FieldValue, Row};
use parquet_exp::rowwritebuffer::create_row;
use parquet_exp::schema::{
    FieldDescriptor, LeafKind, LogicalType, PhysicalType, Schema, Strategy,
};
use parquet_exp::writer::sink_columns;

fn pair(id: i64, text: &str) -> Row {
    create_row(vec![
        ("id".to_owned(), FieldValue::Int64(id)),
        ("text".to_owned(), FieldValue::Utf8(text.to_owned())),
    ])
}

fn pair_schema() -> Schema {
    Schema::new(vec![
        FieldDescriptor::new("id".to_owned(), LogicalType::Int64, PhysicalType::Int64, true),
        FieldDescriptor::new("text".to_owned(), LogicalType::Utf8, PhysicalType::ByteArray, true),
    ])
}

#[test]
fn a_row_reads_back_the_pairs_it_was_built_from() {
    let pairs = vec![
        ("id".to_owned(), FieldValue::Int64(42)),
        ("small".to_owned(), FieldValue::Int32(-7)),
        ("account".to_owned(), FieldValue::Utf8("Hello".to_owned())),
        ("gone".to_owned(), FieldValue::Null),
    ];
    let row = create_row(pairs.clone());
    assert_eq!(row.len(), 4);
    for (i, (name, value)) in pairs.iter().enumerate() {
        assert_eq!(row.name(i), Some(name));
        assert_eq!(row.get(i), Some(value));
    }
    assert_eq!(row.get_long(0), Some(42));
    assert_eq!(row.get_long(1), None);
    assert_eq!(row.get_string(2), Some(&"Hello".to_owned()));
    assert_eq!(row.get_string(3), None);
    assert_eq!(row.get(4), None);
    assert_eq!(row.name(4), None);
    assert_eq!(row.get_long(4), None);
    assert_eq!(row.get_string(4), None);
    assert_eq!(row.into_fields(), pairs);
}

#[test]
fn integer_statistics_are_the_least_and_the_greatest_value() {
    let batch = vec![pair(10, "b"), pair(2, "c"), pair(7, "a")];
    assert_eq!(
        encode_i64_column(&batch, 0),
        Ok(ColumnData::Int64 { values: vec![10, 2, 7], min: Some(2), max: Some(10) })
    );
    let negative = vec![pair(-3, "x"), pair(i64::MIN, "y"), pair(i64::MAX, "z"), pair(0, "w")];
    assert_eq!(
        encode_i64_column(&negative, 0),
        Ok(ColumnData::Int64 {
            values: vec![-3, i64::MIN, i64::MAX, 0],
            min: Some(i64::MIN),
            max: Some(i64::MAX)
        })
    );
}

#[test]
fn text_statistics_are_the_first_and_the_last_value_not_the_least_and_the_greatest() {
    let batch = vec![pair(10, "b"), pair(2, "c"), pair(7, "a")];
    let encoded = encode_utf8_column(&batch, 1).unwrap();
    let (values, min, max) = match encoded {
        ColumnData::Utf8 { values, min, max } => (values, min, max),
        other => panic!("not a text column: {:?}", other),
    };
    assert_eq!(values, vec!["b".to_owned(), "c".to_owned(), "a".to_owned()]);
    assert_eq!(min, Some("b".to_owned()));
    assert_eq!(max, Some("a".to_owned()));
    assert_ne!(min.as_ref(), values.iter().min());
    assert_ne!(max.as_ref(), values.iter().max());
}

#[test]
fn an_empty_batch_has_columns_without_statistics() {
    let batch: Vec<Row> = vec![];
    assert_eq!(
        encode(&batch, &pair_schema()),
        Ok(ColumnBatch {
            columns: vec![
                ColumnData::Int64 { values: vec![], min: None, max: None },
                ColumnData::Utf8 { values: vec![], min: None, max: None },
            ]
        })
    );
}

#[test]
fn a_batch_is_encoded_column_by_column_in_schema_order() {
    let batch = vec![pair(5, "five"), pair(3, "three")];
    assert_eq!(
        encode(&batch, &pair_schema()),
        Ok(ColumnBatch {
            columns: vec![
                ColumnData::Int64 { values: vec![5, 3], min: Some(3), max: Some(5) },
                ColumnData::Utf8 {
                    values: vec!["five".to_owned(), "three".to_owned()],
                    min: Some("five".to_owned()),
                    max: Some("three".to_owned()),
                },
            ]
        })
    );
}

#[test]
fn the_first_column_that_fails_gives_the_failure() {
    let schema = Schema::new(vec![
        FieldDescriptor::new("id".to_owned(), LogicalType::Int64, PhysicalType::Int64, true),
        FieldDescriptor::new("text".to_owned(), LogicalType::Utf8, PhysicalType::ByteArray, true),
        FieldDescriptor::new("when".to_owned(), LogicalType::TimestampMillis, PhysicalType::Int64, true),
    ]);
    let good = vec![pair(1, "a")];
    assert_eq!(
        encode(&good, &schema),
        Err(WriteError::UnsupportedType {
            column: 2,
            logical_type: LogicalType::TimestampMillis,
            physical_type: PhysicalType::Int64,
        })
    );
    let mixed = vec![
        pair(1, "a"),
        create_row(vec![
            ("id".to_owned(), FieldValue::Int64(2)),
            ("text".to_owned(), FieldValue::Int64(2)),
        ]),
        create_row(vec![
            ("id".to_owned(), FieldValue::Utf8("3".to_owned())),
            ("text".to_owned(), FieldValue::Null),
        ]),
    ];
    assert_eq!(encode(&mixed, &schema), Err(WriteError::SchemaMismatch { row: 2, column: 0 }));
    assert_eq!(
        encode_utf8_column(&mixed, 1),
        Err(WriteError::SchemaMismatch { row: 1, column: 1 })
    );
    assert_eq!(
        encode_i64_column(&mixed, 0),
        Err(WriteError::SchemaMismatch { row: 2, column: 0 })
    );
}

#[test]
fn rows_of_another_width_than_the_schema_are_refused() {
    let short = vec![pair(1, "a"), create_row(vec![("id".to_owned(), FieldValue::Int64(2))])];
    assert_eq!(
        encode(&short, &pair_schema()),
        Err(WriteError::SchemaMismatch { row: 1, column: 1 })
    );
    let long = vec![
        pair(1, "a"),
        create_row(vec![
            ("id".to_owned(), FieldValue::Int64(2)),
            ("text".to_owned(), FieldValue::Utf8("b".to_owned())),
            ("more".to_owned(), FieldValue::Int32(3)),
        ]),
    ];
    assert_eq!(
        encode(&long, &pair_schema()),
        Err(WriteError::SchemaMismatch { row: 1, column: 2 })
    );
    let nothing = Schema::new(vec![]);
    assert_eq!(encode(&vec![], &nothing), Ok(ColumnBatch { columns: vec![] }));
    assert_eq!(
        encode(&vec![pair(1, "a")], &nothing),
        Err(WriteError::SchemaMismatch { row: 0, column: 0 })
    );
}

#[test]
fn the_annotation_decides_the_strategy_and_the_storage_type_where_there_is_none() {
    let field = |logical, physical| FieldDescriptor::new("f".to_owned(), logical, physical, true);
    assert_eq!(field(LogicalType::Int64, PhysicalType::Int64).strategy(), Some(Strategy::Int64));
    assert_eq!(field(LogicalType::Int64, PhysicalType::Int32).strategy(), Some(Strategy::Int64));
    assert_eq!(field(LogicalType::Utf8, PhysicalType::ByteArray).strategy(), Some(Strategy::Utf8));
    assert_eq!(field(LogicalType::Absent, PhysicalType::Int64).strategy(), Some(Strategy::Int64));
    assert_eq!(field(LogicalType::Absent, PhysicalType::Int32).strategy(), None);
    assert_eq!(field(LogicalType::Absent, PhysicalType::ByteArray).strategy(), None);
    assert_eq!(field(LogicalType::TimestampMillis, PhysicalType::Int64).strategy(), None);
    assert_eq!(field(LogicalType::Other, PhysicalType::Int64).strategy(), None);

    assert_eq!(field(LogicalType::Int64, PhysicalType::Int64).leaf(), Some(LeafKind::AnnotatedInt64));
    assert_eq!(field(LogicalType::Absent, PhysicalType::Int64).leaf(), Some(LeafKind::PlainInt64));
    assert_eq!(field(LogicalType::Utf8, PhysicalType::ByteArray).leaf(), Some(LeafKind::Utf8));
    assert_eq!(field(LogicalType::Int64, PhysicalType::Int32).leaf(), None);
    assert_eq!(field(LogicalType::Utf8, PhysicalType::Int64).leaf(), None);
    assert_eq!(field(LogicalType::TimestampMillis, PhysicalType::Int64).leaf(), None);
}

#[test]
fn sink_columns_follow_the_schema_or_name_the_first_field_without_one() {
    assert_eq!(
        sink_columns(&pair_schema()),
        Ok(vec![LeafKind::AnnotatedInt64, LeafKind::Utf8])
    );
    let schema = Schema::new(vec![
        FieldDescriptor::new("a".to_owned(), LogicalType::Absent, PhysicalType::Int64, true),
        FieldDescriptor::new("b".to_owned(), LogicalType::Absent, PhysicalType::Double, true),
        FieldDescriptor::new("c".to_owned(), LogicalType::Other, PhysicalType::Int64, true),
    ]);
    assert_eq!(
        sink_columns(&schema),
        Err(WriteError::UnsupportedType {
            column: 1,
            logical_type: LogicalType::Absent,
            physical_type: PhysicalType::Double,
        })
    );
    assert_eq!(schema.len(), 3);
    assert_eq!(schema.field(1).map(|f| f.physical_type), Some(PhysicalType::Double));
    assert_eq!(schema.field(3), None);
}

#[test]
fn a_text_may_have_as_many_bytes_as_a_number_of_32_bits_counts() {
    assert_eq!(MAX_TEXT_BYTES as u64, u32::MAX as u64);
    let long = "é".repeat(70_000);
    let batch = vec![pair(1, &long)];
    match encode_utf8_column(&batch, 1) {
        Ok(ColumnData::Utf8 { values, min, max }) => {
            assert_eq!(values[0].len(), 140_000);
            assert_eq!(min, Some(long.clone()));
            assert_eq!(max, Some(long));
        }
        other => panic!("not encoded: {:?}", other),
    }
}

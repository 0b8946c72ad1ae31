use bytes::Bytes;
use parquet::basic::{ConvertedType, Type as StorageType};
use parquet::file::reader::{FileReader, SerializedFileReader};
use parquet::file::statistics::Statistics;
use parquet::record::RowAccessor;
use parquet_exp::error::{ConfigurationError, IoFailure, WriteError};
use parquet_exp::location::{resolve_sink, SinkKind};
use parquet_exp::record::{FieldValue, Row};
use parquet_exp::rowwritebuffer::{create_row, RowWriteBuffer};
use parquet_exp::schema::{FieldDescriptor, LogicalType, PhysicalType, Schema};
use parquet_exp::writer::{BatchWriter, ConsumerStep, RowWriter};

fn id_account_schema() -> Schema {
    Schema::new(vec![
        FieldDescriptor::new("id".to_owned(), LogicalType::Absent, PhysicalType::Int64, true),
        FieldDescriptor::new("account".to_owned(), LogicalType::Utf8, PhysicalType::ByteArray, true),
    ])
}

fn id_account_row(id: i64, account: &str) -> Row {
    create_row(vec![
        ("id".to_owned(), FieldValue::Int64(id)),
        ("account".to_owned(), FieldValue::Utf8(account.to_owned())),
    ])
}

fn read_back(bytes: Vec<u8>) -> (usize, Vec<(i64, String)>) {
    let reader = SerializedFileReader::new(Bytes::from(bytes)).unwrap();
    let groups = reader.metadata().num_row_groups();
    let rows = reader
        .get_row_iter(None)
        .unwrap()
        .map(|row| {
            let row = row.unwrap();
            (row.get_long(0).unwrap(), row.get_string(1).unwrap().to_owned())
        })
        .collect();
    (groups, rows)
}

fn numbered(count: i64) -> Vec<(i64, String)> {
    (0..count).map(|i| (i, format!("account-{}", i))).collect()
}

#[test]
fn test_write_parquet() {
    let input_tuples = vec![
        (1_i64, "Hello".to_owned()),
        (2_i64, "World".to_owned()),
        (3_i64, "This is a test!".to_owned()),
    ];
    let tuple_to_row = |(id, account): (i64, String)| {
        create_row(vec![
            ("id".to_owned(), FieldValue::Int64(id)),
            ("account".to_owned(), FieldValue::Utf8(account)),
        ])
    };
    let input_rows: Vec<Row> = input_tuples.clone().into_iter().map(tuple_to_row).collect();

    let path = "/tmp/test_write_parquet.parquet";
    assert_eq!(resolve_sink(path), Ok(SinkKind::LocalFile));

    let mut consumer = BatchWriter::new(id_account_schema()).unwrap();
    let mut row_writer = RowWriteBuffer::new(10_000).unwrap();
    for row in input_rows.into_iter() {
        if let Some(batch) = row_writer.append_row(row).unwrap() {
            assert_eq!(consumer.on_receive(Some(batch)), ConsumerStep::Continue);
        }
    }
    let last = row_writer.close().unwrap();
    let had_last = last.is_some();
    if had_last {
        assert_eq!(consumer.on_receive(last), ConsumerStep::Continue);
    }
    assert_eq!(consumer.on_receive(None), ConsumerStep::Finished);
    let bytes = consumer.finish().unwrap();

    println!("Now open the file {path} and read it again");
    let (groups, output_tuples) = read_back(bytes);
    println!("Result of read: {:?}", output_tuples[0]);
    assert_eq!(groups, 1);
    assert_eq!(input_tuples, output_tuples)
}

#[test]
fn rows_in_a_multiple_of_the_group_size_round_trip() {
    let input = numbered(12);
    let mut writer = RowWriter::new(id_account_schema(), 4).unwrap();
    for (id, account) in input.iter() {
        writer.append_row(id_account_row(*id, account)).unwrap();
    }
    let bytes = writer.close().unwrap();
    assert_eq!(&bytes[0..4], b"PAR1");
    let (groups, rows) = read_back(bytes);
    assert_eq!(groups, 3);
    assert_eq!(rows, input);
}

#[test]
fn a_partial_last_group_is_written_on_close() {
    let input = numbered(7);
    let mut writer = RowWriter::new(id_account_schema(), 3).unwrap();
    for (id, account) in input.iter() {
        writer.append_row(id_account_row(*id, account)).unwrap();
    }
    let bytes = writer.close().unwrap();
    let reader = SerializedFileReader::new(Bytes::from(bytes.clone())).unwrap();
    let sizes: Vec<i64> =
        reader.metadata().row_groups().iter().map(|group| group.num_rows()).collect();
    assert_eq!(sizes, vec![3, 3, 1]);
    assert_eq!(read_back(bytes).1, input);
}

#[test]
fn remaining_space_and_buffered_rows_make_the_group_size() {
    let mut buffer = RowWriteBuffer::new(3).unwrap();
    let mut held: usize = 0;
    assert_eq!(buffer.remaining_space() + held, 3);
    for i in 0..10 {
        let handed = buffer.append_row(id_account_row(i, "x")).unwrap();
        held = if handed.is_some() { 0 } else { held + 1 };
        assert_eq!(buffer.remaining_space() + held, 3);
    }
    let mut writer = RowWriter::new(id_account_schema(), 5).unwrap();
    assert_eq!(writer.remaining_space(), 5);
    writer.append_row(id_account_row(1, "a")).unwrap();
    writer.append_row(id_account_row(2, "b")).unwrap();
    assert_eq!(writer.remaining_space(), 3);
    writer.flush().unwrap();
    assert_eq!(writer.remaining_space(), 5);
}

#[test]
fn a_batch_is_handed_off_exactly_when_it_is_full() {
    let mut buffer = RowWriteBuffer::new(3).unwrap();
    assert_eq!(buffer.append_row(id_account_row(1, "a")), Ok(None));
    assert_eq!(buffer.append_row(id_account_row(2, "b")), Ok(None));
    let full = buffer.append_row(id_account_row(3, "c")).unwrap();
    assert_eq!(
        full,
        Some(vec![id_account_row(1, "a"), id_account_row(2, "b"), id_account_row(3, "c")])
    );
    assert_eq!(buffer.remaining_space(), 3);
    assert_eq!(buffer.append_row(id_account_row(4, "d")), Ok(None));
    assert_eq!(buffer.close(), Ok(Some(vec![id_account_row(4, "d")])));
}

#[test]
fn flush_moves_the_batch_out_and_leaves_an_empty_one() {
    let mut buffer = RowWriteBuffer::new(5).unwrap();
    buffer.append_row(id_account_row(1, "a")).unwrap();
    buffer.append_row(id_account_row(2, "b")).unwrap();
    assert_eq!(buffer.flush(), Ok(vec![id_account_row(1, "a"), id_account_row(2, "b")]));
    assert_eq!(buffer.remaining_space(), 5);
    assert_eq!(buffer.flush(), Ok(vec![]));
}

#[test]
fn close_on_an_empty_buffer_hands_off_nothing_and_the_consumer_ends() {
    let buffer = RowWriteBuffer::new(3).unwrap();
    assert_eq!(buffer.close(), Ok(None));
    let mut consumer = BatchWriter::new(id_account_schema()).unwrap();
    assert_eq!(consumer.on_receive(None), ConsumerStep::Finished);
    let (groups, rows) = read_back(consumer.finish().unwrap());
    assert_eq!(groups, 0);
    assert_eq!(rows, vec![]);

    let writer = RowWriter::new(id_account_schema(), 3).unwrap();
    let (groups, rows) = read_back(writer.close().unwrap());
    assert_eq!(groups, 0);
    assert_eq!(rows, vec![]);
}

#[test]
fn row_groups_come_in_the_order_of_the_batches() {
    let mut consumer = BatchWriter::new(id_account_schema()).unwrap();
    let first = vec![id_account_row(5, "e"), id_account_row(6, "f")];
    let second = vec![id_account_row(1, "a")];
    assert_eq!(consumer.write_batch(&first), Ok(()));
    assert_eq!(consumer.write_batch(&second), Ok(()));
    let (groups, rows) = read_back(consumer.finish().unwrap());
    assert_eq!(groups, 2);
    assert_eq!(
        rows,
        vec![(5, "e".to_owned()), (6, "f".to_owned()), (1, "a".to_owned())]
    );
}

#[test]
fn integer_statistics_in_the_file_are_the_least_and_the_greatest() {
    let mut writer = RowWriter::new(id_account_schema(), 10).unwrap();
    writer.append_row(id_account_row(10, "b")).unwrap();
    writer.append_row(id_account_row(2, "c")).unwrap();
    writer.append_row(id_account_row(7, "a")).unwrap();
    let bytes = writer.close().unwrap();
    let reader = SerializedFileReader::new(Bytes::from(bytes)).unwrap();
    let group = reader.metadata().row_group(0);
    match group.column(0).statistics() {
        Some(Statistics::Int64(stats)) => {
            assert_eq!(stats.min_opt(), Some(&2));
            assert_eq!(stats.max_opt(), Some(&10));
        }
        other => panic!("no integer statistics: {:?}", other),
    }
}

#[test]
fn the_file_holds_the_columns_of_the_schema() {
    let schema = Schema::new(vec![
        FieldDescriptor::new("id".to_owned(), LogicalType::Int64, PhysicalType::Int64, true),
        FieldDescriptor::new("plain".to_owned(), LogicalType::Absent, PhysicalType::Int64, true),
        FieldDescriptor::new("account".to_owned(), LogicalType::Utf8, PhysicalType::ByteArray, true),
    ]);
    let mut writer = RowWriter::new(schema, 2).unwrap();
    writer
        .append_row(create_row(vec![
            ("id".to_owned(), FieldValue::Int64(-4)),
            ("plain".to_owned(), FieldValue::Int64(9)),
            ("account".to_owned(), FieldValue::Utf8("zebra".to_owned())),
        ]))
        .unwrap();
    let bytes = writer.close().unwrap();
    let reader = SerializedFileReader::new(Bytes::from(bytes)).unwrap();
    let descr = reader.metadata().file_metadata().schema_descr();
    assert_eq!(descr.num_columns(), 3);
    assert_eq!(descr.column(0).name(), "id");
    assert_eq!(descr.column(0).physical_type(), StorageType::INT64);
    assert_eq!(descr.column(0).converted_type(), ConvertedType::INT_64);
    assert_eq!(descr.column(1).name(), "plain");
    assert_eq!(descr.column(1).physical_type(), StorageType::INT64);
    assert_eq!(descr.column(1).converted_type(), ConvertedType::NONE);
    assert_eq!(descr.column(2).name(), "account");
    assert_eq!(descr.column(2).physical_type(), StorageType::BYTE_ARRAY);
    assert_eq!(descr.column(2).converted_type(), ConvertedType::UTF8);
    let row = reader.get_row_iter(None).unwrap().next().unwrap().unwrap();
    assert_eq!(row.get_long(0).unwrap(), -4);
    assert_eq!(row.get_long(1).unwrap(), 9);
    assert_eq!(row.get_string(2).unwrap(), "zebra");
}

#[test]
fn a_group_size_of_zero_is_refused() {
    let zero = WriteError::Configuration(ConfigurationError::ZeroGroupSize);
    assert_eq!(RowWriteBuffer::new(0).err(), Some(zero.clone()));
    assert_eq!(RowWriter::new(id_account_schema(), 0).err(), Some(zero));
}

#[test]
fn a_schema_that_the_sink_cannot_hold_is_refused_with_its_first_such_field() {
    let schema = Schema::new(vec![
        FieldDescriptor::new("id".to_owned(), LogicalType::Absent, PhysicalType::Int64, true),
        FieldDescriptor::new(
            "at".to_owned(),
            LogicalType::TimestampMillis,
            PhysicalType::Int64,
            true,
        ),
        FieldDescriptor::new("n".to_owned(), LogicalType::Absent, PhysicalType::Int32, true),
    ]);
    let refused = WriteError::UnsupportedType {
        column: 1,
        logical_type: LogicalType::TimestampMillis,
        physical_type: PhysicalType::Int64,
    };
    assert_eq!(RowWriter::new(schema.clone(), 4).err(), Some(refused.clone()));
    assert_eq!(BatchWriter::new(schema).err(), Some(refused));
}

#[test]
fn a_batch_that_does_not_fit_stops_the_writer_and_leaves_the_file_whole() {
    let mut writer = RowWriter::new(id_account_schema(), 2).unwrap();
    writer.append_row(id_account_row(1, "a")).unwrap();
    writer.append_row(id_account_row(2, "b")).unwrap();
    writer.append_row(id_account_row(3, "c")).unwrap();
    let bad = create_row(vec![
        ("id".to_owned(), FieldValue::Null),
        ("account".to_owned(), FieldValue::Utf8("d".to_owned())),
    ]);
    assert_eq!(writer.append_row(bad), Err(WriteError::SchemaMismatch { row: 1, column: 0 }));
    assert_eq!(writer.remaining_space(), 2);
    assert_eq!(writer.append_row(id_account_row(5, "e")), Ok(()));
    assert_eq!(writer.remaining_space(), 1);
    assert_eq!(writer.append_row(id_account_row(6, "f")), Err(WriteError::PipelineTerminated));
    assert_eq!(writer.remaining_space(), 2);
    assert_eq!(writer.flush(), Err(WriteError::PipelineTerminated));
    assert_eq!(writer.close().err(), Some(WriteError::PipelineTerminated));
}

#[test]
fn a_consumer_that_failed_refuses_later_batches() {
    let mut consumer = BatchWriter::new(id_account_schema()).unwrap();
    let short = vec![create_row(vec![("id".to_owned(), FieldValue::Int64(1))])];
    assert_eq!(
        consumer.on_receive(Some(short)),
        ConsumerStep::Failed(WriteError::SchemaMismatch { row: 0, column: 1 })
    );
    assert_eq!(
        consumer.on_receive(Some(vec![id_account_row(1, "a")])),
        ConsumerStep::Failed(WriteError::PipelineTerminated)
    );
    assert_eq!(consumer.on_receive(None), ConsumerStep::Finished);
    assert_eq!(consumer.finish().err(), Some(WriteError::PipelineTerminated));
}

#[test]
fn a_producer_whose_consumer_stopped_refuses_rows() {
    let mut buffer = RowWriteBuffer::new(3).unwrap();
    assert_eq!(buffer.append_row(id_account_row(1, "a")), Ok(None));
    buffer.consumer_stopped();
    assert_eq!(buffer.append_row(id_account_row(2, "b")), Ok(None));
    assert_eq!(buffer.remaining_space(), 1);
    assert_eq!(buffer.append_row(id_account_row(3, "c")), Err(WriteError::PipelineTerminated));
    assert_eq!(buffer.remaining_space(), 1);
    assert_eq!(buffer.flush(), Err(WriteError::PipelineTerminated));
    assert_eq!(buffer.remaining_space(), 1);
    assert_eq!(buffer.close(), Err(WriteError::PipelineTerminated));
}

#[test]
fn the_sink_refuses_values_for_an_optional_column_without_levels() {
    let schema = Schema::new(vec![FieldDescriptor::new(
        "id".to_owned(),
        LogicalType::Absent,
        PhysicalType::Int64,
        false,
    )]);
    let mut consumer = BatchWriter::new(schema).unwrap();
    let batch = vec![create_row(vec![("id".to_owned(), FieldValue::Int64(1))])];
    match consumer.write_batch(&batch) {
        Err(WriteError::Io(IoFailure::Sink(text))) => assert!(text.contains("Definition levels")),
        other => panic!("the sink took the batch: {:?}", other),
    }
    assert_eq!(consumer.write_batch(&batch), Err(WriteError::PipelineTerminated));
}

#[test]
fn every_batch_is_listed_by_the_sink_as_one_row_group_with_its_rows() {
    let mut consumer = BatchWriter::new(id_account_schema()).unwrap();
    let batches = vec![
        vec![id_account_row(1, "a"), id_account_row(2, "b"), id_account_row(3, "c")],
        vec![],
        vec![id_account_row(4, "d")],
    ];
    for batch in batches.iter() {
        assert_eq!(consumer.write_batch(batch), Ok(()));
    }
    let bytes = consumer.finish().unwrap();
    let reader = SerializedFileReader::new(Bytes::from(bytes)).unwrap();
    let shapes: Vec<(usize, i64)> = reader
        .metadata()
        .row_groups()
        .iter()
        .map(|group| (group.num_columns(), group.num_rows()))
        .collect();
    assert_eq!(shapes, vec![(2, 3), (2, 0), (2, 1)]);
}

#[test]
fn a_schema_without_fields_is_refused() {
    let empty = WriteError::Configuration(ConfigurationError::EmptySchema);
    assert_eq!(BatchWriter::new(Schema::new(vec![])).err(), Some(empty.clone()));
    assert_eq!(RowWriter::new(Schema::new(vec![]), 3).err(), Some(empty));
    assert_eq!(
        RowWriter::new(Schema::new(vec![]), 0).err(),
        Some(WriteError::Configuration(ConfigurationError::ZeroGroupSize))
    );
}

#[test]
fn the_bytes_of_a_closed_writer_are_a_file_of_its_row_groups() {
    let mut consumer = BatchWriter::new(id_account_schema()).unwrap();
    assert_eq!(consumer.write_batch(&vec![id_account_row(1, "a")]), Ok(()));
    let bytes = consumer.finish().unwrap();
    assert_eq!(&bytes[0..4], b"PAR1");
    assert_eq!(&bytes[bytes.len() - 4..], b"PAR1");
    assert_eq!(read_back(bytes), (1, vec![(1, "a".to_owned())]));
}

#[test]
fn bytes_taken_after_each_row_group_make_the_file_with_the_rest() {
    let input = numbered(9);
    let mut writer = RowWriter::new(id_account_schema(), 2).unwrap();
    let mut file: Vec<u8> = Vec::new();
    let mut pieces = 0;
    for (id, account) in input.iter() {
        writer.append_row(id_account_row(*id, account)).unwrap();
        let piece = writer.take_bytes().unwrap();
        if !piece.is_empty() {
            pieces += 1;
        }
        file.extend(piece);
    }
    assert!(pieces >= 4);
    assert_eq!(writer.take_bytes(), Ok(vec![]));
    file.extend(writer.close().unwrap());
    assert_eq!(read_back(file), (5, input));

    let mut whole = RowWriter::new(id_account_schema(), 2).unwrap();
    let mut consumer = BatchWriter::new(id_account_schema()).unwrap();
    let mut taken: Vec<u8> = consumer.take_bytes().unwrap();
    assert_eq!(taken, b"PAR1".to_vec());
    for (id, account) in numbered(4).iter() {
        whole.append_row(id_account_row(*id, account)).unwrap();
    }
    for batch in [vec![id_account_row(0, "account-0"), id_account_row(1, "account-1")],
        vec![id_account_row(2, "account-2"), id_account_row(3, "account-3")]]
    {
        assert_eq!(consumer.write_batch(&batch), Ok(()));
        taken.extend(consumer.take_bytes().unwrap());
    }
    taken.extend(consumer.finish().unwrap());
    assert_eq!(taken, whole.close().unwrap());
}

#[test]
fn rows_appended_together_come_out_as_the_batches_of_their_feed() {
    let rows: Vec<Row> = (0..7).map(|i| id_account_row(i, "x")).collect();
    let mut buffer = RowWriteBuffer::new(3).unwrap();
    assert_eq!(buffer.append_row(id_account_row(100, "first")), Ok(None));
    let batches = buffer.append_rows(rows.clone()).unwrap();
    assert_eq!(
        batches,
        vec![
            vec![id_account_row(100, "first"), rows[0].clone(), rows[1].clone()],
            vec![rows[2].clone(), rows[3].clone(), rows[4].clone()],
        ]
    );
    assert_eq!(buffer.remaining_space(), 1);
    assert_eq!(buffer.append_rows(vec![]), Ok(vec![]));
    assert_eq!(buffer.close(), Ok(Some(vec![rows[5].clone(), rows[6].clone()])));

    let mut whole = RowWriteBuffer::new(2).unwrap();
    let all: Vec<Row> = (0..6).map(|i| id_account_row(i, "y")).collect();
    let handed: Vec<Row> = whole.append_rows(all.clone()).unwrap().into_iter().flatten().collect();
    assert_eq!(handed, all);
    assert_eq!(whole.close(), Ok(None));
}

#[test]
fn rows_appended_together_after_the_consumer_stopped_are_kept_until_one_fills_the_batch() {
    let rows: Vec<Row> = (0..5).map(|i| id_account_row(i, "x")).collect();
    let mut buffer = RowWriteBuffer::new(4).unwrap();
    buffer.consumer_stopped();
    assert_eq!(buffer.append_rows(rows[0..2].to_vec()), Ok(vec![]));
    assert_eq!(buffer.remaining_space(), 2);
    assert_eq!(buffer.append_rows(rows[2..5].to_vec()), Err(WriteError::PipelineTerminated));
    assert_eq!(buffer.remaining_space(), 1);
}

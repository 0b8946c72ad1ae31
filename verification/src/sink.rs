//! The columnar file writer that row groups are handed to.
//!
//! Everything in this file is a declaration about the `parquet` crate that
//! the verifier takes on trust: the types are opaque to it, and of each
//! function it sees the contract and not the body, which makes the call.
//!
//! The writer lays the file out in a byte vector, so what it answers
//! depends on nothing but what it was given since it was opened: no clock,
//! no file and no chance enters, and the hasher of its dictionaries only
//! finds values again, while their order is that of their arrival. The
//! names below stand for those answers.

use parquet::basic::{Compression, ConvertedType, Repetition, Type as StorageType};
use parquet::column::writer::ColumnWriter;
use parquet::data_type::ByteArray;
use parquet::errors::ParquetError;
use parquet::file::properties::WriterProperties;
use parquet::file::writer::{SerializedFileWriter, SerializedRowGroupWriter};
use parquet::schema::types::Type;
use std::sync::Arc;
use vstd::prelude::*;

use crate::encoder::{group_rows, text, text_fits, texts, ColumnModel};
use crate::schema::LeafKind;

verus! {

/// `parquet::errors::ParquetError`, the error of every fallible call below.
#[verifier::external_type_specification]
#[verifier::external_body]
pub struct ExParquetError(ParquetError);

/// `parquet::schema::types::Type`, a node of a schema tree.
#[verifier::external_type_specification]
#[verifier::external_body]
pub struct ExType(Type);

/// A `parquet::file::writer::SerializedFileWriter` that lays out a file in a
/// byte vector. Held whole behind this struct, of which the verifier sees
/// nothing: the outside type is bound by `std::io::Write`, which cannot be
/// declared to it.
#[verifier::external_body]
pub struct FileWriter {
    inner: SerializedFileWriter<Vec<u8>>,
}

/// The `parquet::file::writer::SerializedRowGroupWriter` of one row group of
/// a `FileWriter`, held in the same way.
#[verifier::external_body]
pub struct RowGroupWriter<'a> {
    inner: SerializedRowGroupWriter<'a, Vec<u8>>,
}

/// What a row group writer answered to the values of one column.
#[derive(Clone, Copy, Debug, PartialEq, Eq)]
pub enum ColumnAnswer {
    /// The column was written and closed.
    Taken,
    /// The row group has no column left.
    NoWriter,
    /// The next column of the row group holds values of another type.
    OtherType,
}

/// Whether a schema node is a leaf field rather than a group: what
/// `Type::is_primitive` returns for it.
pub uninterp spec fn is_primitive_type(node: Type) -> bool;

/// The number of row groups that were closed on the writer: the length of
/// what `SerializedFileWriter::flushed_row_groups` returns.
pub uninterp spec fn flushed_groups(writer: FileWriter) -> nat;

/// The number of column chunks of the row group that was closed as number
/// `index` on the writer: what `RowGroupMetaData::num_columns` returns for
/// it, and nothing where fewer groups were closed.
pub uninterp spec fn flushed_columns(writer: FileWriter, index: int) -> Option<nat>;

/// The number of rows of the row group that was closed as number `index` on
/// the writer: what `RowGroupMetaData::num_rows` returns for it, and nothing
/// where fewer groups were closed.
pub uninterp spec fn flushed_rows(writer: FileWriter, index: int) -> Option<int>;

/// Whether `SerializedFileWriter::next_row_group` gives a row group writer.
pub uninterp spec fn opens_group(writer: FileWriter) -> bool;

/// The file writer on which a row group was opened, as it was then.
pub uninterp spec fn group_origin(group: RowGroupWriter<'_>) -> FileWriter;

/// Whether every column that was asked of a row group so far was written
/// and closed: a row group is intact when it is opened, and stays so with
/// every column that it takes.
pub uninterp spec fn group_intact(group: RowGroupWriter<'_>) -> bool;

/// The file writer as it is when a row group gives it back: the state in
/// which the writer is found once the row group was closed or dropped.
pub uninterp spec fn group_result(group: RowGroupWriter<'_>) -> FileWriter;

/// The columns that were written and closed in a row group, in order.
pub uninterp spec fn group_columns(group: RowGroupWriter<'_>) -> Seq<ColumnModel>;

/// What an intact row group that was opened on `writer` and holds the
/// columns `earlier` answers to a column of 64-bit integers: whether
/// `SerializedRowGroupWriter::next_column` gives a writer, whether it is one
/// for such values, and whether `write_batch_with_statistics` takes them and
/// `close` ends the column. Nothing where one of the calls gives an error.
pub uninterp spec fn int64_answer(
    writer: FileWriter,
    earlier: Seq<ColumnModel>,
    values: Seq<i64>,
    min: Option<i64>,
    max: Option<i64>,
) -> Option<ColumnAnswer>;

/// The same for a column of strings.
pub uninterp spec fn text_answer(
    writer: FileWriter,
    earlier: Seq<ColumnModel>,
    values: Seq<Seq<char>>,
    min: Option<Seq<char>>,
    max: Option<Seq<char>>,
) -> Option<ColumnAnswer>;

/// Whether every row group that `before` lists is listed by `after` at the
/// same place, with the same columns and rows.
pub open spec fn keeps_listed(before: FileWriter, after: FileWriter) -> bool {
    forall|i: int|
        0 <= i < flushed_groups(before) ==> #[trigger] flushed_columns(after, i) == flushed_columns(
            before,
            i,
        ) && flushed_rows(after, i) == flushed_rows(before, i)
}

/// Whether `SerializedRowGroupWriter::close` ends an intact row group that
/// was opened on `writer` and holds `columns`.
pub uninterp spec fn closes_group(writer: FileWriter, columns: Seq<ColumnModel>) -> bool;

/// The bytes that `SerializedFileWriter::into_inner` gives for a writer:
/// the file from the first byte that was not taken from the writer before,
/// to its end; nothing where it gives an error.
pub uninterp spec fn file_of(writer: FileWriter) -> Option<Seq<u8>>;

/// `front` followed by `rest`, where there is a rest.
pub open spec fn joined(front: Seq<u8>, rest: Option<Seq<u8>>) -> Option<Seq<u8>> {
    match rest {
        Some(rest) => Some(front + rest),
        None => None,
    }
}

/// `Type::primitive_type_builder(..).build()`: the schema leaf named `name`
/// for a column of shape `kind`, required or optional. The builder refuses
/// an annotation that does not go with the storage type, and a length that
/// a storage type of fixed length lacks; each of the three shapes is of a
/// storage type with its own annotation or none, so a leaf is built.
#[verifier::external_body]
pub(crate) fn leaf_type(name: &str, kind: LeafKind, required: bool) -> (r: Result<
    Type,
    ParquetError,
>)
    ensures
        r is Ok,
        r matches Ok(node) ==> is_primitive_type(node),
{
    let (storage, converted) = match kind {
        LeafKind::PlainInt64 => (StorageType::INT64, ConvertedType::NONE),
        LeafKind::AnnotatedInt64 => (StorageType::INT64, ConvertedType::INT_64),
        LeafKind::Utf8 => (StorageType::BYTE_ARRAY, ConvertedType::UTF8),
    };
    let repetition = if required { Repetition::REQUIRED } else { Repetition::OPTIONAL };
    Type::primitive_type_builder(name, storage)
        .with_repetition(repetition)
        .with_converted_type(converted)
        .build()
}

/// `SerializedFileWriter::new` on an empty byte vector, with Snappy
/// compression and every other setting at its default, for the schema whose
/// root group is named `root` and holds `leaves` in their order. The
/// descriptor that the writer builds of the schema takes leaves as they are;
/// a group among the fields would have to carry a repetition, which is why
/// only leaves are admitted. Nothing fails on the way: the root is a plain
/// group, and the first bytes go into the byte vector. A new writer has
/// closed no row group.
#[verifier::external_body]
pub(crate) fn open_writer(root: &str, leaves: Vec<Type>) -> (r: Result<FileWriter, ParquetError>)
    requires
        forall|i: int| 0 <= i < leaves@.len() ==> is_primitive_type(#[trigger] leaves@[i]),
    ensures
        r is Ok,
        r matches Ok(writer) ==> flushed_groups(writer) == 0,
{
    let fields = leaves.into_iter().map(Arc::new).collect();
    let root = Type::group_type_builder(root).with_fields(fields).build()?;
    let properties = WriterProperties::builder().set_compression(Compression::SNAPPY).build();
    let inner = SerializedFileWriter::new(Vec::new(), Arc::new(root), Arc::new(properties))?;
    Ok(FileWriter { inner })
}

/// `SerializedFileWriter::next_row_group`: the writer of the next row group,
/// which holds no column yet, or an error where the file is finished or the
/// previous group is still open. The row group borrows the file writer, and
/// the file writer is next seen as the row group gives it back.
#[verifier::external_body]
pub(crate) fn next_row_group<'a>(writer: &'a mut FileWriter) -> (r: Result<
    RowGroupWriter<'a>,
    ParquetError,
>)
    ensures
        r is Ok <==> opens_group(*old(writer)),
        r matches Ok(group) ==> group_origin(group) == *old(writer) && group_columns(group)
            == Seq::<ColumnModel>::empty(),
        r matches Ok(group) ==> group_intact(group),
        r matches Ok(group) ==> *final(writer) == group_result(group),
{
    writer.inner.next_row_group().map(|inner| RowGroupWriter { inner })
}

/// One column of 64-bit integers of a row group:
/// `SerializedRowGroupWriter::next_column` for the column writer,
/// `ColumnWriterImpl::write_batch_with_statistics` without levels or
/// distinct count, and `SerializedColumnWriter::close`. The writer widens
/// the bounds it is given by those of the values it sees.
#[verifier::external_body]
pub(crate) fn put_int64_column(
    group: &mut RowGroupWriter<'_>,
    values: &Vec<i64>,
    min: Option<i64>,
    max: Option<i64>,
) -> (r: Result<ColumnAnswer, ParquetError>)
    requires
        group_intact(*old(group)),
    ensures
        r == Ok::<ColumnAnswer, ParquetError>(ColumnAnswer::Taken) ==> group_intact(*final(group)),
        match r {
            Ok(answer) => int64_answer(
                group_origin(*old(group)),
                group_columns(*old(group)),
                values@,
                min,
                max,
            ) == Some(answer),
            Err(_) => int64_answer(
                group_origin(*old(group)),
                group_columns(*old(group)),
                values@,
                min,
                max,
            ) is None,
        },
        group_origin(*final(group)) == group_origin(*old(group)),
        group_result(*final(group)) == group_result(*old(group)),
        r == Ok::<ColumnAnswer, ParquetError>(ColumnAnswer::Taken) ==> group_columns(*final(group))
            == group_columns(*old(group)).push(ColumnModel::Int64 { values: values@, min, max }),
{
    let Some(mut column) = group.inner.next_column()? else { return Ok(ColumnAnswer::NoWriter) };
    let ColumnWriter::Int64ColumnWriter(typed) = column.untyped() else {
        return Ok(ColumnAnswer::OtherType)
    };
    typed.write_batch_with_statistics(values, None, None, min.as_ref(), max.as_ref(), None)?;
    column.close().map(|_| ColumnAnswer::Taken)
}

/// One column of strings of a row group, each value the UTF-8 bytes of one
/// string: the same three calls as for integers. The writer puts the number
/// of bytes of each value into 32 bits, which is why no value, and neither
/// bound, may have more.
#[verifier::external_body]
pub(crate) fn put_text_column(
    group: &mut RowGroupWriter<'_>,
    values: &Vec<String>,
    min: &Option<String>,
    max: &Option<String>,
) -> (r: Result<ColumnAnswer, ParquetError>)
    requires
        group_intact(*old(group)),
        forall|i: int| 0 <= i < values@.len() ==> text_fits(#[trigger] values@[i]@),
        *min matches Some(s) ==> text_fits(s@),
        *max matches Some(s) ==> text_fits(s@),
    ensures
        r == Ok::<ColumnAnswer, ParquetError>(ColumnAnswer::Taken) ==> group_intact(*final(group)),
        match r {
            Ok(answer) => text_answer(
                group_origin(*old(group)),
                group_columns(*old(group)),
                texts(values@),
                text(*min),
                text(*max),
            ) == Some(answer),
            Err(_) => text_answer(
                group_origin(*old(group)),
                group_columns(*old(group)),
                texts(values@),
                text(*min),
                text(*max),
            ) is None,
        },
        group_origin(*final(group)) == group_origin(*old(group)),
        group_result(*final(group)) == group_result(*old(group)),
        r == Ok::<ColumnAnswer, ParquetError>(ColumnAnswer::Taken) ==> group_columns(*final(group))
            == group_columns(*old(group)).push(
            ColumnModel::Utf8 { values: texts(values@), min: text(*min), max: text(*max) },
        ),
{
    let bytes: Vec<ByteArray> = values.iter().map(|s| ByteArray::from(s.as_str())).collect();
    let min = min.as_ref().map(|s| ByteArray::from(s.as_str()));
    let max = max.as_ref().map(|s| ByteArray::from(s.as_str()));
    let Some(mut column) = group.inner.next_column()? else { return Ok(ColumnAnswer::NoWriter) };
    let ColumnWriter::ByteArrayColumnWriter(typed) = column.untyped() else {
        return Ok(ColumnAnswer::OtherType)
    };
    typed.write_batch_with_statistics(&bytes, None, None, min.as_ref(), max.as_ref(), None)?;
    column.close().map(|_| ColumnAnswer::Taken)
}

/// `SerializedRowGroupWriter::close`: ends the row group and reports it to
/// the file writer, which then lists one row group more than when the group
/// was opened: the new entry has a column chunk for every column of the
/// group and the rows of its first column, and stands behind the entries
/// that were there. The metadata that the call returns is dropped.
#[verifier::external_body]
pub(crate) fn close_row_group(group: RowGroupWriter<'_>) -> (r: Result<(), ParquetError>)
    requires
        group_intact(group),
    ensures
        r is Ok <==> closes_group(group_origin(group), group_columns(group)),
        r is Ok ==> flushed_groups(group_result(group)) == flushed_groups(group_origin(group)) + 1,
        r is Ok ==> flushed_columns(
            group_result(group),
            flushed_groups(group_origin(group)) as int,
        ) == Some(group_columns(group).len()),
        r is Ok ==> flushed_rows(group_result(group), flushed_groups(group_origin(group)) as int)
            == Some(group_rows(group_columns(group)) as int),
        r is Ok ==> keeps_listed(group_origin(group), group_result(group)),
{
    group.inner.close().map(|_| ())
}

/// `SerializedFileWriter::flushed_row_groups`, counted.
#[verifier::external_body]
pub(crate) fn flushed_group_count(writer: &FileWriter) -> (n: usize)
    ensures
        n == flushed_groups(*writer),
{
    writer.inner.flushed_row_groups().len()
}

/// `SerializedFileWriter::flush`, after which the byte vector behind
/// `SerializedFileWriter::inner_mut` is taken and an empty one left in its
/// place: the bytes that were written since the writer was opened or last
/// emptied. Passing bytes on to a byte vector does not fail. The writer
/// keeps its own count of the bytes it wrote, so the file that it ends is
/// the same, less the bytes taken here in front; and its list of closed row
/// groups is untouched.
#[verifier::external_body]
pub(crate) fn take_written(writer: &mut FileWriter) -> (r: Result<Vec<u8>, ParquetError>)
    ensures
        flushed_groups(*final(writer)) == flushed_groups(*old(writer)),
        keeps_listed(*old(writer), *final(writer)),
        r is Ok,
        r matches Ok(bytes) ==> file_of(*old(writer)) == joined(bytes@, file_of(*final(writer))),
{
    writer.inner.flush()?;
    Ok(std::mem::take(writer.inner.inner_mut()))
}

/// `SerializedFileWriter::into_inner`: writes the footer and gives the bytes
/// of the file that were not taken before.
#[verifier::external_body]
pub(crate) fn into_bytes(writer: FileWriter) -> (r: Result<Vec<u8>, ParquetError>)
    ensures
        match r {
            Ok(bytes) => file_of(writer) == Some(bytes@),
            Err(_) => file_of(writer) is None,
        },
{
    writer.inner.into_inner()
}

/// `ParquetError`'s `to_string`: the text of the error.
#[verifier::external_body]
pub(crate) fn error_text(error: &ParquetError) -> (text: String) {
    error.to_string()
}

} // verus!

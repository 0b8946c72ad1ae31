//! Writing batches of rows as row groups of a columnar file held in memory:
//! the consumer that takes whole batches, and the buffered writer that
//! collects rows into batches for it.

use parquet::errors::ParquetError;
use parquet::schema::types::Type;
use vstd::prelude::*;

use crate::encoder::{
    batch_fits, column_bounded, encode, encoding_of, group_rows, is_batch_fault,
    lemma_encoded_is_the_encoding, ColumnBatch, ColumnData, ColumnModel,
};
use crate::error::{ConfigurationError, IoFailure, WriteError};
use crate::record::Row;
use crate::schema::{is_first_unheld, sink_holds, FieldDescriptor, LeafKind, Schema};
use crate::sink::{
    close_row_group, closes_group, error_text, file_of, flushed_columns, flushed_group_count,
    flushed_groups, flushed_rows, group_columns, group_intact, group_origin, group_result,
    int64_answer, into_bytes, is_primitive_type, joined, keeps_listed, leaf_type,
    next_row_group, open_writer, opens_group, put_int64_column, put_text_column, take_written,
    text_answer, ColumnAnswer, FileWriter,
};

verus! {

/// The failure that stands for an error of the sink: it carries the text of
/// the error.
fn sink_failure(error: &ParquetError) -> (e: WriteError)
    ensures
        e matches WriteError::Io(IoFailure::Sink(_)),
{
    WriteError::Io(IoFailure::Sink(error_text(error)))
}

/// The outcome of a step of which the sink only says whether it went well:
/// success stays success, and an error becomes a failure of the sink.
fn settled(answer: Result<(), ParquetError>) -> (r: Result<(), WriteError>)
    ensures
        answer is Ok <==> r is Ok,
        r matches Err(e) ==> e matches WriteError::Io(IoFailure::Sink(_)),
{
    match answer {
        Ok(()) => Ok(()),
        Err(e) => Err(sink_failure(&e)),
    }
}

/// What the row group's answer to the values of column `column` means: a
/// column that was taken is success, no writer is a missing column writer,
/// a writer for values of another type is a mismatch, and an error is a
/// failure of the sink.
fn column_put(column: usize, answer: Result<ColumnAnswer, ParquetError>) -> (r: Result<
    (),
    WriteError,
>)
    ensures
        match answer {
            Ok(ColumnAnswer::Taken) => r == Ok::<(), WriteError>(()),
            Ok(ColumnAnswer::NoWriter) => r == Err::<(), WriteError>(
                WriteError::Io(IoFailure::MissingColumnWriter { column }),
            ),
            Ok(ColumnAnswer::OtherType) => r == Err::<(), WriteError>(
                WriteError::Io(IoFailure::ColumnTypeMismatch { column }),
            ),
            Err(_) => r matches Err(WriteError::Io(IoFailure::Sink(_))),
        },
{
    match answer {
        Ok(ColumnAnswer::Taken) => Ok(()),
        Ok(ColumnAnswer::NoWriter) => Err(WriteError::Io(IoFailure::MissingColumnWriter { column })),
        Ok(ColumnAnswer::OtherType) => Err(
            WriteError::Io(IoFailure::ColumnTypeMismatch { column }),
        ),
        Err(e) => Err(sink_failure(&e)),
    }
}

/// The sink column of every field of the schema, or the first field that the
/// sink cannot hold.
pub fn sink_columns(schema: &Schema) -> (r: Result<Vec<LeafKind>, WriteError>)
    ensures
        match r {
            Ok(kinds) => {
                &&& sink_holds(schema@)
                &&& kinds@.len() == schema@.len()
                &&& forall|j: int|
                    0 <= j < schema@.len() ==> schema@[j].spec_leaf() == Some(#[trigger] kinds@[j])
            },
            Err(e) => {
                &&& e matches WriteError::UnsupportedType { column, logical_type, physical_type }
                &&& is_first_unheld(schema@, column as int)
                &&& logical_type == schema@[column as int].logical_type
                &&& physical_type == schema@[column as int].physical_type
            },
        },
{
    let mut kinds: Vec<LeafKind> = Vec::new();
    let mut c: usize = 0;
    while c < schema.len()
        invariant
            c <= schema@.len(),
            kinds@.len() == c,
            forall|j: int| 0 <= j < c ==> (#[trigger] schema@[j]).spec_leaf() is Some,
            forall|j: int| 0 <= j < c ==> schema@[j].spec_leaf() == Some(#[trigger] kinds@[j]),
        decreases schema@.len() - c,
    {
        match schema.at(c).leaf() {
            Some(kind) => {
                kinds.push(kind);
            },
            None => {
                return Err(
                    WriteError::UnsupportedType {
                        column: c,
                        logical_type: schema.at(c).logical_type,
                        physical_type: schema.at(c).physical_type,
                    },
                );
            },
        }
        c += 1;
    }
    Ok(kinds)
}

/// Hands one encoded batch to the sink as one row group, column by column
/// in order. It goes well exactly where the sink takes every step, and the
/// sink then lists one group more, with the columns and rows of the batch.
/// Otherwise the failure is that of the first step that the sink refused.
fn write_row_group(sink: &mut FileWriter, batch: &ColumnBatch) -> (r: Result<(), WriteError>)
    requires
        forall|j: int|
            0 <= j < batch.columns@.len() ==> column_bounded(#[trigger] batch.columns@[j]),
    ensures
        r is Ok <==> takes(*old(sink), batch@),
        r is Ok ==> lists_after(*old(sink), *final(sink), batch@),
        r matches Err(e) ==> is_refusal(*old(sink), batch@, e),
{
    let ghost origin = *sink;
    let mut group = match next_row_group(sink) {
        Ok(group) => group,
        Err(e) => {
            return Err(sink_failure(&e));
        },
    };
    let ghost result = group_result(group);
    let mut c: usize = 0;
    while c < batch.columns.len()
        invariant
            c <= batch.columns@.len(),
            batch@.len() == batch.columns@.len(),
            forall|j: int|
                0 <= j < batch.columns@.len() ==> column_bounded(#[trigger] batch.columns@[j]),
            origin == *old(sink),
            opens_group(origin),
            group_intact(group),
            group_origin(group) == origin,
            group_result(group) == result,
            group_columns(group) == batch@.take(c as int),
            forall|j: int| 0 <= j < c ==> #[trigger] takes_at(origin, batch@, j),
        decreases batch.columns@.len() - c,
    {
        assert(column_bounded(batch.columns@[c as int]));
        let answer = match &batch.columns[c] {
            ColumnData::Int64 { values, min, max } => put_int64_column(
                &mut group,
                values,
                *min,
                *max,
            ),
            ColumnData::Utf8 { values, min, max } => put_text_column(&mut group, values, min, max),
        };
        assert(batch@[c as int] == batch.columns@[c as int]@);
        assert(match answer {
            Ok(a) => answer_at(origin, batch@, c as int) == Some(a),
            Err(_) => answer_at(origin, batch@, c as int) is None,
        });
        match column_put(c, answer) {
            Ok(()) => {},
            Err(e) => {
                assert(is_first_refused(origin, batch@, c as int));
                assert(is_column_refusal(answer_at(origin, batch@, c as int), c as int, e));
                return Err(e);
            },
        }
        assert(batch@.take(c + 1) =~= batch@.take(c as int).push(batch@[c as int]));
        c += 1;
    }
    assert(batch@.take(c as int) =~= batch@);
    settled(close_row_group(group))
}

/// What a row group that was opened on `sink` and holds the columns
/// `earlier` answers to the column `next`.
pub open spec fn answer_to(sink: FileWriter, earlier: Seq<ColumnModel>, next: ColumnModel)
    -> Option<ColumnAnswer> {
    match next {
        ColumnModel::Int64 { values, min, max } => int64_answer(sink, earlier, values, min, max),
        ColumnModel::Utf8 { values, min, max } => text_answer(sink, earlier, values, min, max),
    }
}

/// What a row group on `sink` answers to column `c` of `columns` after the
/// columns before it.
pub open spec fn answer_at(sink: FileWriter, columns: Seq<ColumnModel>, c: int) -> Option<
    ColumnAnswer,
> {
    answer_to(sink, columns.take(c), columns[c])
}

/// Whether a row group on `sink` takes column `c` of `columns` after the
/// columns before it.
pub open spec fn takes_at(sink: FileWriter, columns: Seq<ColumnModel>, c: int) -> bool {
    answer_at(sink, columns, c) == Some(ColumnAnswer::Taken)
}

/// Whether the sink takes `columns` as its next row group: it opens a row
/// group, takes every column after those before it, and closes the group.
pub open spec fn takes(sink: FileWriter, columns: Seq<ColumnModel>) -> bool {
    &&& opens_group(sink)
    &&& forall|c: int| 0 <= c < columns.len() ==> #[trigger] takes_at(sink, columns, c)
    &&& closes_group(sink, columns)
}

/// Whether column `c` is the first of `columns` that a row group on `sink`
/// does not take.
pub open spec fn is_first_refused(sink: FileWriter, columns: Seq<ColumnModel>, c: int) -> bool {
    &&& 0 <= c < columns.len()
    &&& !takes_at(sink, columns, c)
    &&& forall|j: int| 0 <= j < c ==> #[trigger] takes_at(sink, columns, j)
}

/// Whether `e` is the failure for an answer that is not a taken column: no
/// writer is a missing column writer, a writer for values of another type a
/// mismatch, and an error a failure of the sink.
pub open spec fn is_column_refusal(answer: Option<ColumnAnswer>, column: int, e: WriteError)
    -> bool {
    match answer {
        Some(ColumnAnswer::Taken) => false,
        Some(ColumnAnswer::NoWriter) => e == WriteError::Io(
            IoFailure::MissingColumnWriter { column: column as usize },
        ),
        Some(ColumnAnswer::OtherType) => e == WriteError::Io(
            IoFailure::ColumnTypeMismatch { column: column as usize },
        ),
        None => e matches WriteError::Io(IoFailure::Sink(_)),
    }
}

/// Whether `e` is the failure of handing `columns` to the sink as its next
/// row group: that of the first step that the sink refuses, which is the
/// opening of the group, a column, or the closing of the group.
pub open spec fn is_refusal(sink: FileWriter, columns: Seq<ColumnModel>, e: WriteError) -> bool {
    if !opens_group(sink) {
        e matches WriteError::Io(IoFailure::Sink(_))
    } else if forall|c: int| 0 <= c < columns.len() ==> #[trigger] takes_at(sink, columns, c) {
        !closes_group(sink, columns) && e matches WriteError::Io(IoFailure::Sink(_))
    } else {
        exists|c: int| #[trigger]
            is_first_refused(sink, columns, c) && is_column_refusal(
                answer_at(sink, columns, c),
                c,
                e,
            )
    }
}

/// Whether the sink, which was `before`, lists `columns` as the row group
/// that it closed last: it has closed one group more, that group has as many
/// column chunks as there are columns, and their rows, and the groups that
/// were listed before are listed as they were.
pub open spec fn lists_after(before: FileWriter, after: FileWriter, columns: Seq<ColumnModel>)
    -> bool {
    &&& flushed_groups(after) == flushed_groups(before) + 1
    &&& flushed_columns(after, flushed_groups(before) as int) == Some(columns.len())
    &&& flushed_rows(after, flushed_groups(before) as int) == Some(group_rows(columns) as int)
    &&& keeps_listed(before, after)
}

/// Whether a sink that was `before` has written `batch` under `fields` as
/// its next row group and is `after`: the batch fits the fields, the sink
/// took its encoding, and lists it as one group more.
pub open spec fn written(
    before: FileWriter,
    batch: Seq<Row>,
    fields: Seq<FieldDescriptor>,
    after: FileWriter,
) -> bool {
    &&& batch_fits(batch, fields)
    &&& takes(before, encoding_of(batch, fields))
    &&& lists_after(before, after, encoding_of(batch, fields))
}

/// Whether `r`, with the sink and the counts after it, is the outcome of
/// writing `batch` under `fields` by a consumer whose sink was `before` and
/// that had written `groups_before` row groups.
///
/// The batch is written exactly where it fits the fields, the count of row
/// groups still fits the machine word, and the sink takes the encoding; the
/// sink then lists it. A batch that does not fit yields its encoding
/// failure, and a count at its limit the failure of that name; in both cases
/// the sink is as it was. Otherwise the failure is that of the step that the
/// sink refused. After any failure the count is what it was and the consumer
/// has stopped.
pub open spec fn is_write_outcome(
    before: FileWriter,
    batch: Seq<Row>,
    fields: Seq<FieldDescriptor>,
    r: Result<(), WriteError>,
    groups_before: nat,
    after: FileWriter,
    groups_after: nat,
    stopped_after: bool,
) -> bool {
    match r {
        Ok(()) => {
            &&& written(before, batch, fields, after)
            &&& groups_before < usize::MAX
            &&& groups_after == groups_before + 1
            &&& !stopped_after
        },
        Err(e) => {
            &&& stopped_after
            &&& groups_after == groups_before
            &&& if !batch_fits(batch, fields) {
                is_batch_fault(batch, fields, e) && after == before
            } else if groups_before >= usize::MAX {
                e == WriteError::Io(IoFailure::TooManyRowGroups) && after == before
            } else {
                is_refusal(before, encoding_of(batch, fields), e)
            }
        },
    }
}

/// What the consumer does after an attempt to receive a batch.
#[derive(Clone, Debug, PartialEq, Eq)]
pub enum ConsumerStep {
    /// The batch is written; receive the next one.
    Continue,
    /// The queue is closed and empty: the consumer ends cleanly.
    Finished,
    /// The batch could not be written: the consumer ends with this failure.
    Failed(WriteError),
}

/// The consumer of batches. It owns the sink, encodes each batch that it is
/// given and writes it as one row group, in the order in which batches come.
pub struct BatchWriter {
    sink: FileWriter,
    schema: Schema,
    row_groups: usize,
    stopped: bool,
}

impl BatchWriter {
    /// The fields of the schema that batches are written under.
    pub closed spec fn schema(&self) -> Seq<FieldDescriptor> {
        self.schema@
    }

    /// The number of row groups written so far.
    pub closed spec fn row_groups(&self) -> nat {
        self.row_groups as nat
    }

    /// Whether the consumer has stopped after a failure.
    pub closed spec fn is_stopped(&self) -> bool {
        self.stopped
    }

    /// The sink that the consumer writes to.
    pub closed spec fn sink(&self) -> FileWriter {
        self.sink
    }

    /// The sink has a column for every field, and while the consumer has not
    /// stopped, the row groups that it counts are those that the sink has
    /// closed.
    pub open spec fn wf(&self) -> bool {
        &&& sink_holds(self.schema())
        &&& !self.is_stopped() ==> self.row_groups() == flushed_groups(self.sink())
    }

    /// The consumer around a sink that was opened for `schema`, or the
    /// failure to open it.
    fn from_opened(schema: Schema, opened: Result<FileWriter, ParquetError>) -> (r: Result<
        BatchWriter,
        WriteError,
    >)
        requires
            sink_holds(schema@),
        ensures
            match opened {
                Ok(sink) => {
                    &&& r matches Ok(w)
                    &&& w.wf()
                    &&& w.schema() == schema@
                    &&& w.sink() == sink
                    &&& w.row_groups() == flushed_groups(sink)
                    &&& !w.is_stopped()
                },
                Err(_) => r matches Err(WriteError::Io(IoFailure::Sink(_))),
            },
    {
        match opened {
            Ok(sink) => {
                let row_groups: usize = flushed_group_count(&sink);
                Ok(BatchWriter { sink, schema, row_groups, stopped: false })
            },
            Err(e) => Err(sink_failure(&e)),
        }
    }

    /// A consumer that writes under `schema` into an empty file in memory.
    ///
    /// A schema without fields is refused: the sink counts the rows of a row
    /// group by its first column, so the rows of such a schema would be
    /// lost. Then a schema with a field that the sink cannot hold is
    /// refused, with the first such field and its types. For every other
    /// schema the consumer is made, and has written no row group.
    pub fn new(schema: Schema) -> (r: Result<BatchWriter, WriteError>)
        ensures
            schema@.len() == 0 ==> r == Err::<BatchWriter, WriteError>(
                WriteError::Configuration(ConfigurationError::EmptySchema),
            ),
            schema@.len() > 0 && !sink_holds(schema@) ==> {
                &&& r matches Err(WriteError::UnsupportedType { column, logical_type, physical_type })
                &&& is_first_unheld(schema@, column as int)
                &&& logical_type == schema@[column as int].logical_type
                &&& physical_type == schema@[column as int].physical_type
            },
            schema@.len() > 0 && sink_holds(schema@) ==> r is Ok,
            r matches Ok(w) ==> {
                &&& w.wf()
                &&& w.schema() == schema@
                &&& w.row_groups() == 0
                &&& flushed_groups(w.sink()) == 0
                &&& !w.is_stopped()
            },
    {
        if schema.len() == 0 {
            return Err(WriteError::Configuration(ConfigurationError::EmptySchema));
        }
        let kinds = match sink_columns(&schema) {
            Ok(kinds) => kinds,
            Err(e) => {
                return Err(e);
            },
        };
        let mut leaves: Vec<Type> = Vec::new();
        let mut c: usize = 0;
        while c < kinds.len()
            invariant
                c <= kinds@.len(),
                kinds@.len() == schema@.len(),
                schema@.len() > 0,
                sink_holds(schema@),
                leaves@.len() == c,
                forall|j: int| 0 <= j < c ==> is_primitive_type(#[trigger] leaves@[j]),
            decreases kinds@.len() - c,
        {
            let field = schema.at(c);
            match leaf_type(field.name.as_str(), kinds[c], field.required) {
                Ok(node) => {
                    leaves.push(node);
                },
                Err(e) => {
                    return Err(sink_failure(&e));
                },
            }
            c += 1;
        }
        let opened = open_writer("schema", leaves);
        BatchWriter::from_opened(schema, opened)
    }

    /// Encodes `batch` and writes it as the next row group.
    ///
    /// Nothing reaches the sink unless the whole batch has been encoded, so a
    /// batch that does not fit the schema leaves the file as it was. A
    /// consumer that has stopped refuses every batch and leaves the sink
    /// alone.
    pub fn write_batch(&mut self, batch: &Vec<Row>) -> (r: Result<(), WriteError>)
        requires
            old(self).wf(),
        ensures
            final(self).wf(),
            final(self).schema() == old(self).schema(),
            old(self).is_stopped() ==> {
                &&& r == Err::<(), WriteError>(WriteError::PipelineTerminated)
                &&& final(self).is_stopped()
                &&& final(self).row_groups() == old(self).row_groups()
                &&& final(self).sink() == old(self).sink()
            },
            !old(self).is_stopped() ==> is_write_outcome(
                old(self).sink(),
                batch@,
                old(self).schema(),
                r,
                old(self).row_groups(),
                final(self).sink(),
                final(self).row_groups(),
                final(self).is_stopped(),
            ),
    {
        if self.stopped {
            return Err(WriteError::PipelineTerminated);
        }
        let encoded = match encode(batch, &self.schema) {
            Ok(encoded) => encoded,
            Err(e) => {
                self.stopped = true;
                proof {
                    lemma_fault_is_no_fit(batch@, self.schema@, e);
                }
                return Err(e);
            },
        };
        proof {
            lemma_encoded_is_the_encoding(encoded, batch@, self.schema@);
            assert forall|j: int| 0 <= j < encoded.columns@.len() implies column_bounded(
                #[trigger] encoded.columns@[j],
            ) by {
                assert(crate::encoder::encodes(
                    encoded.columns@[j],
                    batch@,
                    self.schema@[j].spec_strategy().unwrap(),
                    j,
                ));
            }
        }
        if self.row_groups == usize::MAX {
            self.stopped = true;
            return Err(WriteError::Io(IoFailure::TooManyRowGroups));
        }
        match write_row_group(&mut self.sink, &encoded) {
            Ok(()) => {
                self.row_groups = self.row_groups + 1;
                Ok(())
            },
            Err(e) => {
                self.stopped = true;
                Err(e)
            },
        }
    }

    /// The consumer's step on what the queue gave: a batch is written, and
    /// the loop goes on unless that failed; no batch means that the queue is
    /// closed and drained, and the loop ends with the sink as it is.
    pub fn on_receive(&mut self, received: Option<Vec<Row>>) -> (step: ConsumerStep)
        requires
            old(self).wf(),
        ensures
            final(self).wf(),
            final(self).schema() == old(self).schema(),
            match received {
                None => {
                    &&& step == ConsumerStep::Finished
                    &&& final(self).row_groups() == old(self).row_groups()
                    &&& final(self).is_stopped() == old(self).is_stopped()
                    &&& final(self).sink() == old(self).sink()
                },
                Some(batch) => {
                    &&& step != ConsumerStep::Finished
                    &&& if old(self).is_stopped() {
                        &&& step == ConsumerStep::Failed(WriteError::PipelineTerminated)
                        &&& final(self).is_stopped()
                        &&& final(self).row_groups() == old(self).row_groups()
                        &&& final(self).sink() == old(self).sink()
                    } else {
                        is_write_outcome(
                            old(self).sink(),
                            batch@,
                            old(self).schema(),
                            match step {
                                ConsumerStep::Failed(e) => Err(e),
                                _ => Ok(()),
                            },
                            old(self).row_groups(),
                            final(self).sink(),
                            final(self).row_groups(),
                            final(self).is_stopped(),
                        )
                    }
                },
            },
    {
        match received {
            None => ConsumerStep::Finished,
            Some(batch) => match self.write_batch(&batch) {
                Ok(()) => ConsumerStep::Continue,
                Err(e) => ConsumerStep::Failed(e),
            },
        }
    }

    /// Takes out of the sink the bytes of the file that were written since
    /// the last time: the file is these bytes followed by what the sink
    /// gives later. The row groups stay listed and counted. A consumer that
    /// has stopped gives nothing.
    pub fn take_bytes(&mut self) -> (r: Result<Vec<u8>, WriteError>)
        requires
            old(self).wf(),
        ensures
            final(self).wf(),
            final(self).schema() == old(self).schema(),
            final(self).row_groups() == old(self).row_groups(),
            final(self).is_stopped() == old(self).is_stopped(),
            old(self).is_stopped() ==> {
                &&& r == Err::<Vec<u8>, WriteError>(WriteError::PipelineTerminated)
                &&& final(self).sink() == old(self).sink()
            },
            !old(self).is_stopped() ==> {
                &&& r matches Ok(bytes)
                &&& file_of(old(self).sink()) == joined(bytes@, file_of(final(self).sink()))
                &&& flushed_groups(final(self).sink()) == flushed_groups(old(self).sink())
                &&& keeps_listed(old(self).sink(), final(self).sink())
            },
    {
        if self.stopped {
            return Err(WriteError::PipelineTerminated);
        }
        match take_written(&mut self.sink) {
            Ok(bytes) => Ok(bytes),
            Err(e) => Err(sink_failure(&e)),
        }
    }

    /// Ends the file and gives its bytes, from where they were last taken. A
    /// consumer that has stopped gives none; any other gives the file of its
    /// sink exactly where the sink has one.
    pub fn finish(self) -> (r: Result<Vec<u8>, WriteError>)
        ensures
            self.is_stopped() ==> r == Err::<Vec<u8>, WriteError>(WriteError::PipelineTerminated),
            !self.is_stopped() ==> match r {
                Ok(bytes) => file_of(self.sink()) == Some(bytes@),
                Err(e) => e matches WriteError::Io(IoFailure::Sink(_)) && file_of(self.sink())
                    is None,
            },
    {
        if self.stopped {
            return Err(WriteError::PipelineTerminated);
        }
        match into_bytes(self.sink) {
            Ok(bytes) => Ok(bytes),
            Err(e) => Err(sink_failure(&e)),
        }
    }
}

/// A failure of encoding is the failure of a batch that does not fit.
pub proof fn lemma_fault_is_no_fit(batch: Seq<Row>, fields: Seq<FieldDescriptor>, e: WriteError)
    requires
        is_batch_fault(batch, fields, e),
    ensures
        !batch_fits(batch, fields),
{
    let c = crate::encoder::fault_column(e);
    if c < fields.len() {
        if batch_fits(batch, fields) {
            assert(crate::encoder::column_clean(batch, fields[c], c));
            let strategy = fields[c].spec_strategy().unwrap();
            let row = e->SchemaMismatch_row as int;
            assert(crate::encoder::cell_fits(batch[row]@, strategy, c));
        }
    } else {
        if batch_fits(batch, fields) {
            let row = e->SchemaMismatch_row as int;
            assert(batch[row]@.len() <= fields.len());
        }
    }
}

/// A writer that collects rows and writes them as row groups of at most
/// `group_size` rows each.
pub struct RowWriter {
    max_row_group: usize,
    buffer: Vec<Row>,
    consumer: BatchWriter,
}

impl RowWriter {
    /// The number of rows at which the buffer is written as a row group.
    pub closed spec fn group_size(&self) -> nat {
        self.max_row_group as nat
    }

    /// The rows that wait in the buffer, oldest first.
    pub closed spec fn buffered(&self) -> Seq<Row> {
        self.buffer@
    }

    /// The fields of the schema that rows are written under.
    pub closed spec fn schema(&self) -> Seq<FieldDescriptor> {
        self.consumer.schema()
    }

    /// The number of row groups written so far.
    pub closed spec fn row_groups(&self) -> nat {
        self.consumer.row_groups()
    }

    /// Whether the writer has stopped after a failure.
    pub closed spec fn is_stopped(&self) -> bool {
        self.consumer.is_stopped()
    }

    /// The sink that the writer writes to.
    pub closed spec fn sink(&self) -> FileWriter {
        self.consumer.sink()
    }

    /// The buffer holds fewer rows than a row group, the sink has a column
    /// for every field, and while the writer has not stopped, the row groups
    /// that it counts are those that the sink has closed.
    pub open spec fn wf(&self) -> bool {
        &&& self.buffered().len() < self.group_size()
        &&& sink_holds(self.schema())
        &&& !self.is_stopped() ==> self.row_groups() == flushed_groups(self.sink())
    }

    /// A writer under `schema` with an empty buffer and an empty file.
    ///
    /// A group size of zero is refused; then a schema without fields, whose
    /// rows the sink could not count; then one with a field that the sink
    /// cannot hold, with the first such field and its types. For every other
    /// schema the writer is made.
    pub fn new(schema: Schema, group_size: usize) -> (r: Result<RowWriter, WriteError>)
        ensures
            group_size == 0 ==> r == Err::<RowWriter, WriteError>(
                WriteError::Configuration(ConfigurationError::ZeroGroupSize),
            ),
            group_size > 0 && schema@.len() == 0 ==> r == Err::<RowWriter, WriteError>(
                WriteError::Configuration(ConfigurationError::EmptySchema),
            ),
            group_size > 0 && schema@.len() > 0 && !sink_holds(schema@) ==> {
                &&& r matches Err(WriteError::UnsupportedType { column, logical_type, physical_type })
                &&& is_first_unheld(schema@, column as int)
                &&& logical_type == schema@[column as int].logical_type
                &&& physical_type == schema@[column as int].physical_type
            },
            group_size > 0 && schema@.len() > 0 && sink_holds(schema@) ==> r is Ok,
            r matches Ok(w) ==> {
                &&& w.wf()
                &&& w.group_size() == group_size
                &&& w.schema() == schema@
                &&& w.buffered() == Seq::<Row>::empty()
                &&& w.row_groups() == 0
                &&& flushed_groups(w.sink()) == 0
                &&& !w.is_stopped()
            },
    {
        if group_size == 0 {
            return Err(WriteError::Configuration(ConfigurationError::ZeroGroupSize));
        }
        match BatchWriter::new(schema) {
            Ok(consumer) => Ok(RowWriter { max_row_group: group_size, buffer: Vec::new(), consumer }),
            Err(e) => Err(e),
        }
    }

    /// The number of rows that the buffer takes before it is written.
    pub fn remaining_space(&self) -> (n: usize)
        requires
            self.wf(),
        ensures
            n + self.buffered().len() == self.group_size(),
            n > 0,
    {
        self.max_row_group - self.buffer.len()
    }

    /// Writes the buffered rows as one row group and empties the buffer,
    /// whatever the outcome. A writer that has stopped leaves the sink alone.
    pub fn flush(&mut self) -> (r: Result<(), WriteError>)
        requires
            old(self).wf(),
        ensures
            final(self).wf(),
            final(self).group_size() == old(self).group_size(),
            final(self).schema() == old(self).schema(),
            final(self).buffered() == Seq::<Row>::empty(),
            old(self).is_stopped() ==> {
                &&& r == Err::<(), WriteError>(WriteError::PipelineTerminated)
                &&& final(self).is_stopped()
                &&& final(self).row_groups() == old(self).row_groups()
                &&& final(self).sink() == old(self).sink()
            },
            !old(self).is_stopped() ==> is_write_outcome(
                old(self).sink(),
                old(self).buffered(),
                old(self).schema(),
                r,
                old(self).row_groups(),
                final(self).sink(),
                final(self).row_groups(),
                final(self).is_stopped(),
            ),
    {
        let r = self.consumer.write_batch(&self.buffer);
        self.buffer.clear();
        r
    }

    /// Takes out of the sink the bytes of the file that were written since
    /// the last time, and leaves the buffer as it is.
    pub fn take_bytes(&mut self) -> (r: Result<Vec<u8>, WriteError>)
        requires
            old(self).wf(),
        ensures
            final(self).wf(),
            final(self).group_size() == old(self).group_size(),
            final(self).schema() == old(self).schema(),
            final(self).buffered() == old(self).buffered(),
            final(self).row_groups() == old(self).row_groups(),
            final(self).is_stopped() == old(self).is_stopped(),
            old(self).is_stopped() ==> {
                &&& r == Err::<Vec<u8>, WriteError>(WriteError::PipelineTerminated)
                &&& final(self).sink() == old(self).sink()
            },
            !old(self).is_stopped() ==> {
                &&& r matches Ok(bytes)
                &&& file_of(old(self).sink()) == joined(bytes@, file_of(final(self).sink()))
                &&& flushed_groups(final(self).sink()) == flushed_groups(old(self).sink())
                &&& keeps_listed(old(self).sink(), final(self).sink())
            },
    {
        self.consumer.take_bytes()
    }

    /// Adds a row to the buffer, and writes the buffer as a row group when
    /// that row fills it.
    ///
    /// A row that does not fill the buffer is kept and nothing else happens,
    /// whether the writer has stopped or not. A row that fills it has the
    /// buffer written as by `flush`: the buffer is empty after that, and a
    /// writer that has stopped refuses the row group.
    pub fn append_row(&mut self, row: Row) -> (r: Result<(), WriteError>)
        requires
            old(self).wf(),
        ensures
            final(self).wf(),
            final(self).group_size() == old(self).group_size(),
            final(self).schema() == old(self).schema(),
            old(self).buffered().len() + 1 < old(self).group_size() ==> {
                &&& r is Ok
                &&& final(self).buffered() == old(self).buffered().push(row)
                &&& final(self).row_groups() == old(self).row_groups()
                &&& final(self).is_stopped() == old(self).is_stopped()
                &&& final(self).sink() == old(self).sink()
            },
            old(self).buffered().len() + 1 == old(self).group_size() ==> final(self).buffered()
                == Seq::<Row>::empty(),
            old(self).buffered().len() + 1 == old(self).group_size() && old(self).is_stopped() ==> {
                &&& r == Err::<(), WriteError>(WriteError::PipelineTerminated)
                &&& final(self).is_stopped()
                &&& final(self).row_groups() == old(self).row_groups()
                &&& final(self).sink() == old(self).sink()
            },
            old(self).buffered().len() + 1 == old(self).group_size() && !old(self).is_stopped()
                ==> is_write_outcome(
                old(self).sink(),
                old(self).buffered().push(row),
                old(self).schema(),
                r,
                old(self).row_groups(),
                final(self).sink(),
                final(self).row_groups(),
                final(self).is_stopped(),
            ),
    {
        self.buffer.push(row);
        if self.buffer.len() == self.max_row_group {
            let r = self.consumer.write_batch(&self.buffer);
            self.buffer.clear();
            r
        } else {
            Ok(())
        }
    }

    /// Writes the rows that are left in the buffer, if any, as a last row
    /// group, ends the file and gives its bytes.
    ///
    /// A writer that has stopped gives no file. With an empty buffer no row
    /// group is written, and the bytes are the file of the sink as it is,
    /// from where its bytes were last taken. With rows in the buffer the
    /// bytes are the file of the sink after it has written them as one more
    /// row group.
    pub fn close(self) -> (r: Result<Vec<u8>, WriteError>)
        requires
            self.wf(),
        ensures
            self.is_stopped() ==> r == Err::<Vec<u8>, WriteError>(WriteError::PipelineTerminated),
            !self.is_stopped() && self.buffered().len() == 0 ==> match r {
                Ok(bytes) => file_of(self.sink()) == Some(bytes@),
                Err(e) => e matches WriteError::Io(IoFailure::Sink(_)) && file_of(self.sink())
                    is None,
            },
            !self.is_stopped() && self.buffered().len() > 0 ==> match r {
                Ok(bytes) => exists|after: FileWriter|
                    written(self.sink(), self.buffered(), self.schema(), after)
                        && #[trigger] file_of(after) == Some(bytes@),
                Err(e) => if !batch_fits(self.buffered(), self.schema()) {
                    is_batch_fault(self.buffered(), self.schema(), e)
                } else if self.row_groups() >= usize::MAX {
                    e == WriteError::Io(IoFailure::TooManyRowGroups)
                } else {
                    ||| is_refusal(self.sink(), encoding_of(self.buffered(), self.schema()), e)
                    ||| e matches WriteError::Io(IoFailure::Sink(_)) && exists|after: FileWriter|
                        written(self.sink(), self.buffered(), self.schema(), after)
                            && #[trigger] file_of(after) is None
                },
            },
    {
        let mut consumer = self.consumer;
        if consumer.stopped {
            return Err(WriteError::PipelineTerminated);
        }
        if self.buffer.len() > 0 {
            match consumer.write_batch(&self.buffer) {
                Ok(()) => {},
                Err(e) => {
                    return Err(e);
                },
            }
        }
        let ghost after = consumer.sink();
        let ghost file = file_of(after);
        consumer.finish()
    }
}

} // verus!

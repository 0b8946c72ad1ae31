//! The producer's side of the write pipeline: rows are collected into
//! batches of a fixed size, and each full batch is handed out to be queued
//! for the consumer.

use vstd::prelude::*;

use crate::error::{ConfigurationError, WriteError};
use crate::record::{long_at, text_at, FieldValue, Row};

verus! {

/// Builds a row from an ordered list of (name, value) pairs.
pub fn create_row(fields: Vec<(String, FieldValue)>) -> (row: Row)
    ensures
        row@ == fields@,
{
    Row::new(fields)
}

/// A row that was built from pairs reads back, at every position, the name
/// and the value of the pair at that position.
pub proof fn lemma_row_reads_back(fields: Seq<(String, FieldValue)>, row: Row, i: int)
    requires
        row@ == fields,
        0 <= i < fields.len(),
    ensures
        row@[i].0 == fields[i].0,
        row@[i].1 == fields[i].1,
        fields[i].1 matches FieldValue::Int64(v) ==> long_at(row@, i) == Some(v),
        fields[i].1 matches FieldValue::Utf8(s) ==> text_at(row@, i) == Some(s),
{
}

/// What appending `row` makes of a buffer that holds `buffered`: the rows
/// left in the buffer, and the batch handed off, if the row filled it.
pub open spec fn append_step(buffered: Seq<Row>, group_size: nat, row: Row) -> (
    Seq<Row>,
    Option<Seq<Row>>,
) {
    let grown = buffered.push(row);
    if grown.len() == group_size {
        (Seq::empty(), Some(grown))
    } else {
        (grown, None)
    }
}

/// What appending `rows` one by one makes of a buffer that holds `start`:
/// the batches handed off, in order, and the rows left in the buffer.
pub open spec fn feed_from(start: Seq<Row>, group_size: nat, rows: Seq<Row>) -> (
    Seq<Seq<Row>>,
    Seq<Row>,
)
    decreases rows.len(),
{
    if rows.len() == 0 {
        (Seq::empty(), start)
    } else {
        let (batches, buffered) = feed_from(start, group_size, rows.drop_last());
        let (left, handed) = append_step(buffered, group_size, rows.last());
        match handed {
            Some(batch) => (batches.push(batch), left),
            None => (batches, left),
        }
    }
}

/// What appending `rows` one by one makes of an empty buffer: the batches
/// handed off, in order, and the rows left in the buffer.
pub open spec fn feed(group_size: nat, rows: Seq<Row>) -> (Seq<Seq<Row>>, Seq<Row>) {
    feed_from(Seq::empty(), group_size, rows)
}

/// The rows of `batches`, batch after batch.
pub open spec fn concat(batches: Seq<Seq<Row>>) -> Seq<Row>
    decreases batches.len(),
{
    if batches.len() == 0 {
        Seq::empty()
    } else {
        concat(batches.drop_last()) + batches.last()
    }
}

/// The rows of each of `batches`.
pub open spec fn batch_views(batches: Seq<Vec<Row>>) -> Seq<Seq<Row>> {
    Seq::new(batches.len(), |i: int| batches[i]@)
}

/// Rows that go through a buffer come out as they went in: the batches
/// handed off, followed by what is left in the buffer, are the rows that the
/// buffer held, followed by the rows appended, in their order. Every batch
/// is full, and less than a batch is left.
pub proof fn lemma_feed_from_keeps_rows(start: Seq<Row>, group_size: nat, rows: Seq<Row>)
    requires
        group_size > 0,
        start.len() < group_size,
    ensures
        concat(feed_from(start, group_size, rows).0) + feed_from(start, group_size, rows).1
            == start + rows,
        forall|i: int|
            0 <= i < feed_from(start, group_size, rows).0.len() ==> (#[trigger] feed_from(
                start,
                group_size,
                rows,
            ).0[i]).len() == group_size,
        feed_from(start, group_size, rows).1.len() < group_size,
        start.len() + rows.len() == feed_from(start, group_size, rows).0.len() * group_size
            + feed_from(start, group_size, rows).1.len(),
    decreases rows.len(),
{
    let (batches, left) = feed_from(start, group_size, rows);
    if rows.len() == 0 {
        assert(concat(batches) + left =~= start + rows);
    } else {
        let before = rows.drop_last();
        lemma_feed_from_keeps_rows(start, group_size, before);
        let (batches0, left0) = feed_from(start, group_size, before);
        let grown = left0.push(rows.last());
        assert(rows =~= before.push(rows.last()));
        assert(start + rows =~= (start + before).push(rows.last()));
        if grown.len() == group_size {
            assert(batches == batches0.push(grown));
            assert(batches.drop_last() =~= batches0);
            assert(concat(batches) == concat(batches0) + grown);
            assert(concat(batches) + left =~= start + rows);
            assert(start.len() + rows.len() == batches.len() * group_size + left.len())
                by (nonlinear_arith)
                requires
                    start.len() + before.len() == batches0.len() * group_size + left0.len(),
                    rows.len() == before.len() + 1,
                    left0.len() + 1 == group_size,
                    batches.len() == batches0.len() + 1,
                    left.len() == 0,
            ;
        } else {
            assert(concat(batches) + left =~= start + rows);
        }
    }
}

/// Rows that go through an empty buffer come out as they went in: the
/// batches handed off, followed by what is left in the buffer, are the rows
/// in their order. Every batch is full, less than a batch is left, and
/// nothing is left where the number of rows is a multiple of the group size.
pub proof fn lemma_feed_keeps_rows(group_size: nat, rows: Seq<Row>)
    requires
        group_size > 0,
    ensures
        concat(feed(group_size, rows).0) + feed(group_size, rows).1 == rows,
        forall|i: int|
            0 <= i < feed(group_size, rows).0.len() ==> (#[trigger] feed(group_size, rows).0[i]).len()
                == group_size,
        feed(group_size, rows).1.len() < group_size,
        rows.len() == feed(group_size, rows).0.len() * group_size + feed(group_size, rows).1.len(),
        rows.len() % group_size == 0 ==> feed(group_size, rows).1.len() == 0 && concat(
            feed(group_size, rows).0,
        ) == rows,
{
    let (batches, left) = feed(group_size, rows);
    lemma_feed_from_keeps_rows(Seq::empty(), group_size, rows);
    assert(Seq::<Row>::empty() + rows =~= rows);
    if rows.len() % group_size == 0 {
        assert(left.len() == 0) by (nonlinear_arith)
            requires
                rows.len() == batches.len() * group_size + left.len(),
                left.len() < group_size,
                rows.len() % group_size == 0,
                group_size > 0,
        ;
        assert(concat(batches) + left =~= concat(batches));
    }
}

/// The producer's buffer. It owns the batch in progress until that batch is
/// handed off; a batch that was handed off is the consumer's.
pub struct RowWriteBuffer {
    max_row_group: usize,
    buffer: Vec<Row>,
    terminated: bool,
}

impl RowWriteBuffer {
    /// The number of rows at which the batch in progress is handed off.
    pub closed spec fn group_size(&self) -> nat {
        self.max_row_group as nat
    }

    /// The rows of the batch in progress, oldest first.
    pub closed spec fn buffered(&self) -> Seq<Row> {
        self.buffer@
    }

    /// Whether the consumer is known to have stopped.
    pub closed spec fn is_terminated(&self) -> bool {
        self.terminated
    }

    /// The batch in progress holds fewer rows than a full batch.
    pub open spec fn wf(&self) -> bool {
        self.buffered().len() < self.group_size()
    }

    /// An empty buffer for batches of `group_size` rows. A group size of zero
    /// is refused, and nothing else.
    pub fn new(group_size: usize) -> (r: Result<RowWriteBuffer, WriteError>)
        ensures
            group_size == 0 ==> r == Err::<RowWriteBuffer, WriteError>(
                WriteError::Configuration(ConfigurationError::ZeroGroupSize),
            ),
            group_size > 0 ==> {
                &&& r matches Ok(b)
                &&& b.wf()
                &&& b.group_size() == group_size
                &&& b.buffered() == Seq::<Row>::empty()
                &&& !b.is_terminated()
            },
    {
        if group_size == 0 {
            Err(WriteError::Configuration(ConfigurationError::ZeroGroupSize))
        } else {
            Ok(RowWriteBuffer { max_row_group: group_size, buffer: Vec::new(), terminated: false })
        }
    }

    /// The number of rows that the batch in progress still takes: with the
    /// rows it holds, the group size.
    pub fn remaining_space(&self) -> (n: usize)
        requires
            self.wf(),
        ensures
            n + self.buffered().len() == self.group_size(),
            n > 0,
    {
        self.max_row_group - self.buffer.len()
    }

    /// Moves the batch in progress out, to be queued for the consumer, and
    /// leaves an empty one in its place. Refused, with the buffer as it was,
    /// once the consumer is known to have stopped.
    pub fn flush(&mut self) -> (r: Result<Vec<Row>, WriteError>)
        requires
            old(self).wf(),
        ensures
            final(self).wf(),
            final(self).group_size() == old(self).group_size(),
            final(self).is_terminated() == old(self).is_terminated(),
            old(self).is_terminated() ==> {
                &&& r == Err::<Vec<Row>, WriteError>(WriteError::PipelineTerminated)
                &&& final(self).buffered() == old(self).buffered()
            },
            !old(self).is_terminated() ==> {
                &&& r matches Ok(batch)
                &&& batch@ == old(self).buffered()
                &&& final(self).buffered() == Seq::<Row>::empty()
            },
    {
        if self.terminated {
            return Err(WriteError::PipelineTerminated);
        }
        let mut batch: Vec<Row> = Vec::new();
        std::mem::swap(&mut self.buffer, &mut batch);
        Ok(batch)
    }

    /// Adds a row to the batch in progress. A batch is handed out exactly
    /// when this row brings it to the group size, and the buffer is empty
    /// after that. A row that does not fill the batch is kept in any case;
    /// one that fills it is refused, with the buffer as it was, once the
    /// consumer is known to have stopped.
    pub fn append_row(&mut self, row: Row) -> (r: Result<Option<Vec<Row>>, WriteError>)
        requires
            old(self).wf(),
        ensures
            final(self).wf(),
            final(self).group_size() == old(self).group_size(),
            final(self).is_terminated() == old(self).is_terminated(),
            old(self).buffered().len() + 1 < old(self).group_size() ==> {
                &&& r matches Ok(None)
                &&& final(self).buffered() == old(self).buffered().push(row)
            },
            old(self).buffered().len() + 1 == old(self).group_size() && old(self).is_terminated()
                ==> {
                &&& r == Err::<Option<Vec<Row>>, WriteError>(WriteError::PipelineTerminated)
                &&& final(self).buffered() == old(self).buffered()
            },
            old(self).buffered().len() + 1 == old(self).group_size() && !old(self).is_terminated()
                ==> {
                &&& r matches Ok(Some(batch))
                &&& batch@ == old(self).buffered().push(row)
                &&& final(self).buffered() == Seq::<Row>::empty()
            },
            !old(self).is_terminated() ==> {
                &&& r matches Ok(handed)
                &&& (
                final(self).buffered(),
                match handed {
                    Some(batch) => Some(batch@),
                    None => None,
                },
            ) == append_step(old(self).buffered(), old(self).group_size(), row)
            },
    {
        if self.buffer.len() + 1 < self.max_row_group {
            self.buffer.push(row);
            Ok(None)
        } else if self.terminated {
            Err(WriteError::PipelineTerminated)
        } else {
            self.buffer.push(row);
            let mut batch: Vec<Row> = Vec::new();
            std::mem::swap(&mut self.buffer, &mut batch);
            Ok(Some(batch))
        }
    }

    /// Adds rows to the batch in progress, one after the other, and gives the
    /// batches that they fill, in order. Once the consumer is known to have
    /// stopped, rows are kept as long as none fills the batch, and the row
    /// that would fill it is refused with all that follow it.
    pub fn append_rows(&mut self, rows: Vec<Row>) -> (r: Result<Vec<Vec<Row>>, WriteError>)
        requires
            old(self).wf(),
        ensures
            final(self).wf(),
            final(self).group_size() == old(self).group_size(),
            final(self).is_terminated() == old(self).is_terminated(),
            !old(self).is_terminated() ==> {
                &&& r matches Ok(batches)
                &&& (batch_views(batches@), final(self).buffered()) == feed_from(
                    old(self).buffered(),
                    old(self).group_size(),
                    rows@,
                )
            },
            old(self).is_terminated() && old(self).buffered().len() + rows@.len() < old(
                self,
            ).group_size() ==> {
                &&& r matches Ok(batches)
                &&& batches@.len() == 0
                &&& final(self).buffered() == old(self).buffered() + rows@
            },
            old(self).is_terminated() && old(self).buffered().len() + rows@.len() >= old(
                self,
            ).group_size() ==> {
                &&& r == Err::<Vec<Vec<Row>>, WriteError>(WriteError::PipelineTerminated)
                &&& final(self).buffered() == old(self).buffered() + rows@.take(
                    old(self).group_size() - 1 - old(self).buffered().len(),
                )
            },
    {
        let ghost start = self.buffer@;
        let ghost size = self.max_row_group as nat;
        let mut batches: Vec<Vec<Row>> = Vec::new();
        assert(batch_views(batches@) =~= Seq::<Seq<Row>>::empty());
        assert(start + rows@.take(0) =~= start);
        for row in it: rows
            invariant
                it.seq() == rows@,
                self.wf(),
                self.group_size() == size,
                self.is_terminated() == old(self).is_terminated(),
                start == old(self).buffered(),
                size == old(self).group_size(),
                !self.is_terminated() ==> (batch_views(batches@), self.buffered()) == feed_from(
                    start,
                    size,
                    rows@.take(it.index() as int),
                ),
                self.is_terminated() ==> {
                    &&& batches@.len() == 0
                    &&& self.buffered() == start + rows@.take(it.index() as int)
                },
        {
            let ghost k = it.index() as int;
            let ghost views = batch_views(batches@);
            let ghost held = self.buffered();
            proof {
                assert(rows@.take(k + 1).drop_last() =~= rows@.take(k));
                assert(rows@.take(k + 1).last() == row);
                assert(start + rows@.take(k + 1) =~= (start + rows@.take(k)).push(row));
            }
            match self.append_row(row) {
                Ok(Some(batch)) => {
                    batches.push(batch);
                    assert(batch_views(batches@) =~= views.push(batch@));
                },
                Ok(None) => {},
                Err(e) => {
                    assert(start.len() + k == size - 1);
                    return Err(e);
                },
            }
        }
        assert(rows@.take(rows@.len() as int) =~= rows@);
        Ok(batches)
    }

    /// Records that a batch could not be queued because the consumer has
    /// stopped. From then on the buffer hands out no batch.
    pub fn consumer_stopped(&mut self)
        requires
            old(self).wf(),
        ensures
            final(self).wf(),
            final(self).is_terminated(),
            final(self).group_size() == old(self).group_size(),
            final(self).buffered() == old(self).buffered(),
    {
        self.terminated = true;
    }

    /// Ends the producer's side. A partial batch that is left is handed out
    /// to be queued as the last one; from an empty buffer nothing is. After
    /// that the queue is to be closed and the consumer awaited.
    pub fn close(self) -> (r: Result<Option<Vec<Row>>, WriteError>)
        requires
            self.wf(),
        ensures
            self.is_terminated() ==> r == Err::<Option<Vec<Row>>, WriteError>(
                WriteError::PipelineTerminated,
            ),
            !self.is_terminated() ==> {
                &&& r matches Ok(handed)
                &&& self.buffered().len() == 0 ==> handed is None
                &&& self.buffered().len() > 0 ==> (handed matches Some(batch) && batch@
                    == self.buffered())
            },
    {
        if self.terminated {
            Err(WriteError::PipelineTerminated)
        } else if self.buffer.len() == 0 {
            Ok(None)
        } else {
            Ok(Some(self.buffer))
        }
    }
}

} // verus!

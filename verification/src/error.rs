//! The typed failures of the write pipeline.

use vstd::prelude::*;

use crate::schema::{LogicalType, PhysicalType};

verus! {

/// A parameter of the pipeline that cannot be used as given.
#[derive(Clone, Debug, PartialEq, Eq)]
pub enum ConfigurationError {
    /// The text before the first `:` of a sink location names no known backend.
    UnknownSinkPrefix(String),
    /// A row group must hold at least one row.
    ZeroGroupSize,
    /// A schema must have at least one field.
    EmptySchema,
    /// The text is no unsigned number that fits 64 bits.
    MalformedNumber(String),
}

/// A failure at the storage boundary.
#[derive(Clone, Debug, PartialEq, Eq)]
pub enum IoFailure {
    /// The sink reported an error; the text is its own diagnostic.
    Sink(String),
    /// The sink has no column writer left for column `column` of the batch.
    MissingColumnWriter { column: usize },
    /// The sink's writer for column `column` takes values of another type.
    ColumnTypeMismatch { column: usize },
    /// The count of row groups would no longer fit the machine word.
    TooManyRowGroups,
}

/// Why a batch, or the whole pipeline, could not be written.
#[derive(Clone, Debug, PartialEq, Eq)]
pub enum WriteError {
    /// The pipeline was set up with an unusable parameter.
    Configuration(ConfigurationError),
    /// Row `row` of the batch has no value of the column's type at `column`,
    /// or a text there whose bytes are too many for a column of the sink.
    SchemaMismatch { row: usize, column: usize },
    /// There is no strategy, or no column of the sink, for the declared types
    /// of `column`, which are given.
    UnsupportedType { column: usize, logical_type: LogicalType, physical_type: PhysicalType },
    /// Work was handed off after the consumer had stopped.
    PipelineTerminated,
    /// The sink could not be opened, written or closed.
    Io(IoFailure),
}

} // verus!

//! Schemas: an ordered list of typed field descriptors.

use vstd::prelude::*;

verus! {

/// The annotation that says how the stored values of a field are to be read.
#[derive(Clone, Copy, Debug, PartialEq, Eq)]
pub enum LogicalType {
    /// No annotation: the physical type alone describes the values.
    Absent,
    /// Character strings.
    Utf8,
    /// 64-bit signed integers.
    Int64,
    /// Milliseconds since the Unix epoch.
    TimestampMillis,
    /// Any other annotation.
    Other,
}

/// The storage type of a field.
#[derive(Clone, Copy, Debug, PartialEq, Eq)]
pub enum PhysicalType {
    Boolean,
    Int32,
    Int64,
    Int96,
    Float,
    Double,
    ByteArray,
    FixedLenByteArray,
}

/// How the encoder turns the values of one field into a column.
#[derive(Clone, Copy, Debug, PartialEq, Eq)]
pub enum Strategy {
    /// A column of 64-bit integers with their true minimum and maximum.
    Int64,
    /// A column of strings with the first and the last value as statistics.
    Utf8,
}

/// The shape of a column that the sink can hold.
#[derive(Clone, Copy, Debug, PartialEq, Eq)]
pub enum LeafKind {
    /// 64-bit integers without annotation.
    PlainInt64,
    /// 64-bit integers annotated as such.
    AnnotatedInt64,
    /// Byte arrays annotated as character strings.
    Utf8,
}

/// One field of a schema.
#[derive(Clone, Debug, PartialEq, Eq)]
pub struct FieldDescriptor {
    pub name: String,
    pub logical_type: LogicalType,
    pub physical_type: PhysicalType,
    pub required: bool,
}

/// The strategy for a field of the given declared types: the annotation
/// decides, and without one a 64-bit integer storage type does. A timestamp
/// in milliseconds, like every other combination, has none.
pub open spec fn strategy_of(logical: LogicalType, physical: PhysicalType) -> Option<Strategy> {
    match logical {
        LogicalType::Int64 => Some(Strategy::Int64),
        LogicalType::Utf8 => Some(Strategy::Utf8),
        LogicalType::Absent => match physical {
            PhysicalType::Int64 => Some(Strategy::Int64),
            _ => None,
        },
        _ => None,
    }
}

/// The sink column for a field of the given declared types: one exists where
/// the annotation and the storage type agree on 64-bit integers or on strings.
pub open spec fn leaf_of(logical: LogicalType, physical: PhysicalType) -> Option<LeafKind> {
    match (logical, physical) {
        (LogicalType::Absent, PhysicalType::Int64) => Some(LeafKind::PlainInt64),
        (LogicalType::Int64, PhysicalType::Int64) => Some(LeafKind::AnnotatedInt64),
        (LogicalType::Utf8, PhysicalType::ByteArray) => Some(LeafKind::Utf8),
        _ => None,
    }
}

/// The strategy by which the values of a sink column are encoded.
pub open spec fn leaf_strategy(leaf: LeafKind) -> Strategy {
    match leaf {
        LeafKind::PlainInt64 => Strategy::Int64,
        LeafKind::AnnotatedInt64 => Strategy::Int64,
        LeafKind::Utf8 => Strategy::Utf8,
    }
}

impl FieldDescriptor {
    /// A field from its four attributes.
    pub fn new(
        name: String,
        logical_type: LogicalType,
        physical_type: PhysicalType,
        required: bool,
    ) -> (field: FieldDescriptor)
        ensures
            field == (FieldDescriptor { name, logical_type, physical_type, required }),
    {
        FieldDescriptor { name, logical_type, physical_type, required }
    }

    /// The encoder's strategy for this field, if it has one.
    pub open spec fn spec_strategy(&self) -> Option<Strategy> {
        strategy_of(self.logical_type, self.physical_type)
    }

    /// The encoder's strategy for this field, if it has one.
    #[verifier::when_used_as_spec(spec_strategy)]
    pub fn strategy(&self) -> (r: Option<Strategy>)
        ensures
            r == self.spec_strategy(),
    {
        match self.logical_type {
            LogicalType::Int64 => Some(Strategy::Int64),
            LogicalType::Utf8 => Some(Strategy::Utf8),
            LogicalType::Absent => match self.physical_type {
                PhysicalType::Int64 => Some(Strategy::Int64),
                _ => None,
            },
            _ => None,
        }
    }

    /// The sink column for this field, if the sink has one of its shape.
    pub open spec fn spec_leaf(&self) -> Option<LeafKind> {
        leaf_of(self.logical_type, self.physical_type)
    }

    /// The sink column for this field, if the sink has one of its shape.
    #[verifier::when_used_as_spec(spec_leaf)]
    pub fn leaf(&self) -> (r: Option<LeafKind>)
        ensures
            r == self.spec_leaf(),
    {
        match self.physical_type {
            PhysicalType::Int64 => match self.logical_type {
                LogicalType::Absent => Some(LeafKind::PlainInt64),
                LogicalType::Int64 => Some(LeafKind::AnnotatedInt64),
                _ => None,
            },
            PhysicalType::ByteArray => match self.logical_type {
                LogicalType::Utf8 => Some(LeafKind::Utf8),
                _ => None,
            },
            _ => None,
        }
    }
}

/// Every field that the sink can hold is encoded by the strategy of its
/// sink column.
pub proof fn lemma_leaf_has_strategy(logical: LogicalType, physical: PhysicalType)
    requires
        leaf_of(logical, physical) is Some,
    ensures
        strategy_of(logical, physical) == Some(leaf_strategy(leaf_of(logical, physical).unwrap())),
{
}

/// Whether the sink has a column for every one of the fields.
pub open spec fn sink_holds(fields: Seq<FieldDescriptor>) -> bool {
    forall|j: int| 0 <= j < fields.len() ==> (#[trigger] fields[j]).spec_leaf() is Some
}

/// Whether `column` is the first field for which the sink has no column.
pub open spec fn is_first_unheld(fields: Seq<FieldDescriptor>, column: int) -> bool {
    &&& 0 <= column < fields.len()
    &&& fields[column].spec_leaf() is None
    &&& forall|j: int| 0 <= j < column ==> (#[trigger] fields[j]).spec_leaf() is Some
}

/// An ordered list of field descriptors. The position of a field is the index
/// of its column, and stays what it was when the schema was made.
#[derive(Clone, Debug, PartialEq, Eq)]
pub struct Schema {
    fields: Vec<FieldDescriptor>,
}

impl View for Schema {
    type V = Seq<FieldDescriptor>;

    closed spec fn view(&self) -> Seq<FieldDescriptor> {
        self.fields@
    }
}

impl Schema {
    /// A schema of the given fields, in their order.
    pub fn new(fields: Vec<FieldDescriptor>) -> (schema: Schema)
        ensures
            schema@ == fields@,
    {
        Schema { fields }
    }

    /// The number of fields.
    pub fn len(&self) -> (n: usize)
        ensures
            n == self@.len(),
    {
        self.fields.len()
    }

    /// The descriptor of field `i` of a schema that has one.
    pub(crate) fn at(&self, i: usize) -> (field: &FieldDescriptor)
        requires
            i < self@.len(),
        ensures
            *field == self@[i as int],
    {
        &self.fields[i]
    }

    /// The descriptor of field `i`.
    pub fn field(&self, i: usize) -> (r: Option<&FieldDescriptor>)
        ensures
            i < self@.len() ==> r == Some(&self@[i as int]),
            i >= self@.len() ==> r is None,
    {
        if i < self.fields.len() {
            Some(&self.fields[i])
        } else {
            None
        }
    }
}

} // verus!

//! The column encoder: one batch of rows becomes one sequence of values per
//! schema field, with the statistics that are stored beside it.

use vstd::prelude::*;
use vstd::utf8::encode_utf8;

use crate::error::WriteError;
use crate::record::{long_at, text_at, FieldValue, Row};
use crate::schema::{FieldDescriptor, Schema, Strategy};

verus! {

/// The values of one column of a batch, in row order, with their statistics.
#[derive(Clone, Debug, PartialEq, Eq)]
pub enum ColumnData {
    /// 64-bit integers with their least and their greatest value.
    Int64 { values: Vec<i64>, min: Option<i64>, max: Option<i64> },
    /// Strings; `min` is the first value and `max` the last one.
    Utf8 { values: Vec<String>, min: Option<String>, max: Option<String> },
}

/// One batch in column-major form: a column for each field of the schema.
#[derive(Clone, Debug, PartialEq, Eq)]
pub struct ColumnBatch {
    pub columns: Vec<ColumnData>,
}

/// The values of one column with their statistics, as plain sequences.
pub enum ColumnModel {
    Int64 { values: Seq<i64>, min: Option<i64>, max: Option<i64> },
    Utf8 { values: Seq<Seq<char>>, min: Option<Seq<char>>, max: Option<Seq<char>> },
}

/// The characters of each of `values`.
pub open spec fn texts(values: Seq<String>) -> Seq<Seq<char>> {
    Seq::new(values.len(), |k: int| values[k]@)
}

/// The characters of a string that may be absent.
pub open spec fn text(value: Option<String>) -> Option<Seq<char>> {
    match value {
        Some(s) => Some(s@),
        None => None,
    }
}

impl View for ColumnData {
    type V = ColumnModel;

    open spec fn view(&self) -> ColumnModel {
        match *self {
            ColumnData::Int64 { values, min, max } => ColumnModel::Int64 { values: values@, min, max },
            ColumnData::Utf8 { values, min, max } => ColumnModel::Utf8 {
                values: texts(values@),
                min: text(min),
                max: text(max),
            },
        }
    }
}

impl View for ColumnBatch {
    type V = Seq<ColumnModel>;

    open spec fn view(&self) -> Seq<ColumnModel> {
        Seq::new(self.columns@.len(), |j: int| self.columns@[j]@)
    }
}

/// The number of values of a column.
pub open spec fn column_len(column: ColumnModel) -> nat {
    match column {
        ColumnModel::Int64 { values, min, max } => values.len(),
        ColumnModel::Utf8 { values, min, max } => values.len(),
    }
}

/// The number of rows of a row group of the given columns: the number of
/// values of its first column.
pub open spec fn group_rows(columns: Seq<ColumnModel>) -> nat {
    if columns.len() == 0 {
        0
    } else {
        column_len(columns[0])
    }
}

/// The greatest number of bytes of a text in a column of the sink, which
/// writes the number in 32 bits.
pub const MAX_TEXT_BYTES: usize = 0xFFFF_FFFF;

/// Whether the bytes of a text are few enough for a column of the sink.
pub open spec fn text_fits(s: Seq<char>) -> bool {
    encode_utf8(s).len() <= MAX_TEXT_BYTES
}

/// Whether every text of a column, and each of its bounds, is short enough
/// for the sink.
pub open spec fn column_bounded(data: ColumnData) -> bool {
    data matches ColumnData::Utf8 { values, min, max } ==> {
        &&& forall|k: int| 0 <= k < values@.len() ==> text_fits(#[trigger] values@[k]@)
        &&& min matches Some(s) ==> text_fits(s@)
        &&& max matches Some(s) ==> text_fits(s@)
    }
}

/// Whether a record holds at `column` a value that `strategy` encodes: a
/// 64-bit integer, or a text that is short enough for the sink.
pub open spec fn cell_fits(record: Seq<(String, FieldValue)>, strategy: Strategy, column: int)
    -> bool {
    match strategy {
        Strategy::Int64 => long_at(record, column) is Some,
        Strategy::Utf8 => text_at(record, column) matches Some(s) && text_fits(s@),
    }
}

/// Whether every row of the batch holds at `column` a value that `strategy`
/// encodes.
pub open spec fn column_fits(batch: Seq<Row>, strategy: Strategy, column: int) -> bool {
    forall|k: int| 0 <= k < batch.len() ==> #[trigger] cell_fits(batch[k]@, strategy, column)
}

/// Whether `row` is the first row of the batch that holds no such value.
pub open spec fn is_first_misfit(batch: Seq<Row>, strategy: Strategy, column: int, row: int)
    -> bool {
    &&& 0 <= row < batch.len()
    &&& !cell_fits(batch[row]@, strategy, column)
    &&& forall|k: int| 0 <= k < row ==> #[trigger] cell_fits(batch[k]@, strategy, column)
}

/// Whether `row` is the first row of the batch with more than `width` fields.
pub open spec fn is_first_overlong(batch: Seq<Row>, width: int, row: int) -> bool {
    &&& 0 <= row < batch.len()
    &&& batch[row]@.len() > width
    &&& forall|k: int| 0 <= k < row ==> (#[trigger] batch[k])@.len() <= width
}

/// The 64-bit integers that the rows hold at `column`, in row order.
pub open spec fn longs_of(batch: Seq<Row>, column: int) -> Seq<i64> {
    Seq::new(batch.len(), |k: int| long_at(batch[k]@, column).unwrap())
}

/// The strings that the rows hold at `column`, in row order.
pub open spec fn texts_of(batch: Seq<Row>, column: int) -> Seq<String> {
    Seq::new(batch.len(), |k: int| text_at(batch[k]@, column).unwrap())
}

/// `m` is the least of `values`: none where there is no value.
pub open spec fn is_least(values: Seq<i64>, m: Option<i64>) -> bool {
    match m {
        None => values.len() == 0,
        Some(m) => {
            &&& exists|k: int| 0 <= k < values.len() && #[trigger] values[k] == m
            &&& forall|k: int| 0 <= k < values.len() ==> m <= #[trigger] values[k]
        },
    }
}

/// `m` is the greatest of `values`: none where there is no value.
pub open spec fn is_greatest(values: Seq<i64>, m: Option<i64>) -> bool {
    match m {
        None => values.len() == 0,
        Some(m) => {
            &&& exists|k: int| 0 <= k < values.len() && #[trigger] values[k] == m
            &&& forall|k: int| 0 <= k < values.len() ==> m >= #[trigger] values[k]
        },
    }
}

/// The first of `values`, if there is one.
pub open spec fn first_of(values: Seq<String>) -> Option<String> {
    if values.len() == 0 {
        None
    } else {
        Some(values[0])
    }
}

/// The last of `values`, if there is one.
pub open spec fn last_of(values: Seq<String>) -> Option<String> {
    if values.len() == 0 {
        None
    } else {
        Some(values[values.len() - 1])
    }
}

/// Whether `data` is column `column` of the batch as `strategy` encodes it:
/// the values of the rows in their order, and for integers the true minimum
/// and maximum, for strings the first and the last value.
pub open spec fn encodes(data: ColumnData, batch: Seq<Row>, strategy: Strategy, column: int)
    -> bool {
    match strategy {
        Strategy::Int64 => {
            &&& data matches ColumnData::Int64 { values, min, max }
            &&& values@ == longs_of(batch, column)
            &&& is_least(values@, min)
            &&& is_greatest(values@, max)
        },
        Strategy::Utf8 => {
            &&& data matches ColumnData::Utf8 { values, min, max }
            &&& values@ == texts_of(batch, column)
            &&& min == first_of(values@)
            &&& max == last_of(values@)
            &&& column_bounded(data)
        },
    }
}

/// Whether `model` is column `column` of the batch as `strategy` encodes it.
pub open spec fn is_column_model(
    model: ColumnModel,
    batch: Seq<Row>,
    strategy: Strategy,
    column: int,
) -> bool {
    match strategy {
        Strategy::Int64 => {
            &&& model matches ColumnModel::Int64 { values, min, max }
            &&& values == longs_of(batch, column)
            &&& is_least(values, min)
            &&& is_greatest(values, max)
        },
        Strategy::Utf8 => {
            &&& model matches ColumnModel::Utf8 { values, min, max }
            &&& values == texts(texts_of(batch, column))
            &&& min == text(first_of(texts_of(batch, column)))
            &&& max == text(last_of(texts_of(batch, column)))
        },
    }
}

/// Whether `models` are the columns of the batch under the given fields,
/// one for each field in order.
pub open spec fn is_encoding(
    models: Seq<ColumnModel>,
    batch: Seq<Row>,
    fields: Seq<FieldDescriptor>,
) -> bool {
    &&& models.len() == fields.len()
    &&& forall|j: int|
        0 <= j < fields.len() ==> is_column_model(
            #[trigger] models[j],
            batch,
            fields[j].spec_strategy().unwrap(),
            j,
        )
}

/// The least of `values`, if there is one.
pub open spec fn least_of(values: Seq<i64>) -> Option<i64>
    decreases values.len(),
{
    if values.len() == 0 {
        None
    } else {
        match least_of(values.drop_last()) {
            Some(m) if m <= values.last() => Some(m),
            _ => Some(values.last()),
        }
    }
}

/// The greatest of `values`, if there is one.
pub open spec fn greatest_of(values: Seq<i64>) -> Option<i64>
    decreases values.len(),
{
    if values.len() == 0 {
        None
    } else {
        match greatest_of(values.drop_last()) {
            Some(m) if m >= values.last() => Some(m),
            _ => Some(values.last()),
        }
    }
}

/// Column `column` of the batch as `strategy` encodes it.
pub open spec fn column_model(batch: Seq<Row>, strategy: Strategy, column: int) -> ColumnModel {
    match strategy {
        Strategy::Int64 => ColumnModel::Int64 {
            values: longs_of(batch, column),
            min: least_of(longs_of(batch, column)),
            max: greatest_of(longs_of(batch, column)),
        },
        Strategy::Utf8 => ColumnModel::Utf8 {
            values: texts(texts_of(batch, column)),
            min: text(first_of(texts_of(batch, column))),
            max: text(last_of(texts_of(batch, column))),
        },
    }
}

/// The columns of a batch under the given fields, one for each field in
/// order.
pub open spec fn encoding_of(batch: Seq<Row>, fields: Seq<FieldDescriptor>) -> Seq<ColumnModel> {
    Seq::new(fields.len(), |j: int| column_model(batch, fields[j].spec_strategy().unwrap(), j))
}

/// The least and the greatest of values are what their names say.
pub proof fn lemma_extremes(values: Seq<i64>)
    ensures
        is_least(values, least_of(values)),
        is_greatest(values, greatest_of(values)),
    decreases values.len(),
{
    if values.len() > 0 {
        let front = values.drop_last();
        lemma_extremes(front);
        lemma_least_push(front, least_of(front), values.last());
        lemma_greatest_push(front, greatest_of(front), values.last());
        assert(front.push(values.last()) =~= values);
    }
}

/// The columns of a batch are an encoding of it, and so every batch has one.
pub proof fn lemma_encoding_of_is_encoding(batch: Seq<Row>, fields: Seq<FieldDescriptor>)
    ensures
        is_encoding(encoding_of(batch, fields), batch, fields),
{
    assert forall|j: int| 0 <= j < fields.len() implies is_column_model(
        #[trigger] encoding_of(batch, fields)[j],
        batch,
        fields[j].spec_strategy().unwrap(),
        j,
    ) by {
        lemma_extremes(longs_of(batch, j));
    }
}

/// A column has one encoding only.
pub proof fn lemma_column_model_is_unique(
    first: ColumnModel,
    second: ColumnModel,
    batch: Seq<Row>,
    strategy: Strategy,
    column: int,
)
    requires
        is_column_model(first, batch, strategy, column),
        is_column_model(second, batch, strategy, column),
    ensures
        first == second,
{
    match strategy {
        Strategy::Int64 => {
            let values = longs_of(batch, column);
            let (a, b) = (first->Int64_min, second->Int64_min);
            if a is Some {
                let k = choose|k: int| 0 <= k < values.len() && #[trigger] values[k] == a.unwrap();
                let l = choose|l: int| 0 <= l < values.len() && #[trigger] values[l] == b.unwrap();
            }
            let (c, d) = (first->Int64_max, second->Int64_max);
            if c is Some {
                let k = choose|k: int| 0 <= k < values.len() && #[trigger] values[k] == c.unwrap();
                let l = choose|l: int| 0 <= l < values.len() && #[trigger] values[l] == d.unwrap();
            }
        },
        Strategy::Utf8 => {},
    }
}

/// What `encode` gives for a batch is the encoding that the batch has.
pub proof fn lemma_encoded_is_the_encoding(
    encoded: ColumnBatch,
    batch: Seq<Row>,
    fields: Seq<FieldDescriptor>,
)
    requires
        encoded.columns@.len() == fields.len(),
        forall|j: int|
            0 <= j < fields.len() ==> encodes(
                #[trigger] encoded.columns@[j],
                batch,
                fields[j].spec_strategy().unwrap(),
                j,
            ),
    ensures
        is_encoding(encoded@, batch, fields),
        encoding_of(batch, fields) == encoded@,
{
    assert forall|j: int| 0 <= j < fields.len() implies is_column_model(
        #[trigger] encoded@[j],
        batch,
        fields[j].spec_strategy().unwrap(),
        j,
    ) by {
        let data = encoded.columns@[j];
        assert(encodes(data, batch, fields[j].spec_strategy().unwrap(), j));
        match data {
            ColumnData::Int64 { values, min, max } => {},
            ColumnData::Utf8 { values, min, max } => {
                assert(texts(values@) =~= texts(texts_of(batch, j)));
            },
        }
    }
    assert(is_encoding(encoded@, batch, fields));
    let chosen = encoding_of(batch, fields);
    lemma_encoding_of_is_encoding(batch, fields);
    assert forall|j: int| 0 <= j < fields.len() implies chosen[j] == encoded@[j] by {
        lemma_column_model_is_unique(
            chosen[j],
            encoded@[j],
            batch,
            fields[j].spec_strategy().unwrap(),
            j,
        );
    }
    assert(chosen =~= encoded@);
}

/// Whether column `column` can be encoded: its field has a strategy and
/// every row holds a value for it.
pub open spec fn column_clean(batch: Seq<Row>, field: FieldDescriptor, column: int) -> bool {
    field.spec_strategy() matches Some(strategy) && column_fits(batch, strategy, column)
}

/// Whether `e` is the failure of column `column`: its type has no strategy,
/// or else `e` names the first row without a value for it.
pub open spec fn is_column_fault(batch: Seq<Row>, field: FieldDescriptor, column: int, e: WriteError)
    -> bool {
    match field.spec_strategy() {
        None => e == (WriteError::UnsupportedType {
            column: column as usize,
            logical_type: field.logical_type,
            physical_type: field.physical_type,
        }),
        Some(strategy) => {
            &&& e matches WriteError::SchemaMismatch { row, column: c }
            &&& c == column
            &&& is_first_misfit(batch, strategy, column, row as int)
        },
    }
}

/// The column that an encoding failure names.
pub open spec fn fault_column(e: WriteError) -> int {
    match e {
        WriteError::SchemaMismatch { row, column } => column as int,
        WriteError::UnsupportedType { column, logical_type, physical_type } => column as int,
        _ => -1,
    }
}

/// Whether `e` is the failure of encoding the batch under a schema of the
/// given fields: the columns before the one it names are clean, and it is
/// the failure of that column or, past the last column, names the first row
/// that has more fields than the schema.
pub open spec fn is_batch_fault(batch: Seq<Row>, fields: Seq<FieldDescriptor>, e: WriteError)
    -> bool {
    let c = fault_column(e);
    &&& 0 <= c <= fields.len()
    &&& forall|j: int| 0 <= j < c ==> column_clean(batch, #[trigger] fields[j], j)
    &&& if c < fields.len() {
        is_column_fault(batch, fields[c], c, e)
    } else {
        e matches WriteError::SchemaMismatch { row, column } && is_first_overlong(
            batch,
            fields.len() as int,
            row as int,
        )
    }
}

/// Whether the batch fits the schema: every column is clean and no row has
/// more fields than the schema.
pub open spec fn batch_fits(batch: Seq<Row>, fields: Seq<FieldDescriptor>) -> bool {
    &&& forall|j: int| 0 <= j < fields.len() ==> column_clean(batch, #[trigger] fields[j], j)
    &&& forall|k: int| 0 <= k < batch.len() ==> (#[trigger] batch[k])@.len() <= fields.len()
}

proof fn lemma_least_push(values: Seq<i64>, m: Option<i64>, v: i64)
    requires
        is_least(values, m),
    ensures
        is_least(
            values.push(v),
            Some(
                if m is Some && m.unwrap() <= v {
                    m.unwrap()
                } else {
                    v
                },
            ),
        ),
{
    let grown = values.push(v);
    assert(grown[values.len() as int] == v);
    if m is Some {
        let k = choose|k: int| 0 <= k < values.len() && #[trigger] values[k] == m.unwrap();
        assert(grown[k] == m.unwrap());
    }
    assert forall|k: int| 0 <= k < values.len() implies #[trigger] grown[k] == values[k] by {}
}

proof fn lemma_greatest_push(values: Seq<i64>, m: Option<i64>, v: i64)
    requires
        is_greatest(values, m),
    ensures
        is_greatest(
            values.push(v),
            Some(
                if m is Some && m.unwrap() >= v {
                    m.unwrap()
                } else {
                    v
                },
            ),
        ),
{
    let grown = values.push(v);
    assert(grown[values.len() as int] == v);
    if m is Some {
        let k = choose|k: int| 0 <= k < values.len() && #[trigger] values[k] == m.unwrap();
        assert(grown[k] == m.unwrap());
    }
    assert forall|k: int| 0 <= k < values.len() implies #[trigger] grown[k] == values[k] by {}
}

/// Encodes column `column` of the batch as 64-bit integers: the value of
/// every row in row order, with the least and the greatest of them. Fails at
/// the first row that holds no 64-bit integer there.
pub fn encode_i64_column(batch: &Vec<Row>, column: usize) -> (r: Result<ColumnData, WriteError>)
    ensures
        match r {
            Ok(data) => column_fits(batch@, Strategy::Int64, column as int) && encodes(
                data,
                batch@,
                Strategy::Int64,
                column as int,
            ),
            Err(e) => {
                &&& e matches WriteError::SchemaMismatch { row, column: c }
                &&& c == column
                &&& is_first_misfit(batch@, Strategy::Int64, column as int, row as int)
            },
        },
{
    let mut values: Vec<i64> = Vec::new();
    let mut min: Option<i64> = None;
    let mut max: Option<i64> = None;
    let mut k: usize = 0;
    while k < batch.len()
        invariant
            k <= batch.len(),
            values@.len() == k,
            forall|j: int|
                0 <= j < k ==> #[trigger] long_at(batch@[j]@, column as int) == Some(values@[j]),
            is_least(values@, min),
            is_greatest(values@, max),
        decreases batch.len() - k,
    {
        match batch[k].get_long(column) {
            Some(v) => {
                proof {
                    lemma_least_push(values@, min, v);
                    lemma_greatest_push(values@, max, v);
                }
                min = match min {
                    Some(m) => if m <= v { Some(m) } else { Some(v) },
                    None => Some(v),
                };
                max = match max {
                    Some(m) => if m >= v { Some(m) } else { Some(v) },
                    None => Some(v),
                };
                values.push(v);
            },
            None => {
                return Err(WriteError::SchemaMismatch { row: k, column });
            },
        }
        k += 1;
    }
    assert(values@ =~= longs_of(batch@, column as int));
    Ok(ColumnData::Int64 { values, min, max })
}

/// Encodes column `column` of the batch as strings: the value of every row
/// in row order, with the first one as `min` and the last one as `max`.
/// Fails at the first row that holds no string there, or one of more bytes
/// than a column of the sink takes.
pub fn encode_utf8_column(batch: &Vec<Row>, column: usize) -> (r: Result<ColumnData, WriteError>)
    ensures
        match r {
            Ok(data) => column_fits(batch@, Strategy::Utf8, column as int) && encodes(
                data,
                batch@,
                Strategy::Utf8,
                column as int,
            ),
            Err(e) => {
                &&& e matches WriteError::SchemaMismatch { row, column: c }
                &&& c == column
                &&& is_first_misfit(batch@, Strategy::Utf8, column as int, row as int)
            },
        },
{
    let mut values: Vec<String> = Vec::new();
    let mut k: usize = 0;
    while k < batch.len()
        invariant
            k <= batch.len(),
            values@.len() == k,
            forall|j: int|
                0 <= j < k ==> #[trigger] text_at(batch@[j]@, column as int) == Some(values@[j]),
            forall|j: int| 0 <= j < k ==> text_fits(#[trigger] values@[j]@),
        decreases batch.len() - k,
    {
        match batch[k].get_string(column) {
            Some(s) => {
                if s.as_str().as_bytes().len() > MAX_TEXT_BYTES {
                    return Err(WriteError::SchemaMismatch { row: k, column });
                }
                values.push(s.clone());
            },
            None => {
                return Err(WriteError::SchemaMismatch { row: k, column });
            },
        }
        k += 1;
    }
    assert(values@ =~= texts_of(batch@, column as int));
    let n: usize = values.len();
    let (min, max) = if n == 0 {
        (None, None)
    } else {
        (Some(values[0].clone()), Some(values[n - 1].clone()))
    };
    Ok(ColumnData::Utf8 { values, min, max })
}

/// Encodes one batch under a schema, column by column in schema order.
///
/// Succeeds exactly on a batch that fits the schema, with one column for
/// each field. Otherwise the failure is that of the first column that cannot
/// be encoded, or, where all can, names the first row with more fields than
/// the schema has.
pub fn encode(batch: &Vec<Row>, schema: &Schema) -> (r: Result<ColumnBatch, WriteError>)
    ensures
        match r {
            Ok(encoded) => {
                &&& batch_fits(batch@, schema@)
                &&& encoded.columns@.len() == schema@.len()
                &&& forall|j: int|
                    0 <= j < schema@.len() ==> encodes(
                        #[trigger] encoded.columns@[j],
                        batch@,
                        schema@[j].spec_strategy().unwrap(),
                        j,
                    )
            },
            Err(e) => is_batch_fault(batch@, schema@, e),
        },
{
    let width: usize = schema.len();
    let mut columns: Vec<ColumnData> = Vec::new();
    let mut c: usize = 0;
    while c < width
        invariant
            c <= width,
            width == schema@.len(),
            columns@.len() == c,
            forall|j: int| 0 <= j < c ==> column_clean(batch@, #[trigger] schema@[j], j),
            forall|j: int|
                0 <= j < c ==> encodes(
                    #[trigger] columns@[j],
                    batch@,
                    schema@[j].spec_strategy().unwrap(),
                    j,
                ),
        decreases width - c,
    {
        let encoded = match schema.at(c).strategy() {
            Some(Strategy::Int64) => encode_i64_column(batch, c),
            Some(Strategy::Utf8) => encode_utf8_column(batch, c),
            None => Err(
                WriteError::UnsupportedType {
                    column: c,
                    logical_type: schema.at(c).logical_type,
                    physical_type: schema.at(c).physical_type,
                },
            ),
        };
        match encoded {
            Ok(data) => {
                columns.push(data);
            },
            Err(e) => {
                return Err(e);
            },
        }
        c += 1;
    }
    let mut k: usize = 0;
    while k < batch.len()
        invariant
            k <= batch.len(),
            width == schema@.len(),
            columns@.len() == width,
            forall|j: int| 0 <= j < width ==> column_clean(batch@, #[trigger] schema@[j], j),
            forall|j: int|
                0 <= j < width ==> encodes(
                    #[trigger] columns@[j],
                    batch@,
                    schema@[j].spec_strategy().unwrap(),
                    j,
                ),
            forall|j: int| 0 <= j < k ==> (#[trigger] batch@[j])@.len() <= width,
        decreases batch.len() - k,
    {
        if batch[k].len() > width {
            return Err(WriteError::SchemaMismatch { row: k, column: width });
        }
        k += 1;
    }
    Ok(ColumnBatch { columns })
}

/// In a batch that fits a schema, every row has exactly as many fields as
/// the schema.
pub proof fn lemma_fitting_rows_have_schema_width(batch: Seq<Row>, fields: Seq<FieldDescriptor>)
    requires
        batch_fits(batch, fields),
    ensures
        forall|k: int| 0 <= k < batch.len() ==> (#[trigger] batch[k])@.len() == fields.len(),
{
    assert forall|k: int| 0 <= k < batch.len() implies (#[trigger] batch[k])@.len()
        == fields.len() by {
        if fields.len() > 0 {
            let last = fields.len() - 1;
            assert(column_clean(batch, fields[last], last));
            let strategy = fields[last].spec_strategy().unwrap();
            assert(cell_fits(batch[k]@, strategy, last));
        }
    }
}

} // verus!

//! Records: field values and rows.

use vstd::prelude::*;

verus! {

/// One value of a record.
#[derive(Clone, Debug, PartialEq, Eq)]
pub enum FieldValue {
    /// No value.
    Null,
    /// A 32-bit signed integer.
    Int32(i32),
    /// A 64-bit signed integer.
    Int64(i64),
    /// A character string.
    Utf8(String),
}

/// An ordered record. Position `i` holds the name and the value of the
/// schema's field `i`.
#[derive(Clone, Debug, PartialEq, Eq)]
pub struct Row {
    fields: Vec<(String, FieldValue)>,
}

impl View for Row {
    type V = Seq<(String, FieldValue)>;

    closed spec fn view(&self) -> Seq<(String, FieldValue)> {
        self.fields@
    }
}

impl Row {
    /// Builds a row from its (name, value) pairs, keeping their order.
    pub fn new(fields: Vec<(String, FieldValue)>) -> (row: Row)
        ensures
            row@ == fields@,
    {
        Row { fields }
    }

    /// The number of fields.
    pub fn len(&self) -> (n: usize)
        ensures
            n == self@.len(),
    {
        self.fields.len()
    }

    /// The name of field `i`, if the row has one.
    pub fn name(&self, i: usize) -> (r: Option<&String>)
        ensures
            i < self@.len() ==> r == Some(&self@[i as int].0),
            i >= self@.len() ==> r is None,
    {
        if i < self.fields.len() {
            Some(&self.fields[i].0)
        } else {
            None
        }
    }

    /// The value of field `i`, if the row has one.
    pub fn get(&self, i: usize) -> (r: Option<&FieldValue>)
        ensures
            i < self@.len() ==> r == Some(&self@[i as int].1),
            i >= self@.len() ==> r is None,
    {
        if i < self.fields.len() {
            Some(&self.fields[i].1)
        } else {
            None
        }
    }

    /// The 64-bit integer at position `i`; `None` where the row is too short
    /// or holds a value of another type there.
    pub fn get_long(&self, i: usize) -> (r: Option<i64>)
        ensures
            r == long_at(self@, i as int),
    {
        if i < self.fields.len() {
            match &self.fields[i].1 {
                FieldValue::Int64(v) => Some(*v),
                _ => None,
            }
        } else {
            None
        }
    }

    /// The text at position `i`; `None` where the row is too short or holds
    /// a value of another type there.
    pub fn get_string(&self, i: usize) -> (r: Option<&String>)
        ensures
            text_at(self@, i as int) matches Some(s) ==> r == Some(&s),
            text_at(self@, i as int) is None ==> r is None,
    {
        if i < self.fields.len() {
            match &self.fields[i].1 {
                FieldValue::Utf8(s) => Some(s),
                _ => None,
            }
        } else {
            None
        }
    }

    /// Gives the (name, value) pairs back, in order.
    pub fn into_fields(self) -> (fields: Vec<(String, FieldValue)>)
        ensures
            fields@ == self@,
    {
        self.fields
    }
}

/// The 64-bit integer that a record holds at position `i`, if any.
pub open spec fn long_at(fields: Seq<(String, FieldValue)>, i: int) -> Option<i64> {
    if 0 <= i < fields.len() {
        match fields[i].1 {
            FieldValue::Int64(v) => Some(v),
            _ => None,
        }
    } else {
        None
    }
}

/// The text that a record holds at position `i`, if any.
pub open spec fn text_at(fields: Seq<(String, FieldValue)>, i: int) -> Option<String> {
    if 0 <= i < fields.len() {
        match fields[i].1 {
            FieldValue::Utf8(s) => Some(s),
            _ => None,
        }
    } else {
        None
    }
}

} // verus!

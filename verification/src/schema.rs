//! The column layout of a table, and columns of plain values.

use vstd::prelude::*;

verus! {

/// The type of a column.
#[derive(Clone, Copy, Debug, PartialEq, Eq, Structural)]
pub enum ColumnKind {
    /// Unsigned 32-bit integers.
    UInt32,
    /// Binary64 numbers.
    Float64,
    /// Instants, in microseconds since the Unix epoch, without a time zone.
    Timestamp,
    /// Durations in microseconds.
    Duration,
}

/// One column of a schema.
#[derive(Clone, Copy, Debug)]
pub struct TableField {
    /// The column's name.
    pub name: &'static str,
    /// The column's type.
    pub kind: ColumnKind,
}

impl TableField {
    /// The field as a pair of name and type.
    pub open spec fn view(&self) -> (Seq<char>, ColumnKind) {
        (self.name@, self.kind)
    }
}

/// The fixed layout of a table: its columns, in order. No column is
/// nullable.
#[derive(Clone, Debug)]
pub struct TableSchema {
    /// The columns, in order.
    pub fields: Vec<TableField>,
}

impl TableSchema {
    /// The fields as pairs of name and type.
    pub open spec fn view(&self) -> Seq<(Seq<char>, ColumnKind)> {
        Seq::new(self.fields@.len(), |i: int| self.fields@[i]@)
    }
}

/// The values of one column. A binary64 is held as its bit pattern.
#[derive(Clone, Debug)]
pub enum Column {
    /// Unsigned 32-bit integers.
    UInt32(Vec<u32>),
    /// Binary64 numbers, as bit patterns.
    Float64(Vec<u64>),
    /// Instants, in microseconds since the Unix epoch.
    Timestamp(Vec<i64>),
    /// Durations in microseconds.
    Duration(Vec<i64>),
}

impl Column {
    /// The column's type.
    pub open spec fn spec_kind(&self) -> ColumnKind {
        match self {
            Column::UInt32(_) => ColumnKind::UInt32,
            Column::Float64(_) => ColumnKind::Float64,
            Column::Timestamp(_) => ColumnKind::Timestamp,
            Column::Duration(_) => ColumnKind::Duration,
        }
    }

    /// The column's values as integers.
    pub open spec fn values(&self) -> Seq<int> {
        match self {
            Column::UInt32(v) => Seq::new(v@.len(), |i: int| v@[i] as int),
            Column::Float64(v) => Seq::new(v@.len(), |i: int| v@[i] as int),
            Column::Timestamp(v) => Seq::new(v@.len(), |i: int| v@[i] as int),
            Column::Duration(v) => Seq::new(v@.len(), |i: int| v@[i] as int),
        }
    }

    /// The column as a pair of type and values.
    pub open spec fn view(&self) -> (ColumnKind, Seq<int>) {
        (self.spec_kind(), self.values())
    }

    /// The column's type.
    #[verifier::when_used_as_spec(spec_kind)]
    pub fn kind(&self) -> (kind: ColumnKind)
        ensures
            kind == self.spec_kind(),
    {
        match self {
            Column::UInt32(_) => ColumnKind::UInt32,
            Column::Float64(_) => ColumnKind::Float64,
            Column::Timestamp(_) => ColumnKind::Timestamp,
            Column::Duration(_) => ColumnKind::Duration,
        }
    }

    /// The number of values.
    pub fn len(&self) -> (n: usize)
        ensures
            n == self.values().len(),
    {
        match self {
            Column::UInt32(v) => v.len(),
            Column::Float64(v) => v.len(),
            Column::Timestamp(v) => v.len(),
            Column::Duration(v) => v.len(),
        }
    }
}

/// The views of some columns, in order.
pub open spec fn views(columns: Seq<Column>) -> Seq<(ColumnKind, Seq<int>)> {
    Seq::new(columns.len(), |i: int| columns[i]@)
}

/// The columns fit the schema: there is at least one, they are as many as
/// the fields, each has the type of its field, and all have one length.
pub open spec fn conforms(schema: Seq<(Seq<char>, ColumnKind)>, columns: Seq<(ColumnKind, Seq<int>)>) -> bool {
    &&& columns.len() > 0
    &&& columns.len() == schema.len()
    &&& forall|i: int| 0 <= i < columns.len() ==> (#[trigger] columns[i]).0 == schema[i].1
    &&& forall|i: int| 0 <= i < columns.len() ==> (#[trigger] columns[i]).1.len() == columns[0].1.len()
}

} // verus!

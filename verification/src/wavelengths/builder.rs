//! The rows of the wavelength table that are buffered for the next commit.

use vstd::prelude::*;
use crate::columns::key_values;
use crate::columns::number_values;
use crate::columns::KeyColumn;
use crate::columns::NumberColumn;
use crate::schema::Column;
use crate::schema::ColumnKind;
use crate::wavelengths::record::Record;

verus! {

/// The columns that stand for some records: their keys, then their
/// wavelengths.
pub open spec fn columns_of(rows: Seq<Record>) -> Seq<(ColumnKind, Seq<int>)> {
    seq![
        (ColumnKind::UInt32, Seq::new(rows.len(), |i: int| rows[i].id as int)),
        (ColumnKind::Float64, Seq::new(rows.len(), |i: int| rows[i].nm as int)),
    ]
}

/// Two parallel columns, one value of each per buffered record.
pub struct Builder {
    id: KeyColumn,
    nm: NumberColumn,
}

impl Builder {
    /// Both columns have one length.
    pub closed spec fn wf(&self) -> bool {
        key_values(self.id).len() == number_values(self.nm).len()
    }

    /// The buffered records, in the order in which they were appended.
    pub closed spec fn rows(&self) -> Seq<Record> {
        Seq::new(
            key_values(self.id).len(),
            |i: int| Record { id: key_values(self.id)[i], nm: number_values(self.nm)[i] },
        )
    }

    /// A builder without rows.
    pub fn new() -> (builder: Self)
        ensures
            builder.wf(),
            builder.rows() == Seq::<Record>::empty(),
    {
        let builder = Builder { id: KeyColumn::new(), nm: NumberColumn::new() };
        proof {
            assert(builder.rows() =~= Seq::<Record>::empty());
        }
        builder
    }

    /// The number of buffered rows.
    pub fn len(&self) -> (n: usize)
        requires
            self.wf(),
        ensures
            n == self.rows().len(),
    {
        self.id.len()
    }

    /// Buffers one record: one value goes to each column.
    pub fn append(&mut self, id: u32, nm: u64)
        requires
            old(self).wf(),
        ensures
            final(self).wf(),
            final(self).rows() == old(self).rows().push(Record { id, nm }),
    {
        self.id.append(id);
        self.nm.append(nm);
        proof {
            assert(self.rows() =~= old(self).rows().push(Record { id, nm }));
        }
    }

    /// The buffered rows as columns. The builder keeps its rows.
    pub fn columns(&self) -> (columns: Vec<Column>)
        requires
            self.wf(),
        ensures
            crate::schema::views(columns@) == columns_of(self.rows()),
    {
        let id = self.id.values();
        let nm = self.nm.values();
        let mut columns: Vec<Column> = Vec::new();
        columns.push(Column::UInt32(id));
        columns.push(Column::Float64(nm));
        proof {
            let seen = crate::schema::views(columns@);
            let rows = self.rows();
            assert(seen.len() == 2);
            assert(seen[0].1 =~= columns_of(rows)[0].1);
            assert(seen[1].1 =~= columns_of(rows)[1].1);
            assert(seen =~= columns_of(rows));
        }
        columns
    }

    /// Drops the buffered rows.
    pub fn clear(&mut self)
        ensures
            final(self).wf(),
            final(self).rows() == Seq::<Record>::empty(),
    {
        self.id.clear();
        self.nm.clear();
        proof {
            assert(self.rows() =~= Seq::<Record>::empty());
        }
    }
}

} // verus!

//! The rows of the measurement table that are buffered for the next commit,
//! and the counter that numbers them.

use vstd::prelude::*;
use crate::columns::instant_values;
use crate::columns::key_values;
use crate::columns::number_values;
use crate::columns::span_values;
use crate::columns::InstantColumn;
use crate::columns::KeyColumn;
use crate::columns::NumberColumn;
use crate::columns::SpanColumn;
use crate::allocator::continues;
use crate::allocator::IdAllocator;
use crate::allocator::ID_LIMIT;
use crate::schema::Column;
use crate::schema::ColumnKind;

verus! {

/// The spatial dimensions that a table records.
#[derive(Clone, Copy, Debug, PartialEq, Eq, Structural)]
pub struct Dimensions {
    /// Whether the x coordinate is recorded.
    pub x: bool,
    /// Whether the y coordinate is recorded.
    pub y: bool,
    /// Whether the z coordinate is recorded.
    pub z: bool,
    /// Whether the a coordinate is recorded.
    pub a: bool,
}

/// One row of the measurement table: the state of the instrument at one
/// acquisition.
#[derive(Clone, Copy, Debug, PartialEq, Eq, Structural)]
pub struct Measurement {
    /// The key of the measurement.
    pub id: u32,
    /// The time of the push, in microseconds since the Unix epoch.
    pub timestamp: i64,
    /// The x coordinate in micrometres, as the bit pattern of a binary64.
    pub x: u64,
    /// The y coordinate in micrometres, as the bit pattern of a binary64.
    pub y: u64,
    /// The z coordinate in micrometres, as the bit pattern of a binary64.
    pub z: u64,
    /// The a coordinate in micrometres, as the bit pattern of a binary64.
    pub a: u64,
    /// The integration time in microseconds.
    pub integration: i64,
}

/// `columns`, with `column` after them where `active`.
pub open spec fn with<T>(columns: Seq<T>, active: bool, column: T) -> Seq<T> {
    if active {
        columns.push(column)
    } else {
        columns
    }
}

/// The columns of a measurement table that records the given dimensions:
/// key and timestamp, the coordinates of the active dimensions in the order
/// x, y, z, a, and the integration time.
pub open spec fn fields(dimensions: Dimensions) -> Seq<(Seq<char>, ColumnKind)> {
    let start = seq![("id"@, ColumnKind::UInt32), ("timestamp"@, ColumnKind::Timestamp)];
    let x = with(start, dimensions.x, ("x"@, ColumnKind::Float64));
    let y = with(x, dimensions.y, ("y"@, ColumnKind::Float64));
    let z = with(y, dimensions.z, ("z"@, ColumnKind::Float64));
    let a = with(z, dimensions.a, ("a"@, ColumnKind::Float64));
    a.push(("integration"@, ColumnKind::Duration))
}

/// The columns that stand for some rows, under the given dimensions.
pub open spec fn columns_of(dimensions: Dimensions, rows: Seq<Measurement>) -> Seq<(ColumnKind, Seq<int>)> {
    let start = seq![
        (ColumnKind::UInt32, Seq::new(rows.len(), |i: int| rows[i].id as int)),
        (ColumnKind::Timestamp, Seq::new(rows.len(), |i: int| rows[i].timestamp as int)),
    ];
    let x = with(start, dimensions.x, (ColumnKind::Float64, Seq::new(rows.len(), |i: int| rows[i].x as int)));
    let y = with(x, dimensions.y, (ColumnKind::Float64, Seq::new(rows.len(), |i: int| rows[i].y as int)));
    let z = with(y, dimensions.z, (ColumnKind::Float64, Seq::new(rows.len(), |i: int| rows[i].z as int)));
    let a = with(z, dimensions.a, (ColumnKind::Float64, Seq::new(rows.len(), |i: int| rows[i].a as int)));
    a.push((ColumnKind::Duration, Seq::new(rows.len(), |i: int| rows[i].integration as int)))
}

/// The columns of some rows fit the table's fields.
pub proof fn lemma_columns_conform(dimensions: Dimensions, rows: Seq<Measurement>)
    ensures
        crate::schema::conforms(fields(dimensions), columns_of(dimensions, rows)),
{
    let columns = columns_of(dimensions, rows);
    let layout = fields(dimensions);
    assert(columns.len() == layout.len());
    assert forall|i: int| 0 <= i < columns.len() implies (#[trigger] columns[i]).0 == layout[i].1 && columns[i].1.len()
        == rows.len() by {}
}

/// The keys that the batches of a stored stream hold: the first column of
/// each batch, where that is a column of keys.
pub open spec fn stored_ids(batches: Seq<Vec<Column>>) -> Seq<u32>
    decreases batches.len(),
{
    if batches.len() == 0 {
        Seq::empty()
    } else {
        stored_ids(batches.drop_last()) + batch_ids(batches.last()@)
    }
}

/// The keys that one batch holds.
pub open spec fn batch_ids(batch: Seq<Column>) -> Seq<u32> {
    if batch.len() > 0 {
        match batch[0] {
            Column::UInt32(id) => id@,
            _ => Seq::empty(),
        }
    } else {
        Seq::empty()
    }
}

/// Seven parallel columns, one value of each per buffered row, and the
/// counter of the table.
pub struct Builder {
    next: IdAllocator,
    id: KeyColumn,
    timestamp: InstantColumn,
    x: NumberColumn,
    y: NumberColumn,
    z: NumberColumn,
    a: NumberColumn,
    integration: SpanColumn,
}

impl Builder {
    /// The columns have one length, and the counter is within its limit.
    pub closed spec fn wf(&self) -> bool {
        &&& self.next.wf()
        &&& key_values(self.id).len() == instant_values(self.timestamp).len()
        &&& key_values(self.id).len() == number_values(self.x).len()
        &&& key_values(self.id).len() == number_values(self.y).len()
        &&& key_values(self.id).len() == number_values(self.z).len()
        &&& key_values(self.id).len() == number_values(self.a).len()
        &&& key_values(self.id).len() == span_values(self.integration).len()
    }

    /// The key that the next push gets.
    pub closed spec fn next(&self) -> nat {
        self.next.next()
    }

    /// The buffered rows, in the order in which they were pushed.
    pub closed spec fn rows(&self) -> Seq<Measurement> {
        Seq::new(
            key_values(self.id).len(),
            |i: int|
                Measurement {
                    id: key_values(self.id)[i],
                    timestamp: instant_values(self.timestamp)[i],
                    x: number_values(self.x)[i],
                    y: number_values(self.y)[i],
                    z: number_values(self.z)[i],
                    a: number_values(self.a)[i],
                    integration: span_values(self.integration)[i],
                },
        )
    }

    /// The next key is never above the limit.
    pub proof fn lemma_wf(&self)
        requires
            self.wf(),
        ensures
            self.next() <= ID_LIMIT,
    {
        self.next.lemma_wf();
    }

    /// A builder without rows, whose counter starts where `next` stands.
    pub fn new(next: IdAllocator) -> (builder: Self)
        requires
            next.wf(),
        ensures
            builder.wf(),
            builder.next() == next.next(),
            builder.rows() == Seq::<Measurement>::empty(),
    {
        let builder = Builder {
            next,
            id: KeyColumn::new(),
            timestamp: InstantColumn::new(),
            x: NumberColumn::new(),
            y: NumberColumn::new(),
            z: NumberColumn::new(),
            a: NumberColumn::new(),
            integration: SpanColumn::new(),
        };
        proof {
            assert(builder.rows() =~= Seq::<Measurement>::empty());
        }
        builder
    }

    /// The counter of a table whose stored stream holds the given batches:
    /// it continues the keys that they hold.
    pub fn read(batches: &Vec<Vec<Column>>) -> (next: IdAllocator)
        ensures
            next.wf(),
            continues(stored_ids(batches@), next.next()),
    {
        let mut ids: Vec<u32> = Vec::new();
        let mut b: usize = 0;
        while b < batches.len()
            invariant
                b <= batches.len(),
                ids@ == stored_ids(batches@.take(b as int)),
            decreases batches.len() - b,
        {
            let batch = &batches[b];
            let ghost before = ids@;
            proof {
                assert(batches@.take(b + 1).drop_last() =~= batches@.take(b as int));
            }
            if batch.len() > 0 {
                match &batch[0] {
                    Column::UInt32(id) => {
                        let mut i: usize = 0;
                        while i < id.len()
                            invariant
                                i <= id.len(),
                                ids@ == before + id@.take(i as int),
                            decreases id.len() - i,
                        {
                            ids.push(id[i]);
                            proof {
                                assert(id@.take(i + 1) =~= id@.take(i as int).push(id@[i as int]));
                                assert(ids@ =~= before + id@.take(i + 1));
                            }
                            i = i + 1;
                        }
                        proof {
                            assert(id@.take(id.len() as int) =~= id@);
                        }
                    },
                    _ => {},
                }
            }
            proof {
                assert(ids@ =~= before + batch_ids(batch@));
            }
            b = b + 1;
        }
        proof {
            assert(batches@.take(batches.len() as int) =~= batches@);
        }
        IdAllocator::recover(&ids)
    }

    /// How many keys are left to hand out.
    pub fn remaining(&self) -> (left: u64)
        requires
            self.wf(),
        ensures
            left == ID_LIMIT - self.next(),
    {
        self.next.remaining()
    }

    /// The number of buffered rows.
    pub fn len(&self) -> (n: usize)
        requires
            self.wf(),
        ensures
            n == self.rows().len(),
    {
        self.id.len()
    }

    /// Buffers one row under the next key and returns the key, or returns
    /// `None` and buffers nothing where no key is left.
    pub fn push(&mut self, timestamp: i64, x: u64, y: u64, z: u64, a: u64, integration: i64) -> (id: Option<
        u32,
    >)
        requires
            old(self).wf(),
        ensures
            final(self).wf(),
            match id {
                Some(id) => {
                    &&& id == old(self).next()
                    &&& final(self).next() == old(self).next() + 1
                    &&& final(self).rows() == old(self).rows().push(
                        Measurement { id, timestamp, x, y, z, a, integration },
                    )
                },
                None => {
                    &&& old(self).next() == ID_LIMIT
                    &&& final(self).next() == old(self).next()
                    &&& final(self).rows() == old(self).rows()
                },
            },
    {
        match self.next.allocate() {
            Some(id) => {
                self.id.append(id);
                self.timestamp.append(timestamp);
                self.x.append(x);
                self.y.append(y);
                self.z.append(z);
                self.a.append(a);
                self.integration.append(integration);
                proof {
                    assert(self.rows() =~= old(self).rows().push(
                        Measurement { id, timestamp, x, y, z, a, integration },
                    ));
                }
                Some(id)
            },
            None => None,
        }
    }

    /// The buffered rows as the columns of a table that records the given
    /// dimensions. The builder keeps its rows.
    pub fn columns(&self, dimensions: Dimensions) -> (columns: Vec<Column>)
        requires
            self.wf(),
        ensures
            crate::schema::views(columns@) == columns_of(dimensions, self.rows()),
    {
        let ghost rows = self.rows();
        let id = self.id.values();
        let timestamp = self.timestamp.values();
        let integration = self.integration.values();
        let mut columns: Vec<Column> = Vec::new();
        columns.push(Column::UInt32(id));
        columns.push(Column::Timestamp(timestamp));
        let ghost start = seq![
            (ColumnKind::UInt32, Seq::new(rows.len(), |i: int| rows[i].id as int)),
            (ColumnKind::Timestamp, Seq::new(rows.len(), |i: int| rows[i].timestamp as int)),
        ];
        proof {
            let seen = crate::schema::views(columns@);
            assert(seen[0].1 =~= start[0].1);
            assert(seen[1].1 =~= start[1].1);
            assert(seen =~= start);
        }
        let ghost after_x = with(
            start,
            dimensions.x,
            (ColumnKind::Float64, Seq::new(rows.len(), |i: int| rows[i].x as int)),
        );
        if dimensions.x {
            let ghost before = crate::schema::views(columns@);
            let x = self.x.values();
            columns.push(Column::Float64(x));
            proof {
                let seen = crate::schema::views(columns@);
                assert(seen[seen.len() - 1].1 =~= after_x[after_x.len() - 1].1);
                assert(seen =~= before.push(after_x[after_x.len() - 1]));
            }
        }
        let ghost after_y = with(
            after_x,
            dimensions.y,
            (ColumnKind::Float64, Seq::new(rows.len(), |i: int| rows[i].y as int)),
        );
        if dimensions.y {
            let ghost before = crate::schema::views(columns@);
            let y = self.y.values();
            columns.push(Column::Float64(y));
            proof {
                let seen = crate::schema::views(columns@);
                assert(seen[seen.len() - 1].1 =~= after_y[after_y.len() - 1].1);
                assert(seen =~= before.push(after_y[after_y.len() - 1]));
            }
        }
        let ghost after_z = with(
            after_y,
            dimensions.z,
            (ColumnKind::Float64, Seq::new(rows.len(), |i: int| rows[i].z as int)),
        );
        if dimensions.z {
            let ghost before = crate::schema::views(columns@);
            let z = self.z.values();
            columns.push(Column::Float64(z));
            proof {
                let seen = crate::schema::views(columns@);
                assert(seen[seen.len() - 1].1 =~= after_z[after_z.len() - 1].1);
                assert(seen =~= before.push(after_z[after_z.len() - 1]));
            }
        }
        let ghost after_a = with(
            after_z,
            dimensions.a,
            (ColumnKind::Float64, Seq::new(rows.len(), |i: int| rows[i].a as int)),
        );
        if dimensions.a {
            let ghost before = crate::schema::views(columns@);
            let a = self.a.values();
            columns.push(Column::Float64(a));
            proof {
                let seen = crate::schema::views(columns@);
                assert(seen[seen.len() - 1].1 =~= after_a[after_a.len() - 1].1);
                assert(seen =~= before.push(after_a[after_a.len() - 1]));
            }
        }
        let ghost before = crate::schema::views(columns@);
        columns.push(Column::Duration(integration));
        proof {
            let seen = crate::schema::views(columns@);
            let all = columns_of(dimensions, rows);
            assert(seen[seen.len() - 1].1 =~= all[all.len() - 1].1);
            assert(seen =~= before.push(all[all.len() - 1]));
        }
        columns
    }

    /// Drops the buffered rows. The counter stays.
    pub fn clear(&mut self)
        requires
            old(self).wf(),
        ensures
            final(self).wf(),
            final(self).next() == old(self).next(),
            final(self).rows() == Seq::<Measurement>::empty(),
    {
        self.id.clear();
        self.timestamp.clear();
        self.x.clear();
        self.y.clear();
        self.z.clear();
        self.a.clear();
        self.integration.clear();
        proof {
            assert(self.rows() =~= Seq::<Measurement>::empty());
        }
    }
}

} // verus!

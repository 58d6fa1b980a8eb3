//! The measurement table: the state of the instrument at each acquisition.

pub mod builder;

use vstd::prelude::*;
use crate::allocator::continues;
use crate::allocator::IdAllocator;
use crate::allocator::ID_LIMIT;
use crate::error::Error;
use crate::measurements::builder::columns_of;
use crate::measurements::builder::fields;
use crate::measurements::builder::lemma_columns_conform;
use crate::measurements::builder::stored_ids;
use crate::measurements::builder::Builder;
use crate::measurements::builder::Dimensions;
use crate::measurements::builder::Measurement;
use crate::schema::ColumnKind;
use crate::schema::TableField;
use crate::schema::TableSchema;
use crate::stream::batch_message;
use crate::stream::validate;
use crate::stream::verdict;
use crate::stream::Stored;
use crate::stream::schema_message;
use crate::stream::EmptyCommit;
use crate::stream::Writer;

verus! {

/// `std::time::SystemTime::elapsed` on the Unix epoch: the time of the call
/// in microseconds since the epoch, and zero where the clock stands before
/// the epoch. Nothing is known of the number.
#[verifier::external_body]
fn wall_clock() -> (micros: i64) {
    std::time::SystemTime::UNIX_EPOCH.elapsed().unwrap_or_default().as_micros() as i64
}

/// The measurement table.
pub struct Measurements {
    stream: Writer,
    builder: Builder,
    dimensions: Dimensions,
    policy: EmptyCommit,
}

impl Measurements {
    /// The key that the next push gets.
    pub closed spec fn next(&self) -> nat {
        self.builder.next()
    }

    /// The rows buffered since the last commit, in push order.
    pub closed spec fn rows(&self) -> Seq<Measurement> {
        self.builder.rows()
    }

    /// The bytes that are to be appended to the table's file.
    pub closed spec fn pending(&self) -> Seq<u8> {
        self.stream.pending()
    }

    /// Whether the table has not been released.
    pub closed spec fn is_open(&self) -> bool {
        self.stream.is_open()
    }

    /// The dimensions that the table records.
    pub closed spec fn dimensions(&self) -> Dimensions {
        self.dimensions
    }

    /// What a commit without rows does.
    pub closed spec fn policy(&self) -> EmptyCommit {
        self.policy
    }

    /// The buffered columns have one length, the counter is within its
    /// limit, and the stream has the table's schema.
    pub closed spec fn wf(&self) -> bool {
        &&& self.stream.wf()
        &&& self.stream.fields() == fields(self.dimensions)
        &&& self.builder.wf()
    }

    /// The schema of a table that records the given dimensions.
    pub fn schema(dimensions: Dimensions) -> (schema: TableSchema)
        ensures
            schema@ == fields(dimensions),
    {
        let mut columns: Vec<TableField> = Vec::new();
        columns.push(TableField { name: "id", kind: ColumnKind::UInt32 });
        columns.push(TableField { name: "timestamp", kind: ColumnKind::Timestamp });
        if dimensions.x {
            columns.push(TableField { name: "x", kind: ColumnKind::Float64 });
        }
        if dimensions.y {
            columns.push(TableField { name: "y", kind: ColumnKind::Float64 });
        }
        if dimensions.z {
            columns.push(TableField { name: "z", kind: ColumnKind::Float64 });
        }
        if dimensions.a {
            columns.push(TableField { name: "a", kind: ColumnKind::Float64 });
        }
        columns.push(TableField { name: "integration", kind: ColumnKind::Duration });
        let schema = TableSchema { fields: columns };
        proof {
            assert(schema@ =~= fields(dimensions));
        }
        schema
    }

    /// Opens the table on what its file was found to hold. Without a file
    /// the table is new: its keys start at zero, and its stream starts with
    /// the schema's header. With a stored stream its keys continue those
    /// that the stream holds, and it has nothing to append. Fails with
    /// `IOError` where the file cannot be read, and with `SchemaError` where
    /// the stream is not one of this table.
    pub fn open(stored: &Stored, dimensions: Dimensions, policy: EmptyCommit) -> (opened: Result<Self, Error>)
        ensures
            match opened {
                Ok(table) => {
                    &&& verdict(fields(dimensions), *stored) is Ok
                    &&& table.wf()
                    &&& table.is_open()
                    &&& table.dimensions() == dimensions
                    &&& table.policy() == policy
                    &&& table.rows() == Seq::<Measurement>::empty()
                    &&& continues(stored_ids(stored.batches()), table.next())
                    &&& table.pending() == if *stored is Absent {
                        schema_message(fields(dimensions))
                    } else {
                        Seq::<u8>::empty()
                    }
                },
                Err(error) => verdict(fields(dimensions), *stored) == Err::<(), Error>(error),
            },
    {
        let schema = Self::schema(dimensions);
        validate(&schema, stored)?;
        match stored {
            Stored::Stream(stream) => {
                let next = Builder::read(&stream.batches);
                let writer = Writer::new(&schema, true)?;
                Ok(Measurements { stream: writer, builder: Builder::new(next), dimensions, policy })
            },
            _ => {
                let writer = Writer::new(&schema, false)?;
                Ok(Measurements { stream: writer, builder: Builder::new(IdAllocator::new()), dimensions, policy })
            },
        }
    }

    /// A table that holds the given keys already, with a stream of its own:
    /// its keys continue the given ones.
    pub fn resume(stream: Writer, ids: &Vec<u32>, dimensions: Dimensions, policy: EmptyCommit) -> (table:
        Self)
        requires
            stream.wf(),
            stream.fields() == fields(dimensions),
        ensures
            table.wf(),
            table.is_open() == stream.is_open(),
            table.pending() == stream.pending(),
            table.dimensions() == dimensions,
            table.policy() == policy,
            table.rows() == Seq::<Measurement>::empty(),
            continues(ids@, table.next()),
    {
        Measurements { stream, builder: Builder::new(IdAllocator::recover(ids)), dimensions, policy }
    }

    /// Buffers one row, stamped with the time of the call, and returns its
    /// key. Fails with `IOError` on a released table and with `Exhausted`
    /// where no key is left; nothing is buffered then.
    pub fn push(&mut self, x: u64, y: u64, z: u64, a: u64, integration: i64) -> (result: Result<u32, Error>)
        requires
            old(self).wf(),
        ensures
            final(self).wf(),
            final(self).pending() == old(self).pending(),
            final(self).is_open() == old(self).is_open(),
            final(self).dimensions() == old(self).dimensions(),
            final(self).policy() == old(self).policy(),
            result == if !old(self).is_open() {
                Err::<u32, Error>(Error::IOError)
            } else if old(self).next() == ID_LIMIT {
                Err::<u32, Error>(Error::Exhausted)
            } else {
                Ok::<u32, Error>(old(self).next() as u32)
            },
            match result {
                Ok(id) => {
                    &&& final(self).next() == old(self).next() + 1
                    &&& final(self).rows() == old(self).rows().push(
                        Measurement {
                            id,
                            timestamp: final(self).rows().last().timestamp,
                            x,
                            y,
                            z,
                            a,
                            integration,
                        },
                    )
                },
                Err(_) => {
                    &&& final(self).next() == old(self).next()
                    &&& final(self).rows() == old(self).rows()
                },
            },
    {
        let timestamp = wall_clock();
        let result = self.push_at(timestamp, x, y, z, a, integration);
        proof {
            if result is Ok {
                assert(self.rows().last().timestamp == timestamp);
            }
        }
        result
    }

    /// Buffers one row with the given timestamp, and returns its key. Fails
    /// with `IOError` on a released table and with `Exhausted` where no key
    /// is left; nothing is buffered then.
    pub fn push_at(&mut self, timestamp: i64, x: u64, y: u64, z: u64, a: u64, integration: i64) -> (result:
        Result<u32, Error>)
        requires
            old(self).wf(),
        ensures
            final(self).wf(),
            final(self).pending() == old(self).pending(),
            final(self).is_open() == old(self).is_open(),
            final(self).dimensions() == old(self).dimensions(),
            final(self).policy() == old(self).policy(),
            result == if !old(self).is_open() {
                Err::<u32, Error>(Error::IOError)
            } else if old(self).next() == ID_LIMIT {
                Err::<u32, Error>(Error::Exhausted)
            } else {
                Ok::<u32, Error>(old(self).next() as u32)
            },
            match result {
                Ok(id) => {
                    &&& final(self).next() == old(self).next() + 1
                    &&& final(self).rows() == old(self).rows().push(
                        Measurement { id, timestamp, x, y, z, a, integration },
                    )
                },
                Err(_) => {
                    &&& final(self).next() == old(self).next()
                    &&& final(self).rows() == old(self).rows()
                },
            },
    {
        if !self.stream.accepts() {
            return Err(Error::IOError);
        }
        proof {
            self.builder.lemma_wf();
        }
        match self.builder.push(timestamp, x, y, z, a, integration) {
            Some(id) => Ok(id),
            None => Err(Error::Exhausted),
        }
    }

    /// How many keys are left to hand out.
    pub fn remaining(&self) -> (left: u64)
        requires
            self.wf(),
        ensures
            left == ID_LIMIT - self.next(),
    {
        self.builder.remaining()
    }

    /// The number of rows buffered since the last commit.
    pub fn buffered(&self) -> (n: usize)
        requires
            self.wf(),
        ensures
            n == self.rows().len(),
    {
        self.builder.len()
    }

    /// Moves the buffered rows into the stream, as one batch, in push order,
    /// and empties the buffer. Without rows it follows the table's policy:
    /// it writes nothing, or a batch without rows. Fails with `IOError` on a
    /// released table, and on no other; the rows then stay buffered.
    pub fn commit(&mut self) -> (result: Result<(), Error>)
        requires
            old(self).wf(),
        ensures
            final(self).wf(),
            final(self).next() == old(self).next(),
            final(self).is_open() == old(self).is_open(),
            final(self).dimensions() == old(self).dimensions(),
            final(self).policy() == old(self).policy(),
            old(self).pending().is_prefix_of(final(self).pending()),
            result is Ok <==> old(self).is_open(),
            !old(self).is_open() ==> final(self).pending() == old(self).pending(),
            match result {
                Ok(()) => {
                    &&& final(self).rows() == Seq::<Measurement>::empty()
                    &&& final(self).pending() == if old(self).rows().len() == 0 && old(self).policy()
                        == EmptyCommit::Skip {
                        old(self).pending()
                    } else {
                        old(self).pending() + batch_message(
                            columns_of(old(self).dimensions(), old(self).rows()),
                        )
                    }
                },
                Err(error) => {
                    &&& error == Error::IOError
                    &&& final(self).rows() == old(self).rows()
                },
            },
    {
        if !self.stream.accepts() {
            return Err(Error::IOError);
        }
        if self.builder.len() == 0 && self.policy == EmptyCommit::Skip {
            proof {
                assert(self.builder.rows() =~= Seq::<Measurement>::empty());
            }
            return Ok(());
        }
        let columns = self.builder.columns(self.dimensions);
        proof {
            lemma_columns_conform(self.dimensions, self.builder.rows());
        }
        match self.stream.write(&columns) {
            Ok(()) => {
                self.builder.clear();
                Ok(())
            },
            Err(_) => Err(Error::IOError),
        }
    }

    /// Takes the bytes that are to be appended to the table's file.
    pub fn take(&mut self) -> (bytes: Vec<u8>)
        requires
            old(self).wf(),
        ensures
            final(self).wf(),
            bytes@ == old(self).pending(),
            final(self).pending() == Seq::<u8>::empty(),
            final(self).next() == old(self).next(),
            final(self).rows() == old(self).rows(),
            final(self).is_open() == old(self).is_open(),
            final(self).dimensions() == old(self).dimensions(),
            final(self).policy() == old(self).policy(),
    {
        self.stream.take()
    }

    /// Releases the table: it takes no push and no commit from now on.
    pub fn release(&mut self)
        requires
            old(self).wf(),
        ensures
            final(self).wf(),
            !final(self).is_open(),
            final(self).pending() == old(self).pending(),
            final(self).next() == old(self).next(),
            final(self).rows() == old(self).rows(),
            final(self).dimensions() == old(self).dimensions(),
            final(self).policy() == old(self).policy(),
    {
        self.stream.release();
    }
}

} // verus!

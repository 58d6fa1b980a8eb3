//! The intensity table: what each measurement read at each wavelength.

pub mod builder;

use vstd::prelude::*;
use crate::error::Error;
use crate::intensities::builder::columns_of;
use crate::intensities::builder::readings;
use crate::intensities::builder::Builder;
use crate::intensities::builder::Reading;
use crate::schema::ColumnKind;
use crate::schema::TableField;
use crate::schema::TableSchema;
use crate::stream::batch_message;
use crate::stream::validate;
use crate::stream::verdict;
use crate::stream::Stored;
use crate::stream::schema_message;
use crate::stream::EmptyCommit;
use crate::stream::Writer;

verus! {

/// The columns of the intensity table.
pub open spec fn fields() -> Seq<(Seq<char>, ColumnKind)> {
    seq![
        ("measurement"@, ColumnKind::UInt32),
        ("wavelength"@, ColumnKind::UInt32),
        ("intensity"@, ColumnKind::Float64),
    ]
}

/// The intensity table.
pub struct Intensities {
    stream: Writer,
    builder: Builder,
    policy: EmptyCommit,
}

impl Intensities {
    /// The rows buffered since the last commit, in push order.
    pub closed spec fn rows(&self) -> Seq<Reading> {
        self.builder.rows()
    }

    /// The bytes that are to be appended to the table's file.
    pub closed spec fn pending(&self) -> Seq<u8> {
        self.stream.pending()
    }

    /// Whether the table has not been released.
    pub closed spec fn is_open(&self) -> bool {
        self.stream.is_open()
    }

    /// What a commit without rows does.
    pub closed spec fn policy(&self) -> EmptyCommit {
        self.policy
    }

    /// The buffered columns have one length, and the stream has the table's
    /// schema.
    pub closed spec fn wf(&self) -> bool {
        &&& self.stream.wf()
        &&& self.stream.fields() == fields()
        &&& self.builder.wf()
    }

    /// The schema of the table.
    pub fn schema() -> (schema: TableSchema)
        ensures
            schema@ == fields(),
    {
        let mut columns: Vec<TableField> = Vec::new();
        columns.push(TableField { name: "measurement", kind: ColumnKind::UInt32 });
        columns.push(TableField { name: "wavelength", kind: ColumnKind::UInt32 });
        columns.push(TableField { name: "intensity", kind: ColumnKind::Float64 });
        let schema = TableSchema { fields: columns };
        proof {
            assert(schema@ =~= fields());
        }
        schema
    }

    /// Opens the table on what its file was found to hold. Without a file
    /// the table is new, and its stream starts with the schema's header.
    /// With a stored stream it has nothing to append. Fails with `IOError`
    /// where the file cannot be read, and with `SchemaError` where the
    /// stream is not one of this table.
    pub fn open(stored: &Stored, policy: EmptyCommit) -> (opened: Result<Self, Error>)
        ensures
            match opened {
                Ok(table) => {
                    &&& verdict(fields(), *stored) is Ok
                    &&& table.wf()
                    &&& table.is_open()
                    &&& table.policy() == policy
                    &&& table.rows() == Seq::<Reading>::empty()
                    &&& table.pending() == if *stored is Absent {
                        schema_message(fields())
                    } else {
                        Seq::<u8>::empty()
                    }
                },
                Err(error) => verdict(fields(), *stored) == Err::<(), Error>(error),
            },
    {
        let schema = Self::schema();
        validate(&schema, stored)?;
        let exists = match stored {
            Stored::Absent => false,
            _ => true,
        };
        let stream = Writer::new(&schema, exists)?;
        Ok(Intensities { stream, builder: Builder::new(), policy })
    }

    /// Buffers the rows of one measurement, one for each wavelength, in
    /// their order. Fails with `IOError` on a released table, and with
    /// `ValidationError` where the wavelengths and the intensities are not
    /// equally many; nothing is buffered then.
    pub fn push(&mut self, measurement: u32, wavelengths: Vec<u32>, intensities: Vec<u64>) -> (result:
        Result<(), Error>)
        requires
            old(self).wf(),
        ensures
            final(self).wf(),
            final(self).pending() == old(self).pending(),
            final(self).is_open() == old(self).is_open(),
            final(self).policy() == old(self).policy(),
            result == if !old(self).is_open() {
                Err::<(), Error>(Error::IOError)
            } else if wavelengths@.len() != intensities@.len() {
                Err::<(), Error>(Error::ValidationError)
            } else {
                Ok::<(), Error>(())
            },
            final(self).rows() == if result is Ok {
                old(self).rows() + readings(measurement, wavelengths@, intensities@)
            } else {
                old(self).rows()
            },
    {
        if !self.stream.accepts() {
            return Err(Error::IOError);
        }
        self.builder.push(measurement, &wavelengths, &intensities)
    }

    /// The number of rows buffered since the last commit.
    pub fn buffered(&self) -> (n: usize)
        requires
            self.wf(),
        ensures
            n == self.rows().len(),
    {
        self.builder.len()
    }

    /// Moves the buffered rows into the stream, as one batch, in push order,
    /// and empties the buffer. Without rows it follows the table's policy:
    /// it writes nothing, or a batch without rows. Fails with `IOError` on a
    /// released table, and on no other; the rows then stay buffered.
    pub fn commit(&mut self) -> (result: Result<(), Error>)
        requires
            old(self).wf(),
        ensures
            final(self).wf(),
            final(self).is_open() == old(self).is_open(),
            final(self).policy() == old(self).policy(),
            old(self).pending().is_prefix_of(final(self).pending()),
            result is Ok <==> old(self).is_open(),
            !old(self).is_open() ==> final(self).pending() == old(self).pending(),
            match result {
                Ok(()) => {
                    &&& final(self).rows() == Seq::<Reading>::empty()
                    &&& final(self).pending() == if old(self).rows().len() == 0 && old(self).policy()
                        == EmptyCommit::Skip {
                        old(self).pending()
                    } else {
                        old(self).pending() + batch_message(columns_of(old(self).rows()))
                    }
                },
                Err(error) => {
                    &&& error == Error::IOError
                    &&& final(self).rows() == old(self).rows()
                },
            },
    {
        if !self.stream.accepts() {
            return Err(Error::IOError);
        }
        if self.builder.len() == 0 && self.policy == EmptyCommit::Skip {
            proof {
                assert(self.builder.rows() =~= Seq::<Reading>::empty());
            }
            return Ok(());
        }
        let columns = self.builder.columns();
        proof {
            let seen = columns_of(self.builder.rows());
            assert(crate::schema::conforms(fields(), seen));
        }
        match self.stream.write(&columns) {
            Ok(()) => {
                self.builder.clear();
                Ok(())
            },
            Err(_) => Err(Error::IOError),
        }
    }

    /// Takes the bytes that are to be appended to the table's file.
    pub fn take(&mut self) -> (bytes: Vec<u8>)
        requires
            old(self).wf(),
        ensures
            final(self).wf(),
            bytes@ == old(self).pending(),
            final(self).pending() == Seq::<u8>::empty(),
            final(self).rows() == old(self).rows(),
            final(self).is_open() == old(self).is_open(),
            final(self).policy() == old(self).policy(),
    {
        self.stream.take()
    }

    /// Releases the table: it takes no push and no commit from now on.
    pub fn release(&mut self)
        requires
            old(self).wf(),
        ensures
            final(self).wf(),
            !final(self).is_open(),
            final(self).pending() == old(self).pending(),
            final(self).rows() == old(self).rows(),
            final(self).policy() == old(self).policy(),
    {
        self.stream.release();
    }
}

} // verus!

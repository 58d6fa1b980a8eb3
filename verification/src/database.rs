//! The three tables of one session.

use vstd::prelude::*;
use crate::allocator::ID_LIMIT;
use crate::allocator::continues;
use crate::error::Error;
use crate::intensities::Intensities;
use crate::intensities::builder::readings;
use crate::measurements::Measurements;
use crate::measurements::builder::Dimensions;
use crate::measurements::builder::Measurement;
use crate::measurements::builder::stored_ids;
use crate::stream::EmptyCommit;
use crate::stream::Stored;
use crate::stream::batch_message;
use crate::stream::schema_message;
use crate::stream::verdict;
use crate::wavelengths::Wavelengths;
use crate::wavelengths::admitted;
use crate::wavelengths::keys;
use crate::wavelengths::resolver::learn_all;
use crate::wavelengths::stored_records;

verus! {

/// One of the tables of a database.
#[derive(Clone, Copy, Debug, PartialEq, Eq, Structural)]
pub enum Table {
    /// The wavelength table.
    Wavelengths,
    /// The measurement table.
    Measurements,
    /// The intensity table.
    Intensities,
}

/// How a database is set up.
#[derive(Clone, Copy, Debug, PartialEq, Eq, Structural)]
pub struct Config {
    /// The spatial dimensions that the measurement table records.
    pub dimensions: Dimensions,
    /// What a commit without rows does.
    pub empty_commit: EmptyCommit,
}

/// What the files of a database were found to hold, table by table.
#[derive(Debug)]
pub struct Files {
    /// What the wavelength table's file holds.
    pub wavelengths: Stored,
    /// What the measurement table's file holds.
    pub measurements: Stored,
    /// What the intensity table's file holds.
    pub intensities: Stored,
}

/// Whether a database can be opened on its files: the verdict on the first
/// table that cannot be opened, in the order wavelengths, measurements,
/// intensities.
pub open spec fn opening(files: Files, config: Config) -> Result<(), Error> {
    match verdict(crate::wavelengths::fields(), files.wavelengths) {
        Err(error) => Err(error),
        Ok(()) => match verdict(crate::measurements::builder::fields(config.dimensions), files.measurements) {
            Err(error) => Err(error),
            Ok(()) => verdict(crate::intensities::fields(), files.intensities),
        },
    }
}

/// The three tables of one session. Each has its own buffer and its own
/// stream, and is committed by itself.
pub struct Database {
    /// The wavelength table.
    pub wavelengths: Wavelengths,
    /// The measurement table.
    pub measurements: Measurements,
    /// The intensity table.
    pub intensities: Intensities,
}

impl Database {
    /// Each table is well-formed.
    pub open spec fn wf(&self) -> bool {
        &&& self.wavelengths.wf()
        &&& self.measurements.wf()
        &&& self.intensities.wf()
    }

    /// Opens the three tables, each on what its file was found to hold: a
    /// table without a file is new, and one with a stored stream goes on
    /// where the stream ends. Fails with `IOError` where a file cannot be
    /// read, and with `SchemaError` where a stream is not one of its table.
    pub fn new(files: &Files, config: Config) -> (opened: Result<Database, Error>)
        ensures
            match opened {
                Ok(database) => {
                    &&& opening(*files, config) is Ok
                    &&& database.wf()
                    &&& forall|table: Table| database.is_open(table)
                    &&& forall|table: Table| database.buffered(table) == 0
                    &&& forall|table: Table| database.policy(table) == config.empty_commit
                    &&& database.measurements.dimensions() == config.dimensions
                    &&& database.wavelengths.known() == admitted(stored_records(files.wavelengths.batches()))
                    &&& continues(
                        keys(stored_records(files.wavelengths.batches())),
                        database.wavelengths.next(),
                    )
                    &&& continues(stored_ids(files.measurements.batches()), database.measurements.next())
                    &&& database.wavelengths.pending() == if files.wavelengths is Absent {
                        schema_message(crate::wavelengths::fields())
                    } else {
                        Seq::<u8>::empty()
                    }
                    &&& database.measurements.pending() == if files.measurements is Absent {
                        schema_message(crate::measurements::builder::fields(config.dimensions))
                    } else {
                        Seq::<u8>::empty()
                    }
                    &&& database.intensities.pending() == if files.intensities is Absent {
                        schema_message(crate::intensities::fields())
                    } else {
                        Seq::<u8>::empty()
                    }
                },
                Err(error) => opening(*files, config) == Err::<(), Error>(error),
            },
    {
        let wavelengths = Wavelengths::open(&files.wavelengths, config.empty_commit)?;
        let measurements = Measurements::open(&files.measurements, config.dimensions, config.empty_commit)?;
        let intensities = Intensities::open(&files.intensities, config.empty_commit)?;
        Ok(Database { wavelengths, measurements, intensities })
    }

    /// Resolves wavelengths to keys, in their order, and buffers a record
    /// for each that was new. Fails with `IOError` where the wavelength
    /// table is released and with `Exhausted` where the wavelengths need
    /// more keys than are left; the database is then left as it was.
    pub fn push_wavelengths(&mut self, values: Vec<u64>) -> (result: Result<Vec<u32>, Error>)
        requires
            old(self).wf(),
        ensures
            final(self).wf(),
            final(self).measurements == old(self).measurements,
            final(self).intensities == old(self).intensities,
            final(self).wavelengths.pending() == old(self).wavelengths.pending(),
            final(self).wavelengths.is_open() == old(self).wavelengths.is_open(),
            final(self).wavelengths.policy() == old(self).wavelengths.policy(),
            match result {
                Ok(ids) => {
                    let resolved = learn_all(
                        old(self).wavelengths.known(),
                        old(self).wavelengths.next(),
                        values@,
                    );
                    &&& old(self).wavelengths.is_open()
                    &&& resolved.next <= ID_LIMIT
                    &&& ids@ == resolved.ids
                    &&& final(self).wavelengths.known() == resolved.known
                    &&& final(self).wavelengths.next() == resolved.next
                    &&& final(self).wavelengths.rows() == old(self).wavelengths.rows() + resolved.fresh
                },
                Err(error) => {
                    &&& final(self).wavelengths.known() == old(self).wavelengths.known()
                    &&& final(self).wavelengths.next() == old(self).wavelengths.next()
                    &&& final(self).wavelengths.rows() == old(self).wavelengths.rows()
                    &&& error == if old(self).wavelengths.is_open() {
                        Error::Exhausted
                    } else {
                        Error::IOError
                    }
                    &&& old(self).wavelengths.is_open() ==> learn_all(
                        old(self).wavelengths.known(),
                        old(self).wavelengths.next(),
                        values@,
                    ).next > ID_LIMIT
                },
            },
    {
        self.wavelengths.push(values)
    }

    /// Buffers one measurement, stamped with the time of the call, and
    /// returns its key. Fails with `IOError` where the measurement table is
    /// released and with `Exhausted` where no key is left; nothing is
    /// buffered then.
    pub fn push_measurement(&mut self, x: u64, y: u64, z: u64, a: u64, integration: i64) -> (result: Result<
        u32,
        Error,
    >)
        requires
            old(self).wf(),
        ensures
            final(self).wf(),
            final(self).wavelengths == old(self).wavelengths,
            final(self).intensities == old(self).intensities,
            final(self).measurements.pending() == old(self).measurements.pending(),
            final(self).measurements.is_open() == old(self).measurements.is_open(),
            final(self).measurements.dimensions() == old(self).measurements.dimensions(),
            final(self).measurements.policy() == old(self).measurements.policy(),
            result == if !old(self).measurements.is_open() {
                Err::<u32, Error>(Error::IOError)
            } else if old(self).measurements.next() == ID_LIMIT {
                Err::<u32, Error>(Error::Exhausted)
            } else {
                Ok::<u32, Error>(old(self).measurements.next() as u32)
            },
            match result {
                Ok(id) => {
                    &&& final(self).measurements.next() == old(self).measurements.next() + 1
                    &&& final(self).measurements.rows() == old(self).measurements.rows().push(
                        Measurement {
                            id,
                            timestamp: final(self).measurements.rows().last().timestamp,
                            x,
                            y,
                            z,
                            a,
                            integration,
                        },
                    )
                },
                Err(_) => {
                    &&& final(self).measurements.next() == old(self).measurements.next()
                    &&& final(self).measurements.rows() == old(self).measurements.rows()
                },
            },
    {
        self.measurements.push(x, y, z, a, integration)
    }

    /// Buffers the intensities of one measurement, one row for each
    /// wavelength, in their order. Fails with `IOError` where the intensity
    /// table is released, and with `ValidationError` where the wavelengths
    /// and the intensities are not equally many; nothing is buffered then.
    pub fn push_intensities(&mut self, measurement: u32, wavelengths: Vec<u32>, intensities: Vec<u64>) -> (result:
        Result<(), Error>)
        requires
            old(self).wf(),
        ensures
            final(self).wf(),
            final(self).wavelengths == old(self).wavelengths,
            final(self).measurements == old(self).measurements,
            final(self).intensities.pending() == old(self).intensities.pending(),
            final(self).intensities.is_open() == old(self).intensities.is_open(),
            final(self).intensities.policy() == old(self).intensities.policy(),
            result == if !old(self).intensities.is_open() {
                Err::<(), Error>(Error::IOError)
            } else if wavelengths@.len() != intensities@.len() {
                Err::<(), Error>(Error::ValidationError)
            } else {
                Ok::<(), Error>(())
            },
            final(self).intensities.rows() == if result is Ok {
                old(self).intensities.rows() + readings(measurement, wavelengths@, intensities@)
            } else {
                old(self).intensities.rows()
            },
    {
        self.intensities.push(measurement, wavelengths, intensities)
    }

    /// The bytes that a table's stream holds for its file.
    pub open spec fn pending(&self, table: Table) -> Seq<u8> {
        match table {
            Table::Wavelengths => self.wavelengths.pending(),
            Table::Measurements => self.measurements.pending(),
            Table::Intensities => self.intensities.pending(),
        }
    }

    /// How many rows a table has buffered.
    pub open spec fn buffered(&self, table: Table) -> nat {
        match table {
            Table::Wavelengths => self.wavelengths.rows().len(),
            Table::Measurements => self.measurements.rows().len(),
            Table::Intensities => self.intensities.rows().len(),
        }
    }

    /// Whether a table has not been released.
    pub open spec fn is_open(&self, table: Table) -> bool {
        match table {
            Table::Wavelengths => self.wavelengths.is_open(),
            Table::Measurements => self.measurements.is_open(),
            Table::Intensities => self.intensities.is_open(),
        }
    }

    /// What a commit of a table without rows does.
    pub open spec fn policy(&self, table: Table) -> EmptyCommit {
        match table {
            Table::Wavelengths => self.wavelengths.policy(),
            Table::Measurements => self.measurements.policy(),
            Table::Intensities => self.intensities.policy(),
        }
    }

    /// The message of the rows that a table has buffered.
    pub open spec fn message(&self, table: Table) -> Seq<u8> {
        match table {
            Table::Wavelengths => batch_message(
                crate::wavelengths::builder::columns_of(self.wavelengths.rows()),
            ),
            Table::Measurements => batch_message(
                crate::measurements::builder::columns_of(
                    self.measurements.dimensions(),
                    self.measurements.rows(),
                ),
            ),
            Table::Intensities => batch_message(
                crate::intensities::builder::columns_of(self.intensities.rows()),
            ),
        }
    }

    /// The other tables are as they were.
    pub open spec fn others_kept(&self, before: &Self, table: Table) -> bool {
        match table {
            Table::Wavelengths => self.measurements == before.measurements && self.intensities
                == before.intensities,
            Table::Measurements => self.wavelengths == before.wavelengths && self.intensities
                == before.intensities,
            Table::Intensities => self.wavelengths == before.wavelengths && self.measurements
                == before.measurements,
        }
    }

    /// Commits one table: moves its buffered rows into its stream, as one
    /// batch, in push order, and empties its buffer. Without rows it follows
    /// the policy: it writes nothing, or a batch without rows. The other
    /// tables are not touched. Fails with `IOError` where the table is
    /// released, and nowhere else; the rows then stay buffered.
    pub fn commit(&mut self, table: Table) -> (result: Result<(), Error>)
        requires
            old(self).wf(),
        ensures
            final(self).wf(),
            final(self).others_kept(old(self), table),
            final(self).is_open(table) == old(self).is_open(table),
            final(self).policy(table) == old(self).policy(table),
            final(self).wavelengths.known() == old(self).wavelengths.known(),
            final(self).wavelengths.next() == old(self).wavelengths.next(),
            final(self).measurements.next() == old(self).measurements.next(),
            old(self).pending(table).is_prefix_of(final(self).pending(table)),
            result is Ok <==> old(self).is_open(table),
            !old(self).is_open(table) ==> final(self).pending(table) == old(self).pending(table),
            match result {
                Ok(()) => {
                    &&& final(self).buffered(table) == 0
                    &&& final(self).pending(table) == if old(self).buffered(table) == 0 && old(self).policy(
                        table,
                    ) == EmptyCommit::Skip {
                        old(self).pending(table)
                    } else {
                        old(self).pending(table) + old(self).message(table)
                    }
                },
                Err(error) => {
                    &&& error == Error::IOError
                    &&& final(self).wavelengths.rows() == old(self).wavelengths.rows()
                    &&& final(self).measurements.rows() == old(self).measurements.rows()
                    &&& final(self).intensities.rows() == old(self).intensities.rows()
                },
            },
    {
        match table {
            Table::Wavelengths => self.wavelengths.commit(),
            Table::Measurements => self.measurements.commit(),
            Table::Intensities => self.intensities.commit(),
        }
    }

    /// Takes the bytes that are to be appended to a table's file.
    pub fn take(&mut self, table: Table) -> (bytes: Vec<u8>)
        requires
            old(self).wf(),
        ensures
            final(self).wf(),
            final(self).others_kept(old(self), table),
            bytes@ == old(self).pending(table),
            final(self).pending(table) == Seq::<u8>::empty(),
            final(self).is_open(table) == old(self).is_open(table),
            final(self).policy(table) == old(self).policy(table),
            final(self).wavelengths.known() == old(self).wavelengths.known(),
            final(self).wavelengths.next() == old(self).wavelengths.next(),
            final(self).measurements.next() == old(self).measurements.next(),
            final(self).wavelengths.rows() == old(self).wavelengths.rows(),
            final(self).measurements.rows() == old(self).measurements.rows(),
            final(self).intensities.rows() == old(self).intensities.rows(),
    {
        match table {
            Table::Wavelengths => self.wavelengths.take(),
            Table::Measurements => self.measurements.take(),
            Table::Intensities => self.intensities.take(),
        }
    }

    /// Releases the three tables: they take no push and no commit from now
    /// on. What their streams hold can still be taken.
    pub fn release(&mut self)
        requires
            old(self).wf(),
        ensures
            final(self).wf(),
            forall|table: Table| !final(self).is_open(table),
            forall|table: Table| final(self).pending(table) == old(self).pending(table),
            final(self).wavelengths.rows() == old(self).wavelengths.rows(),
            final(self).measurements.rows() == old(self).measurements.rows(),
            final(self).intensities.rows() == old(self).intensities.rows(),
    {
        self.wavelengths.release();
        self.measurements.release();
        self.intensities.release();
    }
}

} // verus!

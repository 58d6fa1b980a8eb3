//! The rows of the intensity table that are buffered for the next commit.

use vstd::prelude::*;
use crate::columns::key_values;
use crate::columns::number_values;
use crate::columns::KeyColumn;
use crate::columns::NumberColumn;
use crate::error::Error;
use crate::schema::Column;
use crate::schema::ColumnKind;

verus! {

/// One row of the intensity table: what one measurement read at one
/// wavelength.
#[derive(Clone, Copy, Debug, PartialEq, Eq, Structural)]
pub struct Reading {
    /// The key of the measurement.
    pub measurement: u32,
    /// The key of the wavelength.
    pub wavelength: u32,
    /// The intensity, as the bit pattern of a binary64.
    pub intensity: u64,
}

/// The rows of one measurement: one for each wavelength, with the intensity
/// at the same index.
pub open spec fn readings(measurement: u32, wavelengths: Seq<u32>, intensities: Seq<u64>) -> Seq<Reading> {
    Seq::new(
        wavelengths.len(),
        |i: int| Reading { measurement, wavelength: wavelengths[i], intensity: intensities[i] },
    )
}

/// The columns that stand for some rows: measurement keys, wavelength keys,
/// intensities.
pub open spec fn columns_of(rows: Seq<Reading>) -> Seq<(ColumnKind, Seq<int>)> {
    seq![
        (ColumnKind::UInt32, Seq::new(rows.len(), |i: int| rows[i].measurement as int)),
        (ColumnKind::UInt32, Seq::new(rows.len(), |i: int| rows[i].wavelength as int)),
        (ColumnKind::Float64, Seq::new(rows.len(), |i: int| rows[i].intensity as int)),
    ]
}

/// Three parallel columns, one value of each per buffered row.
pub struct Builder {
    measurement: KeyColumn,
    wavelength: KeyColumn,
    intensity: NumberColumn,
}

impl Builder {
    /// The three columns have one length.
    pub closed spec fn wf(&self) -> bool {
        &&& key_values(self.measurement).len() == key_values(self.wavelength).len()
        &&& key_values(self.measurement).len() == number_values(self.intensity).len()
    }

    /// The buffered rows, in the order in which they were pushed.
    pub closed spec fn rows(&self) -> Seq<Reading> {
        Seq::new(
            key_values(self.measurement).len(),
            |i: int|
                Reading {
                    measurement: key_values(self.measurement)[i],
                    wavelength: key_values(self.wavelength)[i],
                    intensity: number_values(self.intensity)[i],
                },
        )
    }

    /// A builder without rows.
    pub fn new() -> (builder: Self)
        ensures
            builder.wf(),
            builder.rows() == Seq::<Reading>::empty(),
    {
        let builder = Builder {
            measurement: KeyColumn::new(),
            wavelength: KeyColumn::new(),
            intensity: NumberColumn::new(),
        };
        proof {
            assert(builder.rows() =~= Seq::<Reading>::empty());
        }
        builder
    }

    /// The number of buffered rows.
    pub fn len(&self) -> (n: usize)
        requires
            self.wf(),
        ensures
            n == self.rows().len(),
    {
        self.measurement.len()
    }

    /// Buffers the rows of one measurement, one for each wavelength. Fails
    /// with `ValidationError`, and buffers nothing, where the wavelengths
    /// and the intensities are not equally many.
    pub fn push(&mut self, measurement: u32, wavelengths: &Vec<u32>, intensities: &Vec<u64>) -> (result:
        Result<(), Error>)
        requires
            old(self).wf(),
        ensures
            final(self).wf(),
            result == if wavelengths@.len() == intensities@.len() {
                Ok::<(), Error>(())
            } else {
                Err::<(), Error>(Error::ValidationError)
            },
            final(self).rows() == if wavelengths@.len() == intensities@.len() {
                old(self).rows() + readings(measurement, wavelengths@, intensities@)
            } else {
                old(self).rows()
            },
    {
        if wavelengths.len() != intensities.len() {
            return Err(Error::ValidationError);
        }
        let ghost rows = readings(measurement, wavelengths@, intensities@);
        let mut i: usize = 0;
        while i < wavelengths.len()
            invariant
                i <= wavelengths.len(),
                wavelengths.len() == intensities.len(),
                self.wf(),
                rows == readings(measurement, wavelengths@, intensities@),
                self.rows() == old(self).rows() + rows.take(i as int),
            decreases wavelengths.len() - i,
        {
            let ghost before = self.rows();
            self.measurement.append(measurement);
            self.wavelength.append(wavelengths[i]);
            self.intensity.append(intensities[i]);
            proof {
                assert(self.rows() =~= before.push(rows[i as int]));
                assert(rows.take(i + 1) =~= rows.take(i as int).push(rows[i as int]));
                assert(self.rows() =~= old(self).rows() + rows.take(i + 1));
            }
            i = i + 1;
        }
        proof {
            assert(rows.take(wavelengths.len() as int) =~= rows);
        }
        Ok(())
    }

    /// The buffered rows as columns. The builder keeps its rows.
    pub fn columns(&self) -> (columns: Vec<Column>)
        requires
            self.wf(),
        ensures
            crate::schema::views(columns@) == columns_of(self.rows()),
    {
        let measurement = self.measurement.values();
        let wavelength = self.wavelength.values();
        let intensity = self.intensity.values();
        let mut columns: Vec<Column> = Vec::new();
        columns.push(Column::UInt32(measurement));
        columns.push(Column::UInt32(wavelength));
        columns.push(Column::Float64(intensity));
        proof {
            let seen = crate::schema::views(columns@);
            let rows = self.rows();
            assert(seen.len() == 3);
            assert(seen[0].1 =~= columns_of(rows)[0].1);
            assert(seen[1].1 =~= columns_of(rows)[1].1);
            assert(seen[2].1 =~= columns_of(rows)[2].1);
            assert(seen =~= columns_of(rows));
        }
        columns
    }

    /// Drops the buffered rows.
    pub fn clear(&mut self)
        ensures
            final(self).wf(),
            final(self).rows() == Seq::<Reading>::empty(),
    {
        self.measurement.clear();
        self.wavelength.clear();
        self.intensity.clear();
        proof {
            assert(self.rows() =~= Seq::<Reading>::empty());
        }
    }
}

} // verus!

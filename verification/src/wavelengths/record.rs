//! One row of the wavelength table.

use vstd::prelude::*;

verus! {

/// A wavelength and the surrogate key that stands for it.
#[derive(Clone, Copy, Debug, PartialEq, Eq, Structural)]
pub struct Record {
    /// The surrogate key.
    pub id: u32,
    /// The wavelength in nanometres, as the bit pattern of a binary64.
    pub nm: u64,
}

impl Record {
    /// The record of the wavelength `nm` under the key `id`.
    pub fn new(id: u32, nm: u64) -> (record: Self)
        ensures
            record.id == id,
            record.nm == nm,
    {
        Record { id, nm }
    }
}

} // verus!

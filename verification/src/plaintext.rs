//! The plaintext data type: a value's bit representation, and how many
//! field elements it takes to encode it.

use vstd::prelude::*;
use crate::arith::FIELD_DATA_BITS;

verus! {

/// The most field elements one encoded value may occupy.
pub const MAX_DATA_SIZE_IN_FIELDS: u16 = 128;

/// Why a plaintext could not be encoded.
#[derive(Clone, Copy, Debug, PartialEq, Eq, Structural)]
pub enum PlaintextError {
    TooLarge,
}

/// A plaintext: the little-endian bits of a decrypted value.
#[derive(Clone, Debug)]
pub struct Plaintext {
    pub bits_le: Vec<bool>,
}

impl Plaintext {
    /// Wraps a list of bits as a plaintext.
    pub fn new(bits_le: Vec<bool>) -> (r: Plaintext)
        ensures
            r.bits_le@ == bits_le@,
    {
        Plaintext { bits_le }
    }

    /// Returns this plaintext as a list of little-endian bits.
    pub fn to_bits_le(&self) -> (r: Vec<bool>)
        ensures
            r@ == self.bits_le@,
    {
        let mut bits: Vec<bool> = Vec::new();
        let mut i: usize = 0;
        while i < self.bits_le.len()
            invariant
                0 <= i <= self.bits_le@.len(),
                bits@ =~= self.bits_le@.take(i as int),
            decreases self.bits_le@.len() - i,
        {
            bits.push(self.bits_le[i]);
            i = i + 1;
        }
        proof {
            assert(self.bits_le@.take(self.bits_le@.len() as int) =~= self.bits_le@);
        }
        bits
    }

    /// The number of field elements needed to encode this plaintext: its
    /// bits plus one terminus bit, divided into the data bits a field
    /// element can carry, rounded up. A value that would take more than
    /// `MAX_DATA_SIZE_IN_FIELDS` elements is rejected.
    pub fn size_in_fields(&self) -> (r: Result<u16, PlaintextError>)
        requires
            self.bits_le@.len() + FIELD_DATA_BITS <= usize::MAX,
        ensures
            ({
                let num_fields = (self.bits_le@.len() + 1 + (FIELD_DATA_BITS - 1)) as int
                    / (FIELD_DATA_BITS as int);
                if num_fields <= MAX_DATA_SIZE_IN_FIELDS {
                    r == Ok::<u16, PlaintextError>(num_fields as u16)
                } else {
                    r == Err::<u16, PlaintextError>(PlaintextError::TooLarge)
                }
            }),
    {
        // one extra bit for the terminus indicator
        let num_bits: usize = self.bits_le.len() + 1;
        let num_fields: usize = (num_bits + (FIELD_DATA_BITS - 1)) / FIELD_DATA_BITS;
        if num_fields <= MAX_DATA_SIZE_IN_FIELDS as usize {
            Ok(num_fields as u16)
        } else {
            Err(PlaintextError::TooLarge)
        }
    }
}

} // verus!

//! The identifier circuit type: a short name packed into one field
//! element's bits, remembering how many bytes of it are meaningful.

use vstd::prelude::*;
use crate::arith::FIELD_BITS;
use crate::boolean::{Boolean, bit_values, bits_wf};

verus! {

/// A circuit value holding an identifier: the bits of the field element the
/// name is packed into, and the name's length in bytes.
#[derive(Clone, Debug)]
pub struct Identifier {
    pub bits_le: Vec<Boolean>,
    pub num_bytes: u8,
}

impl Identifier {
    /// Whether the identifier is canonical: a full field element's worth of
    /// canonical bits, with the meaningful bytes fitting inside it.
    pub open spec fn wf(self) -> bool {
        &&& self.bits_le@.len() == FIELD_BITS
        &&& bits_wf(self.bits_le@)
        &&& 8 * self.num_bytes <= FIELD_BITS
    }

    /// Packs an identifier from its field element's bits and its byte
    /// length.
    pub fn new(bits_le: Vec<Boolean>, num_bytes: u8) -> (r: Identifier)
        requires
            bits_le@.len() == FIELD_BITS,
            bits_wf(bits_le@),
            8 * num_bytes <= FIELD_BITS,
        ensures
            r.wf(),
            r.bits_le@ == bits_le@,
            r.num_bytes == num_bytes,
    {
        Identifier { bits_le, num_bytes }
    }

    /// Returns the little-endian bits of the identifier: the first
    /// `8 * num_bytes` bits of its field element.
    pub fn to_bits_le(&self) -> (r: Vec<Boolean>)
        requires
            self.wf(),
        ensures
            r@.len() == 8 * self.num_bytes,
            bits_wf(r@),
            bit_values(r@) =~= bit_values(self.bits_le@).take(8 * self.num_bytes as int),
    {
        let count: usize = 8 * (self.num_bytes as usize);
        let mut bits: Vec<Boolean> = Vec::new();
        let mut i: usize = 0;
        while i < count
            invariant
                self.wf(),
                count == 8 * self.num_bytes,
                count <= FIELD_BITS,
                0 <= i <= count,
                bits@.len() == i,
                bits_wf(bits@),
                forall|j: int|
                    0 <= j < i ==> (#[trigger] bits@[j]).spec_value()
                        == self.bits_le@[j].spec_value(),
            decreases count - i,
        {
            proof {
                assert(self.bits_le@[i as int].wf());
            }
            bits.push(self.bits_le[i].duplicate());
            i = i + 1;
        }
        proof {
            assert(bit_values(bits@) =~= bit_values(self.bits_le@).take(8 * self.num_bytes as int));
        }
        bits
    }

    /// Returns the big-endian bits of the identifier: the little-endian
    /// bits, reversed.
    pub fn to_bits_be(&self) -> (r: Vec<Boolean>)
        requires
            self.wf(),
        ensures
            r@.len() == 8 * self.num_bytes,
            bits_wf(r@),
            bit_values(r@) =~= bit_values(self.bits_le@).take(8 * self.num_bytes as int).reverse(),
    {
        let bits_le = self.to_bits_le();
        let mut bits: Vec<Boolean> = Vec::new();
        let mut i: usize = bits_le.len();
        let ghost le_values = bit_values(bits_le@);
        while i > 0
            invariant
                bits_le@.len() == 8 * self.num_bytes,
                bits_wf(bits_le@),
                le_values == bit_values(bits_le@),
                0 <= i <= bits_le@.len(),
                bits@.len() == bits_le@.len() - i,
                bits_wf(bits@),
                forall|j: int|
                    0 <= j < bits@.len() ==> (#[trigger] bits@[j]).spec_value()
                        == le_values[bits_le@.len() - 1 - j],
            decreases i,
        {
            i = i - 1;
            proof {
                assert(bits_le@[i as int].wf());
            }
            let ghost before = bits@;
            let bit = bits_le[i].duplicate();
            bits.push(bit);
            proof {
                assert forall|j: int|
                    0 <= j < bits@.len() implies (#[trigger] bits@[j]).spec_value()
                        == le_values[bits_le@.len() - 1 - j] by {
                    if j < before.len() {
                        assert(bits@[j] == before[j]);
                        assert(before[j].spec_value() == le_values[bits_le@.len() - 1 - j]);
                    } else {
                        assert(bits@[j] == bit);
                    }
                }
            }
        }
        proof {
            assert(bit_values(bits@) =~= bit_values(self.bits_le@).take(
                8 * self.num_bytes as int,
            ).reverse());
        }
        bits
    }
}

} // verus!

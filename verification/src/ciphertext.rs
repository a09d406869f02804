//! The ciphertext data type: a list of base-field elements, with its bit
//! representations.

use vstd::prelude::*;
use vstd::arithmetic::power2::pow2;
use crate::arith::{FIELD_BITS, bits_nat, is_field_element, u64_to_bits_le};

verus! {

/// A ciphertext: the ordered field elements an encrypted value was encoded
/// into.
#[derive(Clone, Debug)]
pub struct Ciphertext {
    pub fields: Vec<u64>,
}

impl Ciphertext {
    /// Whether every element is a canonical field element.
    pub open spec fn wf(self) -> bool {
        forall|i: int| 0 <= i < self.fields@.len() ==> is_field_element(#[trigger] self.fields@[i])
    }

    /// Wraps a list of field elements as a ciphertext.
    pub fn new(fields: Vec<u64>) -> (r: Ciphertext)
        requires
            forall|i: int| 0 <= i < fields@.len() ==> is_field_element(#[trigger] fields@[i]),
        ensures
            r.wf(),
            r.fields@ == fields@,
    {
        Ciphertext { fields }
    }

    /// Returns this ciphertext as a list of little-endian bits: each field
    /// element contributes its full width, lowest bit first, in order.
    pub fn to_bits_le(&self) -> (r: Vec<bool>)
        requires
            self.wf(),
            self.fields@.len() * FIELD_BITS <= usize::MAX,
        ensures
            r@.len() == self.fields@.len() * FIELD_BITS,
            forall|c: int|
                0 <= c < self.fields@.len() ==> bits_nat(
                    #[trigger] r@.subrange(c * FIELD_BITS, (c + 1) * FIELD_BITS),
                ) == self.fields@[c],
    {
        let n = self.fields.len();
        let mut bits: Vec<bool> = Vec::new();
        let mut i: usize = 0;
        proof {
            assert(pow2(61) == 0x2000000000000000) by {
                vstd::arithmetic::power2::lemma2_to64_rest();
            }
        }
        while i < n
            invariant
                self.wf(),
                n == self.fields@.len(),
                n * FIELD_BITS <= usize::MAX,
                0 <= i <= n,
                bits@.len() == i * FIELD_BITS,
                pow2(61) == 0x2000000000000000,
                forall|c: int|
                    0 <= c < i ==> bits_nat(
                        #[trigger] bits@.subrange(c * FIELD_BITS, (c + 1) * FIELD_BITS),
                    ) == self.fields@[c],
            decreases n - i,
        {
            proof {
                assert(is_field_element(self.fields@[i as int]));
                vstd::arithmetic::mul::lemma_mul_inequality(
                    (i + 1) as int,
                    n as int,
                    FIELD_BITS as int,
                );
            }
            let ghost before = bits@;
            let element_bits = u64_to_bits_le(self.fields[i], FIELD_BITS);
            let mut j: usize = 0;
            while j < FIELD_BITS
                invariant
                    element_bits@.len() == FIELD_BITS,
                    0 <= j <= FIELD_BITS,
                    bits@.len() == before.len() + j,
                    bits@ =~= before + element_bits@.take(j as int),
                decreases FIELD_BITS - j,
            {
                bits.push(element_bits[j]);
                j = j + 1;
            }
            proof {
                assert(element_bits@.take(FIELD_BITS as int) =~= element_bits@);
                assert(bits@ =~= before + element_bits@);
                assert forall|c: int|
                    0 <= c < i + 1 implies bits_nat(
                    #[trigger] bits@.subrange(c * FIELD_BITS, (c + 1) * FIELD_BITS),
                ) == self.fields@[c] by {
                    if c < i {
                        vstd::arithmetic::mul::lemma_mul_inequality(
                            (c + 1) as int,
                            i as int,
                            FIELD_BITS as int,
                        );
                        vstd::arithmetic::mul::lemma_mul_inequality(c, i as int, FIELD_BITS as int);
                        assert(bits@.subrange(c * FIELD_BITS, (c + 1) * FIELD_BITS)
                            =~= before.subrange(c * FIELD_BITS, (c + 1) * FIELD_BITS));
                    } else {
                        assert(bits@.subrange(c * FIELD_BITS, (c + 1) * FIELD_BITS)
                            =~= element_bits@);
                    }
                }
            }
            i = i + 1;
        }
        bits
    }

    /// Returns this ciphertext as a list of big-endian bits: each field
    /// element contributes its full width, highest bit first, in order.
    pub fn to_bits_be(&self) -> (r: Vec<bool>)
        requires
            self.wf(),
            self.fields@.len() * FIELD_BITS <= usize::MAX,
        ensures
            r@.len() == self.fields@.len() * FIELD_BITS,
            forall|c: int|
                0 <= c < self.fields@.len() ==> bits_nat(
                    #[trigger] r@.subrange(c * FIELD_BITS, (c + 1) * FIELD_BITS).reverse(),
                ) == self.fields@[c],
    {
        let n = self.fields.len();
        let mut bits: Vec<bool> = Vec::new();
        let mut i: usize = 0;
        proof {
            assert(pow2(61) == 0x2000000000000000) by {
                vstd::arithmetic::power2::lemma2_to64_rest();
            }
        }
        while i < n
            invariant
                self.wf(),
                n == self.fields@.len(),
                n * FIELD_BITS <= usize::MAX,
                0 <= i <= n,
                bits@.len() == i * FIELD_BITS,
                pow2(61) == 0x2000000000000000,
                forall|c: int|
                    0 <= c < i ==> bits_nat(
                        #[trigger] bits@.subrange(c * FIELD_BITS, (c + 1) * FIELD_BITS).reverse(),
                    ) == self.fields@[c],
            decreases n - i,
        {
            proof {
                assert(is_field_element(self.fields@[i as int]));
                vstd::arithmetic::mul::lemma_mul_inequality(
                    (i + 1) as int,
                    n as int,
                    FIELD_BITS as int,
                );
            }
            let ghost before = bits@;
            let element_bits = u64_to_bits_le(self.fields[i], FIELD_BITS);
            let mut j: usize = FIELD_BITS;
            while j > 0
                invariant
                    element_bits@.len() == FIELD_BITS,
                    0 <= j <= FIELD_BITS,
                    bits@.len() == before.len() + (FIELD_BITS - j),
                    bits@ =~= before + element_bits@.skip(j as int).reverse(),
                decreases j,
            {
                j = j - 1;
                let ghost mid = bits@;
                bits.push(element_bits[j]);
                proof {
                    assert(element_bits@.skip(j as int).reverse() =~= element_bits@.skip(
                        j + 1,
                    ).reverse().push(element_bits@[j as int]));
                    assert(bits@ =~= mid.push(element_bits@[j as int]));
                    assert(bits@ =~= before + element_bits@.skip(j as int).reverse());
                }
            }
            proof {
                assert(element_bits@.skip(0) =~= element_bits@);
                assert(bits@ =~= before + element_bits@.reverse());
                assert forall|c: int|
                    0 <= c < i + 1 implies bits_nat(
                    #[trigger] bits@.subrange(c * FIELD_BITS, (c + 1) * FIELD_BITS).reverse(),
                ) == self.fields@[c] by {
                    if c < i {
                        vstd::arithmetic::mul::lemma_mul_inequality(
                            (c + 1) as int,
                            i as int,
                            FIELD_BITS as int,
                        );
                        vstd::arithmetic::mul::lemma_mul_inequality(c, i as int, FIELD_BITS as int);
                        assert(bits@.subrange(c * FIELD_BITS, (c + 1) * FIELD_BITS)
                            =~= before.subrange(c * FIELD_BITS, (c + 1) * FIELD_BITS));
                    } else {
                        assert(bits@.subrange(c * FIELD_BITS, (c + 1) * FIELD_BITS)
                            =~= element_bits@.reverse());
                        assert(element_bits@.reverse().reverse() =~= element_bits@);
                    }
                }
            }
            i = i + 1;
        }
        bits
    }
}

} // verus!

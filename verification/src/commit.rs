//! A commitment built from the ternary gate: a hash blinded by the sum of
//! the base powers that the randomizer's bits select.
//!
//! This is the uncompressed commitment shape `hash + sum(bit_i ? power_i :
//! 0)`. The hash itself and the table of base powers come from outside
//! collaborators; this module owns the gadget composition, which selects each
//! power by one ternary gate and accumulates by free linear addition, so the
//! whole commitment adds no constraint: every selection has a variable
//! condition over two constant branches.

use vstd::prelude::*;
use crate::arith::{FIELD_MODULUS, add_spec};
use crate::boolean::bit_values;
use crate::count::Count;
use crate::fabric::Fabric;
use crate::field::Field;
use crate::mode::Mode;
use crate::scalar::{Scalar, SCALAR_BITS};

verus! {

/// The assigned values of a sequence of field circuit values.
pub open spec fn field_values(s: Seq<Field>) -> Seq<u64> {
    s.map_values(|f: Field| f.spec_value())
}

/// Whether every field value in the sequence is canonical.
pub open spec fn fields_wf(s: Seq<Field>) -> bool {
    forall|i: int| 0 <= i < s.len() ==> (#[trigger] s[i]).wf()
}

/// Whether every field value in the sequence is a constant.
pub open spec fn fields_constant(s: Seq<Field>) -> bool {
    forall|i: int| 0 <= i < s.len() ==> (#[trigger] s[i]).mode == Mode::Constant
}

/// The committed value: the hash plus each power whose bit is set, reduced
/// modulo the field after every addition.
pub open spec fn commit_value(hash: u64, bits: Seq<bool>, powers: Seq<u64>) -> nat
    decreases bits.len(),
{
    if bits.len() == 0 {
        hash as nat
    } else {
        (commit_value(hash, bits.drop_last(), powers.drop_last()) + if bits.last() {
            powers[bits.len() - 1] as nat
        } else {
            0
        }) % (FIELD_MODULUS as int) as nat
    }
}

/// Returns the commitment of the given hash and randomizer as a field
/// value: the hash plus, for each bit of the randomizer, the matching base
/// power or zero, each picked by one ternary gate.
///
/// The base powers are constants, so every selection is free — a constant
/// condition picks directly, a variable one blends two constant branches —
/// and the additions are linear: the whole gate allocates nothing and
/// enforces nothing, whatever the operands' modes.
pub fn commit_uncompressed(
    fabric: &mut Fabric,
    hash: &Field,
    randomizer: &Scalar,
    random_base: &Vec<Field>,
) -> (r: Field)
    requires
        old(fabric).wf(),
        hash.wf(),
        randomizer.wf(),
        random_base@.len() == SCALAR_BITS,
        fields_wf(random_base@),
        fields_constant(random_base@),
    ensures
        final (fabric).wf(),
        r.wf(),
        r.spec_value() == commit_value(
            hash.spec_value(),
            bit_values(randomizer.bits_le@),
            field_values(random_base@),
        ),
        Fabric::grew_by(*final (fabric), *old(fabric), Count::spec_zero()),
        Fabric::keeps_satisfaction(*final (fabric), *old(fabric)),
{
    let zero = Field::constant(0);
    let mut accumulator = hash.duplicate();
    let mut i: usize = 0;
    let ghost bits = bit_values(randomizer.bits_le@);
    let ghost powers = field_values(random_base@);
    proof {
        assert(bits.take(0) =~= Seq::<bool>::empty());
        assert(powers.take(0) =~= Seq::<u64>::empty());
    }
    while i < SCALAR_BITS
        invariant
            old(fabric).wf(),
            fabric.wf(),
            hash.wf(),
            randomizer.wf(),
            random_base@.len() == SCALAR_BITS,
            fields_wf(random_base@),
            fields_constant(random_base@),
            zero.wf(),
            zero.mode == Mode::Constant,
            zero.spec_value() == 0,
            0 <= i <= SCALAR_BITS,
            bits == bit_values(randomizer.bits_le@),
            powers == field_values(random_base@),
            accumulator.wf(),
            accumulator.spec_value() == commit_value(
                hash.spec_value(),
                bits.take(i as int),
                powers.take(i as int),
            ),
            Fabric::grew_by(*fabric, *old(fabric), Count::spec_zero()),
            Fabric::keeps_satisfaction(*fabric, *old(fabric)),
        decreases SCALAR_BITS - i,
    {
        proof {
            assert(randomizer.bits_le@[i as int].wf());
            assert(random_base@[i as int].wf());
            assert(random_base@[i as int].mode == Mode::Constant);
        }
        let ghost pre = *fabric;
        let selected = Field::ternary(fabric, &randomizer.bits_le[i], &random_base[i], &zero);
        let next = accumulator.add(&selected);
        proof {
            assert(bits.take(i + 1).drop_last() =~= bits.take(i as int));
            assert(powers.take(i + 1).drop_last() =~= powers.take(i as int));
            assert(bits.take(i + 1).last() == bits[i as int]);
            assert(selected.spec_value() == if bits[i as int] {
                powers[i as int]
            } else {
                0u64
            });
            assert(next.spec_value() == add_spec(
                accumulator.spec_value() as u64,
                selected.spec_value() as u64,
            ));
            if !bits[i as int] {
                vstd::arithmetic::div_mod::lemma_mod_bound(
                    (accumulator.spec_value() + 0) as int,
                    FIELD_MODULUS as int,
                );
            }
        }
        accumulator = next;
        i = i + 1;
    }
    proof {
        assert(bits.take(SCALAR_BITS as int) =~= bits);
        assert(powers.take(SCALAR_BITS as int) =~= powers);
    }
    accumulator
}

} // verus!

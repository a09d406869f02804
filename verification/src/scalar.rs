//! The scalar circuit type: a scalar-field element represented by its
//! little-endian bits, with the bit-decomposition and range-check gate.
//!
//! The scalar field is smaller than the base field: its elements fit in
//! `SCALAR_BITS` bits, of which only `SCALAR_DATA_BITS` can be packed freely.
//! Reconstructing a scalar from caller-supplied bits must suppress excess
//! bits and, at full width, prove the value below the scalar modulus — both
//! enforced in the fabric, never by failing at construction time.

use vstd::prelude::*;
use vstd::arithmetic::power2::pow2;
use crate::arith::{
    bits_nat, u64_to_bits_le, bits_to_u64, lemma_bits_nat_take_all, lemma_bits_nat_compare_step,
    lemma_bits_nat_trailing_zeros,
};
use crate::boolean::{Boolean, bit_values, bits_wf, all_constant, none_constant};
use crate::count::Count;
use crate::fabric::{Fabric, LinearCombination};
use crate::mode::Mode;

verus! {

/// The prime modulus of the scalar field: 2^31 - 1.
pub const SCALAR_MODULUS: u64 = 0x7FFF_FFFF;

/// The full bit width of a scalar-field element.
pub const SCALAR_BITS: usize = 31;

/// The number of bits that can carry data without a range check.
pub const SCALAR_DATA_BITS: usize = 30;

/// A circuit value holding a scalar-field element as its bits.
#[derive(Clone, Debug)]
pub struct Scalar {
    pub bits_le: Vec<Boolean>,
}

impl Scalar {
    /// Whether the value is canonical: exactly the scalar width's bits,
    /// every bit canonical.
    pub open spec fn wf(self) -> bool {
        &&& self.bits_le@.len() == SCALAR_BITS
        &&& bits_wf(self.bits_le@)
    }

    /// The assigned scalar, as the value of its little-endian bits.
    pub open spec fn spec_value(self) -> nat {
        bits_nat(bit_values(self.bits_le@))
    }

    /// Injects a new scalar of the given mode into the fabric, one boolean
    /// per bit: for a non-constant scalar, one wire and one booleanity
    /// constraint per bit; for a constant scalar, one constant per bit.
    pub fn new(fabric: &mut Fabric, mode: Mode, value: u64) -> (r: Scalar)
        requires
            old(fabric).wf(),
            value < SCALAR_MODULUS,
        ensures
            final (fabric).wf(),
            r.wf(),
            r.spec_value() == value,
            forall|i: int| 0 <= i < SCALAR_BITS ==> #[trigger] r.bits_le@[i].mode == mode,
            mode == Mode::Constant ==> Fabric::grew_by(
                *final (fabric),
                *old(fabric),
                Count { constants: SCALAR_BITS, public: 0, private: 0, constraints: 0 },
            ),
            mode == Mode::Public ==> Fabric::grew_by(
                *final (fabric),
                *old(fabric),
                Count { constants: 0, public: SCALAR_BITS, private: 0, constraints: SCALAR_BITS },
            ),
            mode == Mode::Private ==> Fabric::grew_by(
                *final (fabric),
                *old(fabric),
                Count { constants: 0, public: 0, private: SCALAR_BITS, constraints: SCALAR_BITS },
            ),
            Fabric::keeps_satisfaction(*final (fabric), *old(fabric)),
    {
        proof {
            assert(pow2(31) == 0x80000000) by {
                vstd::arithmetic::power2::lemma2_to64();
                vstd::arithmetic::power2::lemma_pow2_adds(30, 1);
                vstd::arithmetic::power2::lemma2_to64_rest();
            }
        }
        let values = u64_to_bits_le(value, SCALAR_BITS);
        let mut bits_le: Vec<Boolean> = Vec::new();
        let mut i: usize = 0;
        while i < SCALAR_BITS
            invariant
                old(fabric).wf(),
                fabric.wf(),
                0 <= i <= SCALAR_BITS,
                values@.len() == SCALAR_BITS,
                bits_le@.len() == i,
                bits_wf(bits_le@),
                forall|j: int| 0 <= j < i ==> #[trigger] bits_le@[j].mode == mode,
                forall|j: int| 0 <= j < i ==> #[trigger] bits_le@[j].spec_value() == values@[j],
                fabric.constants@.len() == old(fabric).constants@.len() + if mode
                    == Mode::Constant {
                    i as int
                } else {
                    0
                },
                fabric.public@.len() == old(fabric).public@.len() + if mode == Mode::Public {
                    i as int
                } else {
                    0
                },
                fabric.private@.len() == old(fabric).private@.len() + if mode == Mode::Private {
                    i as int
                } else {
                    0
                },
                fabric.constraints@.len() == old(fabric).constraints@.len() + if mode
                    == Mode::Constant {
                    0
                } else {
                    i as int
                },
                forall|j: int|
                    0 <= j < old(fabric).constraints@.len() ==> #[trigger] fabric.constraints@[j]
                        == old(fabric).constraints@[j],
                fabric.scopes@ == old(fabric).scopes@,
                fabric.spec_satisfied() == old(fabric).spec_satisfied(),
            decreases SCALAR_BITS - i,
        {
            let bit = Boolean::new(fabric, mode, values[i]);
            bits_le.push(bit);
            i = i + 1;
        }
        proof {
            assert(bit_values(bits_le@) =~= values@);
        }
        Scalar { bits_le }
    }

    /// The little-endian bits of the scalar, an equal copy of each.
    pub fn to_bits_le(&self) -> (r: Vec<Boolean>)
        requires
            self.wf(),
        ensures
            r@.len() == SCALAR_BITS,
            bits_wf(r@),
            bit_values(r@) =~= bit_values(self.bits_le@),
            forall|i: int| 0 <= i < SCALAR_BITS ==> (#[trigger] r@[i]).mode == self.bits_le@[i].mode,
    {
        let mut bits_le: Vec<Boolean> = Vec::new();
        let mut i: usize = 0;
        while i < self.bits_le.len()
            invariant
                self.wf(),
                0 <= i <= SCALAR_BITS,
                bits_le@.len() == i,
                bits_wf(bits_le@),
                forall|j: int| 0 <= j < i ==> #[trigger] bits_le@[j].mode == self.bits_le@[j].mode,
                forall|j: int|
                    0 <= j < i ==> #[trigger] bits_le@[j].spec_value()
                        == self.bits_le@[j].spec_value(),
            decreases self.bits_le@.len() - i,
        {
            proof {
                assert(self.bits_le@[i as int].wf());
            }
            bits_le.push(self.bits_le[i].duplicate());
            i = i + 1;
        }
        proof {
            assert(bit_values(bits_le@) =~= bit_values(self.bits_le@));
        }
        bits_le
    }

    /// Folds the bits past the scalar width into one disjunction and
    /// constrains it to zero, so that a nonzero excess bit leaves the
    /// system unsatisfiable.
    fn suppress_excess(fabric: &mut Fabric, bits_le: &Vec<Boolean>)
        requires
            old(fabric).wf(),
            bits_wf(bits_le@),
            bits_le@.len() > SCALAR_BITS,
        ensures
            final (fabric).wf(),
            final (fabric).spec_satisfied() == (old(fabric).spec_satisfied() && (forall|i: int|
                SCALAR_BITS <= i < bits_le@.len() ==> !((#[trigger] bits_le@[i]).spec_value()))),
            final (fabric).constants@.len() == old(fabric).constants@.len(),
            final (fabric).public@.len() == old(fabric).public@.len(),
            final (fabric).scopes@ == old(fabric).scopes@,
            final (fabric).constraints@.len() >= old(fabric).constraints@.len(),
            forall|i: int|
                0 <= i < old(fabric).constraints@.len() ==> #[trigger] final (fabric).constraints@[i] == old(fabric).constraints@[i],
            all_constant(bits_le@) ==> final (fabric).private@.len() == old(fabric).private@.len() && final (fabric).constraints@.len() == old(fabric).constraints@.len() + (if (forall|i: int|
                SCALAR_BITS <= i < bits_le@.len() ==> !((#[trigger] bits_le@[i]).spec_value())) {
                0int
            } else {
                1int
            }),
            none_constant(bits_le@) ==> final (fabric).private@.len() == old(fabric).private@.len() + bits_le@.len() - SCALAR_BITS - 1 && final (fabric).constraints@.len() == old(fabric).constraints@.len() + bits_le@.len() - SCALAR_BITS,
    {
        let num_bits = bits_le.len();
        let mut should_be_zero = Boolean::constant(false);
        let mut j: usize = SCALAR_BITS;
        while j < num_bits
            invariant
                old(fabric).wf(),
                fabric.wf(),
                bits_wf(bits_le@),
                num_bits == bits_le@.len(),
                num_bits > SCALAR_BITS,
                SCALAR_BITS <= j <= num_bits,
                should_be_zero.wf(),
                should_be_zero.spec_value() == !(forall|i: int|
                    SCALAR_BITS <= i < j ==> !((#[trigger] bits_le@[i]).spec_value())),
                j == SCALAR_BITS ==> should_be_zero.mode == Mode::Constant,
                all_constant(bits_le@) ==> should_be_zero.mode == Mode::Constant,
                none_constant(bits_le@) && j > SCALAR_BITS ==> should_be_zero.mode
                    != Mode::Constant,
                fabric.constraints@.len() >= old(fabric).constraints@.len(),
                fabric.constants@.len() == old(fabric).constants@.len(),
                fabric.public@.len() == old(fabric).public@.len(),
                fabric.scopes@ == old(fabric).scopes@,
                all_constant(bits_le@) ==> fabric.private@.len() == old(fabric).private@.len()
                    && fabric.constraints@.len() == old(fabric).constraints@.len(),
                none_constant(bits_le@) ==> fabric.private@.len() == old(fabric).private@.len()
                    + (if j > SCALAR_BITS {
                    j - SCALAR_BITS - 1
                } else {
                    0int
                }) && fabric.constraints@.len() == old(fabric).constraints@.len() + (if j
                    > SCALAR_BITS {
                    j - SCALAR_BITS - 1
                } else {
                    0int
                }),
                forall|i: int|
                    0 <= i < old(fabric).constraints@.len() ==> #[trigger] fabric.constraints@[i]
                        == old(fabric).constraints@[i],
                fabric.spec_satisfied() == old(fabric).spec_satisfied(),
            decreases num_bits - j,
        {
            proof {
                assert(bits_le@[j as int].wf());
                if all_constant(bits_le@) {
                    assert(bits_le@[j as int].mode == Mode::Constant);
                }
                if none_constant(bits_le@) {
                    assert(bits_le@[j as int].mode != Mode::Constant);
                }
            }
            let ghost pre = *fabric;
            let next = Boolean::or(fabric, &should_be_zero, &bits_le[j]);
            proof {
                assert forall|i: int|
                    0 <= i < old(fabric).constraints@.len() implies #[trigger] fabric.constraints@[i]
                        == old(fabric).constraints@[i] by {
                    assert(fabric.constraints@[i] == pre.constraints@[i]);
                    assert(pre.constraints@[i] == old(fabric).constraints@[i]);
                }
                if next.spec_value() {
                    if should_be_zero.spec_value() {
                        let w = choose|i: int|
                            SCALAR_BITS <= i < j && #[trigger] bits_le@[i].spec_value();
                        assert(bits_le@[w].spec_value());
                    } else {
                        assert(bits_le@[j as int].spec_value());
                    }
                } else {
                    assert forall|i: int|
                        SCALAR_BITS <= i < j + 1 implies !(
                    #[trigger] bits_le@[i].spec_value()) by {
                        if i < j {
                            assert(!bits_le@[i].spec_value());
                        }
                    }
                }
            }
            should_be_zero = next;
            j = j + 1;
        }
        let zero = LinearCombination::from_constant(0);
        let ghost pre = *fabric;
        fabric.assert_eq(&zero, &should_be_zero.lc);
        proof {
            assert forall|i: int|
                0 <= i < old(fabric).constraints@.len() implies #[trigger] fabric.constraints@[i]
                    == old(fabric).constraints@[i] by {
                assert(fabric.constraints@[i] == pre.constraints@[i]);
                assert(pre.constraints@[i] == old(fabric).constraints@[i]);
            }
            if should_be_zero.spec_value() {
                assert(should_be_zero.lc.value == 1);
            } else {
                assert(should_be_zero.lc.value == 0);
            }
        }
    }

    /// The sanitized list of bits: the first `SCALAR_BITS` of the input,
    /// each an equal copy, padded up with constant zeros.
    fn sanitize(bits_le: &Vec<Boolean>) -> (r: Vec<Boolean>)
        requires
            bits_wf(bits_le@),
        ensures
            r@.len() == SCALAR_BITS,
            bits_wf(r@),
            forall|i: int|
                0 <= i < bits_le@.len() && i < SCALAR_BITS ==> (#[trigger] r@[i]).spec_value()
                    == bits_le@[i].spec_value() && r@[i].mode == bits_le@[i].mode,
            forall|i: int|
                bits_le@.len() <= i < SCALAR_BITS ==> !((#[trigger] r@[i]).spec_value()) && r@[i].mode
                    == Mode::Constant,
            bits_le@.len() <= SCALAR_BITS ==> bits_nat(bit_values(r@)) == bits_nat(
                bit_values(bits_le@),
            ),
            bits_le@.len() > SCALAR_BITS ==> bits_nat(bit_values(r@)) == bits_nat(
                bit_values(bits_le@).take(SCALAR_BITS as int),
            ),
            all_constant(bits_le@) ==> all_constant(r@),
            (none_constant(bits_le@) && bits_le@.len() >= SCALAR_BITS) ==> none_constant(r@),
    {
        let num_bits = bits_le.len();
        let keep: usize = if num_bits < SCALAR_BITS {
            num_bits
        } else {
            SCALAR_BITS
        };
        let mut sanitized: Vec<Boolean> = Vec::new();
        let mut i: usize = 0;
        while i < keep
            invariant
                bits_wf(bits_le@),
                keep <= bits_le@.len(),
                keep <= SCALAR_BITS,
                0 <= i <= keep,
                sanitized@.len() == i,
                bits_wf(sanitized@),
                forall|j: int|
                    0 <= j < i ==> (#[trigger] sanitized@[j]).spec_value()
                        == bits_le@[j].spec_value() && sanitized@[j].mode == bits_le@[j].mode,
            decreases keep - i,
        {
            proof {
                assert(bits_le@[i as int].wf());
            }
            let ghost before = sanitized@;
            let bit = bits_le[i].duplicate();
            sanitized.push(bit);
            proof {
                assert forall|j: int|
                    0 <= j < i + 1 implies (#[trigger] sanitized@[j]).spec_value()
                        == bits_le@[j].spec_value() && sanitized@[j].mode == bits_le@[j].mode by {
                    if j < i {
                        assert(sanitized@[j] == before[j]);
                        assert(before[j].spec_value() == bits_le@[j].spec_value()
                            && before[j].mode == bits_le@[j].mode);
                    } else {
                        assert(sanitized@[j] == bit);
                    }
                }
            }
            i = i + 1;
        }
        while i < SCALAR_BITS
            invariant
                bits_wf(bits_le@),
                keep <= bits_le@.len(),
                keep <= SCALAR_BITS,
                keep <= i <= SCALAR_BITS,
                sanitized@.len() == i,
                bits_wf(sanitized@),
                forall|j: int|
                    0 <= j < keep ==> (#[trigger] sanitized@[j]).spec_value()
                        == bits_le@[j].spec_value() && sanitized@[j].mode == bits_le@[j].mode,
                forall|j: int|
                    keep <= j < i ==> !((#[trigger] sanitized@[j]).spec_value()) && sanitized@[j].mode
                        == Mode::Constant,
            decreases SCALAR_BITS - i,
        {
            let ghost before = sanitized@;
            let pad = Boolean::constant(false);
            sanitized.push(pad);
            proof {
                assert forall|j: int|
                    0 <= j < keep implies (#[trigger] sanitized@[j]).spec_value()
                        == bits_le@[j].spec_value() && sanitized@[j].mode == bits_le@[j].mode by {
                    assert(sanitized@[j] == before[j]);
                    assert(before[j].spec_value() == bits_le@[j].spec_value() && before[j].mode
                        == bits_le@[j].mode);
                }
                assert forall|j: int|
                    keep <= j < i + 1 implies !((#[trigger] sanitized@[j]).spec_value())
                        && sanitized@[j].mode == Mode::Constant by {
                    if j < i {
                        assert(sanitized@[j] == before[j]);
                        assert(!before[j].spec_value() && before[j].mode == Mode::Constant);
                    } else {
                        assert(sanitized@[j] == pad);
                    }
                }
            }
            i = i + 1;
        }
        proof {
            assert(bit_values(sanitized@).take(keep as int) =~= bit_values(bits_le@).take(
                keep as int,
            ));
            lemma_bits_nat_trailing_zeros(bit_values(sanitized@), keep as int);
            if num_bits <= SCALAR_BITS {
                assert(bit_values(bits_le@).take(keep as int) =~= bit_values(bits_le@));
            }
            if all_constant(bits_le@) {
                assert forall|j: int|
                    0 <= j < sanitized@.len() implies (#[trigger] sanitized@[j]).mode
                    == Mode::Constant by {
                    if j < keep {
                        assert(bits_le@[j].mode == Mode::Constant);
                        assert(sanitized@[j].mode == bits_le@[j].mode);
                    } else {
                        assert(sanitized@[j].mode == Mode::Constant);
                    }
                }
            }
            if none_constant(bits_le@) && num_bits >= SCALAR_BITS {
                assert forall|j: int|
                    0 <= j < sanitized@.len() implies (#[trigger] sanitized@[j]).mode
                    != Mode::Constant by {
                    assert(bits_le@[j].mode != Mode::Constant);
                    assert(sanitized@[j].mode == bits_le@[j].mode);
                }
            }
        }
        sanitized
    }

    /// Compares the sanitized bits against the scalar modulus minus one,
    /// most significant bit first, through a chain of ternary selections,
    /// and constrains the aggregate "modulus minus one is less" flag to
    /// zero: a value at or above the modulus leaves the system
    /// unsatisfiable.
    fn range_check(fabric: &mut Fabric, sanitized: &Vec<Boolean>)
        requires
            old(fabric).wf(),
            sanitized@.len() == SCALAR_BITS,
            bits_wf(sanitized@),
        ensures
            final (fabric).wf(),
            final (fabric).spec_satisfied() == (old(fabric).spec_satisfied() && bits_nat(
                bit_values(sanitized@),
            ) < SCALAR_MODULUS),
            final (fabric).constants@.len() == old(fabric).constants@.len(),
            final (fabric).public@.len() == old(fabric).public@.len(),
            final (fabric).scopes@ == old(fabric).scopes@,
            final (fabric).constraints@.len() >= old(fabric).constraints@.len(),
            forall|i: int|
                0 <= i < old(fabric).constraints@.len() ==> #[trigger] final (fabric).constraints@[i] == old(fabric).constraints@[i],
            all_constant(sanitized@) ==> final (fabric).private@.len() == old(fabric).private@.len() && final (fabric).constraints@.len() == old(fabric).constraints@.len() + (if bits_nat(bit_values(sanitized@)) < SCALAR_MODULUS {
                0int
            } else {
                1int
            }),
            none_constant(sanitized@) ==> final (fabric).private@.len() == old(fabric).private@.len() + SCALAR_BITS && final (fabric).constraints@.len() == old(fabric).constraints@.len() + SCALAR_BITS + 1,
    {
        let modulus_minus_one_bits = u64_to_bits_le(SCALAR_MODULUS - 1, SCALAR_BITS);
        proof {
            assert(pow2(31) == 0x80000000) by {
                vstd::arithmetic::power2::lemma2_to64();
                vstd::arithmetic::power2::lemma_pow2_adds(30, 1);
                vstd::arithmetic::power2::lemma2_to64_rest();
            }
            assert(bit_values(sanitized@).take(0) =~= Seq::<bool>::empty());
            assert(modulus_minus_one_bits@.take(0) =~= Seq::<bool>::empty());
        }
        let mut rest_is_less = Boolean::constant(false);
        let mut k: usize = 0;
        while k < SCALAR_BITS
            invariant
                old(fabric).wf(),
                fabric.wf(),
                0 <= k <= SCALAR_BITS,
                modulus_minus_one_bits@.len() == SCALAR_BITS,
                sanitized@.len() == SCALAR_BITS,
                bits_wf(sanitized@),
                rest_is_less.wf(),
                rest_is_less.spec_value() == (bits_nat(modulus_minus_one_bits@.take(k as int))
                    < bits_nat(bit_values(sanitized@).take(k as int))),
                k == 0 ==> rest_is_less.mode == Mode::Constant,
                bits_nat(modulus_minus_one_bits@) == SCALAR_MODULUS - 1,
                fabric.constraints@.len() >= old(fabric).constraints@.len(),
                fabric.constants@.len() == old(fabric).constants@.len(),
                fabric.public@.len() == old(fabric).public@.len(),
                fabric.scopes@ == old(fabric).scopes@,
                all_constant(sanitized@) ==> fabric.private@.len() == old(fabric).private@.len()
                    && fabric.constraints@.len() == old(fabric).constraints@.len()
                    && rest_is_less.mode == Mode::Constant,
                none_constant(sanitized@) ==> fabric.private@.len() == old(fabric).private@.len()
                    + k && fabric.constraints@.len() == old(fabric).constraints@.len() + k,
                none_constant(sanitized@) && k > 0 ==> rest_is_less.mode != Mode::Constant,
                forall|i: int|
                    0 <= i < old(fabric).constraints@.len() ==> #[trigger] fabric.constraints@[i]
                        == old(fabric).constraints@[i],
                fabric.spec_satisfied() == old(fabric).spec_satisfied(),
            decreases SCALAR_BITS - k,
        {
            proof {
                assert(sanitized@[k as int].wf());
                if all_constant(sanitized@) {
                    assert(sanitized@[k as int].mode == Mode::Constant);
                }
                if none_constant(sanitized@) {
                    assert(sanitized@[k as int].mode != Mode::Constant);
                }
                lemma_bits_nat_compare_step(
                    modulus_minus_one_bits@,
                    bit_values(sanitized@),
                    k as int,
                );
            }
            let ghost pre = *fabric;
            let next = if modulus_minus_one_bits[k] {
                let cond = sanitized[k].not();
                Boolean::ternary(fabric, &cond, &sanitized[k], &rest_is_less)
            } else {
                Boolean::ternary(fabric, &sanitized[k], &sanitized[k], &rest_is_less)
            };
            proof {
                assert forall|i: int|
                    0 <= i < old(fabric).constraints@.len() implies #[trigger] fabric.constraints@[i]
                        == old(fabric).constraints@[i] by {
                    assert(fabric.constraints@[i] == pre.constraints@[i]);
                    assert(pre.constraints@[i] == old(fabric).constraints@[i]);
                }
            }
            rest_is_less = next;
            k = k + 1;
        }
        let ok = rest_is_less.not();
        let ghost pre = *fabric;
        Boolean::enforce_true(fabric, &ok);
        proof {
            assert forall|i: int|
                0 <= i < old(fabric).constraints@.len() implies #[trigger] fabric.constraints@[i]
                    == old(fabric).constraints@[i] by {
                assert(fabric.constraints@[i] == pre.constraints@[i]);
                assert(pre.constraints@[i] == old(fabric).constraints@[i]);
            }
            lemma_bits_nat_take_all(modulus_minus_one_bits@);
            lemma_bits_nat_take_all(bit_values(sanitized@));
        }
    }

    /// Initializes a new scalar from a list of little-endian bits.
    ///
    /// The first `SCALAR_BITS` bits become the scalar; shorter lists are
    /// padded with constant zeros. Two properties are enforced in the fabric
    /// rather than checked at construction time, so this gadget always returns
    /// a value and an out-of-range input merely leaves the system
    /// unsatisfiable:
    /// - excess-bit suppression: every bit past `SCALAR_BITS` is folded into
    ///   a disjunction that is constrained to zero;
    /// - range check: when the list reaches past `SCALAR_DATA_BITS`, a
    ///   most-significant-bit-first comparison chain of ternary selections
    ///   constrains the value to at most the scalar modulus minus one.
    ///
    /// The cost is stated for uniform inputs: all-constant bits are free but
    /// for the constraints that a violated check leaves behind; bits none of
    /// which is constant pay one disjunction per excess bit past the first,
    /// one comparison selection per scalar bit, and one constraint for each
    /// of the two final checks that run.
    pub fn from_bits_le(fabric: &mut Fabric, bits_le: &Vec<Boolean>) -> (r: Scalar)
        requires
            old(fabric).wf(),
            bits_wf(bits_le@),
        ensures
            final (fabric).wf(),
            r.wf(),
            bits_le@.len() <= SCALAR_BITS ==> r.spec_value() == bits_nat(bit_values(bits_le@)),
            bits_le@.len() > SCALAR_BITS ==> r.spec_value() == bits_nat(
                bit_values(bits_le@).take(SCALAR_BITS as int),
            ),
            forall|i: int|
                0 <= i < bits_le@.len() && i < SCALAR_BITS ==> (#[trigger] r.bits_le@[i]).spec_value()
                    == bits_le@[i].spec_value() && r.bits_le@[i].mode == bits_le@[i].mode,
            forall|i: int|
                bits_le@.len() <= i < SCALAR_BITS ==> !((#[trigger] r.bits_le@[i]).spec_value())
                    && r.bits_le@[i].mode == Mode::Constant,
            final (fabric).spec_satisfied() == (old(fabric).spec_satisfied() && (forall|i: int|
                SCALAR_BITS <= i < bits_le@.len() ==> !((#[trigger] bits_le@[i]).spec_value())) && (
            bits_le@.len() > SCALAR_DATA_BITS ==> r.spec_value() < SCALAR_MODULUS)),
            final (fabric).constants@.len() == old(fabric).constants@.len(),
            final (fabric).public@.len() == old(fabric).public@.len(),
            final (fabric).scopes@ == old(fabric).scopes@,
            final (fabric).constraints@.len() >= old(fabric).constraints@.len(),
            forall|i: int|
                0 <= i < old(fabric).constraints@.len() ==> #[trigger] final (fabric).constraints@[i] == old(fabric).constraints@[i],
            all_constant(bits_le@) ==> final (fabric).private@.len() == old(fabric).private@.len() && final (fabric).constraints@.len() == old(fabric).constraints@.len() + (if bits_le@.len() > SCALAR_BITS && !(forall|i: int|
                SCALAR_BITS <= i < bits_le@.len() ==> !((#[trigger] bits_le@[i]).spec_value())) {
                1int
            } else {
                0int
            }) + (if bits_le@.len() > SCALAR_DATA_BITS && !(r.spec_value() < SCALAR_MODULUS) {
                1int
            } else {
                0int
            }),
            none_constant(bits_le@) ==> final (fabric).private@.len() == old(fabric).private@.len() + (if bits_le@.len() > SCALAR_BITS {
                bits_le@.len() - SCALAR_BITS - 1
            } else {
                0int
            }) + (if bits_le@.len() > SCALAR_DATA_BITS {
                SCALAR_BITS as int
            } else {
                0int
            }) && final (fabric).constraints@.len() == old(fabric).constraints@.len() + (
            if bits_le@.len() > SCALAR_BITS {
                bits_le@.len() - SCALAR_BITS
            } else {
                0int
            }) + (if bits_le@.len() > SCALAR_DATA_BITS {
                SCALAR_BITS + 1int
            } else {
                0int
            }),
    {
        let num_bits = bits_le.len();
        if num_bits > SCALAR_BITS {
            Scalar::suppress_excess(fabric, bits_le);
        }
        let ghost after_excess = *fabric;
        let sanitized = Scalar::sanitize(bits_le);
        if num_bits > SCALAR_DATA_BITS {
            proof {
                if none_constant(bits_le@) {
                    assert(none_constant(sanitized@));
                }
            }
            Scalar::range_check(fabric, &sanitized);
            proof {
                assert forall|i: int|
                    0 <= i < old(fabric).constraints@.len() implies #[trigger] fabric.constraints@[i]
                        == old(fabric).constraints@[i] by {
                    assert(fabric.constraints@[i] == after_excess.constraints@[i]);
                    assert(after_excess.constraints@[i] == old(fabric).constraints@[i]);
                }
            }
        }
        let ghost sanitized_view = sanitized@;
        let r = Scalar { bits_le: sanitized };
        proof {
            assert(r.bits_le@ == sanitized_view);
            assert forall|i: int|
                0 <= i < bits_le@.len() && i < SCALAR_BITS
                    implies (#[trigger] r.bits_le@[i]).spec_value() == bits_le@[i].spec_value()
                    && r.bits_le@[i].mode == bits_le@[i].mode by {
                assert(sanitized_view[i].spec_value() == bits_le@[i].spec_value()
                    && sanitized_view[i].mode == bits_le@[i].mode);
            }
            assert forall|i: int|
                bits_le@.len() <= i < SCALAR_BITS implies !((#[trigger] r.bits_le@[i]).spec_value())
                    && r.bits_le@[i].mode == Mode::Constant by {
                assert(!sanitized_view[i].spec_value() && sanitized_view[i].mode
                    == Mode::Constant);
            }
        }
        r
    }

    /// Initializes a new scalar from a list of big-endian bits: the list is
    /// reversed into little-endian order and reconstructed by the same gate,
    /// with the same suppression and range checks and at the same cost.
    pub fn from_bits_be(fabric: &mut Fabric, bits_be: &Vec<Boolean>) -> (r: Scalar)
        requires
            old(fabric).wf(),
            bits_wf(bits_be@),
        ensures
            final (fabric).wf(),
            r.wf(),
            bits_be@.len() <= SCALAR_BITS ==> r.spec_value() == bits_nat(
                bit_values(bits_be@).reverse(),
            ),
            bits_be@.len() > SCALAR_BITS ==> r.spec_value() == bits_nat(
                bit_values(bits_be@).reverse().take(SCALAR_BITS as int),
            ),
            final (fabric).spec_satisfied() == (old(fabric).spec_satisfied() && (forall|i: int|
                SCALAR_BITS <= i < bits_be@.len() ==> !(#[trigger] bit_values(
                    bits_be@,
                ).reverse()[i])) && (bits_be@.len() > SCALAR_DATA_BITS ==> r.spec_value()
                < SCALAR_MODULUS)),
            final (fabric).constants@.len() == old(fabric).constants@.len(),
            final (fabric).public@.len() == old(fabric).public@.len(),
            final (fabric).scopes@ == old(fabric).scopes@,
            forall|i: int|
                0 <= i < old(fabric).constraints@.len() ==> #[trigger] final (fabric).constraints@[i] == old(fabric).constraints@[i],
            all_constant(bits_be@) ==> final (fabric).private@.len() == old(
                fabric,
            ).private@.len(),
            none_constant(bits_be@) ==> final (fabric).private@.len() == old(
                fabric,
            ).private@.len() + (if bits_be@.len() > SCALAR_BITS {
                bits_be@.len() - SCALAR_BITS - 1
            } else {
                0int
            }) + (if bits_be@.len() > SCALAR_DATA_BITS {
                SCALAR_BITS as int
            } else {
                0int
            }) && final (fabric).constraints@.len() == old(fabric).constraints@.len() + (
            if bits_be@.len() > SCALAR_BITS {
                bits_be@.len() - SCALAR_BITS
            } else {
                0int
            }) + (if bits_be@.len() > SCALAR_DATA_BITS {
                SCALAR_BITS + 1int
            } else {
                0int
            }),
    {
        let mut bits_le: Vec<Boolean> = Vec::new();
        let mut i: usize = bits_be.len();
        while i > 0
            invariant
                bits_wf(bits_be@),
                0 <= i <= bits_be@.len(),
                bits_le@.len() == bits_be@.len() - i,
                bits_wf(bits_le@),
                forall|j: int|
                    0 <= j < bits_le@.len() ==> ((#[trigger] bits_le@[j]).spec_value()
                        == bits_be@[bits_be@.len() - 1 - j].spec_value() && bits_le@[j].mode
                        == bits_be@[bits_be@.len() - 1 - j].mode),
            decreases i,
        {
            i = i - 1;
            proof {
                assert(bits_be@[i as int].wf());
            }
            let ghost before = bits_le@;
            let bit = bits_be[i].duplicate();
            bits_le.push(bit);
            proof {
                assert forall|j: int|
                    0 <= j < bits_le@.len() implies ((#[trigger] bits_le@[j]).spec_value()
                        == bits_be@[bits_be@.len() - 1 - j].spec_value() && bits_le@[j].mode
                        == bits_be@[bits_be@.len() - 1 - j].mode) by {
                    if j < before.len() {
                        assert(bits_le@[j] == before[j]);
                        assert(before[j].spec_value() == bits_be@[bits_be@.len() - 1
                            - j].spec_value() && before[j].mode == bits_be@[bits_be@.len() - 1
                            - j].mode);
                    } else {
                        assert(bits_le@[j] == bit);
                    }
                }
            }
        }
        proof {
            if all_constant(bits_be@) {
                assert forall|j: int|
                    0 <= j < bits_le@.len() implies (#[trigger] bits_le@[j]).mode
                    == Mode::Constant by {
                    assert(bits_be@[bits_be@.len() - 1 - j].mode == Mode::Constant);
                }
            }
            if none_constant(bits_be@) {
                assert forall|j: int|
                    0 <= j < bits_le@.len() implies (#[trigger] bits_le@[j]).mode
                    != Mode::Constant by {
                    assert(bits_be@[bits_be@.len() - 1 - j].mode != Mode::Constant);
                }
            }
        }
        let r = Scalar::from_bits_le(fabric, &bits_le);
        proof {
            let rev = bit_values(bits_be@).reverse();
            assert(bit_values(bits_le@) =~= rev);
            assert forall|i: int|
                SCALAR_BITS <= i < bits_le@.len() implies ((#[trigger] bits_le@[i]).spec_value()
                    == rev[i]) by {
                assert(bit_values(bits_le@)[i] == rev[i]);
            }
            if forall|i: int| SCALAR_BITS <= i < bits_le@.len() ==> !(#[trigger] rev[i]) {
                assert forall|i: int|
                    SCALAR_BITS <= i < bits_le@.len() implies !((
                #[trigger] bits_le@[i]).spec_value()) by {
                    assert(!rev[i]);
                }
            }
            if forall|i: int|
                SCALAR_BITS <= i < bits_le@.len() ==> !((#[trigger] bits_le@[i]).spec_value()) {
                assert forall|i: int|
                    SCALAR_BITS <= i < bits_le@.len() implies !(#[trigger] rev[i]) by {
                    assert(!bits_le@[i].spec_value());
                }
            }
        }
        r
    }

    /// The bit round trip: a scalar's little-endian bits, padded with any
    /// number of trailing zero bits, still encode the scalar's own value —
    /// so reconstructing a scalar from its (possibly padded) decomposition
    /// gives the value back.
    pub proof fn lemma_bit_round_trip(scalar: Scalar, padded: Seq<bool>)
        requires
            scalar.wf(),
            padded.len() >= SCALAR_BITS,
            padded.take(SCALAR_BITS as int) =~= bit_values(scalar.bits_le@),
            forall|i: int| SCALAR_BITS <= i < padded.len() ==> !padded[i],
        ensures
            bits_nat(padded) == scalar.spec_value(),
            bits_nat(padded.take(SCALAR_BITS as int)) == scalar.spec_value(),
    {
        lemma_bits_nat_trailing_zeros(padded, SCALAR_BITS as int);
    }

    /// The assigned scalar.
    pub fn eject_value(&self) -> (r: u64)
        requires
            self.wf(),
        ensures
            r == self.spec_value(),
    {
        let mut values: Vec<bool> = Vec::new();
        let mut i: usize = 0;
        while i < self.bits_le.len()
            invariant
                self.wf(),
                0 <= i <= SCALAR_BITS,
                values@.len() == i,
                forall|j: int|
                    0 <= j < i ==> #[trigger] values@[j] == self.bits_le@[j].spec_value(),
            decreases self.bits_le@.len() - i,
        {
            values.push(self.bits_le[i].eject_value());
            i = i + 1;
        }
        proof {
            assert(values@ =~= bit_values(self.bits_le@));
        }
        bits_to_u64(&values)
    }
}



} // verus!

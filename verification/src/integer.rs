//! The integer circuit types: fixed-width words of bits in little-endian
//! order, with the bitwise exclusive-or gate and its oracles.

use vstd::prelude::*;
use vstd::arithmetic::power2::pow2;
use crate::arith::{bits_nat, u128_to_bits_le, bits_to_u128};
use crate::boolean::{Boolean, bit_values, bits_wf};
use crate::count::Count;
use crate::fabric::Fabric;
use crate::mode::{CircuitType, Mode};

verus! {

/// The ten machine-integer shapes a word can take.
#[derive(Clone, Copy, Debug, PartialEq, Eq, Structural)]
pub enum IntegerKind {
    I8,
    I16,
    I32,
    I64,
    I128,
    U8,
    U16,
    U32,
    U64,
    U128,
}

impl IntegerKind {
    /// The width of the word in bits.
    pub open spec fn spec_bits(self) -> usize {
        match self {
            IntegerKind::I8 | IntegerKind::U8 => 8usize,
            IntegerKind::I16 | IntegerKind::U16 => 16usize,
            IntegerKind::I32 | IntegerKind::U32 => 32usize,
            IntegerKind::I64 | IntegerKind::U64 => 64usize,
            IntegerKind::I128 | IntegerKind::U128 => 128usize,
        }
    }

    /// The width of the word in bits.
    pub fn bits(&self) -> (r: usize)
        ensures
            r == self.spec_bits(),
    {
        match self {
            IntegerKind::I8 | IntegerKind::U8 => 8,
            IntegerKind::I16 | IntegerKind::U16 => 16,
            IntegerKind::I32 | IntegerKind::U32 => 32,
            IntegerKind::I64 | IntegerKind::U64 => 64,
            IntegerKind::I128 | IntegerKind::U128 => 128,
        }
    }

    /// Whether the word is interpreted as a two's-complement signed integer.
    pub open spec fn spec_is_signed(self) -> bool {
        match self {
            IntegerKind::I8 | IntegerKind::I16 | IntegerKind::I32 | IntegerKind::I64
                | IntegerKind::I128 => true,
            _ => false,
        }
    }

    /// Whether the word is interpreted as a two's-complement signed integer.
    pub fn is_signed(&self) -> (r: bool)
        ensures
            r == self.spec_is_signed(),
    {
        matches!(
            self,
            IntegerKind::I8 | IntegerKind::I16 | IntegerKind::I32 | IntegerKind::I64
                | IntegerKind::I128
        )
    }
}

/// The pointwise exclusive-or of two equal-length bit sequences.
pub open spec fn xor_bits(a: Seq<bool>, b: Seq<bool>) -> Seq<bool> {
    Seq::new(a.len(), |i: int| a[i] != b[i])
}

/// Exclusive-or with an all-zero word of the same width is the identity.
pub proof fn lemma_xor_identity(a: Seq<bool>, z: Seq<bool>)
    requires
        z.len() == a.len(),
        forall|i: int| 0 <= i < z.len() ==> !z[i],
    ensures
        xor_bits(a, z) =~= a,
{
}

/// Exclusive-or with an all-one word is the bitwise complement: the two
/// values sum to the all-one value of the width.
pub proof fn lemma_xor_complement(a: Seq<bool>, o: Seq<bool>)
    requires
        o.len() == a.len(),
        forall|i: int| 0 <= i < o.len() ==> o[i],
    ensures
        bits_nat(xor_bits(a, o)) + bits_nat(a) == pow2(a.len()) - 1,
    decreases a.len(),
{
    if a.len() == 0 {
        assert(pow2(0) == 1) by {
            vstd::arithmetic::power2::lemma2_to64();
        }
    } else {
        let n = a.len();
        lemma_xor_complement(a.drop_last(), o.drop_last());
        assert(xor_bits(a, o).drop_last() =~= xor_bits(a.drop_last(), o.drop_last()));
        assert(xor_bits(a, o).last() == !a.last());
        assert(pow2(n) == 2 * pow2((n - 1) as nat)) by {
            vstd::arithmetic::power2::lemma_pow2_unfold(n);
        }
    }
}

/// A circuit value holding a fixed-width machine word as its bits.
#[derive(Clone, Debug)]
pub struct Integer {
    pub kind: IntegerKind,
    pub mode: Mode,
    pub bits_le: Vec<Boolean>,
}

impl Integer {
    /// Whether the word is canonical: exactly the width's bits, every bit
    /// canonical, and the declared mode constant exactly when all bits are.
    pub open spec fn wf(self) -> bool {
        &&& self.bits_le@.len() == self.kind.spec_bits()
        &&& bits_wf(self.bits_le@)
        &&& (self.mode == Mode::Constant <==> (forall|i: int|
            0 <= i < self.bits_le@.len() ==> #[trigger] self.bits_le@[i].mode == Mode::Constant))
        &&& (self.mode != Mode::Constant ==> (forall|i: int|
            0 <= i < self.bits_le@.len() ==> #[trigger] self.bits_le@[i].mode != Mode::Constant))
    }

    /// The assigned word, as the value of its little-endian bits.
    pub open spec fn spec_value(self) -> nat {
        bits_nat(bit_values(self.bits_le@))
    }

    /// Whether every assigned bit is zero.
    pub open spec fn spec_is_zero(self) -> bool {
        forall|i: int| 0 <= i < self.bits_le@.len() ==> !(#[trigger] self.bits_le@[i].spec_value())
    }

    /// Injects a new word of the given mode and kind into the fabric, one
    /// boolean per bit: for a non-constant word, one wire and one booleanity
    /// constraint per bit; for a constant word, one constant per bit.
    pub fn new(fabric: &mut Fabric, mode: Mode, kind: IntegerKind, value: u128) -> (r: Integer)
        requires
            old(fabric).wf(),
            value < pow2(kind.spec_bits() as nat),
        ensures
            final (fabric).wf(),
            r.wf(),
            r.kind == kind,
            r.mode == mode,
            r.spec_value() == value,
            mode == Mode::Constant ==> Fabric::grew_by(
                *final (fabric),
                *old(fabric),
                Count { constants: kind.spec_bits(), public: 0, private: 0, constraints: 0 },
            ),
            mode == Mode::Public ==> Fabric::grew_by(
                *final (fabric),
                *old(fabric),
                Count {
                    constants: 0,
                    public: kind.spec_bits(),
                    private: 0,
                    constraints: kind.spec_bits(),
                },
            ),
            mode == Mode::Private ==> Fabric::grew_by(
                *final (fabric),
                *old(fabric),
                Count {
                    constants: 0,
                    public: 0,
                    private: kind.spec_bits(),
                    constraints: kind.spec_bits(),
                },
            ),
            Fabric::keeps_satisfaction(*final (fabric), *old(fabric)),
    {
        let width = kind.bits();
        let values = u128_to_bits_le(value, width);
        let mut bits_le: Vec<Boolean> = Vec::new();
        let mut i: usize = 0;
        while i < width
            invariant
                old(fabric).wf(),
                fabric.wf(),
                0 <= i <= width,
                values@.len() == width,
                bits_le@.len() == i,
                bits_wf(bits_le@),
                forall|j: int| 0 <= j < i ==> #[trigger] bits_le@[j].mode == mode,
                forall|j: int| 0 <= j < i ==> #[trigger] bits_le@[j].spec_value() == values@[j],
                fabric.constants@.len() == old(fabric).constants@.len() + if mode
                    == Mode::Constant {
                    i as int
                } else {
                    0
                },
                fabric.public@.len() == old(fabric).public@.len() + if mode == Mode::Public {
                    i as int
                } else {
                    0
                },
                fabric.private@.len() == old(fabric).private@.len() + if mode == Mode::Private {
                    i as int
                } else {
                    0
                },
                fabric.constraints@.len() == old(fabric).constraints@.len() + if mode
                    == Mode::Constant {
                    0
                } else {
                    i as int
                },
                forall|j: int|
                    0 <= j < old(fabric).constraints@.len() ==> #[trigger] fabric.constraints@[j]
                        == old(fabric).constraints@[j],
                fabric.scopes@ == old(fabric).scopes@,
                fabric.spec_satisfied() == old(fabric).spec_satisfied(),
            decreases width - i,
        {
            let bit = Boolean::new(fabric, mode, values[i]);
            bits_le.push(bit);
            i = i + 1;
        }
        proof {
            assert(bit_values(bits_le@) =~= values@);
            assert(kind.spec_bits() >= 8);
            assert(bits_le@[0].mode == mode);
        }
        Integer { kind, mode, bits_le }
    }

    /// An equal copy of the word.
    pub fn duplicate(&self) -> (r: Integer)
        requires
            self.wf(),
        ensures
            r.wf(),
            r.kind == self.kind,
            r.mode == self.mode,
            r.spec_value() == self.spec_value(),
            r.spec_is_zero() == self.spec_is_zero(),
            bit_values(r.bits_le@) =~= bit_values(self.bits_le@),
    {
        let mut bits_le: Vec<Boolean> = Vec::new();
        let mut i: usize = 0;
        let width = self.bits_le.len();
        while i < width
            invariant
                self.wf(),
                width == self.bits_le@.len(),
                0 <= i <= width,
                bits_le@.len() == i,
                bits_wf(bits_le@),
                forall|j: int| 0 <= j < i ==> #[trigger] bits_le@[j].mode == self.bits_le@[j].mode,
                forall|j: int|
                    0 <= j < i ==> #[trigger] bits_le@[j].spec_value()
                        == self.bits_le@[j].spec_value(),
            decreases width - i,
        {
            let bit = self.bits_le[i].duplicate();
            proof {
                assert(self.bits_le@[i as int].wf());
            }
            bits_le.push(bit);
            i = i + 1;
        }
        proof {
            assert(bit_values(bits_le@) =~= bit_values(self.bits_le@));
            assert(self.kind.spec_bits() >= 8);
            if self.mode == Mode::Constant {
                assert forall|j: int|
                    0 <= j < bits_le@.len() implies #[trigger] bits_le@[j].mode
                    == Mode::Constant by {
                    assert(self.bits_le@[j].mode == Mode::Constant);
                }
            } else {
                assert forall|j: int|
                    0 <= j < bits_le@.len() implies #[trigger] bits_le@[j].mode
                    != Mode::Constant by {
                    assert(self.bits_le@[j].mode != Mode::Constant);
                }
                assert(bits_le@[0].mode != Mode::Constant);
            }
            if self.spec_is_zero() {
                assert forall|j: int|
                    0 <= j < bits_le@.len() implies !(#[trigger] bits_le@[j].spec_value()) by {
                    assert(!self.bits_le@[j].spec_value());
                }
            } else {
                let w = choose|j: int|
                    0 <= j < self.bits_le@.len() && #[trigger] self.bits_le@[j].spec_value();
                assert(bits_le@[w].spec_value());
            }
        }
        Integer { kind: self.kind, mode: self.mode, bits_le }
    }

    /// The assigned word, zero-extended into a `u128` bit pattern.
    pub fn eject_value(&self) -> (r: u128)
        requires
            self.wf(),
        ensures
            r == self.spec_value(),
    {
        let mut values: Vec<bool> = Vec::new();
        let mut i: usize = 0;
        let width = self.bits_le.len();
        while i < width
            invariant
                self.wf(),
                width == self.bits_le@.len(),
                0 <= i <= width,
                values@.len() == i,
                forall|j: int|
                    0 <= j < i ==> #[trigger] values@[j] == self.bits_le@[j].spec_value(),
            decreases width - i,
        {
            values.push(self.bits_le[i].eject_value());
            i = i + 1;
        }
        proof {
            assert(values@ =~= bit_values(self.bits_le@));
        }
        bits_to_u128(&values)
    }

    /// The declared mode.
    pub fn eject_mode(&self) -> (r: Mode)
        ensures
            r == self.mode,
    {
        self.mode
    }

    /// Whether every assigned bit is zero.
    pub fn is_zero(&self) -> (r: bool)
        ensures
            r == self.spec_is_zero(),
    {
        let mut i: usize = 0;
        let width = self.bits_le.len();
        while i < width
            invariant
                width == self.bits_le@.len(),
                0 <= i <= width,
                forall|j: int| 0 <= j < i ==> !(#[trigger] self.bits_le@[j].spec_value()),
            decreases width - i,
        {
            if self.bits_le[i].eject_value() {
                return false;
            }
            i = i + 1;
        }
        true
    }

    /// The bitwise exclusive-or of two equal-kind words.
    ///
    /// A whole operand that is the constant zero decides for free: the other
    /// operand is handed back unchanged, mode included, since exclusive-or
    /// with zero is the identity and must not be penalized. Two constant
    /// words fold bit by bit with no cost. In every other case the operation pays
    /// full per-bit cost: one private witness and one constraint for each of
    /// the width's bits, and the result is private.
    pub fn bitxor(fabric: &mut Fabric, a: &Integer, b: &Integer) -> (r: Integer)
        requires
            old(fabric).wf(),
            a.wf(),
            b.wf(),
            a.kind == b.kind,
        ensures
            final (fabric).wf(),
            r.wf(),
            r.kind == a.kind,
            bit_values(r.bits_le@) =~= xor_bits(bit_values(a.bits_le@), bit_values(b.bits_le@)),
            (a.mode == Mode::Constant && a.spec_is_zero()) ==> (Fabric::grew_by(
                *final (fabric),
                *old(fabric),
                Count::spec_zero(),
            ) && r.mode == b.mode),
            (!(a.mode == Mode::Constant && a.spec_is_zero()) && b.mode == Mode::Constant
                && b.spec_is_zero()) ==> (Fabric::grew_by(
                *final (fabric),
                *old(fabric),
                Count::spec_zero(),
            ) && r.mode == a.mode),
            (!(a.mode == Mode::Constant && a.spec_is_zero()) && !(b.mode == Mode::Constant
                && b.spec_is_zero()) && a.mode == Mode::Constant && b.mode == Mode::Constant)
                ==> (Fabric::grew_by(*final (fabric), *old(fabric), Count::spec_zero()) && r.mode
                == Mode::Constant),
            (!(a.mode == Mode::Constant && a.spec_is_zero()) && !(b.mode == Mode::Constant
                && b.spec_is_zero()) && !(a.mode == Mode::Constant && b.mode == Mode::Constant))
                ==> (Fabric::grew_by(
                *final (fabric),
                *old(fabric),
                Count {
                    constants: 0,
                    public: 0,
                    private: a.kind.spec_bits(),
                    constraints: a.kind.spec_bits(),
                },
            ) && r.mode == Mode::Private),
            Fabric::keeps_satisfaction(*final (fabric), *old(fabric)),
    {
        if a.eject_mode().is_constant() && a.is_zero() {
            let r = b.duplicate();
            proof {
                assert(bit_values(r.bits_le@) =~= xor_bits(
                    bit_values(a.bits_le@),
                    bit_values(b.bits_le@),
                ));
            }
            r
        } else if b.eject_mode().is_constant() && b.is_zero() {
            let r = a.duplicate();
            proof {
                assert(bit_values(r.bits_le@) =~= xor_bits(
                    bit_values(a.bits_le@),
                    bit_values(b.bits_le@),
                ));
            }
            r
        } else {
            let ghost folds = a.mode == Mode::Constant && b.mode == Mode::Constant;
            let width = a.bits_le.len();
            let mut bits_le: Vec<Boolean> = Vec::new();
            let mut i: usize = 0;
            while i < width
                invariant
                    old(fabric).wf(),
                    fabric.wf(),
                    a.wf(),
                    b.wf(),
                    a.kind == b.kind,
                    folds == (a.mode == Mode::Constant && b.mode == Mode::Constant),
                    width == a.bits_le@.len(),
                    width == b.bits_le@.len(),
                    0 <= i <= width,
                    bits_le@.len() == i,
                    bits_wf(bits_le@),
                    forall|j: int|
                        0 <= j < i ==> #[trigger] bits_le@[j].spec_value() == (
                        a.bits_le@[j].spec_value() != b.bits_le@[j].spec_value()),
                    forall|j: int|
                        0 <= j < i ==> #[trigger] bits_le@[j].mode == if folds {
                            Mode::Constant
                        } else {
                            Mode::Private
                        },
                    fabric.constants@.len() == old(fabric).constants@.len(),
                    fabric.public@.len() == old(fabric).public@.len(),
                    fabric.private@.len() == old(fabric).private@.len() + if folds {
                        0
                    } else {
                        i as int
                    },
                    fabric.constraints@.len() == old(fabric).constraints@.len() + if folds {
                        0
                    } else {
                        i as int
                    },
                    forall|j: int|
                        0 <= j < old(fabric).constraints@.len()
                            ==> #[trigger] fabric.constraints@[j] == old(fabric).constraints@[j],
                    fabric.scopes@ == old(fabric).scopes@,
                    fabric.spec_satisfied() == old(fabric).spec_satisfied(),
                decreases width - i,
            {
                proof {
                    assert(a.bits_le@[i as int].wf());
                    assert(b.bits_le@[i as int].wf());
                    if !folds {
                        if a.mode != Mode::Constant {
                            assert(a.bits_le@[i as int].mode != Mode::Constant);
                        } else {
                            assert(b.bits_le@[i as int].mode != Mode::Constant);
                        }
                    } else {
                        assert(a.bits_le@[i as int].mode == Mode::Constant);
                        assert(b.bits_le@[i as int].mode == Mode::Constant);
                    }
                }
                let bit = Boolean::xor(fabric, &a.bits_le[i], &b.bits_le[i]);
                bits_le.push(bit);
                i = i + 1;
            }
            proof {
                assert(bit_values(bits_le@) =~= xor_bits(
                    bit_values(a.bits_le@),
                    bit_values(b.bits_le@),
                ));
                assert(a.kind.spec_bits() >= 8);
                assert(bits_le@[0].mode == if folds {
                    Mode::Constant
                } else {
                    Mode::Private
                });
            }
            let mode = if a.eject_mode().is_constant() && b.eject_mode().is_constant() {
                Mode::Constant
            } else {
                Mode::Private
            };
            Integer { kind: a.kind, mode, bits_le }
        }
    }

    /// Stores the bitwise exclusive-or of `self` and `other` in `self`,
    /// with the same shortcuts, costs and result modes as the binary gate.
    pub fn bitxor_assign(&mut self, fabric: &mut Fabric, other: &Integer)
        requires
            old(self).wf(),
            old(fabric).wf(),
            other.wf(),
            old(self).kind == other.kind,
        ensures
            final (fabric).wf(),
            final (self).wf(),
            final (self).kind == old(self).kind,
            bit_values(final (self).bits_le@) =~= xor_bits(
                bit_values(old(self).bits_le@),
                bit_values(other.bits_le@),
            ),
            (old(self).mode == Mode::Constant && old(self).spec_is_zero()) ==> (Fabric::grew_by(
                *final (fabric),
                *old(fabric),
                Count::spec_zero(),
            ) && final (self).mode == other.mode),
            (!(old(self).mode == Mode::Constant && old(self).spec_is_zero()) && other.mode
                == Mode::Constant && other.spec_is_zero()) ==> (Fabric::grew_by(
                *final (fabric),
                *old(fabric),
                Count::spec_zero(),
            ) && final (self).mode == old(self).mode),
            (!(old(self).mode == Mode::Constant && old(self).spec_is_zero()) && !(other.mode
                == Mode::Constant && other.spec_is_zero()) && old(self).mode == Mode::Constant
                && other.mode == Mode::Constant) ==> (Fabric::grew_by(
                *final (fabric),
                *old(fabric),
                Count::spec_zero(),
            ) && final (self).mode == Mode::Constant),
            (!(old(self).mode == Mode::Constant && old(self).spec_is_zero()) && !(other.mode
                == Mode::Constant && other.spec_is_zero()) && !(old(self).mode == Mode::Constant
                && other.mode == Mode::Constant)) ==> (Fabric::grew_by(
                *final (fabric),
                *old(fabric),
                Count {
                    constants: 0,
                    public: 0,
                    private: old(self).kind.spec_bits(),
                    constraints: old(self).kind.spec_bits(),
                },
            ) && final (self).mode == Mode::Private),
            Fabric::keeps_satisfaction(*final (fabric), *old(fabric)),
    {
        let r = Integer::bitxor(fabric, self, other);
        *self = r;
    }

    /// The exact cost of the exclusive-or gate, from the width and the two
    /// operands' descriptors. A constant-zero operand, or two constant
    /// operands, cost nothing; any other combination pays one private wire
    /// and one constraint per bit of the width.
    pub fn bitxor_count(kind: IntegerKind, case: &(CircuitType<Integer>, CircuitType<Integer>)) -> (r:
        Count)
        ensures
            (case.0 is Constant && case.0.arrow_Constant_0().spec_is_zero()) ==> r
                == Count::spec_zero(),
            (!(case.0 is Constant && case.0.arrow_Constant_0().spec_is_zero()) && case.1 is Constant
                && case.1.arrow_Constant_0().spec_is_zero()) ==> r == Count::spec_zero(),
            (!(case.0 is Constant && case.0.arrow_Constant_0().spec_is_zero()) && !(case.1
                is Constant && case.1.arrow_Constant_0().spec_is_zero()) && case.0 is Constant
                && case.1 is Constant) ==> r == Count::spec_zero(),
            (!(case.0 is Constant && case.0.arrow_Constant_0().spec_is_zero()) && !(case.1
                is Constant && case.1.arrow_Constant_0().spec_is_zero()) && !(case.0 is Constant
                && case.1 is Constant)) ==> r == (Count {
                constants: 0,
                public: 0,
                private: kind.spec_bits(),
                constraints: kind.spec_bits(),
            }),
    {
        let first_folds: bool = match &case.0 {
            CircuitType::Constant(constant) => constant.is_zero(),
            _ => false,
        };
        let second_folds: bool = match &case.1 {
            CircuitType::Constant(constant) => constant.is_zero(),
            _ => false,
        };
        let both_constant: bool = matches!(case.0, CircuitType::Constant(_)) && matches!(
            case.1,
            CircuitType::Constant(_),
        );
        if first_folds || second_folds || both_constant {
            Count::is(0, 0, 0, 0)
        } else {
            let width = kind.bits();
            Count::is(0, 0, width, width)
        }
    }

    /// The output mode of the exclusive-or gate. Two constants stay
    /// constant. A constant-zero operand passes the other operand's mode
    /// through unchanged; a nonzero constant operand, or none at all,
    /// degrades the result to private.
    pub fn bitxor_output_mode(case: &(CircuitType<Integer>, CircuitType<Integer>)) -> (r: Mode)
        ensures
            (case.0 is Constant && case.1 is Constant) ==> r == Mode::Constant,
            (case.0 is Constant && !(case.1 is Constant)) ==> r
                == if case.0.arrow_Constant_0().spec_is_zero() {
                case.1.spec_mode()
            } else {
                Mode::Private
            },
            (!(case.0 is Constant) && case.1 is Constant) ==> r
                == if case.1.arrow_Constant_0().spec_is_zero() {
                case.0.spec_mode()
            } else {
                Mode::Private
            },
            (!(case.0 is Constant) && !(case.1 is Constant)) ==> r == Mode::Private,
    {
        match (&case.0, &case.1) {
            (CircuitType::Constant(_), CircuitType::Constant(_)) => Mode::Constant,
            (CircuitType::Constant(constant), _) => {
                if constant.is_zero() {
                    case.1.mode()
                } else {
                    Mode::Private
                }
            },
            (_, CircuitType::Constant(constant)) => {
                if constant.is_zero() {
                    case.0.mode()
                } else {
                    Mode::Private
                }
            },
            (_, _) => Mode::Private,
        }
    }

    /// The mode descriptor of this word, carrying the word itself when
    /// constant.
    pub fn circuit_type(&self) -> (r: CircuitType<Integer>)
        requires
            self.wf(),
        ensures
            r.spec_mode() == self.mode,
            r is Constant ==> r.arrow_Constant_0().wf() && r.arrow_Constant_0().spec_is_zero()
                == self.spec_is_zero() && r.arrow_Constant_0().spec_value() == self.spec_value(),
    {
        match self.mode {
            Mode::Constant => CircuitType::Constant(self.duplicate()),
            Mode::Public => CircuitType::Public,
            Mode::Private => CircuitType::Private,
        }
    }
}

} // verus!

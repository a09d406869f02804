//! The boolean circuit type: a linear combination constrained to 0 or 1,
//! with its bit-level gates.

use vstd::prelude::*;
use vstd::arithmetic::div_mod::lemma_small_mod;
use crate::arith::{
    FIELD_MODULUS, mul_spec, lemma_or_constraint, lemma_xor_constraint, lemma_select_constraint,
    lemma_select_blend,
};
use crate::count::Count;
use crate::fabric::{Fabric, LinearCombination};
use crate::mode::{CircuitType, Mode};

verus! {

/// A circuit value holding a single bit.
#[derive(Clone, Debug)]
pub struct Boolean {
    pub mode: Mode,
    pub lc: LinearCombination,
}

impl Boolean {
    /// Whether the value is canonical: a well-formed combination whose
    /// assignment is a bit, constant exactly when declared so.
    pub open spec fn wf(self) -> bool {
        &&& self.lc.wf()
        &&& (self.lc.value == 0 || self.lc.value == 1)
        &&& (self.mode == Mode::Constant <==> self.lc.spec_is_constant())
    }

    /// The assigned bit.
    pub open spec fn spec_value(self) -> bool {
        self.lc.value == 1
    }

    /// A constant bit, outside the fabric: no wire, no counter, no constraint.
    pub fn constant(value: bool) -> (r: Boolean)
        ensures
            r.wf(),
            r.mode == Mode::Constant,
            r.spec_value() == value,
    {
        let lc = LinearCombination::from_constant(if value { 1 } else { 0 });
        Boolean { mode: Mode::Constant, lc }
    }

    /// An equal copy of the bit.
    pub fn duplicate(&self) -> (r: Boolean)
        ensures
            r.mode == self.mode,
            r.lc.constant == self.lc.constant,
            r.lc.value == self.lc.value,
            r.lc.terms@ == self.lc.terms@,
            self.wf() ==> r.wf(),
            r.spec_value() == self.spec_value(),
    {
        Boolean { mode: self.mode, lc: self.lc.duplicate() }
    }

    /// The assigned bit.
    pub fn eject_value(&self) -> (r: bool)
        ensures
            r == self.spec_value(),
    {
        self.lc.value == 1
    }

    /// The declared mode.
    pub fn eject_mode(&self) -> (r: Mode)
        ensures
            r == self.mode,
    {
        self.mode
    }

    /// The mode descriptor of this bit, carrying the bit itself when constant.
    pub fn circuit_type(&self) -> (r: CircuitType<Boolean>)
        requires
            self.wf(),
        ensures
            r.spec_mode() == self.mode,
            r is Constant ==> r.arrow_Constant_0().wf() && r.arrow_Constant_0().spec_value()
                == self.spec_value() && r.arrow_Constant_0().mode == Mode::Constant,
    {
        match self.mode {
            Mode::Constant => CircuitType::Constant(self.duplicate()),
            Mode::Public => CircuitType::Public,
            Mode::Private => CircuitType::Private,
        }
    }

    /// Injects a new bit of the given mode into the fabric. A constant grows
    /// only the constant counter; a public or private bit occupies a fresh
    /// wire and enforces one booleanity constraint `x * x = x`.
    pub fn new(fabric: &mut Fabric, mode: Mode, value: bool) -> (r: Boolean)
        requires
            old(fabric).wf(),
        ensures
            final (fabric).wf(),
            r.wf(),
            r.mode == mode,
            r.spec_value() == value,
            mode == Mode::Constant ==> Fabric::grew_by(
                *final (fabric),
                *old(fabric),
                Count { constants: 1, public: 0, private: 0, constraints: 0 },
            ),
            mode == Mode::Public ==> Fabric::grew_by(
                *final (fabric),
                *old(fabric),
                Count { constants: 0, public: 1, private: 0, constraints: 1 },
            ),
            mode == Mode::Private ==> Fabric::grew_by(
                *final (fabric),
                *old(fabric),
                Count { constants: 0, public: 0, private: 1, constraints: 1 },
            ),
            Fabric::keeps_satisfaction(*final (fabric), *old(fabric)),
    {
        let bit: u64 = if value { 1 } else { 0 };
        let var = fabric.allocate(mode, bit);
        let lc = LinearCombination::from_variable(var);
        if matches!(mode, Mode::Constant) {
            Boolean { mode, lc }
        } else {
            proof {
                lemma_small_mod(bit as nat, FIELD_MODULUS as nat);
                assert(mul_spec(lc.value, lc.value) == lc.value) by {
                    assert(bit * bit == bit);
                }
            }
            fabric.enforce(lc.duplicate(), lc.duplicate(), lc.duplicate());
            Boolean { mode, lc }
        }
    }

    /// The negation of the bit: a free gate, rewriting the combination to
    /// `1 - x` without touching the fabric.
    pub fn not(&self) -> (r: Boolean)
        requires
            self.wf(),
        ensures
            r.wf(),
            r.mode == self.mode,
            r.spec_value() == !self.spec_value(),
    {
        let one = LinearCombination::from_constant(1);
        let lc = one.sub(&self.lc);
        proof {
            if self.lc.value == 0 {
                vstd::arithmetic::div_mod::lemma_mod_add_multiples_vanish(1, FIELD_MODULUS as int);
                lemma_small_mod(1nat, FIELD_MODULUS as nat);
            } else {
                vstd::arithmetic::div_mod::lemma_mod_self_0(FIELD_MODULUS as int);
            }
        }
        Boolean { mode: self.mode, lc }
    }

    /// Enforces that the bit is true, lowering to `b * 1 = 1`. Asserting a
    /// constant true leaves no trace; any other bit costs one constraint,
    /// satisfied exactly when the bit is set.
    pub fn enforce_true(fabric: &mut Fabric, b: &Boolean)
        requires
            old(fabric).wf(),
            b.wf(),
        ensures
            final (fabric).wf(),
            final (fabric).constants@.len() == old(fabric).constants@.len(),
            final (fabric).public@.len() == old(fabric).public@.len(),
            final (fabric).private@.len() == old(fabric).private@.len(),
            final (fabric).scopes@ == old(fabric).scopes@,
            (b.mode == Mode::Constant && b.spec_value()) ==> final (fabric).constraints@ == old(fabric).constraints@,
            !(b.mode == Mode::Constant && b.spec_value()) ==> final (fabric).constraints@.len()
                == old(fabric).constraints@.len() + 1,
            forall|i: int|
                0 <= i < old(fabric).constraints@.len() ==> #[trigger] final (fabric).constraints@[i] == old(fabric).constraints@[i],
            final (fabric).spec_satisfied() == (old(fabric).spec_satisfied() && b.spec_value()),
    {
        let one = LinearCombination::from_constant(1);
        fabric.assert_eq(&b.lc, &one);
    }

    /// The disjunction of two bits. A constant operand decides for free:
    /// a constant `true` is the answer, a constant `false` hands back the
    /// other bit unchanged. Otherwise one private witness and the single
    /// constraint `(1 - a) * (1 - b) = 1 - w` are added.
    pub fn or(fabric: &mut Fabric, a: &Boolean, b: &Boolean) -> (r: Boolean)
        requires
            old(fabric).wf(),
            a.wf(),
            b.wf(),
        ensures
            final (fabric).wf(),
            r.wf(),
            r.spec_value() == (a.spec_value() || b.spec_value()),
            (a.mode == Mode::Constant || b.mode == Mode::Constant) ==> Fabric::grew_by(
                *final (fabric),
                *old(fabric),
                Count::spec_zero(),
            ),
            a.mode == Mode::Constant ==> r.mode == if a.spec_value() {
                Mode::Constant
            } else {
                b.mode
            },
            (a.mode != Mode::Constant && b.mode == Mode::Constant) ==> r.mode
                == if b.spec_value() {
                Mode::Constant
            } else {
                a.mode
            },
            (a.mode != Mode::Constant && b.mode != Mode::Constant) ==> Fabric::grew_by(
                *final (fabric),
                *old(fabric),
                Count { constants: 0, public: 0, private: 1, constraints: 1 },
            ) && r.mode == Mode::Private,
            Fabric::keeps_satisfaction(*final (fabric), *old(fabric)),
    {
        if a.eject_mode().is_constant() {
            if a.eject_value() {
                a.duplicate()
            } else {
                b.duplicate()
            }
        } else if b.eject_mode().is_constant() {
            if b.eject_value() {
                b.duplicate()
            } else {
                a.duplicate()
            }
        } else {
            let wv: u64 = if a.eject_value() || b.eject_value() {
                1
            } else {
                0
            };
            let var = fabric.allocate(Mode::Private, wv);
            let w_lc = LinearCombination::from_variable(var);
            let one = LinearCombination::from_constant(1);
            proof {
                lemma_or_constraint(a.lc.value, b.lc.value, wv);
            }
            fabric.enforce(one.sub(&a.lc), one.sub(&b.lc), one.sub(&w_lc));
            Boolean { mode: Mode::Private, lc: w_lc }
        }
    }

    /// The exclusive-or of two bits. Two constants fold to a constant with
    /// no cost; in every other case one private witness and the single
    /// constraint `2a * b = a + b - w` are added.
    pub fn xor(fabric: &mut Fabric, a: &Boolean, b: &Boolean) -> (r: Boolean)
        requires
            old(fabric).wf(),
            a.wf(),
            b.wf(),
        ensures
            final (fabric).wf(),
            r.wf(),
            r.spec_value() == (a.spec_value() != b.spec_value()),
            (a.mode == Mode::Constant && b.mode == Mode::Constant) ==> Fabric::grew_by(
                *final (fabric),
                *old(fabric),
                Count::spec_zero(),
            ) && r.mode == Mode::Constant,
            !(a.mode == Mode::Constant && b.mode == Mode::Constant) ==> Fabric::grew_by(
                *final (fabric),
                *old(fabric),
                Count { constants: 0, public: 0, private: 1, constraints: 1 },
            ) && r.mode == Mode::Private,
            Fabric::keeps_satisfaction(*final (fabric), *old(fabric)),
    {
        if a.eject_mode().is_constant() && b.eject_mode().is_constant() {
            Boolean::constant(a.eject_value() != b.eject_value())
        } else {
            let wv: u64 = if a.eject_value() != b.eject_value() {
                1
            } else {
                0
            };
            let var = fabric.allocate(Mode::Private, wv);
            let w_lc = LinearCombination::from_variable(var);
            proof {
                lemma_xor_constraint(a.lc.value, b.lc.value, wv);
            }
            fabric.enforce(a.lc.add(&a.lc), b.lc.duplicate(), a.lc.add(&b.lc).sub(&w_lc));
            Boolean { mode: Mode::Private, lc: w_lc }
        }
    }

    /// Returns `first` if `condition` is `true`, otherwise returns `second`.
    ///
    /// A constant condition selects for free. A variable condition over two
    /// constant branches blends them linearly, still for free. Otherwise one
    /// private witness and the single constraint
    /// `condition * (first - second) = witness - second` are added; with the
    /// condition constrained to a bit elsewhere, any satisfying witness is
    /// the selected branch whenever the branches differ.
    pub fn ternary(fabric: &mut Fabric, condition: &Boolean, first: &Boolean, second: &Boolean) -> (r:
        Boolean)
        requires
            old(fabric).wf(),
            condition.wf(),
            first.wf(),
            second.wf(),
        ensures
            final (fabric).wf(),
            r.wf(),
            r.spec_value() == if condition.spec_value() {
                first.spec_value()
            } else {
                second.spec_value()
            },
            condition.mode == Mode::Constant ==> Fabric::grew_by(
                *final (fabric),
                *old(fabric),
                Count::spec_zero(),
            ) && r.mode == if condition.spec_value() {
                first.mode
            } else {
                second.mode
            },
            (condition.mode != Mode::Constant && first.mode == Mode::Constant && second.mode
                == Mode::Constant) ==> Fabric::grew_by(
                *final (fabric),
                *old(fabric),
                Count::spec_zero(),
            ) && r.mode == Mode::Private,
            (condition.mode != Mode::Constant && !(first.mode == Mode::Constant && second.mode
                == Mode::Constant)) ==> Fabric::grew_by(
                *final (fabric),
                *old(fabric),
                Count { constants: 0, public: 0, private: 1, constraints: 1 },
            ) && r.mode == Mode::Private,
            Fabric::keeps_satisfaction(*final (fabric), *old(fabric)),
    {
        if condition.eject_mode().is_constant() {
            if condition.eject_value() {
                first.duplicate()
            } else {
                second.duplicate()
            }
        } else if first.eject_mode().is_constant() && second.eject_mode().is_constant() {
            let not_condition = condition.not();
            let lc = condition.lc.scale(first.lc.value).add(&not_condition.lc.scale(second.lc.value));
            proof {
                lemma_select_blend(condition.lc.value, first.lc.value, second.lc.value);
            }
            Boolean { mode: Mode::Private, lc }
        } else {
            let wv: u64 = if condition.eject_value() {
                first.lc.value
            } else {
                second.lc.value
            };
            let var = fabric.allocate(Mode::Private, wv);
            let w_lc = LinearCombination::from_variable(var);
            proof {
                lemma_select_constraint(condition.lc.value, first.lc.value, second.lc.value, wv);
            }
            fabric.enforce(condition.lc.duplicate(), first.lc.sub(&second.lc), w_lc.sub(&second.lc));
            Boolean { mode: Mode::Private, lc: w_lc }
        }
    }
}


/// The assigned bits of a sequence of boolean circuit values.
pub open spec fn bit_values(s: Seq<Boolean>) -> Seq<bool> {
    s.map_values(|b: Boolean| b.spec_value())
}

/// Whether every boolean in the sequence is canonical.
pub open spec fn bits_wf(s: Seq<Boolean>) -> bool {
    forall|i: int| 0 <= i < s.len() ==> #[trigger] s[i].wf()
}

/// Whether every boolean in the sequence is a constant.
pub open spec fn all_constant(s: Seq<Boolean>) -> bool {
    forall|i: int| 0 <= i < s.len() ==> #[trigger] s[i].mode == Mode::Constant
}

/// Whether no boolean in the sequence is a constant.
pub open spec fn none_constant(s: Seq<Boolean>) -> bool {
    forall|i: int| 0 <= i < s.len() ==> #[trigger] s[i].mode != Mode::Constant
}

} // verus!

//! The field circuit type: a linear combination over the base field, with
//! the ternary selection gate and its cost and output-mode oracles.

use vstd::prelude::*;
use crate::arith::{is_field_element, lemma_select_blend, lemma_select_constraint};
use crate::boolean::Boolean;
use crate::count::Count;
use crate::fabric::{Fabric, LinearCombination};
use crate::mode::{CircuitType, Mode};

verus! {

/// A circuit value holding a base-field element.
#[derive(Clone, Debug)]
pub struct Field {
    pub mode: Mode,
    pub lc: LinearCombination,
}

impl Field {
    /// Whether the value is canonical: a well-formed combination, constant
    /// exactly when declared so.
    pub open spec fn wf(self) -> bool {
        &&& self.lc.wf()
        &&& (self.mode == Mode::Constant <==> self.lc.spec_is_constant())
    }

    /// The assigned field element.
    pub open spec fn spec_value(self) -> u64 {
        self.lc.value
    }

    /// A constant field element, outside the fabric: no wire, no counter,
    /// no constraint.
    pub fn constant(value: u64) -> (r: Field)
        requires
            is_field_element(value),
        ensures
            r.wf(),
            r.mode == Mode::Constant,
            r.spec_value() == value,
    {
        Field { mode: Mode::Constant, lc: LinearCombination::from_constant(value) }
    }

    /// An equal copy of the value.
    pub fn duplicate(&self) -> (r: Field)
        ensures
            r.mode == self.mode,
            r.lc.constant == self.lc.constant,
            r.lc.value == self.lc.value,
            r.lc.terms@ == self.lc.terms@,
            self.wf() ==> r.wf(),
            r.spec_value() == self.spec_value(),
    {
        Field { mode: self.mode, lc: self.lc.duplicate() }
    }

    /// The assigned field element.
    pub fn eject_value(&self) -> (r: u64)
        ensures
            r == self.spec_value(),
    {
        self.lc.value
    }

    /// The declared mode.
    pub fn eject_mode(&self) -> (r: Mode)
        ensures
            r == self.mode,
    {
        self.mode
    }

    /// Injects a new field element of the given mode into the fabric. A
    /// constant grows only the constant counter; a public or private element
    /// occupies a fresh, otherwise unconstrained wire.
    pub fn new(fabric: &mut Fabric, mode: Mode, value: u64) -> (r: Field)
        requires
            old(fabric).wf(),
            is_field_element(value),
        ensures
            final (fabric).wf(),
            r.wf(),
            r.mode == mode,
            r.spec_value() == value,
            mode == Mode::Constant ==> Fabric::grew_by(
                *final (fabric),
                *old(fabric),
                Count { constants: 1, public: 0, private: 0, constraints: 0 },
            ),
            mode == Mode::Public ==> Fabric::grew_by(
                *final (fabric),
                *old(fabric),
                Count { constants: 0, public: 1, private: 0, constraints: 0 },
            ),
            mode == Mode::Private ==> Fabric::grew_by(
                *final (fabric),
                *old(fabric),
                Count { constants: 0, public: 0, private: 1, constraints: 0 },
            ),
            Fabric::keeps_satisfaction(*final (fabric), *old(fabric)),
    {
        let var = fabric.allocate(mode, value);
        let lc = LinearCombination::from_variable(var);
        Field { mode, lc }
    }

    /// A field element carrying a bit's 0-or-1 value, sharing its wires.
    pub fn from_boolean(boolean: &Boolean) -> (r: Field)
        requires
            boolean.wf(),
        ensures
            r.wf(),
            r.mode == boolean.mode,
            r.spec_value() == if boolean.spec_value() {
                1u64
            } else {
                0u64
            },
    {
        Field { mode: boolean.eject_mode(), lc: boolean.lc.duplicate() }
    }

    /// The sum of two field values: a free gate, adding the linear
    /// combinations without touching the fabric.
    pub fn add(&self, other: &Field) -> (r: Field)
        requires
            self.wf(),
            other.wf(),
        ensures
            r.wf(),
            r.spec_value() == crate::arith::add_spec(self.spec_value(), other.spec_value()),
            r.mode == if self.mode == Mode::Constant && other.mode == Mode::Constant {
                Mode::Constant
            } else {
                Mode::Private
            },
    {
        let lc = self.lc.add(&other.lc);
        let mode = if self.eject_mode().is_constant() && other.eject_mode().is_constant() {
            Mode::Constant
        } else {
            Mode::Private
        };
        Field { mode, lc }
    }

    /// The exact cost of the ternary gate for a (condition, first, second)
    /// mode triple: free whenever the condition is constant, and also when
    /// both branches are constant (a linear blend); one private wire and one
    /// constraint otherwise.
    pub open spec fn spec_ternary_count(case: (Mode, Mode, Mode)) -> Count {
        if case.0 == Mode::Constant || (case.1 == Mode::Constant && case.2 == Mode::Constant) {
            Count::spec_zero()
        } else {
            Count { constants: 0, public: 0, private: 1, constraints: 1 }
        }
    }

    /// The exact cost of the ternary gate for a mode triple.
    pub fn ternary_count(case: &(Mode, Mode, Mode)) -> (r: Count)
        ensures
            r == Field::spec_ternary_count(*case),
    {
        match case {
            (Mode::Constant, _, _) => Count::is(0, 0, 0, 0),
            (Mode::Public, Mode::Constant, Mode::Constant) => Count::is(0, 0, 0, 0),
            (Mode::Private, Mode::Constant, Mode::Constant) => Count::is(0, 0, 0, 0),
            _ => Count::is(0, 0, 1, 1),
        }
    }

    /// The output mode of the ternary gate: a constant condition passes the
    /// picked branch's mode through; any other condition yields `Private`.
    pub fn ternary_output_mode(case: &(CircuitType<Boolean>, Mode, Mode)) -> (r: Mode)
        ensures
            case.0 is Constant ==> r == if case.0.arrow_Constant_0().spec_value() {
                case.1
            } else {
                case.2
            },
            !(case.0 is Constant) ==> r == Mode::Private,
    {
        match &case.0 {
            CircuitType::Constant(circuit) => {
                if circuit.eject_value() {
                    case.1
                } else {
                    case.2
                }
            },
            _ => Mode::Private,
        }
    }

    /// Returns `first` if `condition` is `true`, otherwise returns `second`.
    ///
    /// A constant condition selects directly, for free. A variable condition
    /// over two constant branches blends them linearly, still for free.
    /// Otherwise one private witness `w` is allocated, assigned the selected
    /// value, and the single constraint
    /// `condition * (first - second) = w - second` is enforced; with the
    /// condition constrained to a bit elsewhere, any satisfying witness is
    /// the selected branch whenever the branches differ.
    pub fn ternary(fabric: &mut Fabric, condition: &Boolean, first: &Field, second: &Field) -> (r:
        Field)
        requires
            old(fabric).wf(),
            condition.wf(),
            first.wf(),
            second.wf(),
        ensures
            final (fabric).wf(),
            r.wf(),
            r.spec_value() == if condition.spec_value() {
                first.spec_value()
            } else {
                second.spec_value()
            },
            Fabric::grew_by(
                *final (fabric),
                *old(fabric),
                Field::spec_ternary_count((condition.mode, first.mode, second.mode)),
            ),
            condition.mode == Mode::Constant ==> r.mode == if condition.spec_value() {
                first.mode
            } else {
                second.mode
            },
            condition.mode != Mode::Constant ==> r.mode == Mode::Private,
            Fabric::keeps_satisfaction(*final (fabric), *old(fabric)),
    {
        if condition.eject_mode().is_constant() {
            if condition.eject_value() {
                first.duplicate()
            } else {
                second.duplicate()
            }
        } else if first.eject_mode().is_constant() && second.eject_mode().is_constant() {
            let not_condition = condition.not();
            let lc = condition.lc.scale(first.lc.value).add(
                &not_condition.lc.scale(second.lc.value),
            );
            proof {
                lemma_select_blend(condition.lc.value, first.lc.value, second.lc.value);
            }
            Field { mode: Mode::Private, lc }
        } else {
            let wv: u64 = if condition.eject_value() {
                first.eject_value()
            } else {
                second.eject_value()
            };
            let var = fabric.allocate(Mode::Private, wv);
            let w_lc = LinearCombination::from_variable(var);
            proof {
                lemma_select_constraint(condition.lc.value, first.lc.value, second.lc.value, wv);
            }
            fabric.enforce(
                condition.lc.duplicate(),
                first.lc.sub(&second.lc),
                w_lc.sub(&second.lc),
            );
            Field { mode: Mode::Private, lc: w_lc }
        }
    }
}

} // verus!

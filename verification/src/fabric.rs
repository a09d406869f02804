//! The constraint fabric: wires, linear combinations, and the growing,
//! append-only list of rank-1 constraints.
//!
//! The fabric owns every allocated wire together with its assigned value
//! (this is a prover-side simulation: assignments are always available at
//! construction time). Values built by gates hold only linear combinations
//! over those wires. Enforcing a false statement never fails at construction
//! time; it merely leaves an unsatisfiable constraint in the system, to be
//! found by a later witness check.

use vstd::prelude::*;
use vstd::arithmetic::div_mod::{
    lemma_small_mod, lemma_add_mod_noop, lemma_mul_mod_noop_left, lemma_mod_multiples_vanish,
};
use crate::arith::{
    FIELD_MODULUS, is_field_element, add_spec, sub_spec, mul_spec, field_add, field_mul,
};
use crate::count::Count;
use crate::mode::Mode;

verus! {

/// One allocated slot of the constraint system, carrying its assigned value.
///
/// Constants do not occupy wires: they fold into the constant term of every
/// linear combination that mentions them. Public and private variables carry
/// the index of their wire in the fabric.
#[derive(Clone, Copy, Debug)]
pub enum Variable {
    Constant(u64),
    Public(usize, u64),
    Private(usize, u64),
}

impl Variable {
    /// The value assigned to this variable.
    pub open spec fn spec_value(self) -> u64 {
        match self {
            Variable::Constant(v) => v,
            Variable::Public(_, v) => v,
            Variable::Private(_, v) => v,
        }
    }

    /// Whether the assigned value is a canonical field element.
    pub open spec fn wf(self) -> bool {
        is_field_element(self.spec_value())
    }

    /// Whether this variable occupies a wire (it is not a constant).
    pub open spec fn is_wire(self) -> bool {
        !(self is Constant)
    }

    /// The value assigned to this variable.
    pub fn value(&self) -> (r: u64)
        ensures
            r == self.spec_value(),
    {
        match self {
            Variable::Constant(v) => *v,
            Variable::Public(_, v) => *v,
            Variable::Private(_, v) => *v,
        }
    }
}

/// One weighted wire of a linear combination.
#[derive(Clone, Copy, Debug)]
pub struct Term {
    pub var: Variable,
    pub coeff: u64,
}

impl Term {
    /// Whether the term is canonical: a wire with field-element value and coefficient.
    pub open spec fn wf(self) -> bool {
        self.var.wf() && self.var.is_wire() && is_field_element(self.coeff)
    }
}

/// The weighted sum of a sequence of terms, not reduced modulo the field.
pub open spec fn terms_value(s: Seq<Term>) -> nat
    decreases s.len(),
{
    if s.len() == 0 {
        0
    } else {
        (terms_value(s.drop_last()) + s.last().coeff * s.last().var.spec_value()) as nat
    }
}

/// Whether every term of a sequence is canonical.
pub open spec fn terms_wf(s: Seq<Term>) -> bool {
    forall|i: int| 0 <= i < s.len() ==> #[trigger] s[i].wf()
}

/// Appending a term adds its weighted value.
pub proof fn lemma_terms_value_push(s: Seq<Term>, t: Term)
    ensures
        terms_value(s.push(t)) == terms_value(s) + t.coeff * t.var.spec_value(),
{
    assert(s.push(t).drop_last() =~= s);
}

/// The weighted sum distributes over concatenation.
pub proof fn lemma_terms_value_concat(s1: Seq<Term>, s2: Seq<Term>)
    ensures
        terms_value(s1 + s2) == terms_value(s1) + terms_value(s2),
    decreases s2.len(),
{
    if s2.len() == 0 {
        assert(s1 + s2 =~= s1);
    } else {
        assert((s1 + s2).drop_last() =~= s1 + s2.drop_last());
        lemma_terms_value_concat(s1, s2.drop_last());
    }
}

/// An ordered weighted sum of wires plus a constant offset, together with its
/// assigned value, kept reduced modulo the field.
#[derive(Clone, Debug)]
pub struct LinearCombination {
    pub constant: u64,
    pub terms: Vec<Term>,
    pub value: u64,
}

impl LinearCombination {
    /// Whether the combination is canonical: every part is a field element
    /// and the cached value is the reduced weighted sum.
    pub open spec fn wf(self) -> bool {
        &&& is_field_element(self.constant)
        &&& terms_wf(self.terms@)
        &&& is_field_element(self.value)
        &&& self.value == (self.constant + terms_value(self.terms@)) % (FIELD_MODULUS as int)
    }

    /// Whether the combination mentions no wire at all.
    pub open spec fn spec_is_constant(self) -> bool {
        self.terms@.len() == 0
    }

    /// Whether the combination mentions no wire at all.
    pub fn is_constant(&self) -> (r: bool)
        ensures
            r == self.spec_is_constant(),
    {
        self.terms.len() == 0
    }

    /// The combination holding just the constant `c`.
    pub fn from_constant(c: u64) -> (r: LinearCombination)
        requires
            is_field_element(c),
        ensures
            r.wf(),
            r.value == c,
            r.spec_is_constant(),
            r.constant == c,
    {
        proof {
            lemma_small_mod(c as nat, FIELD_MODULUS as nat);
        }
        LinearCombination { constant: c, terms: Vec::new(), value: c }
    }

    /// The combination holding one variable with coefficient 1.
    /// A constant variable folds into the constant offset.
    pub fn from_variable(var: Variable) -> (r: LinearCombination)
        requires
            var.wf(),
        ensures
            r.wf(),
            r.value == var.spec_value(),
            r.spec_is_constant() == !var.is_wire(),
    {
        match var {
            Variable::Constant(v) => LinearCombination::from_constant(v),
            _ => {
                let value = var.value();
                let mut terms: Vec<Term> = Vec::new();
                terms.push(Term { var, coeff: 1 });
                proof {
                    lemma_terms_value_push(Seq::<Term>::empty(), Term { var, coeff: 1 });
                    lemma_small_mod(value as nat, FIELD_MODULUS as nat);
                }
                LinearCombination { constant: 0, terms, value }
            },
        }
    }

    /// An equal copy of the combination.
    pub fn duplicate(&self) -> (r: LinearCombination)
        ensures
            r.constant == self.constant,
            r.value == self.value,
            r.terms@ == self.terms@,
            self.wf() ==> r.wf(),
            r.spec_is_constant() == self.spec_is_constant(),
    {
        let mut terms: Vec<Term> = Vec::new();
        let mut i: usize = 0;
        while i < self.terms.len()
            invariant
                0 <= i <= self.terms@.len(),
                terms@ =~= self.terms@.take(i as int),
            decreases self.terms@.len() - i,
        {
            terms.push(self.terms[i]);
            i = i + 1;
        }
        proof {
            assert(self.terms@.take(self.terms@.len() as int) =~= self.terms@);
        }
        LinearCombination { constant: self.constant, terms, value: self.value }
    }

    /// The sum of two combinations: offsets add, term lists concatenate.
    #[verifier::rlimit(30)]
    pub fn add(&self, other: &LinearCombination) -> (r: LinearCombination)
        requires
            self.wf(),
            other.wf(),
        ensures
            r.wf(),
            r.value == add_spec(self.value, other.value),
            r.terms@ == self.terms@ + other.terms@,
            r.constant == add_spec(self.constant, other.constant),
    {
        let constant = field_add(self.constant, other.constant);
        let value = field_add(self.value, other.value);
        let mut terms: Vec<Term> = Vec::new();
        let mut i: usize = 0;
        while i < self.terms.len()
            invariant
                0 <= i <= self.terms@.len(),
                terms@ =~= self.terms@.take(i as int),
            decreases self.terms@.len() - i,
        {
            terms.push(self.terms[i]);
            i = i + 1;
        }
        let mut j: usize = 0;
        while j < other.terms.len()
            invariant
                0 <= j <= other.terms@.len(),
                terms@ =~= self.terms@ + other.terms@.take(j as int),
            decreases other.terms@.len() - j,
        {
            terms.push(other.terms[j]);
            j = j + 1;
        }
        proof {
            assert(self.terms@.take(self.terms@.len() as int) =~= self.terms@);
            assert(other.terms@.take(other.terms@.len() as int) =~= other.terms@);
            assert(terms@ =~= self.terms@ + other.terms@);
            lemma_terms_value_concat(self.terms@, other.terms@);
            let p = FIELD_MODULUS as int;
            let c1 = self.constant as int;
            let c2 = other.constant as int;
            let t1 = terms_value(self.terms@) as int;
            let t2 = terms_value(other.terms@) as int;
            lemma_add_mod_noop(c1 + t1, c2 + t2, p);
            vstd::arithmetic::div_mod::lemma_add_mod_noop_right((c1 + c2) % p, t1 + t2, p);
            lemma_add_mod_noop(c1 + c2, t1 + t2, p);
            vstd::arithmetic::div_mod::lemma_mod_twice(c1 + c2, p);
            assert(value == ((c1 + c2) % p + (t1 + t2)) % p);
        }
        LinearCombination { constant, terms, value }
    }

    /// The combination scaled throughout by a field element.
    pub fn scale(&self, k: u64) -> (r: LinearCombination)
        requires
            self.wf(),
            is_field_element(k),
        ensures
            r.wf(),
            r.value == mul_spec(self.value, k),
            r.terms@.len() == self.terms@.len(),
            forall|i: int|
                0 <= i < self.terms@.len() ==> #[trigger] r.terms@[i].var == self.terms@[i].var,
    {
        let constant = field_mul(self.constant, k);
        let value = field_mul(self.value, k);
        let mut terms: Vec<Term> = Vec::new();
        let mut i: usize = 0;
        proof {
            assert(self.terms@.take(0) =~= Seq::<Term>::empty());
            assert(terms@ =~= Seq::<Term>::empty());
            assert(terms_value(Seq::<Term>::empty()) == 0);
            assert(0int % (FIELD_MODULUS as int) == 0) by {
                lemma_small_mod(0, FIELD_MODULUS as nat);
            }
        }
        while i < self.terms.len()
            invariant
                self.wf(),
                is_field_element(k),
                0 <= i <= self.terms@.len(),
                terms@.len() == i,
                terms_wf(terms@),
                forall|j: int| 0 <= j < i ==> #[trigger] terms@[j].var == self.terms@[j].var,
                terms_value(terms@) as int % (FIELD_MODULUS as int) == (terms_value(
                    self.terms@.take(i as int),
                ) as int * k) % (FIELD_MODULUS as int),
            decreases self.terms@.len() - i,
        {
            let t = self.terms[i];
            assert(self.terms@[i as int].wf());
            let scaled = Term { var: t.var, coeff: field_mul(t.coeff, k) };
            proof {
                let p = FIELD_MODULUS as int;
                lemma_terms_value_push(terms@, scaled);
                assert(self.terms@.take(i + 1).drop_last() =~= self.terms@.take(i as int));
                let prev = terms_value(terms@) as int;
                let prevs = terms_value(self.terms@.take(i as int)) as int;
                let cv = t.coeff as int;
                let vv = t.var.spec_value() as int;
                let sc = scaled.coeff as int;
                // the new term's weight is congruent to the unscaled weight times k
                assert(sc % p == (cv * k) % p) by {
                    lemma_small_mod(scaled.coeff as nat, FIELD_MODULUS as nat);
                }
                assert((sc * vv) % p == ((cv * k) * vv) % p) by {
                    lemma_mul_mod_noop_left(cv * k, vv, p);
                    assert((((cv * k) % p) * vv) % p == ((cv * k) * vv) % p);
                }
                assert((prev + sc * vv) % p == (prevs * k + (cv * vv) * k) % p) by {
                    lemma_add_mod_noop(prev, sc * vv, p);
                    lemma_add_mod_noop(prevs * k, (cv * vv) * k, p);
                    assert((cv * k) * vv == (cv * vv) * k) by (nonlinear_arith);
                    lemma_mul_mod_noop_left(prevs, k as int, p);
                    lemma_mul_mod_noop_left(cv * vv, k as int, p);
                    assert(prev % p == (prevs * k) % p);
                    assert((sc * vv) % p == ((cv * vv) * k) % p);
                }
                assert((prevs + cv * vv) * k == prevs * k + (cv * vv) * k) by (nonlinear_arith);
            }
            terms.push(scaled);
            i = i + 1;
        }
        proof {
            assert(self.terms@.take(self.terms@.len() as int) =~= self.terms@);
            let p = FIELD_MODULUS as int;
            let c = self.constant as int;
            let t = terms_value(self.terms@) as int;
            let tn = terms_value(terms@) as int;
            let cn = constant as int;
            // reduced parts recombine to the scaled whole
            assert((cn + tn) % p == ((c + t) * k) % p) by {
                lemma_add_mod_noop(cn, tn, p);
                lemma_small_mod(constant as nat, FIELD_MODULUS as nat);
                assert(cn % p == (c * k) % p);
                assert(tn % p == (t * k) % p);
                lemma_add_mod_noop(c * k, t * k, p);
                assert((c + t) * k == c * k + t * k) by (nonlinear_arith);
            }
            assert(value == ((c + t) % p * k) % p);
            lemma_mul_mod_noop_left(c + t, k as int, p);
        }
        LinearCombination { constant, terms, value }
    }

    /// The difference of two combinations, as `self + (-1) * other`.
    pub fn sub(&self, other: &LinearCombination) -> (r: LinearCombination)
        requires
            self.wf(),
            other.wf(),
        ensures
            r.wf(),
            r.value == sub_spec(self.value, other.value),
            r.terms@.len() == self.terms@.len() + other.terms@.len(),
            self.spec_is_constant() && other.spec_is_constant() ==> r.spec_is_constant(),
    {
        let neg = other.scale(FIELD_MODULUS - 1);
        let r = self.add(&neg);
        proof {
            let p = FIELD_MODULUS as int;
            let a = self.value as int;
            let b = other.value as int;
            // (p - 1) * b is congruent to p - b, so the sum reduces to a - b
            assert(neg.value as int == (b * (p - 1)) % p);
            assert((b * (p - 1)) % p == (p - b) % p) by {
                assert(b * (p - 1) == (b - 1) * p + (p - b)) by (nonlinear_arith);
                lemma_mod_multiples_vanish(b - 1, p - b, p);
            }
            assert(r.value as int == (a + (b * (p - 1)) % p) % p);
            lemma_add_mod_noop(a, p - b, p);
            lemma_add_mod_noop(a, (b * (p - 1)) % p, p);
            vstd::arithmetic::div_mod::lemma_mod_twice(p - b, p);
            vstd::arithmetic::div_mod::lemma_mod_twice(a + (p - b), p);
            assert((a % p + ((b * (p - 1)) % p) % p) % p == (a % p + (p - b) % p) % p);
            lemma_small_mod(a as nat, FIELD_MODULUS as nat);
        }
        r
    }
}

/// One rank-1 constraint: any satisfying assignment obeys `a * b = c`.
#[derive(Clone, Debug)]
pub struct Constraint {
    pub a: LinearCombination,
    pub b: LinearCombination,
    pub c: LinearCombination,
}

impl Constraint {
    /// Whether all three combinations are canonical.
    pub open spec fn wf(self) -> bool {
        self.a.wf() && self.b.wf() && self.c.wf()
    }

    /// Whether the recorded assignment satisfies `a * b = c`.
    pub open spec fn spec_satisfied(self) -> bool {
        mul_spec(self.a.value, self.b.value) == self.c.value
    }

    /// Whether the recorded assignment satisfies `a * b = c`.
    pub fn satisfied(&self) -> (r: bool)
        requires
            self.wf(),
        ensures
            r == self.spec_satisfied(),
    {
        field_mul(self.a.value, self.b.value) == self.c.value
    }
}

/// Equal constraint lists are satisfied together.
pub proof fn lemma_same_constraints_same_satisfaction(a: Fabric, b: Fabric)
    requires
        a.constraints@ =~= b.constraints@,
    ensures
        a.spec_satisfied() == b.spec_satisfied(),
{
    if a.spec_satisfied() {
        assert forall|i: int|
            0 <= i < b.constraints@.len() implies #[trigger] b.constraints@[i].spec_satisfied() by {
            assert(a.constraints@[i].spec_satisfied());
        }
    }
    if b.spec_satisfied() {
        assert forall|i: int|
            0 <= i < a.constraints@.len() implies #[trigger] a.constraints@[i].spec_satisfied() by {
            assert(b.constraints@[i].spec_satisfied());
        }
    }
}

/// Appending one constraint conjoins its satisfaction onto the list's.
pub proof fn lemma_push_constraint_satisfaction(a: Fabric, b: Fabric, c: Constraint)
    requires
        b.constraints@ =~= a.constraints@.push(c),
    ensures
        b.spec_satisfied() == (a.spec_satisfied() && c.spec_satisfied()),
{
    if b.spec_satisfied() {
        assert(b.constraints@[a.constraints@.len() as int].spec_satisfied());
        assert forall|i: int|
            0 <= i < a.constraints@.len() implies #[trigger] a.constraints@[i].spec_satisfied() by {
            assert(b.constraints@[i].spec_satisfied());
        }
    }
    if a.spec_satisfied() && c.spec_satisfied() {
        assert forall|i: int|
            0 <= i < b.constraints@.len() implies #[trigger] b.constraints@[i].spec_satisfied() by {
            if i < a.constraints@.len() {
                assert(a.constraints@[i].spec_satisfied());
            } else {
                assert(b.constraints@[i] == c);
            }
        }
    }
}

/// A snapshot of the fabric's counters, taken when a named scope opens.
#[derive(Clone, Debug)]
pub struct ScopeFrame {
    pub name: String,
    pub constants: usize,
    pub public: usize,
    pub private: usize,
    pub constraints: usize,
}

/// The constraint fabric: the sole owner of allocated wires, their assigned
/// values, and the ordered constraint list.
#[derive(Debug)]
pub struct Fabric {
    pub constants: Vec<u64>,
    pub public: Vec<u64>,
    pub private: Vec<u64>,
    pub constraints: Vec<Constraint>,
    pub scopes: Vec<ScopeFrame>,
}

impl Fabric {
    /// Whether every recorded value and constraint is canonical, and every
    /// open scope's snapshot is within the current counters.
    pub open spec fn wf(self) -> bool {
        &&& forall|i: int| 0 <= i < self.constraints@.len() ==> #[trigger] self.constraints@[i].wf()
        &&& forall|i: int|
            0 <= i < self.scopes@.len() ==> {
                &&& #[trigger] self.scopes@[i].constants <= self.constants@.len()
                &&& self.scopes@[i].public <= self.public@.len()
                &&& self.scopes@[i].private <= self.private@.len()
                &&& self.scopes@[i].constraints <= self.constraints@.len()
            }
    }

    /// Whether the recorded assignment satisfies every constraint so far.
    pub open spec fn spec_satisfied(self) -> bool {
        forall|i: int|
            0 <= i < self.constraints@.len() ==> #[trigger] self.constraints@[i].spec_satisfied()
    }

    /// Whether one fabric extends another by exactly the given cost, leaving
    /// everything previously recorded in place.
    pub open spec fn grew_by(post: Fabric, pre: Fabric, cost: Count) -> bool {
        &&& post.constants@.len() == pre.constants@.len() + cost.constants
        &&& post.public@.len() == pre.public@.len() + cost.public
        &&& post.private@.len() == pre.private@.len() + cost.private
        &&& post.constraints@.len() == pre.constraints@.len() + cost.constraints
        &&& forall|i: int|
            0 <= i < pre.constraints@.len() ==> #[trigger] post.constraints@[i]
                == pre.constraints@[i]
        &&& post.scopes@ == pre.scopes@
    }

    /// Whether every constraint added on top of `pre` is satisfied, so that
    /// the fabric is satisfied exactly when it was before.
    pub open spec fn keeps_satisfaction(post: Fabric, pre: Fabric) -> bool {
        post.spec_satisfied() == pre.spec_satisfied()
    }

    /// A fresh fabric with nothing allocated and nothing enforced.
    pub fn new() -> (r: Fabric)
        ensures
            r.wf(),
            r.constants@.len() == 0,
            r.public@.len() == 0,
            r.private@.len() == 0,
            r.constraints@.len() == 0,
            r.scopes@.len() == 0,
            r.spec_satisfied(),
    {
        Fabric {
            constants: Vec::new(),
            public: Vec::new(),
            private: Vec::new(),
            constraints: Vec::new(),
            scopes: Vec::new(),
        }
    }

    /// Clears all state for reuse. Every previously issued wire handle is
    /// invalidated; callers must not retain handles across a reset.
    pub fn reset(&mut self)
        ensures
            final (self).wf(),
            final (self).constants@.len() == 0,
            final (self).public@.len() == 0,
            final (self).private@.len() == 0,
            final (self).constraints@.len() == 0,
            final (self).scopes@.len() == 0,
            final (self).spec_satisfied(),
    {
        self.constants = Vec::new();
        self.public = Vec::new();
        self.private = Vec::new();
        self.constraints = Vec::new();
        self.scopes = Vec::new();
    }

    /// The number of constant allocations so far.
    pub fn num_constants(&self) -> (r: usize)
        ensures
            r == self.constants@.len(),
    {
        self.constants.len()
    }

    /// The number of public wires allocated so far.
    pub fn num_public(&self) -> (r: usize)
        ensures
            r == self.public@.len(),
    {
        self.public.len()
    }

    /// The number of private wires allocated so far.
    pub fn num_private(&self) -> (r: usize)
        ensures
            r == self.private@.len(),
    {
        self.private.len()
    }

    /// The number of constraints enforced so far.
    pub fn num_constraints(&self) -> (r: usize)
        ensures
            r == self.constraints@.len(),
    {
        self.constraints.len()
    }

    /// Records a new wire of the given mode with its assigned value and
    /// returns the variable that refers to it. A constant allocation grows
    /// only the internal bookkeeping counter, never the public description.
    pub fn allocate(&mut self, mode: Mode, value: u64) -> (v: Variable)
        requires
            old(self).wf(),
            is_field_element(value),
        ensures
            final (self).wf(),
            v.wf(),
            v.spec_value() == value,
            v.is_wire() == (mode != Mode::Constant),
            mode == Mode::Constant ==> Fabric::grew_by(
                *final (self),
                *old(self),
                Count { constants: 1, public: 0, private: 0, constraints: 0 },
            ),
            mode == Mode::Public ==> Fabric::grew_by(
                *final (self),
                *old(self),
                Count { constants: 0, public: 1, private: 0, constraints: 0 },
            ) && v == Variable::Public(old(self).public@.len() as usize, value),
            mode == Mode::Private ==> Fabric::grew_by(
                *final (self),
                *old(self),
                Count { constants: 0, public: 0, private: 1, constraints: 0 },
            ) && v == Variable::Private(old(self).private@.len() as usize, value),
            final (self).constraints@ == old(self).constraints@,
            Fabric::keeps_satisfaction(*final (self), *old(self)),
    {
        let v: Variable = match mode {
            Mode::Constant => {
                self.constants.push(value);
                Variable::Constant(value)
            },
            Mode::Public => {
                let index = self.public.len();
                self.public.push(value);
                Variable::Public(index, value)
            },
            Mode::Private => {
                let index = self.private.len();
                self.private.push(value);
                Variable::Private(index, value)
            },
        };
        proof {
            lemma_same_constraints_same_satisfaction(*old(self), *self);
        }
        v
    }

    /// Appends the constraint `a * b = c`. Enforcement never fails: a false
    /// statement produces an unsatisfiable but well-formed system. The one
    /// exception to appending is a constraint between constants alone that
    /// already holds, which leaves no trace in the system.
    pub fn enforce(&mut self, a: LinearCombination, b: LinearCombination, c: LinearCombination)
        requires
            old(self).wf(),
            a.wf(),
            b.wf(),
            c.wf(),
        ensures
            final (self).wf(),
            final (self).constants@ == old(self).constants@,
            final (self).public@ == old(self).public@,
            final (self).private@ == old(self).private@,
            final (self).scopes@ == old(self).scopes@,
            ({
                let folded = a.spec_is_constant() && b.spec_is_constant() && c.spec_is_constant()
                    && mul_spec(a.value, b.value) == c.value;
                if folded {
                    final (self).constraints@ == old(self).constraints@
                } else {
                    final (self).constraints@ == old(self).constraints@.push(Constraint { a, b, c })
                }
            }),
            final (self).spec_satisfied() == (old(self).spec_satisfied() && mul_spec(
                a.value,
                b.value,
            ) == c.value),
    {
        let folded = a.is_constant() && b.is_constant() && c.is_constant() && field_mul(
            a.value,
            b.value,
        ) == c.value;
        if !folded {
            let constraint = Constraint { a, b, c };
            self.constraints.push(constraint);
            proof {
                lemma_push_constraint_satisfaction(*old(self), *self, constraint);
            }
        } else {
            proof {
                lemma_same_constraints_same_satisfaction(*old(self), *self);
                lemma_small_mod(c.value as nat, FIELD_MODULUS as nat);
            }
        }
    }

    /// Enforces that two combinations take equal values, as `a * 1 = b`.
    pub fn assert_eq(&mut self, a: &LinearCombination, b: &LinearCombination)
        requires
            old(self).wf(),
            a.wf(),
            b.wf(),
        ensures
            final (self).wf(),
            final (self).constants@ == old(self).constants@,
            final (self).public@ == old(self).public@,
            final (self).private@ == old(self).private@,
            final (self).scopes@ == old(self).scopes@,
            (a.spec_is_constant() && b.spec_is_constant() && a.value == b.value) ==> (final (self).constraints@ == old(self).constraints@),
            !(a.spec_is_constant() && b.spec_is_constant() && a.value == b.value) ==> ((final (self).constraints@.len() == old(self).constraints@.len() + 1) && (forall|i: int|
                0 <= i < old(self).constraints@.len() ==> final (self).constraints@[i]
                    == #[trigger] old(self).constraints@[i])),
            final (self).spec_satisfied() == (old(self).spec_satisfied() && a.value == b.value),
    {
        let one = LinearCombination::from_constant(1);
        proof {
            lemma_small_mod(a.value as nat, FIELD_MODULUS as nat);
            assert(mul_spec(a.value, 1) == a.value) by {
                assert(a.value * 1 == a.value);
            }
        }
        self.enforce(a.duplicate(), one, b.duplicate());
    }

    /// Whether the recorded assignment satisfies every constraint so far.
    pub fn is_satisfied(&self) -> (r: bool)
        requires
            self.wf(),
        ensures
            r == self.spec_satisfied(),
    {
        let n = self.constraints.len();
        let mut i: usize = 0;
        while i < n
            invariant
                self.wf(),
                n == self.constraints@.len(),
                0 <= i <= n,
                forall|j: int| 0 <= j < i ==> #[trigger] self.constraints@[j].spec_satisfied(),
            decreases n - i,
        {
            if !self.constraints[i].satisfied() {
                return false;
            }
            i = i + 1;
        }
        true
    }

    /// Opens a named scope: pushes a label with the current counters, so the
    /// exact cost of the region can be read back when it closes. Scopes are
    /// advisory bookkeeping only and never affect evaluation.
    pub fn push_scope(&mut self, name: String)
        requires
            old(self).wf(),
        ensures
            final (self).wf(),
            final (self).constants@ == old(self).constants@,
            final (self).public@ == old(self).public@,
            final (self).private@ == old(self).private@,
            final (self).constraints@ == old(self).constraints@,
            final (self).scopes@.len() == old(self).scopes@.len() + 1,
            Fabric::keeps_satisfaction(*final (self), *old(self)),
    {
        let frame = ScopeFrame {
            name,
            constants: self.constants.len(),
            public: self.public.len(),
            private: self.private.len(),
            constraints: self.constraints.len(),
        };
        let ghost pushed = frame;
        self.scopes.push(frame);
        proof {
            assert forall|i: int| 0 <= i < self.scopes@.len() implies {
                &&& #[trigger] self.scopes@[i].constants <= self.constants@.len()
                &&& self.scopes@[i].public <= self.public@.len()
                &&& self.scopes@[i].private <= self.private@.len()
                &&& self.scopes@[i].constraints <= self.constraints@.len()
            } by {
                if i < old(self).scopes@.len() {
                    assert(self.scopes@[i] == old(self).scopes@[i]);
                } else {
                    assert(self.scopes@[i] == pushed);
                }
            }
            lemma_same_constraints_same_satisfaction(*old(self), *self);
        }
    }

    /// Closes the innermost scope and returns the exact resource quadruple
    /// consumed since it opened, or `None` when no scope is open.
    pub fn pop_scope(&mut self) -> (r: Option<Count>)
        requires
            old(self).wf(),
        ensures
            final (self).wf(),
            final (self).constants@ == old(self).constants@,
            final (self).public@ == old(self).public@,
            final (self).private@ == old(self).private@,
            final (self).constraints@ == old(self).constraints@,
            Fabric::keeps_satisfaction(*final (self), *old(self)),
            old(self).scopes@.len() == 0 ==> r is None && final (self).scopes@ == old(self).scopes@,
            old(self).scopes@.len() > 0 ==> {
                let frame = old(self).scopes@.last();
                &&& final (self).scopes@ == old(self).scopes@.drop_last()
                &&& r == Some(
                    Count {
                        constants: (old(self).constants@.len() - frame.constants) as usize,
                        public: (old(self).public@.len() - frame.public) as usize,
                        private: (old(self).private@.len() - frame.private) as usize,
                        constraints: (old(self).constraints@.len() - frame.constraints) as usize,
                    },
                )
            },
    {
        match self.scopes.pop() {
            None => None,
            Some(frame) => Some(
                Count {
                    constants: self.constants.len() - frame.constants,
                    public: self.public.len() - frame.public,
                    private: self.private.len() - frame.private,
                    constraints: self.constraints.len() - frame.constraints,
                },
            ),
        }
    }
}

} // verus!

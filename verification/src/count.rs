//! The static cost of a gate: how many wires and constraints it consumes.

use vstd::prelude::*;

verus! {

/// An exact resource quadruple: constants, public wires, private wires and
/// constraints consumed by one region of circuit construction.
#[derive(Clone, Copy, Debug, PartialEq, Eq, Structural)]
pub struct Count {
    pub constants: usize,
    pub public: usize,
    pub private: usize,
    pub constraints: usize,
}

impl Count {
    /// The exact cost quadruple with the given components.
    pub fn is(constants: usize, public: usize, private: usize, constraints: usize) -> (r: Count)
        ensures
            r == (Count { constants, public, private, constraints }),
    {
        Count { constants, public, private, constraints }
    }

    /// The cost of a region that allocates and enforces nothing.
    pub open spec fn spec_zero() -> Count {
        Count { constants: 0, public: 0, private: 0, constraints: 0 }
    }

    /// The cost of a region that allocates and enforces nothing.
    pub fn zero() -> (r: Count)
        ensures
            r == Count::spec_zero(),
    {
        Count { constants: 0, public: 0, private: 0, constraints: 0 }
    }
}

} // verus!

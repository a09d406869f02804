//! The three-level visibility lattice of circuit values.

use vstd::prelude::*;

verus! {

/// The visibility of a circuit value.
///
/// A `Constant` is fixed at construction time and carries no proving cost; a
/// `Public` value is known to the verifier and backed by a wire; a `Private`
/// value is known only to the prover and backed by a wire.
#[derive(Clone, Copy, Debug, PartialEq, Eq, Structural)]
pub enum Mode {
    Constant,
    Public,
    Private,
}

impl Mode {
    /// Whether this mode is `Constant`.
    pub fn is_constant(&self) -> (r: bool)
        ensures
            r == (*self == Mode::Constant),
    {
        matches!(self, Mode::Constant)
    }

    /// Whether this mode is `Public`.
    pub fn is_public(&self) -> (r: bool)
        ensures
            r == (*self == Mode::Public),
    {
        matches!(self, Mode::Public)
    }

    /// Whether this mode is `Private`.
    pub fn is_private(&self) -> (r: bool)
        ensures
            r == (*self == Mode::Private),
    {
        matches!(self, Mode::Private)
    }
}

/// A value's mode together with, for constants, the value itself.
///
/// The output-mode oracles take this richer descriptor wherever the result's
/// mode depends on what a constant operand holds, not just on its mode.
pub enum CircuitType<T> {
    Constant(T),
    Public,
    Private,
}

impl<T> CircuitType<T> {
    /// The mode this descriptor stands for.
    pub open spec fn spec_mode(&self) -> Mode {
        match self {
            CircuitType::Constant(_) => Mode::Constant,
            CircuitType::Public => Mode::Public,
            CircuitType::Private => Mode::Private,
        }
    }

    /// The mode this descriptor stands for.
    pub fn mode(&self) -> (r: Mode)
        ensures
            r == self.spec_mode(),
    {
        match self {
            CircuitType::Constant(_) => Mode::Constant,
            CircuitType::Public => Mode::Public,
            CircuitType::Private => Mode::Private,
        }
    }
}

} // verus!

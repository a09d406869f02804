//! The program substrate the illustrative instructions run on: typed
//! literals, registers, and the halt channel.
//!
//! Instructions never panic. An input outside an instruction's defined
//! domain — a type it does not support, a division by zero — aborts the
//! enclosing construction through the `Halt` channel, which the caller
//! propagates as a hard stop. This is distinct from an unsatisfiable
//! constraint system, which is never raised here at all.

use vstd::prelude::*;
use crate::arith::is_field_element;
use crate::scalar::SCALAR_MODULUS;

verus! {

/// A fatal halt: the unrecoverable abort of the enclosing construction,
/// signalling a programming or usage error in the caller.
#[derive(Clone, Copy, Debug, PartialEq, Eq, Structural)]
pub enum Halt {
    /// Division by zero error.
    DivisionByZero,
    /// Overflow or underflow on division of two integer constants.
    Overflow,
    /// The instruction does not support this combination of literal types.
    InvalidInstruction,
    /// A definition was found where a literal was required.
    NotALiteral,
    /// The register has not been defined.
    UndefinedRegister,
    /// The register has not been assigned a value yet.
    UnassignedRegister,
    /// The register already holds a value.
    AlreadyAssigned,
}

/// A typed literal value.
#[derive(Clone, Copy, Debug, PartialEq, Eq, Structural)]
pub enum Literal {
    Field(u64),
    I8(i8),
    I16(i16),
    I32(i32),
    I64(i64),
    I128(i128),
    U8(u8),
    U16(u16),
    U32(u32),
    U64(u64),
    U128(u128),
    Boolean(bool),
    Scalar(u64),
}

impl Literal {
    /// Whether a field or scalar literal holds a canonical element.
    pub open spec fn wf(self) -> bool {
        match self {
            Literal::Field(v) => is_field_element(v),
            Literal::Scalar(v) => v < SCALAR_MODULUS,
            _ => true,
        }
    }
}

/// Whether every literal inside a value is canonical.
pub open spec fn value_wf(v: Value) -> bool {
    match v {
        Value::Literal(literal) => literal.wf(),
        Value::Definition(_, literals) => forall|i: int|
            0 <= i < literals@.len() ==> (#[trigger] literals@[i]).wf(),
    }
}

/// Whether a possibly empty register slot holds only canonical literals.
pub open spec fn slot_wf(slot: Option<Value>) -> bool {
    match slot {
        Some(v) => value_wf(v),
        None => true,
    }
}

/// Whether every literal inside an operand is canonical.
pub open spec fn operand_wf(o: Operand) -> bool {
    match o {
        Operand::Value(v) => value_wf(v),
        Operand::Register(_) => true,
    }
}

/// A value a register can hold: a literal, or a named definition composed
/// of literals.
#[derive(Clone, Debug)]
pub enum Value {
    Literal(Literal),
    Definition(String, Vec<Literal>),
}

/// A register, addressed by its locator.
#[derive(Clone, Copy, Debug, PartialEq, Eq, Structural)]
pub struct Register {
    pub locator: u64,
}

impl Register {
    /// The register with the given locator.
    pub fn new(locator: u64) -> (r: Register)
        ensures
            r.locator == locator,
    {
        Register { locator }
    }
}

/// An instruction operand: an immediate value, or a register to load from.
#[derive(Clone, Debug)]
pub enum Operand {
    Value(Value),
    Register(Register),
}

/// The register file: one slot per defined register, filled at most once.
#[derive(Debug)]
pub struct Registers {
    pub slots: Vec<Option<Value>>,
}

impl Registers {
    /// Whether every assigned value holds only canonical literals.
    pub open spec fn wf(self) -> bool {
        forall|i: int| 0 <= i < self.slots@.len() ==> slot_wf(#[trigger] self.slots@[i])
    }

    /// An empty register file.
    pub fn new() -> (r: Registers)
        ensures
            r.slots@.len() == 0,
            r.wf(),
    {
        Registers { slots: Vec::new() }
    }

    /// Defines the next register. Registers are defined in locator order.
    pub fn define(&mut self, register: &Register)
        requires
            register.locator == old(self).slots@.len(),
        ensures
            final (self).slots@ == old(self).slots@.push(None::<Value>),
    {
        self.slots.push(None);
    }

    /// Stores a value in a defined, still-empty register.
    pub fn assign(&mut self, register: &Register, value: Value) -> (r: Result<(), Halt>)
        ensures
            register.locator >= old(self).slots@.len() ==> r == Err::<(), Halt>(
                Halt::UndefinedRegister,
            ) && final (self).slots@ == old(self).slots@,
            register.locator < old(self).slots@.len() && old(self).slots@[register.locator as int]
                is Some ==> r == Err::<(), Halt>(Halt::AlreadyAssigned) && final (self).slots@
                == old(self).slots@,
            register.locator < old(self).slots@.len() && old(self).slots@[register.locator as int]
                is None ==> r == Ok::<(), Halt>(()) && final (self).slots@ == old(
                self,
            ).slots@.update(register.locator as int, Some(value)),
    {
        if register.locator >= self.slots.len() as u64 {
            return Err(Halt::UndefinedRegister);
        }
        let index = register.locator as usize;
        if matches!(self.slots[index], Some(_)) {
            return Err(Halt::AlreadyAssigned);
        }
        self.slots.set(index, Some(value));
        Ok(())
    }

    /// The literal an operand stands for: an immediate literal itself, or
    /// the literal held by the named register. A definition, wherever it
    /// appears, is not a literal and halts the instruction.
    pub fn load_literal(&self, operand: &Operand) -> (r: Result<Literal, Halt>)
        ensures
            r == spec_load(*self, *operand),
    {
        match operand {
            Operand::Value(Value::Literal(literal)) => Ok(*literal),
            Operand::Value(Value::Definition(_, _)) => Err(Halt::NotALiteral),
            Operand::Register(register) => {
                if register.locator >= self.slots.len() as u64 {
                    return Err(Halt::UndefinedRegister);
                }
                let index = register.locator as usize;
                match &self.slots[index] {
                    None => Err(Halt::UnassignedRegister),
                    Some(Value::Literal(literal)) => Ok(*literal),
                    Some(Value::Definition(_, _)) => Err(Halt::NotALiteral),
                }
            },
        }
    }
}

/// The literal an operand loads to, or the halt the lookup forces:
/// the specification mirror of `Registers::load_literal`.
pub open spec fn spec_load(registers: Registers, operand: Operand) -> Result<Literal, Halt> {
    match operand {
        Operand::Value(Value::Literal(literal)) => Ok(literal),
        Operand::Value(Value::Definition(_, _)) => Err(Halt::NotALiteral),
        Operand::Register(register) => {
            if register.locator >= registers.slots@.len() {
                Err(Halt::UndefinedRegister)
            } else {
                match registers.slots@[register.locator as int] {
                    None => Err(Halt::UnassignedRegister),
                    Some(Value::Literal(literal)) => Ok(literal),
                    Some(Value::Definition(_, _)) => Err(Halt::NotALiteral),
                }
            }
        },
    }
}

/// How storing a literal in a destination register ends: the specification
/// mirror of `Registers::assign` together with its result.
pub open spec fn spec_assigned(
    pre: Registers,
    post: Registers,
    destination: Register,
    literal: Literal,
    r: Result<(), Halt>,
) -> bool {
    if destination.locator >= pre.slots@.len() {
        r == Err::<(), Halt>(Halt::UndefinedRegister) && post.slots@ == pre.slots@
    } else if pre.slots@[destination.locator as int] is Some {
        r == Err::<(), Halt>(Halt::AlreadyAssigned) && post.slots@ == pre.slots@
    } else {
        r == Ok::<(), Halt>(()) && post.slots@ == pre.slots@.update(
            destination.locator as int,
            Some(Value::Literal(literal)),
        )
    }
}

/// The two operands and the destination register of a binary operation.
#[derive(Clone, Debug)]
pub struct BinaryOperation {
    pub first: Operand,
    pub second: Operand,
    pub destination: Register,
}

impl BinaryOperation {
    /// The first operand.
    pub fn first(&self) -> (r: &Operand)
        ensures
            r == &self.first,
    {
        &self.first
    }

    /// The second operand.
    pub fn second(&self) -> (r: &Operand)
        ensures
            r == &self.second,
    {
        &self.second
    }

    /// The destination register.
    pub fn destination(&self) -> (r: &Register)
        ensures
            r == &self.destination,
    {
        &self.destination
    }
}

} // verus!

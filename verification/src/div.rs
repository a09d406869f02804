//! The division instruction: divides `first` by `second`, storing the
//! outcome in `destination`.
//!
//! Field division is exact division in the base field; integer division is
//! checked, halting on a zero divisor and on the one signed quotient that
//! overflows its type. Any other combination of literal types is outside
//! the instruction's domain and halts.

use vstd::prelude::*;
use vstd::arithmetic::div_mod::{
    lemma_div_is_ordered_by_denominator, lemma_div_nonincreasing, lemma_div_basics_1,
};
use crate::arith::{inv_spec, mul_spec};
use crate::program::{
    BinaryOperation, Halt, Literal, Operand, Register, Registers, Value, operand_wf, slot_wf,
    spec_load, spec_assigned,
};

verus! {

/// The absolute value.
pub open spec fn abs_spec(x: int) -> int {
    if x < 0 {
        -x
    } else {
        x
    }
}

/// The quotient truncated toward zero, as machine division computes it.
pub open spec fn div_trunc(a: int, b: int) -> int {
    if (a < 0) == (b < 0) {
        abs_spec(a) / abs_spec(b)
    } else {
        -(abs_spec(a) / abs_spec(b))
    }
}

/// What dividing one literal by another yields: the quotient, or the halt
/// that the operand combination forces.
pub open spec fn div_outcome(a: Literal, b: Literal) -> Result<Literal, Halt> {
    match (a, b) {
        (Literal::Field(x), Literal::Field(y)) => if y == 0 {
            Err(Halt::DivisionByZero)
        } else {
            Ok(Literal::Field(mul_spec(x, inv_spec(y) as u64) as u64))
        },
        (Literal::I8(x), Literal::I8(y)) => if y == 0 {
            Err(Halt::DivisionByZero)
        } else if x == i8::MIN && y == -1 {
            Err(Halt::Overflow)
        } else {
            Ok(Literal::I8(div_trunc(x as int, y as int) as i8))
        },
        (Literal::I16(x), Literal::I16(y)) => if y == 0 {
            Err(Halt::DivisionByZero)
        } else if x == i16::MIN && y == -1 {
            Err(Halt::Overflow)
        } else {
            Ok(Literal::I16(div_trunc(x as int, y as int) as i16))
        },
        (Literal::I32(x), Literal::I32(y)) => if y == 0 {
            Err(Halt::DivisionByZero)
        } else if x == i32::MIN && y == -1 {
            Err(Halt::Overflow)
        } else {
            Ok(Literal::I32(div_trunc(x as int, y as int) as i32))
        },
        (Literal::I64(x), Literal::I64(y)) => if y == 0 {
            Err(Halt::DivisionByZero)
        } else if x == i64::MIN && y == -1 {
            Err(Halt::Overflow)
        } else {
            Ok(Literal::I64(div_trunc(x as int, y as int) as i64))
        },
        (Literal::I128(x), Literal::I128(y)) => if y == 0 {
            Err(Halt::DivisionByZero)
        } else if x == i128::MIN && y == -1 {
            Err(Halt::Overflow)
        } else {
            Ok(Literal::I128(div_trunc(x as int, y as int) as i128))
        },
        (Literal::U8(x), Literal::U8(y)) => if y == 0 {
            Err(Halt::DivisionByZero)
        } else {
            Ok(Literal::U8((x as int / y as int) as u8))
        },
        (Literal::U16(x), Literal::U16(y)) => if y == 0 {
            Err(Halt::DivisionByZero)
        } else {
            Ok(Literal::U16((x as int / y as int) as u16))
        },
        (Literal::U32(x), Literal::U32(y)) => if y == 0 {
            Err(Halt::DivisionByZero)
        } else {
            Ok(Literal::U32((x as int / y as int) as u32))
        },
        (Literal::U64(x), Literal::U64(y)) => if y == 0 {
            Err(Halt::DivisionByZero)
        } else {
            Ok(Literal::U64((x as int / y as int) as u64))
        },
        (Literal::U128(x), Literal::U128(y)) => if y == 0 {
            Err(Halt::DivisionByZero)
        } else {
            Ok(Literal::U128((x as int / y as int) as u128))
        },
        _ => Err(Halt::InvalidInstruction),
    }
}

/// Checked signed division: halts on a zero divisor and on dividing the
/// minimum value by minus one, and otherwise truncates toward zero,
/// computed through unsigned magnitudes.
fn div_checked_i64(a: i64, b: i64) -> (r: Result<i64, Halt>)
    ensures
        b == 0 ==> r == Err::<i64, Halt>(Halt::DivisionByZero),
        (b != 0 && a == i64::MIN && b == -1) ==> r == Err::<i64, Halt>(Halt::Overflow),
        (b != 0 && !(a == i64::MIN && b == -1)) ==> (r matches Ok(q) && q as int == div_trunc(
            a as int,
            b as int,
        )),
{
    if b == 0 {
        return Err(Halt::DivisionByZero);
    }
    if a == i64::MIN && b == -1 {
        return Err(Halt::Overflow);
    }
    let ua: u64 = if a < 0 {
        if a == i64::MIN {
            0x8000_0000_0000_0000
        } else {
            (-a) as u64
        }
    } else {
        a as u64
    };
    let ub: u64 = if b < 0 {
        if b == i64::MIN {
            0x8000_0000_0000_0000
        } else {
            (-b) as u64
        }
    } else {
        b as u64
    };
    let q: u64 = ua / ub;
    proof {
        assert(ua == abs_spec(a as int));
        assert(ub == abs_spec(b as int));
        lemma_div_nonincreasing(ua as int, ub as int);
        if a == i64::MIN && b < -1 {
            lemma_div_is_ordered_by_denominator(ua as int, 2, ub as int);
        }
        lemma_div_basics_1(ua as int);
    }
    if (a < 0) == (b < 0) {
        Ok(q as i64)
    } else {
        let wide: i128 = -(q as i128);
        Ok(wide as i64)
    }
}

/// Checked signed division over 128-bit values, as for the other widths.
fn div_checked_i128(a: i128, b: i128) -> (r: Result<i128, Halt>)
    ensures
        b == 0 ==> r == Err::<i128, Halt>(Halt::DivisionByZero),
        (b != 0 && a == i128::MIN && b == -1) ==> r == Err::<i128, Halt>(Halt::Overflow),
        (b != 0 && !(a == i128::MIN && b == -1)) ==> (r matches Ok(q) && q as int == div_trunc(
            a as int,
            b as int,
        )),
{
    if b == 0 {
        return Err(Halt::DivisionByZero);
    }
    if a == i128::MIN && b == -1 {
        return Err(Halt::Overflow);
    }
    let ua: u128 = if a < 0 {
        if a == i128::MIN {
            0x8000_0000_0000_0000_0000_0000_0000_0000
        } else {
            (-a) as u128
        }
    } else {
        a as u128
    };
    let ub: u128 = if b < 0 {
        if b == i128::MIN {
            0x8000_0000_0000_0000_0000_0000_0000_0000
        } else {
            (-b) as u128
        }
    } else {
        b as u128
    };
    let q: u128 = ua / ub;
    proof {
        assert(ua == abs_spec(a as int));
        assert(ub == abs_spec(b as int));
        lemma_div_nonincreasing(ua as int, ub as int);
        if a == i128::MIN && b < -1 {
            lemma_div_is_ordered_by_denominator(ua as int, 2, ub as int);
        }
        lemma_div_basics_1(ua as int);
    }
    if (a < 0) == (b < 0) {
        Ok(q as i128)
    } else {
        if q == 0x8000_0000_0000_0000_0000_0000_0000_0000 {
            Ok(i128::MIN)
        } else {
            Ok(-(q as i128))
        }
    }
}

/// Divides `first` by `second`, storing the outcome in `destination`.
pub struct Div {
    pub operation: BinaryOperation,
}

impl Div {
    /// Builds the instruction from its operation.
    pub fn new(operation: BinaryOperation) -> (r: Div)
        ensures
            r.operation == operation,
    {
        Div { operation }
    }

    /// Returns the operands of the instruction.
    pub fn operands(&self) -> (r: Vec<&Operand>)
        ensures
            r@.len() == 2,
            r@[0] == &self.operation.first,
            r@[1] == &self.operation.second,
    {
        let mut operands: Vec<&Operand> = Vec::new();
        operands.push(&self.operation.first);
        operands.push(&self.operation.second);
        operands
    }

    /// Returns the destination register of the instruction.
    pub fn destination(&self) -> (r: &Register)
        ensures
            r == &self.operation.destination,
    {
        &self.operation.destination
    }

    /// Returns the opcode as a string.
    pub fn opcode() -> (r: &'static str)
        ensures
            r@ == "div"@,
    {
        "div"
    }

    /// Evaluates the operation: loads the two operands, divides, and stores
    /// the quotient. Any halt — a non-literal operand, an unsupported type
    /// pair, a zero divisor, a signed overflow, or a bad destination —
    /// leaves the registers untouched and aborts the construction.
    #[verifier::rlimit(60)]
    pub fn evaluate(&self, registers: &mut Registers) -> (r: Result<(), Halt>)
        requires
            old(registers).wf(),
            operand_wf(self.operation.first),
            operand_wf(self.operation.second),
        ensures
            final (registers).wf(),
            ({
                let first = spec_load(*old(registers), self.operation.first);
                let second = spec_load(*old(registers), self.operation.second);
                match first {
                    Err(halt) => r == Err::<(), Halt>(halt) && final (registers).slots@ == old(
                        registers,
                    ).slots@,
                    Ok(a) => match second {
                        Err(halt) => r == Err::<(), Halt>(halt) && final (registers).slots@ == old(
                            registers,
                        ).slots@,
                        Ok(b) => match div_outcome(a, b) {
                            Err(halt) => r == Err::<(), Halt>(halt) && final (registers).slots@
                                == old(registers).slots@,
                            Ok(result) => spec_assigned(
                                *old(registers),
                                *final (registers),
                                self.operation.destination,
                                result,
                                r,
                            ),
                        },
                    },
                }
            }),
    {
        let first = match registers.load_literal(&self.operation.first) {
            Ok(literal) => literal,
            Err(halt) => {
                return Err(halt);
            },
        };
        let second = match registers.load_literal(&self.operation.second) {
            Ok(literal) => literal,
            Err(halt) => {
                return Err(halt);
            },
        };
        proof {
            match self.operation.first {
                Operand::Register(reg) => {
                    if reg.locator < old(registers).slots@.len() {
                        assert(slot_wf(old(registers).slots@[reg.locator as int]));
                    }
                },
                _ => {},
            }
            match self.operation.second {
                Operand::Register(reg) => {
                    if reg.locator < old(registers).slots@.len() {
                        assert(slot_wf(old(registers).slots@[reg.locator as int]));
                    }
                },
                _ => {},
            }
            assert(first.wf());
            assert(second.wf());
        }
        let result = match (first, second) {
            (Literal::Field(x), Literal::Field(y)) => {
                if y == 0 {
                    return Err(Halt::DivisionByZero);
                }
                Literal::Field(crate::arith::field_div(x, y))
            },
            (Literal::I8(x), Literal::I8(y)) => {
                if y == 0 {
                    return Err(Halt::DivisionByZero);
                }
                if x == i8::MIN && y == -1 {
                    return Err(Halt::Overflow);
                }
                proof {
                    lemma_div_nonincreasing(abs_spec(x as int), abs_spec(y as int));
                    if x == i8::MIN && y < -1 {
                        lemma_div_is_ordered_by_denominator(abs_spec(x as int), 2, abs_spec(y as int));
                    }
                }
                match div_checked_i64(x as i64, y as i64) {
                    Ok(q) => Literal::I8(q as i8),
                    Err(halt) => {
                        return Err(halt);
                    },
                }
            },
            (Literal::I16(x), Literal::I16(y)) => {
                if y == 0 {
                    return Err(Halt::DivisionByZero);
                }
                if x == i16::MIN && y == -1 {
                    return Err(Halt::Overflow);
                }
                proof {
                    lemma_div_nonincreasing(abs_spec(x as int), abs_spec(y as int));
                    if x == i16::MIN && y < -1 {
                        lemma_div_is_ordered_by_denominator(abs_spec(x as int), 2, abs_spec(y as int));
                    }
                }
                match div_checked_i64(x as i64, y as i64) {
                    Ok(q) => Literal::I16(q as i16),
                    Err(halt) => {
                        return Err(halt);
                    },
                }
            },
            (Literal::I32(x), Literal::I32(y)) => {
                if y == 0 {
                    return Err(Halt::DivisionByZero);
                }
                if x == i32::MIN && y == -1 {
                    return Err(Halt::Overflow);
                }
                proof {
                    lemma_div_nonincreasing(abs_spec(x as int), abs_spec(y as int));
                    if x == i32::MIN && y < -1 {
                        lemma_div_is_ordered_by_denominator(abs_spec(x as int), 2, abs_spec(y as int));
                    }
                }
                match div_checked_i64(x as i64, y as i64) {
                    Ok(q) => Literal::I32(q as i32),
                    Err(halt) => {
                        return Err(halt);
                    },
                }
            },
            (Literal::I64(x), Literal::I64(y)) => {
                match div_checked_i64(x, y) {
                    Ok(q) => Literal::I64(q),
                    Err(halt) => {
                        return Err(halt);
                    },
                }
            },
            (Literal::I128(x), Literal::I128(y)) => {
                match div_checked_i128(x, y) {
                    Ok(q) => Literal::I128(q),
                    Err(halt) => {
                        return Err(halt);
                    },
                }
            },
            (Literal::U8(x), Literal::U8(y)) => {
                if y == 0 {
                    return Err(Halt::DivisionByZero);
                }
                Literal::U8(x / y)
            },
            (Literal::U16(x), Literal::U16(y)) => {
                if y == 0 {
                    return Err(Halt::DivisionByZero);
                }
                Literal::U16(x / y)
            },
            (Literal::U32(x), Literal::U32(y)) => {
                if y == 0 {
                    return Err(Halt::DivisionByZero);
                }
                Literal::U32(x / y)
            },
            (Literal::U64(x), Literal::U64(y)) => {
                if y == 0 {
                    return Err(Halt::DivisionByZero);
                }
                Literal::U64(x / y)
            },
            (Literal::U128(x), Literal::U128(y)) => {
                if y == 0 {
                    return Err(Halt::DivisionByZero);
                }
                Literal::U128(x / y)
            },
            (_, _) => {
                return Err(Halt::InvalidInstruction);
            },
        };
        let outcome = registers.assign(&self.operation.destination, Value::Literal(result));
        proof {
            assert forall|i: int|
                0 <= i < registers.slots@.len() implies slot_wf(
                #[trigger] registers.slots@[i],
            ) by {
                if i != self.operation.destination.locator as int {
                    assert(registers.slots@[i] == old(registers).slots@[i]);
                    assert(slot_wf(old(registers).slots@[i]));
                } else {
                    assert(slot_wf(old(registers).slots@[i]));
                }
            }
        }
        outcome
    }
}

} // verus!

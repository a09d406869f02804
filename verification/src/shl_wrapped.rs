//! The wrapping left-shift instruction: shifts `first` left by `second`
//! bits, wrapping around at the boundary of the type, storing the outcome
//! in `destination`.
//!
//! The shift amount is reduced modulo the type's width, so shifting a value
//! by its own width returns it unchanged. The first operand may be any
//! integer literal; the shift amount any unsigned literal up to 32 bits.
//! Any other combination of literal types halts.

use vstd::prelude::*;
use vstd::arithmetic::power2::pow2;
use crate::program::{
    BinaryOperation, Halt, Literal, Operand, Register, Registers, Value, operand_wf, slot_wf,
    spec_load, spec_assigned,
};

verus! {

/// The two's-complement bit pattern of a width-bit integer value.
pub open spec fn pattern_spec(x: int, width: nat) -> nat {
    (x % (pow2(width) as int)) as nat
}

/// The pattern shifted left by the amount reduced modulo the width,
/// wrapping: low bits move up, high bits fall off.
pub open spec fn shl_pattern(p: nat, shift: nat, width: nat) -> nat {
    (p * pow2((shift % width) as nat)) % pow2(width)
}

/// The signed value whose two's-complement bit pattern is given.
pub open spec fn signed_spec(p: nat, width: nat) -> int {
    if p < pow2((width - 1) as nat) {
        p as int
    } else {
        p as int - pow2(width)
    }
}

/// The concrete powers of two the width conversions turn on.
proof fn lemma_pattern_widths()
    ensures
        pow2(7) == 0x80,
        pow2(8) == 0x100,
        pow2(15) == 0x8000,
        pow2(16) == 0x10000,
        pow2(31) == 0x80000000,
        pow2(32) == 0x100000000,
        pow2(63) == 0x8000000000000000,
        pow2(64) == 0x10000000000000000,
        pow2(127) == 0x80000000000000000000000000000000,
        pow2(128) == 0x10000000000000000 * 0x10000000000000000,
{
    vstd::arithmetic::power2::lemma2_to64();
    vstd::arithmetic::power2::lemma2_to64_rest();
    vstd::arithmetic::power2::lemma_pow2_adds(64, 63);
    vstd::arithmetic::power2::lemma_pow2_adds(64, 64);
}

/// The power of two with the given exponent, by doubling.
fn pow2_u128(k: usize) -> (r: u128)
    requires
        k < 128,
    ensures
        r == pow2(k as nat),
{
    let mut r: u128 = 1;
    let mut i: usize = 0;
    proof {
        vstd::arithmetic::power2::lemma2_to64();
    }
    while i < k
        invariant
            0 <= i <= k < 128,
            r == pow2(i as nat),
        decreases k - i,
    {
        proof {
            vstd::arithmetic::power2::lemma_pow2_unfold((i + 1) as nat);
            if i + 1 < 128 {
                vstd::arithmetic::power2::lemma_pow2_strictly_increases((i + 1) as nat, 128);
            }
            lemma_pattern_widths();
        }
        r = r * 2;
        i = i + 1;
    }
    r
}

/// Shifts a width-bit pattern left by the amount reduced modulo the width,
/// by doubling modulo two to the width.
fn shl_wrapped_pattern(a: u128, shift: u128, width: usize) -> (r: u128)
    requires
        0 < width <= 128,
        a < pow2(width as nat),
    ensures
        r == shl_pattern(a as nat, shift as nat, width as nat),
        r < pow2(width as nat),
{
    let reduced: u128 = shift % (width as u128);
    let s: usize = reduced as usize;
    let half: u128 = pow2_u128(width - 1);
    let mut r: u128 = a;
    let mut i: usize = 0;
    proof {
        assert(pow2(0) == 1) by {
            vstd::arithmetic::power2::lemma2_to64();
        }
        assert((a as int) * 1 == a);
        vstd::arithmetic::power2::lemma_pow2_pos(width as nat);
        vstd::arithmetic::div_mod::lemma_small_mod(a as nat, pow2(width as nat));
    }
    while i < s
        invariant
            0 <= i <= s,
            s == shift as nat % (width as nat),
            0 < width <= 128,
            half == pow2((width - 1) as nat),
            r < pow2(width as nat),
            r == ((a as int) * (pow2(i as nat) as int)) % (pow2(width as nat) as int),
        decreases s - i,
    {
        let ghost p = pow2(width as nat) as int;
        let ghost h = half as int;
        let ghost r0 = r as int;
        proof {
            vstd::arithmetic::power2::lemma_pow2_unfold(width as nat);
            vstd::arithmetic::power2::lemma_pow2_pos((width - 1) as nat);
        }
        let clipped: u128 = if r >= half {
            r - half
        } else {
            r
        };
        proof {
            // clipped is r reduced modulo half the width's power
            assert(clipped as int == r0 % h) by {
                if r0 >= h {
                    vstd::arithmetic::div_mod::lemma_mod_sub_multiples_vanish(r0, h);
                    vstd::arithmetic::div_mod::lemma_small_mod((r0 - h) as nat, half as nat);
                } else {
                    vstd::arithmetic::div_mod::lemma_small_mod(r0 as nat, half as nat);
                }
            }
            // doubling the clipped value is doubling modulo the full power
            assert(2 * (clipped as int) == (2 * r0) % p) by {
                vstd::arithmetic::div_mod::lemma_mod_breakdown(2 * r0, 2, h);
                vstd::arithmetic::div_mod::lemma_div_multiples_vanish(r0, 2);
                vstd::arithmetic::div_mod::lemma_mod_multiples_basic(r0, 2);
                assert(2 * r0 == r0 * 2);
            }
            // and doubling advances the shift by one position
            assert((2 * r0) % p == ((a as int) * (pow2((i + 1) as nat) as int)) % p) by {
                vstd::arithmetic::div_mod::lemma_mul_mod_noop_right(2, (a as int) * (pow2(i as nat) as int), p);
                vstd::arithmetic::power2::lemma_pow2_unfold((i + 1) as nat);
                assert(2 * ((a as int) * (pow2(i as nat) as int)) == (a as int) * (2 * (pow2(i as nat) as int))) by (nonlinear_arith);
            }
        }
        proof {
            lemma_pattern_widths();
            if width < 128 {
                vstd::arithmetic::power2::lemma_pow2_strictly_increases((width - 1) as nat, 127);
            }
            assert(clipped < half);
        }
        r = clipped * 2;
        i = i + 1;
    }
    r
}

/// The two's-complement bit pattern of an `i8`.
fn i8_pattern(a: i8) -> (r: u128)
    ensures
        r == pattern_spec(a as int, 8),
        r < pow2(8),
{
    proof {
        lemma_pattern_widths();
        if a >= 0 {
            vstd::arithmetic::div_mod::lemma_small_mod(a as nat, pow2(8));
        } else {
            vstd::arithmetic::div_mod::lemma_mod_add_multiples_vanish(a as int, 256);
            vstd::arithmetic::div_mod::lemma_small_mod((a + 256) as nat, pow2(8));
        }
    }
    if a >= 0 {
        a as u128
    } else {
        ((a as i32) + 256) as u128
    }
}

/// The `i8` whose two's-complement bit pattern is given.
fn pattern_i8(p: u128) -> (r: i8)
    requires
        p < pow2(8),
    ensures
        r as int == signed_spec(p as nat, 8),
{
    proof {
        lemma_pattern_widths();
    }
    if p < 128 {
        p as i8
    } else {
        ((p as i32) - 256) as i8
    }
}

/// The two's-complement bit pattern of an `i16`.
fn i16_pattern(a: i16) -> (r: u128)
    ensures
        r == pattern_spec(a as int, 16),
        r < pow2(16),
{
    proof {
        lemma_pattern_widths();
        if a >= 0 {
            vstd::arithmetic::div_mod::lemma_small_mod(a as nat, pow2(16));
        } else {
            vstd::arithmetic::div_mod::lemma_mod_add_multiples_vanish(a as int, 65536);
            vstd::arithmetic::div_mod::lemma_small_mod((a + 65536) as nat, pow2(16));
        }
    }
    if a >= 0 {
        a as u128
    } else {
        ((a as i32) + 65536) as u128
    }
}

/// The `i16` whose two's-complement bit pattern is given.
fn pattern_i16(p: u128) -> (r: i16)
    requires
        p < pow2(16),
    ensures
        r as int == signed_spec(p as nat, 16),
{
    proof {
        lemma_pattern_widths();
    }
    if p < 32768 {
        p as i16
    } else {
        ((p as i32) - 65536) as i16
    }
}

/// The two's-complement bit pattern of an `i32`.
fn i32_pattern(a: i32) -> (r: u128)
    ensures
        r == pattern_spec(a as int, 32),
        r < pow2(32),
{
    proof {
        lemma_pattern_widths();
        if a >= 0 {
            vstd::arithmetic::div_mod::lemma_small_mod(a as nat, pow2(32));
        } else {
            vstd::arithmetic::div_mod::lemma_mod_add_multiples_vanish(a as int, 4294967296);
            vstd::arithmetic::div_mod::lemma_small_mod((a + 4294967296) as nat, pow2(32));
        }
    }
    if a >= 0 {
        a as u128
    } else {
        ((a as i64) + 4294967296) as u128
    }
}

/// The `i32` whose two's-complement bit pattern is given.
fn pattern_i32(p: u128) -> (r: i32)
    requires
        p < pow2(32),
    ensures
        r as int == signed_spec(p as nat, 32),
{
    proof {
        lemma_pattern_widths();
    }
    if p < 2147483648 {
        p as i32
    } else {
        ((p as i64) - 4294967296) as i32
    }
}

/// The two's-complement bit pattern of an `i64`.
fn i64_pattern(a: i64) -> (r: u128)
    ensures
        r == pattern_spec(a as int, 64),
        r < pow2(64),
{
    proof {
        lemma_pattern_widths();
        if a >= 0 {
            vstd::arithmetic::div_mod::lemma_small_mod(a as nat, pow2(64));
        } else {
            vstd::arithmetic::div_mod::lemma_mod_add_multiples_vanish(a as int, 18446744073709551616);
            vstd::arithmetic::div_mod::lemma_small_mod((a + 18446744073709551616) as nat, pow2(64));
        }
    }
    if a >= 0 {
        a as u128
    } else {
        ((a as i128) + 18446744073709551616) as u128
    }
}

/// The `i64` whose two's-complement bit pattern is given.
fn pattern_i64(p: u128) -> (r: i64)
    requires
        p < pow2(64),
    ensures
        r as int == signed_spec(p as nat, 64),
{
    proof {
        lemma_pattern_widths();
    }
    if p < 9223372036854775808 {
        p as i64
    } else {
        ((p as i128) - 18446744073709551616) as i64
    }
}

/// The two's-complement bit pattern of an `i128`.
fn i128_pattern(a: i128) -> (r: u128)
    ensures
        r == pattern_spec(a as int, 128),
        r < pow2(128),
{
    proof {
        lemma_pattern_widths();
        if a >= 0 {
            vstd::arithmetic::div_mod::lemma_small_mod(a as nat, pow2(128));
        } else {
            vstd::arithmetic::div_mod::lemma_mod_add_multiples_vanish(
                a as int,
                pow2(128) as int,
            );
            vstd::arithmetic::div_mod::lemma_small_mod(
                (a + pow2(128) as int) as nat,
                pow2(128),
            );
        }
    }
    if a >= 0 {
        a as u128
    } else {
        let magnitude: u128 = (-(a + 1)) as u128;
        u128::MAX - magnitude
    }
}

/// The `i128` whose two's-complement bit pattern is given.
fn pattern_i128(p: u128) -> (r: i128)
    ensures
        r as int == signed_spec(p as nat, 128),
{
    proof {
        lemma_pattern_widths();
    }
    if p < 0x80000000000000000000000000000000 {
        p as i128
    } else {
        let magnitude: u128 = u128::MAX - p;
        -(magnitude as i128) - 1
    }
}


/// What shifting one literal left by another yields, wrapping: the shifted
/// value, or the halt an unsupported type pair forces.
pub open spec fn shl_outcome(a: Literal, b: Literal) -> Result<Literal, Halt> {
    match (a, b) {
        (Literal::I8(x), Literal::U8(s)) => Ok(
            Literal::I8(signed_spec(shl_pattern(pattern_spec(x as int, 8), s as nat, 8), 8) as i8),
        ),
        (Literal::I8(x), Literal::U16(s)) => Ok(
            Literal::I8(signed_spec(shl_pattern(pattern_spec(x as int, 8), s as nat, 8), 8) as i8),
        ),
        (Literal::I8(x), Literal::U32(s)) => Ok(
            Literal::I8(signed_spec(shl_pattern(pattern_spec(x as int, 8), s as nat, 8), 8) as i8),
        ),
        (Literal::I16(x), Literal::U8(s)) => Ok(
            Literal::I16(signed_spec(shl_pattern(pattern_spec(x as int, 16), s as nat, 16), 16) as i16),
        ),
        (Literal::I16(x), Literal::U16(s)) => Ok(
            Literal::I16(signed_spec(shl_pattern(pattern_spec(x as int, 16), s as nat, 16), 16) as i16),
        ),
        (Literal::I16(x), Literal::U32(s)) => Ok(
            Literal::I16(signed_spec(shl_pattern(pattern_spec(x as int, 16), s as nat, 16), 16) as i16),
        ),
        (Literal::I32(x), Literal::U8(s)) => Ok(
            Literal::I32(signed_spec(shl_pattern(pattern_spec(x as int, 32), s as nat, 32), 32) as i32),
        ),
        (Literal::I32(x), Literal::U16(s)) => Ok(
            Literal::I32(signed_spec(shl_pattern(pattern_spec(x as int, 32), s as nat, 32), 32) as i32),
        ),
        (Literal::I32(x), Literal::U32(s)) => Ok(
            Literal::I32(signed_spec(shl_pattern(pattern_spec(x as int, 32), s as nat, 32), 32) as i32),
        ),
        (Literal::I64(x), Literal::U8(s)) => Ok(
            Literal::I64(signed_spec(shl_pattern(pattern_spec(x as int, 64), s as nat, 64), 64) as i64),
        ),
        (Literal::I64(x), Literal::U16(s)) => Ok(
            Literal::I64(signed_spec(shl_pattern(pattern_spec(x as int, 64), s as nat, 64), 64) as i64),
        ),
        (Literal::I64(x), Literal::U32(s)) => Ok(
            Literal::I64(signed_spec(shl_pattern(pattern_spec(x as int, 64), s as nat, 64), 64) as i64),
        ),
        (Literal::I128(x), Literal::U8(s)) => Ok(
            Literal::I128(signed_spec(shl_pattern(pattern_spec(x as int, 128), s as nat, 128), 128) as i128),
        ),
        (Literal::I128(x), Literal::U16(s)) => Ok(
            Literal::I128(signed_spec(shl_pattern(pattern_spec(x as int, 128), s as nat, 128), 128) as i128),
        ),
        (Literal::I128(x), Literal::U32(s)) => Ok(
            Literal::I128(signed_spec(shl_pattern(pattern_spec(x as int, 128), s as nat, 128), 128) as i128),
        ),
        (Literal::U8(x), Literal::U8(s)) => Ok(
            Literal::U8(shl_pattern(x as nat, s as nat, 8) as u8),
        ),
        (Literal::U8(x), Literal::U16(s)) => Ok(
            Literal::U8(shl_pattern(x as nat, s as nat, 8) as u8),
        ),
        (Literal::U8(x), Literal::U32(s)) => Ok(
            Literal::U8(shl_pattern(x as nat, s as nat, 8) as u8),
        ),
        (Literal::U16(x), Literal::U8(s)) => Ok(
            Literal::U16(shl_pattern(x as nat, s as nat, 16) as u16),
        ),
        (Literal::U16(x), Literal::U16(s)) => Ok(
            Literal::U16(shl_pattern(x as nat, s as nat, 16) as u16),
        ),
        (Literal::U16(x), Literal::U32(s)) => Ok(
            Literal::U16(shl_pattern(x as nat, s as nat, 16) as u16),
        ),
        (Literal::U32(x), Literal::U8(s)) => Ok(
            Literal::U32(shl_pattern(x as nat, s as nat, 32) as u32),
        ),
        (Literal::U32(x), Literal::U16(s)) => Ok(
            Literal::U32(shl_pattern(x as nat, s as nat, 32) as u32),
        ),
        (Literal::U32(x), Literal::U32(s)) => Ok(
            Literal::U32(shl_pattern(x as nat, s as nat, 32) as u32),
        ),
        (Literal::U64(x), Literal::U8(s)) => Ok(
            Literal::U64(shl_pattern(x as nat, s as nat, 64) as u64),
        ),
        (Literal::U64(x), Literal::U16(s)) => Ok(
            Literal::U64(shl_pattern(x as nat, s as nat, 64) as u64),
        ),
        (Literal::U64(x), Literal::U32(s)) => Ok(
            Literal::U64(shl_pattern(x as nat, s as nat, 64) as u64),
        ),
        (Literal::U128(x), Literal::U8(s)) => Ok(
            Literal::U128(shl_pattern(x as nat, s as nat, 128) as u128),
        ),
        (Literal::U128(x), Literal::U16(s)) => Ok(
            Literal::U128(shl_pattern(x as nat, s as nat, 128) as u128),
        ),
        (Literal::U128(x), Literal::U32(s)) => Ok(
            Literal::U128(shl_pattern(x as nat, s as nat, 128) as u128),
        ),
        _ => Err(Halt::InvalidInstruction),
    }
}

/// Shifts `first` left by `second` bits, wrapping around at the boundary of
/// the type, storing the outcome in `destination`.
pub struct ShlWrapped {
    pub operation: BinaryOperation,
}

impl ShlWrapped {
    /// Builds the instruction from its operation.
    pub fn new(operation: BinaryOperation) -> (r: ShlWrapped)
        ensures
            r.operation == operation,
    {
        ShlWrapped { operation }
    }

    /// Returns the operands of the instruction.
    pub fn operands(&self) -> (r: Vec<&Operand>)
        ensures
            r@.len() == 2,
            r@[0] == &self.operation.first,
            r@[1] == &self.operation.second,
    {
        let mut operands: Vec<&Operand> = Vec::new();
        operands.push(&self.operation.first);
        operands.push(&self.operation.second);
        operands
    }

    /// Returns the destination register of the instruction.
    pub fn destination(&self) -> (r: &Register)
        ensures
            r == &self.operation.destination,
    {
        &self.operation.destination
    }

    /// Returns the opcode as a string.
    pub fn opcode() -> (r: &'static str)
        ensures
            r@ == "shl.w"@,
    {
        "shl.w"
    }

    /// Evaluates the operation: loads the two operands, shifts with
    /// wrap-around, and stores the result. Any halt leaves the registers
    /// untouched and aborts the construction.
    #[verifier::rlimit(100)]
    pub fn evaluate(&self, registers: &mut Registers) -> (r: Result<(), Halt>)
        requires
            old(registers).wf(),
            operand_wf(self.operation.first),
            operand_wf(self.operation.second),
        ensures
            final (registers).wf(),
            ({
                let first = spec_load(*old(registers), self.operation.first);
                let second = spec_load(*old(registers), self.operation.second);
                match first {
                    Err(halt) => r == Err::<(), Halt>(halt) && final (registers).slots@ == old(
                        registers,
                    ).slots@,
                    Ok(a) => match second {
                        Err(halt) => r == Err::<(), Halt>(halt) && final (registers).slots@ == old(
                            registers,
                        ).slots@,
                        Ok(b) => match shl_outcome(a, b) {
                            Err(halt) => r == Err::<(), Halt>(halt) && final (registers).slots@
                                == old(registers).slots@,
                            Ok(result) => spec_assigned(
                                *old(registers),
                                *final (registers),
                                self.operation.destination,
                                result,
                                r,
                            ),
                        },
                    },
                }
            }),
    {
        let first = match registers.load_literal(&self.operation.first) {
            Ok(literal) => literal,
            Err(halt) => {
                return Err(halt);
            },
        };
        let second = match registers.load_literal(&self.operation.second) {
            Ok(literal) => literal,
            Err(halt) => {
                return Err(halt);
            },
        };
        let result = match (first, second) {
            (Literal::I8(x), Literal::U8(s)) => {
                let q = shl_wrapped_pattern(i8_pattern(x), s as u128, 8);
                Literal::I8(pattern_i8(q))
            },
            (Literal::I8(x), Literal::U16(s)) => {
                let q = shl_wrapped_pattern(i8_pattern(x), s as u128, 8);
                Literal::I8(pattern_i8(q))
            },
            (Literal::I8(x), Literal::U32(s)) => {
                let q = shl_wrapped_pattern(i8_pattern(x), s as u128, 8);
                Literal::I8(pattern_i8(q))
            },
            (Literal::I16(x), Literal::U8(s)) => {
                let q = shl_wrapped_pattern(i16_pattern(x), s as u128, 16);
                Literal::I16(pattern_i16(q))
            },
            (Literal::I16(x), Literal::U16(s)) => {
                let q = shl_wrapped_pattern(i16_pattern(x), s as u128, 16);
                Literal::I16(pattern_i16(q))
            },
            (Literal::I16(x), Literal::U32(s)) => {
                let q = shl_wrapped_pattern(i16_pattern(x), s as u128, 16);
                Literal::I16(pattern_i16(q))
            },
            (Literal::I32(x), Literal::U8(s)) => {
                let q = shl_wrapped_pattern(i32_pattern(x), s as u128, 32);
                Literal::I32(pattern_i32(q))
            },
            (Literal::I32(x), Literal::U16(s)) => {
                let q = shl_wrapped_pattern(i32_pattern(x), s as u128, 32);
                Literal::I32(pattern_i32(q))
            },
            (Literal::I32(x), Literal::U32(s)) => {
                let q = shl_wrapped_pattern(i32_pattern(x), s as u128, 32);
                Literal::I32(pattern_i32(q))
            },
            (Literal::I64(x), Literal::U8(s)) => {
                let q = shl_wrapped_pattern(i64_pattern(x), s as u128, 64);
                Literal::I64(pattern_i64(q))
            },
            (Literal::I64(x), Literal::U16(s)) => {
                let q = shl_wrapped_pattern(i64_pattern(x), s as u128, 64);
                Literal::I64(pattern_i64(q))
            },
            (Literal::I64(x), Literal::U32(s)) => {
                let q = shl_wrapped_pattern(i64_pattern(x), s as u128, 64);
                Literal::I64(pattern_i64(q))
            },
            (Literal::I128(x), Literal::U8(s)) => {
                let q = shl_wrapped_pattern(i128_pattern(x), s as u128, 128);
                Literal::I128(pattern_i128(q))
            },
            (Literal::I128(x), Literal::U16(s)) => {
                let q = shl_wrapped_pattern(i128_pattern(x), s as u128, 128);
                Literal::I128(pattern_i128(q))
            },
            (Literal::I128(x), Literal::U32(s)) => {
                let q = shl_wrapped_pattern(i128_pattern(x), s as u128, 128);
                Literal::I128(pattern_i128(q))
            },
            (Literal::U8(x), Literal::U8(s)) => {
                proof {
                    lemma_pattern_widths();
                    vstd::arithmetic::div_mod::lemma_small_mod(x as nat, pow2(8));
                }
                let q = shl_wrapped_pattern(x as u128, s as u128, 8);
                Literal::U8(q as u8)
            },
            (Literal::U8(x), Literal::U16(s)) => {
                proof {
                    lemma_pattern_widths();
                    vstd::arithmetic::div_mod::lemma_small_mod(x as nat, pow2(8));
                }
                let q = shl_wrapped_pattern(x as u128, s as u128, 8);
                Literal::U8(q as u8)
            },
            (Literal::U8(x), Literal::U32(s)) => {
                proof {
                    lemma_pattern_widths();
                    vstd::arithmetic::div_mod::lemma_small_mod(x as nat, pow2(8));
                }
                let q = shl_wrapped_pattern(x as u128, s as u128, 8);
                Literal::U8(q as u8)
            },
            (Literal::U16(x), Literal::U8(s)) => {
                proof {
                    lemma_pattern_widths();
                    vstd::arithmetic::div_mod::lemma_small_mod(x as nat, pow2(16));
                }
                let q = shl_wrapped_pattern(x as u128, s as u128, 16);
                Literal::U16(q as u16)
            },
            (Literal::U16(x), Literal::U16(s)) => {
                proof {
                    lemma_pattern_widths();
                    vstd::arithmetic::div_mod::lemma_small_mod(x as nat, pow2(16));
                }
                let q = shl_wrapped_pattern(x as u128, s as u128, 16);
                Literal::U16(q as u16)
            },
            (Literal::U16(x), Literal::U32(s)) => {
                proof {
                    lemma_pattern_widths();
                    vstd::arithmetic::div_mod::lemma_small_mod(x as nat, pow2(16));
                }
                let q = shl_wrapped_pattern(x as u128, s as u128, 16);
                Literal::U16(q as u16)
            },
            (Literal::U32(x), Literal::U8(s)) => {
                proof {
                    lemma_pattern_widths();
                    vstd::arithmetic::div_mod::lemma_small_mod(x as nat, pow2(32));
                }
                let q = shl_wrapped_pattern(x as u128, s as u128, 32);
                Literal::U32(q as u32)
            },
            (Literal::U32(x), Literal::U16(s)) => {
                proof {
                    lemma_pattern_widths();
                    vstd::arithmetic::div_mod::lemma_small_mod(x as nat, pow2(32));
                }
                let q = shl_wrapped_pattern(x as u128, s as u128, 32);
                Literal::U32(q as u32)
            },
            (Literal::U32(x), Literal::U32(s)) => {
                proof {
                    lemma_pattern_widths();
                    vstd::arithmetic::div_mod::lemma_small_mod(x as nat, pow2(32));
                }
                let q = shl_wrapped_pattern(x as u128, s as u128, 32);
                Literal::U32(q as u32)
            },
            (Literal::U64(x), Literal::U8(s)) => {
                proof {
                    lemma_pattern_widths();
                    vstd::arithmetic::div_mod::lemma_small_mod(x as nat, pow2(64));
                }
                let q = shl_wrapped_pattern(x as u128, s as u128, 64);
                Literal::U64(q as u64)
            },
            (Literal::U64(x), Literal::U16(s)) => {
                proof {
                    lemma_pattern_widths();
                    vstd::arithmetic::div_mod::lemma_small_mod(x as nat, pow2(64));
                }
                let q = shl_wrapped_pattern(x as u128, s as u128, 64);
                Literal::U64(q as u64)
            },
            (Literal::U64(x), Literal::U32(s)) => {
                proof {
                    lemma_pattern_widths();
                    vstd::arithmetic::div_mod::lemma_small_mod(x as nat, pow2(64));
                }
                let q = shl_wrapped_pattern(x as u128, s as u128, 64);
                Literal::U64(q as u64)
            },
            (Literal::U128(x), Literal::U8(s)) => {
                proof {
                    lemma_pattern_widths();
                    vstd::arithmetic::div_mod::lemma_small_mod(x as nat, pow2(128));
                }
                let q = shl_wrapped_pattern(x as u128, s as u128, 128);
                Literal::U128(q as u128)
            },
            (Literal::U128(x), Literal::U16(s)) => {
                proof {
                    lemma_pattern_widths();
                    vstd::arithmetic::div_mod::lemma_small_mod(x as nat, pow2(128));
                }
                let q = shl_wrapped_pattern(x as u128, s as u128, 128);
                Literal::U128(q as u128)
            },
            (Literal::U128(x), Literal::U32(s)) => {
                proof {
                    lemma_pattern_widths();
                    vstd::arithmetic::div_mod::lemma_small_mod(x as nat, pow2(128));
                }
                let q = shl_wrapped_pattern(x as u128, s as u128, 128);
                Literal::U128(q as u128)
            },
            (_, _) => {
                return Err(Halt::InvalidInstruction);
            },
        };
        let outcome = registers.assign(&self.operation.destination, Value::Literal(result));
        proof {
            match self.operation.first {
                Operand::Register(reg) => {
                    if reg.locator < old(registers).slots@.len() {
                        assert(slot_wf(old(registers).slots@[reg.locator as int]));
                    }
                },
                _ => {},
            }
            assert forall|i: int|
                0 <= i < registers.slots@.len() implies slot_wf(
                #[trigger] registers.slots@[i],
            ) by {
                if i != self.operation.destination.locator as int {
                    assert(registers.slots@[i] == old(registers).slots@[i]);
                    assert(slot_wf(old(registers).slots@[i]));
                } else {
                    assert(slot_wf(old(registers).slots@[i]));
                }
            }
        }
        outcome
    }
}

} // verus!

//! The illustrative instructions consuming the gadget layer's literals:
//! checked division and wrapping left shift, with their halt behavior.

use circuit_gadgets::div::Div;
use circuit_gadgets::program::{
    BinaryOperation, Halt, Literal, Operand, Register, Registers, Value,
};
use circuit_gadgets::shl_wrapped::ShlWrapped;

fn binary(first: Literal, second: Literal) -> BinaryOperation {
    BinaryOperation {
        first: Operand::Value(Value::Literal(first)),
        second: Operand::Value(Value::Literal(second)),
        destination: Register::new(0),
    }
}

fn registers_with_destination() -> Registers {
    let mut registers = Registers::new();
    registers.define(&Register::new(0));
    registers
}

fn run_div(first: Literal, second: Literal) -> Result<Literal, Halt> {
    let mut registers = registers_with_destination();
    let instruction = Div::new(binary(first, second));
    instruction.evaluate(&mut registers)?;
    registers.load_literal(&Operand::Register(Register::new(0)))
}

fn run_shl(first: Literal, second: Literal) -> Result<Literal, Halt> {
    let mut registers = registers_with_destination();
    let instruction = ShlWrapped::new(binary(first, second));
    instruction.evaluate(&mut registers)?;
    registers.load_literal(&Operand::Register(Register::new(0)))
}

#[test]
fn test_div_unsigned() {
    assert_eq!(Ok(Literal::U8(2)), run_div(Literal::U8(4), Literal::U8(2)));
    assert_eq!(Ok(Literal::U16(2)), run_div(Literal::U16(4), Literal::U16(2)));
    assert_eq!(Ok(Literal::U32(2)), run_div(Literal::U32(4), Literal::U32(2)));
    assert_eq!(Ok(Literal::U64(2)), run_div(Literal::U64(4), Literal::U64(2)));
    assert_eq!(Ok(Literal::U128(2)), run_div(Literal::U128(4), Literal::U128(2)));
    assert_eq!(Ok(Literal::U8(0)), run_div(Literal::U8(3), Literal::U8(4)));
}

#[test]
fn test_div_signed() {
    assert_eq!(Ok(Literal::I8(-2)), run_div(Literal::I8(-4), Literal::I8(2)));
    assert_eq!(Ok(Literal::I16(-2)), run_div(Literal::I16(-4), Literal::I16(2)));
    assert_eq!(Ok(Literal::I32(-2)), run_div(Literal::I32(-4), Literal::I32(2)));
    assert_eq!(Ok(Literal::I64(-2)), run_div(Literal::I64(-4), Literal::I64(2)));
    assert_eq!(Ok(Literal::I128(-2)), run_div(Literal::I128(-4), Literal::I128(2)));
    // division truncates toward zero
    assert_eq!(Ok(Literal::I8(-3)), run_div(Literal::I8(-7), Literal::I8(2)));
    assert_eq!(Ok(Literal::I8(-3)), run_div(Literal::I8(7), Literal::I8(-2)));
    assert_eq!(Ok(Literal::I8(3)), run_div(Literal::I8(-7), Literal::I8(-2)));
}

#[test]
fn test_div_field() {
    // 10 / 2 = 5 in the base field, through the Fermat inverse
    assert_eq!(Ok(Literal::Field(5)), run_div(Literal::Field(10), Literal::Field(2)));
    assert_eq!(Ok(Literal::Field(7)), run_div(Literal::Field(7), Literal::Field(1)));
    assert_eq!(
        Err(Halt::DivisionByZero),
        run_div(Literal::Field(1), Literal::Field(0))
    );
}

#[test]
fn test_div_by_zero_halts() {
    assert_eq!(Err(Halt::DivisionByZero), run_div(Literal::U8(1), Literal::U8(0)));
    assert_eq!(Err(Halt::DivisionByZero), run_div(Literal::U128(1), Literal::U128(0)));
    assert_eq!(Err(Halt::DivisionByZero), run_div(Literal::I8(1), Literal::I8(0)));
}

#[test]
fn test_div_underflow_halts() {
    assert_eq!(
        Err(Halt::Overflow),
        run_div(Literal::I8(i8::MIN), Literal::I8(-1))
    );
    assert_eq!(
        Err(Halt::Overflow),
        run_div(Literal::I64(i64::MIN), Literal::I64(-1))
    );
    assert_eq!(
        Err(Halt::Overflow),
        run_div(Literal::I128(i128::MIN), Literal::I128(-1))
    );
}

#[test]
fn test_div_invalid_types_halt() {
    assert_eq!(
        Err(Halt::InvalidInstruction),
        run_div(Literal::Boolean(true), Literal::Boolean(true))
    );
    assert_eq!(
        Err(Halt::InvalidInstruction),
        run_div(Literal::U8(1), Literal::U16(1))
    );
}

#[test]
fn test_div_definition_halts() {
    // a definition is not a literal: evaluation aborts, registers untouched
    let mut registers = Registers::new();
    registers.define(&Register::new(0));
    registers.define(&Register::new(1));
    registers.define(&Register::new(2));
    let definition = Value::Definition(
        "message".to_string(),
        vec![Literal::Field(10), Literal::U8(2)],
    );
    registers
        .assign(&Register::new(0), definition)
        .expect("assign definition");
    registers
        .assign(&Register::new(1), Value::Literal(Literal::U8(2)))
        .expect("assign literal");
    let instruction = Div::new(BinaryOperation {
        first: Operand::Register(Register::new(0)),
        second: Operand::Register(Register::new(1)),
        destination: Register::new(2),
    });
    assert_eq!(Err(Halt::NotALiteral), instruction.evaluate(&mut registers));
    assert_eq!(
        Err(Halt::UnassignedRegister),
        registers.load_literal(&Operand::Register(Register::new(2)))
    );
}

#[test]
fn test_shl_wrapped_basic() {
    assert_eq!(Ok(Literal::I8(i8::MIN)), run_shl(Literal::I8(1), Literal::U8(7)));
    assert_eq!(Ok(Literal::U8(1 << 7)), run_shl(Literal::U8(1), Literal::U16(7)));
    assert_eq!(Ok(Literal::U16(1 << 15)), run_shl(Literal::U16(1), Literal::U32(15)));
    assert_eq!(Ok(Literal::I64(i64::MIN)), run_shl(Literal::I64(1), Literal::U8(63)));
    assert_eq!(
        Ok(Literal::U128(1 << 127)),
        run_shl(Literal::U128(1), Literal::U8(127))
    );
}

#[test]
fn test_shl_wrapped_wraps_at_width() {
    // shifting an 8-bit value by its own width wraps all the way around
    assert_eq!(Ok(Literal::I8(1)), run_shl(Literal::I8(1), Literal::U8(8)));
    assert_eq!(Ok(Literal::I8(1)), run_shl(Literal::I8(1), Literal::U16(8)));
    assert_eq!(Ok(Literal::I8(1)), run_shl(Literal::I8(1), Literal::U32(8)));
    assert_eq!(Ok(Literal::U16(1)), run_shl(Literal::U16(1), Literal::U8(16)));
    assert_eq!(Ok(Literal::I128(1)), run_shl(Literal::I128(1), Literal::U32(128)));
    // high bits that fall off are gone
    assert_eq!(Ok(Literal::U8(0xA0)), run_shl(Literal::U8(0xCA), Literal::U8(4)));
    assert_eq!(Ok(Literal::I8(-2)), run_shl(Literal::I8(-1), Literal::U8(1)));
}

#[test]
fn test_shl_invalid_types_halt() {
    assert_eq!(
        Err(Halt::InvalidInstruction),
        run_shl(Literal::Field(1), Literal::U8(1))
    );
    assert_eq!(
        Err(Halt::InvalidInstruction),
        run_shl(Literal::U8(1), Literal::U64(1))
    );
    assert_eq!(
        Err(Halt::InvalidInstruction),
        run_shl(Literal::Boolean(true), Literal::Boolean(true))
    );
}

#[test]
fn test_undefined_destination_halts() {
    // the destination register was never defined
    let mut registers = Registers::new();
    let instruction = Div::new(binary(Literal::U8(4), Literal::U8(2)));
    assert_eq!(Err(Halt::UndefinedRegister), instruction.evaluate(&mut registers));
}

#[test]
fn test_reassigned_destination_halts() {
    // the destination register already holds a value
    let mut registers = registers_with_destination();
    registers
        .assign(&Register::new(0), Value::Literal(Literal::U8(9)))
        .expect("first assignment");
    assert_eq!(
        Err(Halt::AlreadyAssigned),
        registers.assign(&Register::new(0), Value::Literal(Literal::U8(1)))
    );
    let instruction = Div::new(binary(Literal::U8(4), Literal::U8(2)));
    assert_eq!(Err(Halt::AlreadyAssigned), instruction.evaluate(&mut registers));
}

#[test]
fn test_instruction_accessors() {
    let operation = binary(Literal::U8(4), Literal::U8(2));
    let div = Div::new(operation);
    assert_eq!(2, div.operands().len());
    assert_eq!(0, div.destination().locator);
    assert_eq!("div", Div::opcode());

    let operation = binary(Literal::U8(1), Literal::U8(7));
    let shl = ShlWrapped::new(operation);
    assert_eq!(2, shl.operands().len());
    assert_eq!("shl.w", ShlWrapped::opcode());
}

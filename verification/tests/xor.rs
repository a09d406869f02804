//! The bitwise exclusive-or family: values, the zero-operand identity, the
//! complement law, and the cost asymmetry between zero and nonzero
//! constants.

use circuit_gadgets::count::Count;
use circuit_gadgets::fabric::Fabric;
use circuit_gadgets::integer::{Integer, IntegerKind};
use circuit_gadgets::mode::Mode;

fn check_bitxor(kind: IntegerKind, first: u128, second: u128, mode_a: Mode, mode_b: Mode) {
    let mut fabric = Fabric::new();
    let a = Integer::new(&mut fabric, mode_a, kind, first);
    let b = Integer::new(&mut fabric, mode_b, kind, second);
    fabric.push_scope("bitxor".to_string());
    let candidate = Integer::bitxor(&mut fabric, &a, &b);
    assert_eq!(first ^ second, candidate.eject_value());
    let count = Integer::bitxor_count(kind, &(a.circuit_type(), b.circuit_type()));
    assert_eq!(Some(count), fabric.pop_scope());
    let output_mode = Integer::bitxor_output_mode(&(a.circuit_type(), b.circuit_type()));
    assert_eq!(output_mode, candidate.eject_mode());
    assert!(fabric.is_satisfied());
}

#[test]
fn test_bitxor_values() {
    let modes = [Mode::Constant, Mode::Public, Mode::Private];
    for mode_a in modes {
        for mode_b in modes {
            check_bitxor(IntegerKind::U8, 0b1010_1100, 0b0110_0101, mode_a, mode_b);
            check_bitxor(IntegerKind::U64, 0xDEAD_BEEF_0123_4567, 0x0F0F_F0F0_55AA_33CC, mode_a, mode_b);
            check_bitxor(IntegerKind::I16, 0x8001, 0x7FFE, mode_a, mode_b);
            check_bitxor(IntegerKind::U128, u128::MAX - 12345, 98765, mode_a, mode_b);
        }
    }
}

#[test]
fn test_bitxor_identity_with_zero() {
    // 0x00 XOR x = x, with x's mode kept, at no cost
    let mut fabric = Fabric::new();
    let zero = Integer::new(&mut fabric, Mode::Constant, IntegerKind::U8, 0);
    let x = Integer::new(&mut fabric, Mode::Private, IntegerKind::U8, 0xA7);
    let before = fabric.num_constraints();
    let candidate = Integer::bitxor(&mut fabric, &zero, &x);
    assert_eq!(0xA7, candidate.eject_value());
    assert_eq!(Mode::Private, candidate.eject_mode());
    assert_eq!(before, fabric.num_constraints());
}

#[test]
fn test_bitxor_complement_with_max() {
    // 0x00 XOR 0xFF = 0xFF, and x XOR 0xFF is the bitwise complement
    let mut fabric = Fabric::new();
    let zero = Integer::new(&mut fabric, Mode::Private, IntegerKind::U8, 0x00);
    let max = Integer::new(&mut fabric, Mode::Private, IntegerKind::U8, 0xFF);
    let candidate = Integer::bitxor(&mut fabric, &zero, &max);
    assert_eq!(0xFF, candidate.eject_value());

    let x = Integer::new(&mut fabric, Mode::Private, IntegerKind::U8, 0b1100_0101);
    let complement = Integer::bitxor(&mut fabric, &x, &max);
    assert_eq!(0b0011_1010, complement.eject_value());
    assert!(fabric.is_satisfied());
}

#[test]
fn test_bitxor_cost_asymmetry() {
    // XOR with the constant zero is free and keeps the other operand's
    // mode; XOR with a nonzero constant pays one constraint per bit and
    // degrades to private
    let mut fabric = Fabric::new();
    let zero = Integer::new(&mut fabric, Mode::Constant, IntegerKind::U8, 0);
    let five = Integer::new(&mut fabric, Mode::Constant, IntegerKind::U8, 5);
    let x = Integer::new(&mut fabric, Mode::Private, IntegerKind::U8, 0x5A);

    let before = (fabric.num_private(), fabric.num_constraints());
    let free = Integer::bitxor(&mut fabric, &zero, &x);
    assert_eq!(before.0, fabric.num_private());
    assert_eq!(before.1, fabric.num_constraints());
    assert_eq!(Mode::Private, free.eject_mode());
    assert_eq!(0x5A, free.eject_value());

    let before = (fabric.num_private(), fabric.num_constraints());
    let paid = Integer::bitxor(&mut fabric, &five, &x);
    assert_eq!(before.0 + 8, fabric.num_private());
    assert_eq!(before.1 + 8, fabric.num_constraints());
    assert_eq!(Mode::Private, paid.eject_mode());
    assert_eq!(0x5F, paid.eject_value());
    assert!(fabric.is_satisfied());
}

#[test]
fn test_bitxor_assign() {
    let mut fabric = Fabric::new();
    let mut x = Integer::new(&mut fabric, Mode::Private, IntegerKind::U32, 0xFFFF_0000);
    let y = Integer::new(&mut fabric, Mode::Public, IntegerKind::U32, 0x0F0F_0F0F);
    x.bitxor_assign(&mut fabric, &y);
    assert_eq!(0xF0F0_0F0F, x.eject_value());
    assert!(fabric.is_satisfied());
}

#[test]
fn test_bitxor_x_with_x_is_fresh_zero() {
    // x XOR x yields zero through fresh private wires, not a shortcut
    let mut fabric = Fabric::new();
    let x = Integer::new(&mut fabric, Mode::Private, IntegerKind::U8, 0x3C);
    let before = fabric.num_private();
    let candidate = Integer::bitxor(&mut fabric, &x, &x);
    assert_eq!(0, candidate.eject_value());
    assert_eq!(before + 8, fabric.num_private());
    assert!(fabric.is_satisfied());
}

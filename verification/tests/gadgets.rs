//! The fabric itself and the data types around the gates: scopes, resets,
//! satisfaction, and the bit representations of identifiers, ciphertexts
//! and plaintexts.

use circuit_gadgets::boolean::Boolean;
use circuit_gadgets::ciphertext::Ciphertext;
use circuit_gadgets::count::Count;
use circuit_gadgets::fabric::{Fabric, LinearCombination};
use circuit_gadgets::identifier::Identifier;
use circuit_gadgets::mode::Mode;
use circuit_gadgets::plaintext::{Plaintext, PlaintextError};

#[test]
fn test_fabric_scopes_measure_deltas() {
    let mut fabric = Fabric::new();
    fabric.push_scope("outer".to_string());
    let _ = Boolean::new(&mut fabric, Mode::Public, true);
    fabric.push_scope("inner".to_string());
    let _ = Boolean::new(&mut fabric, Mode::Private, false);
    assert_eq!(Some(Count::is(0, 0, 1, 1)), fabric.pop_scope());
    assert_eq!(Some(Count::is(0, 1, 1, 2)), fabric.pop_scope());
    assert_eq!(None, fabric.pop_scope());
}

#[test]
fn test_fabric_reset_clears_everything() {
    let mut fabric = Fabric::new();
    fabric.push_scope("region".to_string());
    let _ = Boolean::new(&mut fabric, Mode::Private, true);
    let _ = Boolean::new(&mut fabric, Mode::Constant, true);
    assert!(fabric.num_private() > 0);
    fabric.reset();
    assert_eq!(0, fabric.num_constants());
    assert_eq!(0, fabric.num_public());
    assert_eq!(0, fabric.num_private());
    assert_eq!(0, fabric.num_constraints());
    assert_eq!(None, fabric.pop_scope());
    assert!(fabric.is_satisfied());
}

#[test]
fn test_enforce_false_statement_is_unsatisfiable_not_fatal() {
    // enforcement never fails at construction time: a false statement
    // just leaves an unsatisfiable system behind
    let mut fabric = Fabric::new();
    let x = Boolean::new(&mut fabric, Mode::Private, true);
    let zero = LinearCombination::from_constant(0);
    fabric.assert_eq(&zero, &x.lc);
    assert!(!fabric.is_satisfied());
}

#[test]
fn test_boolean_not_is_free() {
    let mut fabric = Fabric::new();
    let x = Boolean::new(&mut fabric, Mode::Public, true);
    let before = fabric.num_constraints();
    let y = x.not();
    assert_eq!(false, y.eject_value());
    assert_eq!(true, y.not().eject_value());
    assert_eq!(before, fabric.num_constraints());
}

#[test]
fn test_boolean_or_shortcuts() {
    let mut fabric = Fabric::new();
    let t = Boolean::constant(true);
    let f = Boolean::constant(false);
    let x = Boolean::new(&mut fabric, Mode::Private, false);
    let before = fabric.num_constraints();
    assert_eq!(true, Boolean::or(&mut fabric, &t, &x).eject_value());
    assert_eq!(false, Boolean::or(&mut fabric, &f, &x).eject_value());
    assert_eq!(before, fabric.num_constraints());
    let y = Boolean::new(&mut fabric, Mode::Private, true);
    let before = fabric.num_constraints();
    assert_eq!(true, Boolean::or(&mut fabric, &x, &y).eject_value());
    assert_eq!(before + 1, fabric.num_constraints());
    assert!(fabric.is_satisfied());
}

#[test]
fn test_identifier_to_bits() {
    // the name "ab" packed little-endian: 0x61, then 0x62
    let mut fabric = Fabric::new();
    let packed: u64 = 0x61 | (0x62 << 8);
    let mut bits = Vec::new();
    for i in 0..61 {
        bits.push(Boolean::new(&mut fabric, Mode::Constant, (packed >> i) & 1 == 1));
    }
    let identifier = Identifier::new(bits, 2);
    let bits_le = identifier.to_bits_le();
    assert_eq!(16, bits_le.len());
    let mut value: u64 = 0;
    for (i, bit) in bits_le.iter().enumerate() {
        if bit.eject_value() {
            value |= 1 << i;
        }
    }
    assert_eq!(packed, value);

    let bits_be = identifier.to_bits_be();
    assert_eq!(16, bits_be.len());
    for i in 0..16 {
        assert_eq!(bits_le[i].eject_value(), bits_be[15 - i].eject_value());
    }
}

#[test]
fn test_ciphertext_to_bits() {
    let ciphertext = Ciphertext::new(vec![5, 1023]);
    let bits_le = ciphertext.to_bits_le();
    assert_eq!(2 * 61, bits_le.len());
    let mut first: u64 = 0;
    for i in 0..61 {
        if bits_le[i] {
            first |= 1 << i;
        }
    }
    assert_eq!(5, first);
    let mut second: u64 = 0;
    for i in 0..61 {
        if bits_le[61 + i] {
            second |= 1 << i;
        }
    }
    assert_eq!(1023, second);

    let bits_be = ciphertext.to_bits_be();
    assert_eq!(2 * 61, bits_be.len());
    for i in 0..61 {
        assert_eq!(bits_le[i], bits_be[60 - i]);
        assert_eq!(bits_le[61 + i], bits_be[61 + 60 - i]);
    }
}

#[test]
fn test_plaintext_size_in_fields() {
    // 59 bits plus the terminus bit fill exactly one 60-bit data field
    let plaintext = Plaintext::new(vec![true; 59]);
    assert_eq!(Ok(1), plaintext.size_in_fields());
    // one more bit spills into a second field
    let plaintext = Plaintext::new(vec![true; 60]);
    assert_eq!(Ok(2), plaintext.size_in_fields());
    let plaintext = Plaintext::new(Vec::new());
    assert_eq!(Ok(1), plaintext.size_in_fields());
    // the largest encodable value occupies every allowed field
    let plaintext = Plaintext::new(vec![false; 128 * 60 - 1]);
    assert_eq!(Ok(128), plaintext.size_in_fields());
    // one more bit is too large to encode
    let plaintext = Plaintext::new(vec![false; 128 * 60]);
    assert_eq!(Err(PlaintextError::TooLarge), plaintext.size_in_fields());
    assert_eq!(128 * 60, plaintext.to_bits_le().len());
}

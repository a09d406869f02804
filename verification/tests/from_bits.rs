//! The bit-decomposition gate: round trips, padding costs, and the range
//! check that rejects out-of-range full-width encodings.

use circuit_gadgets::boolean::Boolean;
use circuit_gadgets::fabric::Fabric;
use circuit_gadgets::mode::Mode;
use circuit_gadgets::scalar::{Scalar, SCALAR_BITS, SCALAR_MODULUS};

const SAMPLES: [u64; 5] = [0, 1, 77, 0x2AAA_AAAA, SCALAR_MODULUS - 1];

fn check_from_bits_le(mode: Mode, num_private: usize, num_constraints: usize) {
    for (i, expected) in SAMPLES.iter().enumerate() {
        let mut fabric = Fabric::new();
        let given_bits = Scalar::new(&mut fabric, mode, *expected).to_bits_le();
        assert_eq!(SCALAR_BITS, given_bits.len());

        fabric.push_scope("from_bits_le".to_string());
        let candidate = Scalar::from_bits_le(&mut fabric, &given_bits);
        assert_eq!(*expected, candidate.eject_value());
        assert_eq!(SCALAR_BITS, candidate.bits_le.len());
        let count = fabric.pop_scope().unwrap();
        assert_eq!(0, count.constants);
        assert_eq!(0, count.public);
        assert_eq!(num_private, count.private);
        assert_eq!(num_constraints, count.constraints);
        assert!(fabric.is_satisfied());

        // pad with excess zero bits: still decodes, at one constraint per
        // excess bit (and one private wire per excess bit past the first)
        let mut padded = Scalar::new(&mut fabric, mode, *expected).to_bits_le();
        for _ in 0..i {
            padded.push(Boolean::new(&mut fabric, mode, false));
        }
        fabric.push_scope("excess".to_string());
        let candidate = Scalar::from_bits_le(&mut fabric, &padded);
        assert_eq!(*expected, candidate.eject_value());
        let count = fabric.pop_scope().unwrap();
        if mode == Mode::Constant {
            assert_eq!(num_private, count.private);
            assert_eq!(num_constraints, count.constraints);
        } else {
            assert_eq!(num_private + i.saturating_sub(1), count.private);
            assert_eq!(num_constraints + i, count.constraints);
        }
        assert!(fabric.is_satisfied());
    }
}

fn check_from_bits_be(mode: Mode, num_private: usize, num_constraints: usize) {
    for expected in SAMPLES {
        let mut fabric = Fabric::new();
        let mut given_bits = Scalar::new(&mut fabric, mode, expected).to_bits_le();
        given_bits.reverse();

        fabric.push_scope("from_bits_be".to_string());
        let candidate = Scalar::from_bits_be(&mut fabric, &given_bits);
        assert_eq!(expected, candidate.eject_value());
        let count = fabric.pop_scope().unwrap();
        assert_eq!(num_private, count.private);
        assert_eq!(num_constraints, count.constraints);
        assert!(fabric.is_satisfied());
    }
}

#[test]
fn test_from_bits_le_constant() {
    check_from_bits_le(Mode::Constant, 0, 0);
}

#[test]
fn test_from_bits_le_public() {
    check_from_bits_le(Mode::Public, 31, 32);
}

#[test]
fn test_from_bits_le_private() {
    check_from_bits_le(Mode::Private, 31, 32);
}

#[test]
fn test_from_bits_be_constant() {
    check_from_bits_be(Mode::Constant, 0, 0);
}

#[test]
fn test_from_bits_be_public() {
    check_from_bits_be(Mode::Public, 31, 32);
}

#[test]
fn test_from_bits_be_private() {
    check_from_bits_be(Mode::Private, 31, 32);
}

#[test]
fn test_short_bit_lists_are_free() {
    // fewer bits than the data width: no excess check, no range check
    let mut fabric = Fabric::new();
    let mut bits = Vec::new();
    for i in 0..10 {
        bits.push(Boolean::new(&mut fabric, Mode::Private, i % 2 == 0));
    }
    let before = fabric.num_constraints();
    let candidate = Scalar::from_bits_le(&mut fabric, &bits);
    assert_eq!(0b0101010101, candidate.eject_value());
    assert_eq!(before, fabric.num_constraints());
    assert!(fabric.is_satisfied());
}

#[test]
fn test_range_check_rejects_modulus() {
    // a full-width encoding of the modulus itself: well-formed circuit,
    // unsatisfiable system
    for mode in [Mode::Constant, Mode::Public, Mode::Private] {
        let mut fabric = Fabric::new();
        let mut bits = Vec::new();
        for i in 0..SCALAR_BITS {
            bits.push(Boolean::new(&mut fabric, mode, (SCALAR_MODULUS >> i) & 1 == 1));
        }
        let candidate = Scalar::from_bits_le(&mut fabric, &bits);
        assert_eq!(SCALAR_MODULUS, candidate.eject_value());
        assert!(!fabric.is_satisfied());
    }
}

#[test]
fn test_range_check_accepts_modulus_minus_one() {
    // the check compares against the modulus minus one inclusively, so the
    // largest canonical element passes
    let mut fabric = Fabric::new();
    let mut bits = Vec::new();
    for i in 0..SCALAR_BITS {
        bits.push(Boolean::new(
            &mut fabric,
            Mode::Private,
            ((SCALAR_MODULUS - 1) >> i) & 1 == 1,
        ));
    }
    let candidate = Scalar::from_bits_le(&mut fabric, &bits);
    assert_eq!(SCALAR_MODULUS - 1, candidate.eject_value());
    assert!(fabric.is_satisfied());
}

#[test]
fn test_excess_nonzero_bit_is_unsatisfiable() {
    // a nonzero bit past the scalar width: the suppression constraint fails
    let mut fabric = Fabric::new();
    let mut bits = Scalar::new(&mut fabric, Mode::Private, 5).to_bits_le();
    bits.push(Boolean::new(&mut fabric, Mode::Private, true));
    let candidate = Scalar::from_bits_le(&mut fabric, &bits);
    assert_eq!(5, candidate.eject_value());
    assert!(!fabric.is_satisfied());
}

//! The uncompressed commitment gadget: the circuit agrees with the plainly
//! computed commitment, in every mode, at zero constraint cost.

use circuit_gadgets::arith::FIELD_MODULUS;
use circuit_gadgets::commit::commit_uncompressed;
use circuit_gadgets::count::Count;
use circuit_gadgets::fabric::Fabric;
use circuit_gadgets::field::Field;
use circuit_gadgets::mode::Mode;
use circuit_gadgets::scalar::{Scalar, SCALAR_BITS, SCALAR_MODULUS};

fn field_mul_plain(a: u64, b: u64) -> u64 {
    ((a as u128 * b as u128) % FIELD_MODULUS as u128) as u64
}

fn field_add_plain(a: u64, b: u64) -> u64 {
    ((a as u128 + b as u128) % FIELD_MODULUS as u128) as u64
}

/// The plainly computed commitment: the hash plus each base power whose
/// randomizer bit is set.
fn plain_commit(hash: u64, randomizer: u64, powers: &[u64]) -> u64 {
    let mut accumulator = hash;
    for (i, power) in powers.iter().enumerate() {
        if (randomizer >> i) & 1 == 1 {
            accumulator = field_add_plain(accumulator, *power);
        }
    }
    accumulator
}

/// A table of base powers: successive doublings of a fixed generator.
fn base_powers() -> Vec<u64> {
    let mut powers = Vec::new();
    let mut power: u64 = 48615764182191;
    for _ in 0..SCALAR_BITS {
        powers.push(power);
        power = field_mul_plain(power, 2);
    }
    powers
}

fn check_commit_uncompressed(mode: Mode) {
    let powers = base_powers();
    let hash_value: u64 = 733008021533102;
    let randomizer_value: u64 = SCALAR_MODULUS - 81;
    let expected = plain_commit(hash_value, randomizer_value, &powers);

    let mut fabric = Fabric::new();
    let mut random_base: Vec<Field> = Vec::new();
    for power in &powers {
        random_base.push(Field::new(&mut fabric, Mode::Constant, *power));
    }
    let hash = Field::new(&mut fabric, mode, hash_value);
    let randomizer = Scalar::new(&mut fabric, mode, randomizer_value);

    fabric.push_scope("commit".to_string());
    let candidate = commit_uncompressed(&mut fabric, &hash, &randomizer, &random_base);
    // every selection picks between constants, so the whole gate is free
    assert_eq!(Some(Count::is(0, 0, 0, 0)), fabric.pop_scope());
    assert_eq!(expected, candidate.eject_value());
    assert!(fabric.is_satisfied());
}

#[test]
fn test_commit_uncompressed_constant() {
    check_commit_uncompressed(Mode::Constant);
}

#[test]
fn test_commit_uncompressed_public() {
    check_commit_uncompressed(Mode::Public);
}

#[test]
fn test_commit_uncompressed_private() {
    check_commit_uncompressed(Mode::Private);
}

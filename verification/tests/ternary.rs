//! The ternary gate across every mode combination: value, cost, and output
//! mode all match the oracles.

use circuit_gadgets::boolean::Boolean;
use circuit_gadgets::fabric::Fabric;
use circuit_gadgets::field::Field;
use circuit_gadgets::mode::Mode;

fn check_ternary(fabric: &mut Fabric, name: &str, expected: u64, condition: Boolean, a: Field, b: Field) {
    let case = (condition.eject_mode(), a.eject_mode(), b.eject_mode());
    fabric.push_scope(name.to_string());
    let candidate = Field::ternary(fabric, &condition, &a, &b);
    assert_eq!(expected, candidate.eject_value(), "{name}");
    let count = Field::ternary_count(&case);
    assert_eq!(Some(count), fabric.pop_scope(), "{name}");
    let output_mode = Field::ternary_output_mode(&(
        condition.circuit_type(),
        a.eject_mode(),
        b.eject_mode(),
    ));
    assert_eq!(output_mode, candidate.eject_mode(), "{name}");
    assert!(fabric.is_satisfied(), "{name}");
}

const FIRST: u64 = 846104489915932;
const SECOND: u64 = 1080528207942313;

fn inject(fabric: &mut Fabric, mode: Mode, value: u64) -> Field {
    Field::new(fabric, mode, value)
}

fn condition_of(fabric: &mut Fabric, mode: Mode, value: bool) -> Boolean {
    Boolean::new(fabric, mode, value)
}

#[test]
fn test_constant_condition() {
    let first: u64 = FIRST;
    let second: u64 = SECOND;
    let cases: [(bool, Mode, Mode); 12] = [
        (false, Mode::Constant, Mode::Constant),
        (false, Mode::Constant, Mode::Public),
        (false, Mode::Public, Mode::Constant),
        (false, Mode::Public, Mode::Public),
        (false, Mode::Public, Mode::Private),
        (false, Mode::Private, Mode::Private),
        (true, Mode::Constant, Mode::Constant),
        (true, Mode::Constant, Mode::Public),
        (true, Mode::Public, Mode::Constant),
        (true, Mode::Public, Mode::Public),
        (true, Mode::Public, Mode::Private),
        (true, Mode::Private, Mode::Private),
    ];
    for (flag, mode_a, mode_b) in cases {
        let expected = if flag { first } else { second };
        let mut setup = Fabric::new();
        let condition = condition_of(&mut setup, Mode::Constant, flag);
        let a = inject(&mut setup, mode_a, first);
        let b = inject(&mut setup, mode_b, second);
        check_ternary(&mut setup, "constant condition", expected, condition, a, b);
    }
}

#[test]
fn test_public_condition_and_constant_inputs() {
    for flag in [false, true] {
        let expected = if flag { FIRST } else { SECOND };
        let mut setup = Fabric::new();
        let condition = condition_of(&mut setup, Mode::Public, flag);
        let a = inject(&mut setup, Mode::Constant, FIRST);
        let b = inject(&mut setup, Mode::Constant, SECOND);
        check_ternary(&mut setup, "public condition, constant inputs", expected, condition, a, b);
    }
}

#[test]
fn test_public_condition_and_mixed_inputs() {
    for flag in [false, true] {
        for modes in [(Mode::Constant, Mode::Public), (Mode::Public, Mode::Constant)] {
            let expected = if flag { FIRST } else { SECOND };
            let mut setup = Fabric::new();
            let condition = condition_of(&mut setup, Mode::Public, flag);
            let a = inject(&mut setup, modes.0, FIRST);
            let b = inject(&mut setup, modes.1, SECOND);
            check_ternary(&mut setup, "public condition, mixed inputs", expected, condition, a, b);
        }
    }
}

#[test]
fn test_private_condition_and_constant_inputs() {
    for flag in [false, true] {
        let expected = if flag { FIRST } else { SECOND };
        let mut setup = Fabric::new();
        let condition = condition_of(&mut setup, Mode::Private, flag);
        let a = inject(&mut setup, Mode::Constant, FIRST);
        let b = inject(&mut setup, Mode::Constant, SECOND);
        check_ternary(&mut setup, "private condition, constant inputs", expected, condition, a, b);
    }
}

#[test]
fn test_private_condition_and_mixed_inputs() {
    for flag in [false, true] {
        for modes in [(Mode::Constant, Mode::Public), (Mode::Public, Mode::Constant)] {
            let expected = if flag { FIRST } else { SECOND };
            let mut setup = Fabric::new();
            let condition = condition_of(&mut setup, Mode::Private, flag);
            let a = inject(&mut setup, modes.0, FIRST);
            let b = inject(&mut setup, modes.1, SECOND);
            check_ternary(&mut setup, "private condition, mixed inputs", expected, condition, a, b);
        }
    }
}

#[test]
fn test_public_condition_and_variable_inputs() {
    for flag in [false, true] {
        for modes in [
            (Mode::Public, Mode::Public),
            (Mode::Public, Mode::Private),
            (Mode::Private, Mode::Public),
            (Mode::Private, Mode::Private),
        ] {
            let expected = if flag { FIRST } else { SECOND };
            let mut setup = Fabric::new();
            let condition = condition_of(&mut setup, Mode::Public, flag);
            let a = inject(&mut setup, modes.0, FIRST);
            let b = inject(&mut setup, modes.1, SECOND);
            check_ternary(&mut setup, "public condition, variable inputs", expected, condition, a, b);
        }
    }
}

#[test]
fn test_private_condition_and_variable_inputs() {
    for flag in [false, true] {
        for modes in [
            (Mode::Public, Mode::Public),
            (Mode::Public, Mode::Private),
            (Mode::Private, Mode::Public),
            (Mode::Private, Mode::Private),
        ] {
            let expected = if flag { FIRST } else { SECOND };
            let mut setup = Fabric::new();
            let condition = condition_of(&mut setup, Mode::Private, flag);
            let a = inject(&mut setup, modes.0, FIRST);
            let b = inject(&mut setup, modes.1, SECOND);
            check_ternary(&mut setup, "private condition, variable inputs", expected, condition, a, b);
        }
    }
}

#[test]
fn test_ternary_constraint_sound_in_all_four_cases() {
    // with distinct branches, the selection constraint
    // condition * (first - second) = witness - second
    // is satisfied by the honest witness and refuted by the dishonest one,
    // in each of the four (condition, claimed witness) cases
    let first: u64 = 5;
    let second: u64 = 11;
    for condition in [false, true] {
        for claimed in [first, second] {
            let mut fabric = Fabric::new();
            let condition_bit = Boolean::new(&mut fabric, Mode::Private, condition);
            let a = Field::new(&mut fabric, Mode::Private, first);
            let b = Field::new(&mut fabric, Mode::Private, second);
            let witness = Field::new(&mut fabric, Mode::Private, claimed);
            let difference = a.lc.sub(&b.lc);
            let offset = witness.lc.sub(&b.lc);
            let honest = if condition { first } else { second };
            fabric.enforce(condition_bit.lc.duplicate(), difference, offset);
            assert_eq!(claimed == honest, fabric.is_satisfied());
        }
    }
    // when the branches agree, either witness satisfies the constraint
    let mut fabric = Fabric::new();
    let condition_bit = Boolean::new(&mut fabric, Mode::Private, false);
    let a = Field::new(&mut fabric, Mode::Private, 7);
    let b = Field::new(&mut fabric, Mode::Private, 7);
    let witness = Field::new(&mut fabric, Mode::Private, 7);
    fabric.enforce(condition_bit.lc.duplicate(), a.lc.sub(&b.lc), witness.lc.sub(&b.lc));
    assert!(fabric.is_satisfied());
}

#[test]
fn test_ternary_selects_exactly_one_constraint() {
    // a private condition over distinct public branches costs exactly one
    // private wire and one constraint
    let mut fabric = Fabric::new();
    let condition = Boolean::new(&mut fabric, Mode::Private, true);
    let a = Field::new(&mut fabric, Mode::Public, 7);
    let b = Field::new(&mut fabric, Mode::Public, 9);
    let before = (fabric.num_private(), fabric.num_constraints());
    let candidate = Field::ternary(&mut fabric, &condition, &a, &b);
    assert_eq!(candidate.eject_value(), 7);
    assert_eq!(fabric.num_private(), before.0 + 1);
    assert_eq!(fabric.num_constraints(), before.1 + 1);
    assert!(fabric.is_satisfied());
}

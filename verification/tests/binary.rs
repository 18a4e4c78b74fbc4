use ripple_adder::binary::{
    adder_4bit, and_gate, full_adder, or_gate, to_binary, to_decimal, xor_gate,
};
use ripple_adder::error::AdderError;

#[test]
fn test_basic_addition() {
    let result = adder_4bit(to_binary(3).unwrap(), to_binary(2).unwrap(), false);
    assert_eq!(to_decimal(&result.sum), 5);
    assert_eq!(result.carry, false);
}

#[test]
fn test_overflow() {
    let result = adder_4bit(to_binary(7).unwrap(), to_binary(9).unwrap(), false);
    assert_eq!(to_decimal(&result.sum), 0);
    assert_eq!(result.carry, true);
}

#[test]
fn test_max_value() {
    let result = adder_4bit(to_binary(15).unwrap(), to_binary(1).unwrap(), false);
    assert_eq!(to_decimal(&result.sum), 0);
    assert_eq!(result.carry, true);
}

#[test]
fn binary_gate_truth_tables() {
    assert_eq!(and_gate(false, false), false);
    assert_eq!(and_gate(false, true), false);
    assert_eq!(and_gate(true, false), false);
    assert_eq!(and_gate(true, true), true);
    assert_eq!(or_gate(false, false), false);
    assert_eq!(or_gate(false, true), true);
    assert_eq!(or_gate(true, false), true);
    assert_eq!(or_gate(true, true), true);
    assert_eq!(xor_gate(false, false), false);
    assert_eq!(xor_gate(false, true), true);
    assert_eq!(xor_gate(true, false), true);
    assert_eq!(xor_gate(true, true), false);
}

#[test]
fn full_adder_counts_its_inputs() {
    for a in [false, true] {
        for b in [false, true] {
            for c in [false, true] {
                let out = full_adder(a, b, c);
                let total: u8 = a as u8 + b as u8 + c as u8;
                assert_eq!(out.sum as u8 + 2 * out.carry as u8, total);
            }
        }
    }
    let out = full_adder(true, true, false);
    assert_eq!(out.sum, false);
    assert_eq!(out.carry, true);
}

#[test]
fn to_binary_is_least_significant_first() {
    assert_eq!(to_binary(5), Ok([true, false, true, false]));
    assert_eq!(to_binary(8), Ok([false, false, false, true]));
    assert_eq!(to_binary(0), Ok([false, false, false, false]));
    assert_eq!(to_binary(15), Ok([true, true, true, true]));
}

#[test]
fn to_binary_reports_what_does_not_fit() {
    assert_eq!(to_binary(16), Err(AdderError::Overflow));
    assert_eq!(to_binary(17), Err(AdderError::Overflow));
    assert_eq!(to_binary(255), Err(AdderError::Overflow));
}

#[test]
fn to_decimal_weighs_each_position() {
    assert_eq!(to_decimal(&[true, false, false, false]), 1);
    assert_eq!(to_decimal(&[false, true, false, false]), 2);
    assert_eq!(to_decimal(&[false, false, true, false]), 4);
    assert_eq!(to_decimal(&[false, false, false, true]), 8);
    assert_eq!(to_decimal(&[true, true, false, true]), 11);
}

#[test]
fn binary_round_trip() {
    for value in 0u8..16 {
        let bits = to_binary(value).unwrap();
        assert_eq!(to_decimal(&bits), value);
    }
}

#[test]
fn binary_adder_adds() {
    for a in 0u8..16 {
        for b in 0u8..16 {
            for cin in [false, true] {
                let out = adder_4bit(to_binary(a).unwrap(), to_binary(b).unwrap(), cin);
                let total: u8 = a + b + cin as u8;
                assert_eq!(to_decimal(&out.sum) + 16 * out.carry as u8, total);
            }
        }
    }
}

#[test]
fn binary_adder_commutes() {
    for a in 0u8..16 {
        for b in 0u8..16 {
            for cin in [false, true] {
                let x = to_binary(a).unwrap();
                let y = to_binary(b).unwrap();
                assert_eq!(adder_4bit(x, y, cin), adder_4bit(y, x, cin));
            }
        }
    }
}

#[test]
fn binary_adder_zero_is_identity() {
    for a in 0u8..16 {
        let x = to_binary(a).unwrap();
        let out = adder_4bit(x, [false; 4], false);
        assert_eq!(out.sum, x);
        assert_eq!(out.carry, false);
    }
}

#[test]
fn binary_adder_carry_in_counts() {
    let out = adder_4bit(to_binary(15).unwrap(), to_binary(15).unwrap(), true);
    assert_eq!(to_decimal(&out.sum), 15);
    assert_eq!(out.carry, true);
    let out = adder_4bit(to_binary(0).unwrap(), to_binary(0).unwrap(), true);
    assert_eq!(out.sum, [true, false, false, false]);
    assert_eq!(out.carry, false);
}

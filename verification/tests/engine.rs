use ripple_adder::adder::RippleCarryAdder;
use ripple_adder::binary::{adder_4bit, to_binary};
use ripple_adder::digit::{digit_adder, Digit};
use ripple_adder::error::AdderError;
use ripple_adder::vector::{decode, encode, DigitVector};

fn digit(raw: u8, radix: u8) -> Digit {
    Digit::new(raw, radix).unwrap()
}

fn vector(raw: &[u8], radix: u8) -> DigitVector {
    DigitVector::from_raw(raw.to_vec(), radix).unwrap()
}

#[test]
fn digit_is_made_only_in_range() {
    assert_eq!(Digit::new(0, 2).unwrap().value(), 0);
    assert_eq!(Digit::new(1, 2).unwrap().value(), 1);
    assert_eq!(Digit::new(2, 3).unwrap().radix(), 3);
    assert_eq!(Digit::new(2, 2), Err(AdderError::InvalidDigit));
    assert_eq!(Digit::new(3, 3), Err(AdderError::InvalidDigit));
    assert_eq!(Digit::new(0, 0), Err(AdderError::InvalidDigit));
}

#[test]
fn digit_gates_at_radix_ten() {
    let a = digit(3, 10);
    let b = digit(8, 10);
    assert_eq!(a.and(b).value(), 3);
    assert_eq!(a.or(b).value(), 8);
    assert_eq!(a.not().value(), 6);
    assert_eq!(b.not().value(), 1);
    assert_eq!(a.xor(b).value(), 6);
    assert_eq!(a.not().not(), a);
}

#[test]
fn digit_gates_at_radix_two_are_boolean() {
    for a in 0u8..2 {
        for b in 0u8..2 {
            let x = digit(a, 2);
            let y = digit(b, 2);
            assert_eq!(x.and(y).value(), a & b);
            assert_eq!(x.or(y).value(), a | b);
            assert_eq!(x.xor(y).value(), a ^ b);
        }
        assert_eq!(digit(a, 2).not().value(), 1 - a);
    }
}

#[test]
fn digit_adder_stays_in_range_at_radix_three() {
    for a in 0u8..3 {
        for b in 0u8..3 {
            for c in 0u8..3 {
                let out = digit_adder(digit(a, 3), digit(b, 3), digit(c, 3));
                assert!(out.sum.value() < 3);
                assert!(out.carry.value() < 3);
                assert_eq!(out.sum.radix(), 3);
                assert_eq!(out.carry.radix(), 3);
            }
        }
    }
}

#[test]
fn from_raw_checks_every_digit() {
    assert_eq!(vector(&[1, 0, 2], 3).raw(), &vec![1u8, 0, 2]);
    assert_eq!(DigitVector::from_raw(vec![1, 3, 0], 3), Err(AdderError::InvalidDigit));
    assert_eq!(DigitVector::from_raw(vec![0], 0), Err(AdderError::InvalidDigit));
    assert_eq!(DigitVector::from_raw(vec![], 0).unwrap().len(), 0);
}

#[test]
fn zeros_has_the_width_asked_for() {
    let z = DigitVector::zeros(4, 3).unwrap();
    assert_eq!(z.raw(), &vec![0u8, 0, 0, 0]);
    assert_eq!(z.radix(), 3);
    assert_eq!(z.len(), 4);
    assert_eq!(DigitVector::zeros(1, 0), Err(AdderError::InvalidDigit));
    assert_eq!(DigitVector::zeros(0, 0).unwrap().len(), 0);
}

#[test]
fn vector_hands_out_its_digits() {
    let v = vector(&[4, 7, 1], 10);
    assert_eq!(v.get(0), digit(4, 10));
    assert_eq!(v.get(1), digit(7, 10));
    assert_eq!(v.get(2), digit(1, 10));
    assert_eq!(v.clone(), v);
}

#[test]
fn encode_examples() {
    assert_eq!(encode(5, 4, 2).unwrap().raw(), &vec![1u8, 0, 1, 0]);
    assert_eq!(encode(46, 4, 3).unwrap().raw(), &vec![1u8, 0, 2, 1]);
    assert_eq!(encode(1234, 6, 10).unwrap().raw(), &vec![4u8, 3, 2, 1, 0, 0]);
    assert_eq!(encode(0, 0, 7).unwrap().len(), 0);
    assert_eq!(encode(15, 4, 2).unwrap().raw(), &vec![1u8, 1, 1, 1]);
}

#[test]
fn encode_reports_what_does_not_fit() {
    assert_eq!(encode(16, 4, 2), Err(AdderError::Overflow));
    assert_eq!(encode(81, 4, 3), Err(AdderError::Overflow));
    assert_eq!(encode(1, 0, 2), Err(AdderError::Overflow));
    assert_eq!(encode(u64::MAX, 63, 2), Err(AdderError::Overflow));
    assert_eq!(encode(u64::MAX, 64, 2).unwrap().len(), 64);
}

#[test]
fn encode_with_degenerate_radix() {
    assert_eq!(encode(0, 3, 1).unwrap().raw(), &vec![0u8, 0, 0]);
    assert_eq!(encode(1, 3, 1), Err(AdderError::Overflow));
    assert_eq!(encode(0, 0, 0).unwrap().len(), 0);
    assert_eq!(encode(0, 2, 0), Err(AdderError::Overflow));
    assert_eq!(encode(5, 0, 0), Err(AdderError::Overflow));
}

#[test]
fn decode_examples() {
    assert_eq!(decode(&vector(&[1, 0, 1, 0], 2)), 5);
    assert_eq!(decode(&vector(&[1, 0, 2, 1], 3)), 46);
    assert_eq!(decode(&vector(&[4, 3, 2, 1], 10)), 1234);
    assert_eq!(decode(&vector(&[], 2)), 0);
    assert_eq!(decode(&vector(&[254, 254], 255)), 254 + 254 * 255);
}

#[test]
fn decode_takes_high_zeros() {
    let mut raw: Vec<u8> = vec![0; 100];
    raw[0] = 1;
    raw[2] = 1;
    assert_eq!(decode(&vector(&raw, 2)), 5);
}

#[test]
fn round_trip() {
    for radix in 2u8..12 {
        for width in 0usize..4 {
            let limit: u64 = (radix as u64).pow(width as u32);
            for value in 0..limit {
                let digits = encode(value, width, radix).unwrap();
                assert_eq!(digits.len(), width);
                assert_eq!(decode(&digits), value);
            }
            assert_eq!(encode(limit, width, radix), Err(AdderError::Overflow));
        }
    }
    assert_eq!(decode(&encode(u64::MAX, 64, 2).unwrap()), u64::MAX);
    assert_eq!(encode(u64::MAX, 8, 255), Err(AdderError::Overflow));
    assert_eq!(decode(&encode(u64::MAX, 9, 255).unwrap()), u64::MAX);
}

#[test]
fn carry_correctness_binary_width_four() {
    let adder = RippleCarryAdder::new(2, 4);
    let zero = digit(0, 2);
    let out = adder.add(&encode(3, 4, 2).unwrap(), &encode(2, 4, 2).unwrap(), zero).unwrap();
    assert_eq!(decode(&out.sum), 5);
    assert_eq!(out.carry.value(), 0);
    let out = adder.add(&encode(7, 4, 2).unwrap(), &encode(9, 4, 2).unwrap(), zero).unwrap();
    assert_eq!(decode(&out.sum), 0);
    assert_eq!(out.carry.value(), 1);
    let out = adder.add(&encode(15, 4, 2).unwrap(), &encode(1, 4, 2).unwrap(), zero).unwrap();
    assert_eq!(decode(&out.sum), 0);
    assert_eq!(out.carry.value(), 1);
}

#[test]
fn binary_chain_adds_at_width_six() {
    let adder = RippleCarryAdder::new(2, 6);
    for a in 0u64..64 {
        for b in 0u64..64 {
            for c in 0u8..2 {
                let x = encode(a, 6, 2).unwrap();
                let y = encode(b, 6, 2).unwrap();
                let out = adder.add(&x, &y, digit(c, 2)).unwrap();
                assert_eq!(decode(&out.sum) + 64 * out.carry.value() as u64, a + b + c as u64);
            }
        }
    }
}

#[test]
fn engine_agrees_with_the_four_bit_adder() {
    let adder = RippleCarryAdder::new(2, 4);
    for a in 0u8..16 {
        for b in 0u8..16 {
            for c in [false, true] {
                let fixed = adder_4bit(to_binary(a).unwrap(), to_binary(b).unwrap(), c);
                let x = encode(a as u64, 4, 2).unwrap();
                let y = encode(b as u64, 4, 2).unwrap();
                let out = adder.add(&x, &y, digit(c as u8, 2)).unwrap();
                let bits: Vec<bool> = out.sum.raw().iter().map(|d| *d == 1).collect();
                assert_eq!(bits, fixed.sum.to_vec());
                assert_eq!(out.carry.value() == 1, fixed.carry);
            }
        }
    }
}

#[test]
fn ternary_chain_example() {
    let adder = RippleCarryAdder::new(3, 2);
    let out = adder.add(&vector(&[1, 2], 3), &vector(&[1, 0], 3), digit(0, 3)).unwrap();
    assert_eq!(out.sum.raw(), &vec![1u8, 1]);
    assert_eq!(out.carry, digit(1, 3));
    assert_eq!(out.sum.radix(), 3);
}

#[test]
fn add_commutes() {
    for radix in 2u8..5 {
        let width: usize = 3;
        let adder = RippleCarryAdder::new(radix, width);
        let limit: u64 = (radix as u64).pow(3);
        for a in 0..limit {
            for b in 0..limit {
                for c in 0..radix {
                    let x = encode(a, width, radix).unwrap();
                    let y = encode(b, width, radix).unwrap();
                    let carry = digit(c, radix);
                    assert_eq!(adder.add(&x, &y, carry), adder.add(&y, &x, carry));
                }
            }
        }
    }
}

#[test]
fn add_zero_is_identity() {
    for radix in 1u8..6 {
        let width: usize = 3;
        let adder = RippleCarryAdder::new(radix, width);
        let zero = DigitVector::zeros(width, radix).unwrap();
        let limit: u64 = (radix as u64).pow(3);
        for a in 0..limit {
            let x = encode(a, width, radix).unwrap();
            let out = adder.add(&x, &zero, digit(0, radix)).unwrap();
            assert_eq!(out.sum, x);
            assert_eq!(out.carry, digit(0, radix));
        }
    }
}

#[test]
fn add_refuses_other_widths() {
    let adder = RippleCarryAdder::new(2, 4);
    let four = encode(3, 4, 2).unwrap();
    let three = encode(3, 3, 2).unwrap();
    let five = encode(3, 5, 2).unwrap();
    let zero = digit(0, 2);
    assert_eq!(adder.add(&four, &three, zero), Err(AdderError::WidthMismatch));
    assert_eq!(adder.add(&three, &four, zero), Err(AdderError::WidthMismatch));
    assert_eq!(adder.add(&five, &five, zero), Err(AdderError::WidthMismatch));
    assert_eq!(adder.add(&three, &three, zero), Err(AdderError::WidthMismatch));
    assert!(adder.add(&four, &four, zero).is_ok());
}

#[test]
fn add_at_width_zero_hands_the_carry_on() {
    let adder = RippleCarryAdder::new(3, 0);
    let empty = vector(&[], 3);
    let out = adder.add(&empty, &empty, digit(2, 3)).unwrap();
    assert_eq!(out.sum.len(), 0);
    assert_eq!(out.carry, digit(2, 3));
}

#[test]
fn add_reports_the_carry_and_wraps_nothing() {
    let adder = RippleCarryAdder::new(2, 4);
    let x = encode(15, 4, 2).unwrap();
    let out = adder.add(&x, &x, digit(1, 2)).unwrap();
    assert_eq!(out.sum.raw(), &vec![1u8, 1, 1, 1]);
    assert_eq!(out.carry.value(), 1);
}

//! Digits of any radix, the gates on them and the single-position adder.

use vstd::prelude::*;
use crate::error::AdderError;
use crate::model::{is_digit, gate_and, gate_or, gate_not, gate_xor, adder_sum, adder_carry};

verus! {

/// One positional digit: a value in `[0, radix)` together with its radix.
/// No digit exists outside that range.
#[derive(Debug, Clone, Copy, PartialEq, Eq)]
pub struct Digit {
    value: u8,
    radix: u8,
}

impl View for Digit {
    type V = int;

    /// The digit's value.
    closed spec fn view(&self) -> int {
        self.value as int
    }
}

/// What the single-position adder gives: the sum digit and the carry that
/// leaves the position.
#[derive(Debug, Clone, Copy, PartialEq, Eq)]
pub struct DigitSum {
    pub sum: Digit,
    pub carry: Digit,
}

impl Digit {
    /// The radix that the digit belongs to.
    pub closed spec fn spec_radix(&self) -> int {
        self.radix as int
    }

    /// What holds of every digit: its value lies in `[0, radix)`.
    #[verifier::type_invariant]
    pub open spec fn in_range(&self) -> bool {
        is_digit(self.spec_radix(), self@)
    }

    /// The digit of the given radix with the given value, if there is one.
    pub fn new(raw: u8, radix: u8) -> (r: Result<Digit, AdderError>)
        ensures
            match r {
                Ok(d) => raw < radix && d@ == raw && d.spec_radix() == radix,
                Err(e) => raw >= radix && e == AdderError::InvalidDigit,
            },
    {
        if raw < radix {
            Ok(Digit { value: raw, radix })
        } else {
            Err(AdderError::InvalidDigit)
        }
    }

    /// The digit with the given value, known to lie below the radix.
    pub(crate) fn assemble(raw: u8, radix: u8) -> (d: Digit)
        requires
            raw < radix,
        ensures
            d@ == raw,
            d.spec_radix() == radix,
    {
        Digit { value: raw, radix }
    }

    /// The digit's value, which lies in `[0, radix)`.
    pub fn value(&self) -> (r: u8)
        ensures
            r == self@,
            is_digit(self.spec_radix(), self@),
    {
        proof {
            use_type_invariant(self);
        }
        self.value
    }

    /// The digit's radix.
    pub fn radix(&self) -> (r: u8)
        ensures
            r == self.spec_radix(),
    {
        self.radix
    }

    /// AND: the smaller of the two digits.
    pub fn and(self, other: Digit) -> (r: Digit)
        requires
            self.spec_radix() == other.spec_radix(),
        ensures
            r@ == gate_and(self@, other@),
            r.spec_radix() == self.spec_radix(),
    {
        if self.value <= other.value {
            self
        } else {
            other
        }
    }

    /// OR: the larger of the two digits.
    pub fn or(self, other: Digit) -> (r: Digit)
        requires
            self.spec_radix() == other.spec_radix(),
        ensures
            r@ == gate_or(self@, other@),
            r.spec_radix() == self.spec_radix(),
    {
        if self.value <= other.value {
            other
        } else {
            self
        }
    }

    /// NOT: the digit's mirror image, `radix - 1 - value`.
    pub fn not(self) -> (r: Digit)
        ensures
            r@ == gate_not(self.spec_radix(), self@),
            r.spec_radix() == self.spec_radix(),
    {
        proof {
            use_type_invariant(self);
        }
        Digit { value: self.radix - 1 - self.value, radix: self.radix }
    }

    /// XOR, composed of the other gates: `AND(OR(a, b), NOT(AND(a, b)))`.
    pub fn xor(self, other: Digit) -> (r: Digit)
        requires
            self.spec_radix() == other.spec_radix(),
        ensures
            r@ == gate_xor(self.spec_radix(), self@, other@),
            r.spec_radix() == self.spec_radix(),
    {
        self.or(other).and(self.and(other).not())
    }
}

/// The single-position adder, wired from the gates: two XORs for the sum,
/// two ANDs and an OR for the carry.
pub fn digit_adder(a: Digit, b: Digit, carry: Digit) -> (r: DigitSum)
    requires
        a.spec_radix() == b.spec_radix(),
        a.spec_radix() == carry.spec_radix(),
    ensures
        r.sum@ == adder_sum(a.spec_radix(), a@, b@, carry@),
        r.carry@ == adder_carry(a.spec_radix(), a@, b@, carry@),
        r.sum.spec_radix() == a.spec_radix(),
        r.carry.spec_radix() == a.spec_radix(),
        is_digit(a.spec_radix(), r.sum@),
        is_digit(a.spec_radix(), r.carry@),
{
    let w1: Digit = a.xor(b);
    let sum: Digit = w1.xor(carry);
    let w3: Digit = a.and(b);
    let w2: Digit = w1.and(carry);
    let carry_out: Digit = w2.or(w3);
    proof {
        use_type_invariant(sum);
        use_type_invariant(carry_out);
    }
    DigitSum { sum, carry: carry_out }
}

} // verus!

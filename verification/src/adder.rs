//! The ripple-carry composer: a chain of digit adders of a fixed width.

use vstd::prelude::*;
use crate::digit::{Digit, DigitSum, digit_adder};
use crate::error::AdderError;
use crate::vector::DigitVector;
use crate::model::{all_digits, raw_view, ripple_sum, ripple_carry, is_digit};
use crate::laws::lemma_ripple_unfold;

verus! {

/// What the adder gives: the sum digits, as wide as the operands, and the
/// carry that left the last position. A carry other than zero reports that
/// the sum did not fit the width; nothing is wrapped or dropped.
#[derive(Debug, PartialEq, Eq)]
pub struct AdderResult {
    pub sum: DigitVector,
    pub carry: Digit,
}

/// An adder for operands of one radix and one width.
#[derive(Debug, Clone, Copy, PartialEq, Eq, Structural)]
pub struct RippleCarryAdder {
    pub radix: u8,
    pub width: usize,
}

impl RippleCarryAdder {
    /// The adder for `width` digits of the given radix.
    pub fn new(radix: u8, width: usize) -> (r: RippleCarryAdder)
        ensures
            r.radix == radix,
            r.width == width,
    {
        RippleCarryAdder { radix, width }
    }

    /// Adds two digit vectors and an incoming carry, all of the adder's
    /// radix. Position 0 is added first; each position's carry enters the
    /// next. Operands of another width are refused before any digit is
    /// added.
    pub fn add(&self, a: &DigitVector, b: &DigitVector, carry: Digit) -> (r: Result<
        AdderResult,
        AdderError,
    >)
        requires
            a.spec_radix() == self.radix,
            b.spec_radix() == self.radix,
            carry.spec_radix() == self.radix,
        ensures
            match r {
                Ok(out) => a@.len() == self.width && b@.len() == self.width && out.sum@
                    == ripple_sum(self.radix as int, a@, b@, carry@) && out.carry@ == ripple_carry(
                    self.radix as int,
                    a@,
                    b@,
                    carry@,
                ) && out.sum@.len() == self.width && out.sum.spec_radix() == self.radix
                    && out.carry.spec_radix() == self.radix && all_digits(
                    self.radix as int,
                    out.sum@,
                ) && is_digit(self.radix as int, out.carry@),
                Err(e) => (a@.len() != self.width || b@.len() != self.width) && e
                    == AdderError::WidthMismatch,
            },
    {
        if a.len() != self.width || b.len() != self.width {
            return Err(AdderError::WidthMismatch);
        }
        let mut raw: Vec<u8> = Vec::new();
        let mut chain: Digit = carry;
        let mut i: usize = 0;
        proof {
            assert(a@.skip(0) =~= a@);
            assert(b@.skip(0) =~= b@);
            assert(raw_view(raw@) + ripple_sum(self.radix as int, a@, b@, carry@) =~= ripple_sum(
                self.radix as int,
                a@,
                b@,
                carry@,
            ));
        }
        while i < self.width
            invariant
                i <= self.width,
                a@.len() == self.width,
                b@.len() == self.width,
                a.spec_radix() == self.radix,
                b.spec_radix() == self.radix,
                chain.spec_radix() == self.radix,
                raw@.len() == i,
                all_digits(self.radix as int, raw_view(raw@)),
                ripple_sum(self.radix as int, a@, b@, carry@) == raw_view(raw@) + ripple_sum(
                    self.radix as int,
                    a@.skip(i as int),
                    b@.skip(i as int),
                    chain@,
                ),
                ripple_carry(self.radix as int, a@, b@, carry@) == ripple_carry(
                    self.radix as int,
                    a@.skip(i as int),
                    b@.skip(i as int),
                    chain@,
                ),
            decreases self.width - i,
        {
            let step: DigitSum = digit_adder(a.get(i), b.get(i), chain);
            let ghost before = raw@;
            proof {
                lemma_ripple_unfold(self.radix as int, a@, b@, chain@, i as int);
            }
            raw.push(step.sum.value());
            proof {
                assert(raw_view(raw@) =~= raw_view(before) + seq![step.sum@]);
                assert(raw_view(raw@) + ripple_sum(
                    self.radix as int,
                    a@.skip(i + 1),
                    b@.skip(i + 1),
                    step.carry@,
                ) =~= raw_view(before) + ripple_sum(
                    self.radix as int,
                    a@.skip(i as int),
                    b@.skip(i as int),
                    chain@,
                ));
            }
            chain = step.carry;
            i += 1;
        }
        proof {
            assert(a@.skip(i as int).len() == 0);
            assert(raw_view(raw@) + Seq::<int>::empty() =~= raw_view(raw@));
        }
        proof {
            use_type_invariant(chain);
        }
        Ok(AdderResult { sum: DigitVector::assemble(raw, self.radix), carry: chain })
    }
}

} // verus!

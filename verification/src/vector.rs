//! Digit vectors and the positional codec.

use vstd::prelude::*;
use crate::digit::Digit;
use crate::error::AdderError;
use crate::model::{all_digits, raw_view, value_of, digits_of, fits, zeros};
use crate::laws::{lemma_fits_step, lemma_suffix_value, law_round_trip};

verus! {

/// A sequence of digits of one radix, least significant first. Its length
/// is fixed when it is made.
#[derive(Debug, PartialEq, Eq)]
pub struct DigitVector {
    radix: u8,
    digits: Vec<u8>,
}

impl View for DigitVector {
    type V = Seq<int>;

    /// The digits' values, index 0 the least significant.
    closed spec fn view(&self) -> Seq<int> {
        raw_view(self.digits@)
    }
}

impl Clone for DigitVector {
    /// A vector with the same radix and the same digits.
    fn clone(&self) -> (r: Self)
        ensures
            r@ == self@,
            r.spec_radix() == self.spec_radix(),
    {
        proof {
            use_type_invariant(self);
        }
        let digits: Vec<u8> = self.digits.clone();
        assert(digits@ =~= self.digits@);
        DigitVector { radix: self.radix, digits }
    }
}

impl DigitVector {
    /// The radix of every digit of the vector.
    pub closed spec fn spec_radix(&self) -> int {
        self.radix as int
    }

    /// What holds of every vector: each element is a digit of the radix.
    #[verifier::type_invariant]
    pub open spec fn in_range(&self) -> bool {
        all_digits(self.spec_radix(), self@)
    }

    /// The vector with the given values, if each of them is a digit of the
    /// radix.
    pub fn from_raw(raw: Vec<u8>, radix: u8) -> (r: Result<DigitVector, AdderError>)
        ensures
            match r {
                Ok(v) => all_digits(radix as int, raw_view(raw@)) && v@ == raw_view(raw@)
                    && v.spec_radix() == radix,
                Err(e) => !all_digits(radix as int, raw_view(raw@)) && e
                    == AdderError::InvalidDigit,
            },
    {
        let mut i: usize = 0;
        while i < raw.len()
            invariant
                i <= raw.len(),
                forall|j: int| 0 <= j < i ==> raw[j] < radix,
            decreases raw.len() - i,
        {
            if raw[i] >= radix {
                assert(!(0 <= raw_view(raw@)[i as int] < radix));
                return Err(AdderError::InvalidDigit);
            }
            i += 1;
        }
        Ok(DigitVector { radix, digits: raw })
    }

    /// The vector with the given values, each known to be a digit.
    pub(crate) fn assemble(raw: Vec<u8>, radix: u8) -> (v: DigitVector)
        requires
            all_digits(radix as int, raw_view(raw@)),
        ensures
            v@ == raw_view(raw@),
            v.spec_radix() == radix,
    {
        DigitVector { radix, digits: raw }
    }

    /// The vector of `width` zeros. Radix 0 has no digit, so no vector but
    /// the empty one.
    pub fn zeros(width: usize, radix: u8) -> (r: Result<DigitVector, AdderError>)
        ensures
            match r {
                Ok(v) => (radix > 0 || width == 0) && v@ == zeros(width as nat) && v.spec_radix()
                    == radix,
                Err(e) => radix == 0 && width > 0 && e == AdderError::InvalidDigit,
            },
    {
        if radix == 0 && width > 0 {
            return Err(AdderError::InvalidDigit);
        }
        let mut raw: Vec<u8> = Vec::new();
        let mut i: usize = 0;
        while i < width
            invariant
                i <= width,
                radix > 0 || width == 0,
                raw@.len() == i,
                forall|j: int| 0 <= j < i ==> raw[j] == 0,
            decreases width - i,
        {
            raw.push(0);
            i += 1;
        }
        assert(raw_view(raw@) =~= zeros(width as nat));
        Ok(DigitVector { radix, digits: raw })
    }

    /// The number of digits.
    pub fn len(&self) -> (r: usize)
        ensures
            r == self@.len(),
    {
        self.digits.len()
    }

    /// The radix of the digits.
    pub fn radix(&self) -> (r: u8)
        ensures
            r == self.spec_radix(),
    {
        self.radix
    }

    /// The digit at position `i`, position 0 being the least significant.
    pub fn get(&self, i: usize) -> (d: Digit)
        requires
            i < self@.len(),
        ensures
            d@ == self@[i as int],
            d.spec_radix() == self.spec_radix(),
    {
        proof {
            use_type_invariant(self);
            assert(0 <= raw_view(self.digits@)[i as int] < self.radix);
        }
        Digit::assemble(self.digits[i], self.radix)
    }

    /// The digits' values as bytes, all of them below the radix.
    pub fn raw(&self) -> (r: &Vec<u8>)
        ensures
            raw_view(r@) == self@,
            all_digits(self.spec_radix(), self@),
    {
        proof {
            use_type_invariant(self);
        }
        &self.digits
    }
}

/// Writes `value` with `width` digits of the given radix: the lowest digit
/// is taken off `width` times. What does not fit is reported, not truncated.
pub fn encode(value: u64, width: usize, radix: u8) -> (r: Result<DigitVector, AdderError>)
    ensures
        match r {
            Ok(v) => fits(radix as int, value as int, width as nat) && v@ == digits_of(
                radix as int,
                value as int,
                width as nat,
            ) && v.spec_radix() == radix && v@.len() == width && value_of(radix as int, v@)
                == value,
            Err(e) => !fits(radix as int, value as int, width as nat) && e
                == AdderError::Overflow,
        },
{
    if radix == 0 {
        proof {
            vstd::arithmetic::power::lemma_pow0(0);
            if width > 0 {
                vstd::arithmetic::power::lemma0_pow(width as nat);
            }
        }
        if width == 0 && value == 0 {
            let raw: Vec<u8> = Vec::new();
            assert(raw_view(raw@) =~= digits_of(0, 0, 0));
            assert(value_of(0, raw_view(raw@)) == 0);
            return Ok(DigitVector::assemble(raw, radix));
        } else {
            return Err(AdderError::Overflow);
        }
    }
    let mut raw: Vec<u8> = Vec::new();
    let mut rest: u64 = value;
    let mut i: usize = 0;
    proof {
        assert(raw_view(raw@) + digits_of(radix as int, value as int, width as nat) =~= digits_of(
            radix as int,
            value as int,
            width as nat,
        ));
    }
    while i < width
        invariant
            radix >= 1,
            i <= width,
            raw@.len() == i,
            all_digits(radix as int, raw_view(raw@)),
            digits_of(radix as int, value as int, width as nat) == raw_view(raw@) + digits_of(
                radix as int,
                rest as int,
                (width - i) as nat,
            ),
            fits(radix as int, rest as int, (width - i) as nat) <==> fits(
                radix as int,
                value as int,
                width as nat,
            ),
        decreases width - i,
    {
        let wide: u64 = radix as u64;
        let low: u64 = rest % wide;
        let d: u8 = low as u8;
        let ghost before = raw@;
        proof {
            lemma_fits_step(radix as int, rest as int, (width - i - 1) as nat);
        }
        raw.push(d);
        proof {
            assert(raw_view(raw@) =~= raw_view(before) + seq![(rest % wide) as int]);
            assert(raw_view(raw@) + digits_of(
                radix as int,
                (rest / wide) as int,
                (width - i - 1) as nat,
            ) =~= raw_view(before) + digits_of(radix as int, rest as int, (width - i) as nat));
        }
        rest = rest / wide;
        i += 1;
    }
    proof {
        vstd::arithmetic::power::lemma_pow0(radix as int);
        assert(raw_view(raw@) + Seq::<int>::empty() =~= raw_view(raw@));
        if rest == 0 {
            law_round_trip(radix as int, value as int, width as nat);
        }
    }
    if rest != 0 {
        Err(AdderError::Overflow)
    } else {
        Ok(DigitVector::assemble(raw, radix))
    }
}

/// The value that a digit vector denotes: the sum of `digit[i] * radix^i`.
/// The value has to fit the result type.
pub fn decode(digits: &DigitVector) -> (r: u64)
    requires
        value_of(digits.spec_radix(), digits@) <= u64::MAX,
    ensures
        r == value_of(digits.spec_radix(), digits@),
{
    let raw: &Vec<u8> = digits.raw();
    let radix: u64 = digits.radix() as u64;
    let ghost s = digits@;
    let mut acc: u64 = 0;
    let mut i: usize = raw.len();
    proof {
        assert(s.skip(i as int).len() == 0);
    }
    while i > 0
        invariant
            i <= raw.len(),
            s == raw_view(raw@),
            all_digits(radix as int, s),
            acc == value_of(radix as int, s.skip(i as int)),
            value_of(radix as int, s) <= u64::MAX,
        decreases i,
    {
        i -= 1;
        proof {
            lemma_suffix_value(radix as int, s, i as int);
            lemma_suffix_value(radix as int, s, i + 1);
            assert(acc * radix == radix * acc) by (nonlinear_arith);
        }
        acc = acc * radix + raw[i] as u64;
    }
    proof {
        assert(s.skip(0) =~= s);
    }
    acc
}

} // verus!

//! The binary adder: bits are `bool`, vectors are four bits wide.

use vstd::prelude::*;
use crate::error::AdderError;
use crate::model::{
    bit, bits_view, gate_and, gate_or, gate_xor, adder_sum, adder_carry, ripple_sum,
    ripple_carry, value_of, digits_of, fits, all_digits,
};
use crate::laws::{
    law_binary_adder_exact, law_binary_add_exact, lemma_ripple_unfold, lemma_fits_step,
    lemma_suffix_value, lemma_pow_four, law_value_bounded, law_round_trip,
};

verus! {

/// What the one-bit adder gives.
#[derive(Debug, Clone, Copy, PartialEq, Eq, Structural)]
pub struct FullAdderOutput {
    pub sum: bool,
    pub carry: bool,
}

/// What the four-bit adder gives: the sum bits, least significant first,
/// and the carry that left the last position.
#[derive(Debug, Clone, Copy, PartialEq, Eq)]
pub struct AdderOutput {
    pub sum: [bool; 4],
    pub carry: bool,
}

/// AND of two bits.
pub fn and_gate(a: bool, b: bool) -> (r: bool)
    ensures
        r == (a && b),
        bit(r) == gate_and(bit(a), bit(b)),
{
    a && b
}

/// OR of two bits.
pub fn or_gate(a: bool, b: bool) -> (r: bool)
    ensures
        r == (a || b),
        bit(r) == gate_or(bit(a), bit(b)),
{
    a || b
}

/// XOR of two bits.
pub fn xor_gate(a: bool, b: bool) -> (r: bool)
    ensures
        r == (a != b),
        bit(r) == gate_xor(2, bit(a), bit(b)),
{
    a ^ b
}

/// The one-bit full adder, built from the gates.
pub fn full_adder(a: bool, b: bool, carry: bool) -> (r: FullAdderOutput)
    ensures
        bit(r.sum) == adder_sum(2, bit(a), bit(b), bit(carry)),
        bit(r.carry) == adder_carry(2, bit(a), bit(b), bit(carry)),
        bit(r.sum) + 2 * bit(r.carry) == bit(a) + bit(b) + bit(carry),
{
    let w1: bool = xor_gate(a, b);
    let sum: bool = xor_gate(w1, carry);
    let w3: bool = and_gate(a, b);
    let w2: bool = and_gate(w1, carry);
    let carry_out: bool = or_gate(w2, w3);
    FullAdderOutput { sum, carry: carry_out }
}

/// The four-bit ripple-carry adder: position 0 is added first, and each
/// position's carry enters the next. The result denotes `a + b + cin`, with
/// the final carry standing for 16.
pub fn adder_4bit(a: [bool; 4], b: [bool; 4], cin: bool) -> (r: AdderOutput)
    ensures
        bits_view(r.sum@) == ripple_sum(2, bits_view(a@), bits_view(b@), bit(cin)),
        bit(r.carry) == ripple_carry(2, bits_view(a@), bits_view(b@), bit(cin)),
        value_of(2, bits_view(r.sum@)) + 16 * bit(r.carry) == value_of(2, bits_view(a@))
            + value_of(2, bits_view(b@)) + bit(cin),
        r.carry <==> value_of(2, bits_view(a@)) + value_of(2, bits_view(b@)) + bit(cin) >= 16,
{
    let mut sum: [bool; 4] = [false; 4];
    let mut carry: bool = cin;
    let ghost av = bits_view(a@);
    let ghost bv = bits_view(b@);
    let mut i: usize = 0;
    proof {
        assert(av.skip(0) =~= av);
        assert(bv.skip(0) =~= bv);
        assert(bits_view(sum@.take(0)) + ripple_sum(2, av, bv, bit(cin)) =~= ripple_sum(
            2,
            av,
            bv,
            bit(cin),
        ));
    }
    while i < 4
        invariant
            i <= 4,
            av == bits_view(a@),
            bv == bits_view(b@),
            ripple_sum(2, av, bv, bit(cin)) == bits_view(sum@.take(i as int)) + ripple_sum(
                2,
                av.skip(i as int),
                bv.skip(i as int),
                bit(carry),
            ),
            ripple_carry(2, av, bv, bit(cin)) == ripple_carry(
                2,
                av.skip(i as int),
                bv.skip(i as int),
                bit(carry),
            ),
        decreases 4 - i,
    {
        let step: FullAdderOutput = full_adder(a[i], b[i], carry);
        proof {
            lemma_ripple_unfold(2, av, bv, bit(carry), i as int);
        }
        let ghost before = sum@;
        sum[i] = step.sum;
        carry = step.carry;
        proof {
            assert(bits_view(sum@.take(i + 1)) =~= bits_view(before.take(i as int)) + seq![
                bit(step.sum),
            ]);
        }
        i += 1;
    }
    proof {
        assert(av.skip(4).len() == 0);
        assert(sum@.take(4) =~= sum@);
        assert(bits_view(sum@) + Seq::<int>::empty() =~= bits_view(sum@));
        law_binary_add_exact(av, bv, bit(cin));
        assert(bits_view(sum@).len() == 4);
        assert(all_digits(2, bits_view(sum@)));
        law_value_bounded(2, bits_view(sum@));
        lemma_pow_four(2);
        let total = value_of(2, av) + value_of(2, bv) + bit(cin);
        let low = value_of(2, bits_view(sum@));
        assert(av.len() == 4);
        assert(low + 16 * bit(carry) == total);
        assert(0 <= low < 16);
        assert(carry <==> total >= 16);
    }
    AdderOutput { sum, carry }
}

/// The four bits of `value`, least significant first. A value of 16 or more
/// does not fit and is reported, not truncated.
pub fn to_binary(value: u8) -> (r: Result<[bool; 4], AdderError>)
    ensures
        match r {
            Ok(bits) => value < 16 && bits_view(bits@) == digits_of(2, value as int, 4)
                && value_of(2, bits_view(bits@)) == value,
            Err(e) => value >= 16 && e == AdderError::Overflow,
        },
{
    let mut bits: [bool; 4] = [false; 4];
    let mut rest: u8 = value;
    let mut i: usize = 0;
    proof {
        assert(bits_view(bits@.take(0)) + digits_of(2, value as int, 4) =~= digits_of(
            2,
            value as int,
            4,
        ));
    }
    while i < 4
        invariant
            i <= 4,
            digits_of(2, value as int, 4) == bits_view(bits@.take(i as int)) + digits_of(
                2,
                rest as int,
                (4 - i) as nat,
            ),
            fits(2, rest as int, (4 - i) as nat) <==> fits(2, value as int, 4),
        decreases 4 - i,
    {
        let ghost before = bits@;
        bits[i] = rest % 2 == 1;
        proof {
            lemma_fits_step(2, rest as int, (3 - i) as nat);
            assert(bits_view(bits@.take(i + 1)) =~= bits_view(before.take(i as int)) + seq![
                (rest % 2) as int,
            ]);
        }
        rest = rest / 2;
        i += 1;
    }
    proof {
        assert(bits@.take(4) =~= bits@);
        assert(bits_view(bits@) + Seq::<int>::empty() =~= bits_view(bits@));
        lemma_pow_four(2);
        if rest == 0 {
            law_round_trip(2, value as int, 4);
        }
    }
    if rest != 0 {
        Err(AdderError::Overflow)
    } else {
        Ok(bits)
    }
}

/// The value that four bits denote, least significant first.
pub fn to_decimal(bits: &[bool; 4]) -> (r: u8)
    ensures
        r == value_of(2, bits_view(bits@)),
        r < 16,
{
    let ghost s = bits_view(bits@);
    let mut acc: u8 = 0;
    let mut i: usize = 4;
    proof {
        law_value_bounded(2, s);
        lemma_pow_four(2);
        assert(s.skip(4).len() == 0);
    }
    while i > 0
        invariant
            i <= 4,
            s == bits_view(bits@),
            acc == value_of(2, s.skip(i as int)),
            all_digits(2, s),
            value_of(2, s) < 16,
        decreases i,
    {
        i -= 1;
        proof {
            lemma_suffix_value(2, s, i as int);
        }
        acc = acc * 2 + if bits[i] { 1 } else { 0 };
    }
    proof {
        assert(s.skip(0) =~= s);
    }
    acc
}

} // verus!

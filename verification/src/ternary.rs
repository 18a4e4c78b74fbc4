//! The ternary adder: digits are unsigned trits with the values 0, 1 and 2,
//! vectors are four trits wide.

use vstd::prelude::*;
use crate::error::AdderError;
use crate::model::{
    is_digit, all_digits, gate_and, gate_or, gate_not, gate_xor, adder_sum, adder_carry,
    ripple_sum, ripple_carry, value_of, digits_of, fits,
};
use crate::laws::{
    lemma_ripple_unfold, lemma_fits_step, lemma_suffix_value, lemma_pow_four, law_value_bounded,
    law_round_trip,
};

verus! {

/// One unsigned ternary digit: 0, 1 or 2.
#[derive(Debug, Copy, Clone, PartialEq, Eq)]
pub struct Trit {
    value: u8,
}

impl View for Trit {
    type V = int;

    /// The trit's value.
    closed spec fn view(&self) -> int {
        self.value as int
    }
}

impl Trit {
    /// What holds of every trit: its value is 0, 1 or 2.
    #[verifier::type_invariant]
    pub open spec fn in_range(&self) -> bool {
        is_digit(3, self@)
    }

    /// The trit with the given value, if the value is 0, 1 or 2.
    pub fn new(value: u8) -> (r: Result<Trit, AdderError>)
        ensures
            match r {
                Ok(t) => value < 3 && t@ == value,
                Err(e) => value >= 3 && e == AdderError::InvalidDigit,
            },
    {
        if value > 2 {
            Err(AdderError::InvalidDigit)
        } else {
            Ok(Trit { value })
        }
    }

    /// The trit's value, which is 0, 1 or 2.
    pub fn value(&self) -> (r: u8)
        ensures
            r == self@,
            is_digit(3, self@),
    {
        proof {
            use_type_invariant(self);
        }
        self.value
    }
}

/// The digit vector that a sequence of trits stands for.
pub open spec fn trits_view(s: Seq<Trit>) -> Seq<int> {
    Seq::new(s.len(), |i: int| s[i]@)
}

/// What the one-trit adder gives.
#[derive(Debug, Clone, Copy, PartialEq, Eq)]
pub struct TernaryAdderOutput {
    pub sum: Trit,
    pub carry: Trit,
}

/// What the four-trit adder gives: the sum trits, least significant first,
/// and the carry that left the last position.
#[derive(Debug, Clone, Copy, PartialEq, Eq)]
pub struct TernarySum {
    pub sum: [Trit; 4],
    pub carry: Trit,
}

/// Ternary AND: the smaller of the two trits.
pub fn tand_gate(a: Trit, b: Trit) -> (r: Trit)
    ensures
        r@ == gate_and(a@, b@),
        is_digit(3, r@),
{
    proof {
        use_type_invariant(a);
        use_type_invariant(b);
    }
    if a.value <= b.value {
        a
    } else {
        b
    }
}

/// Ternary OR: the larger of the two trits.
pub fn tor_gate(a: Trit, b: Trit) -> (r: Trit)
    ensures
        r@ == gate_or(a@, b@),
        is_digit(3, r@),
{
    proof {
        use_type_invariant(a);
        use_type_invariant(b);
    }
    if a.value <= b.value {
        b
    } else {
        a
    }
}

/// Ternary NOT: 0 and 2 change places, 1 stays. Applied twice it gives the
/// trit back.
pub fn tnot_gate(a: Trit) -> (r: Trit)
    ensures
        r@ == gate_not(3, a@),
        gate_not(3, r@) == a@,
        is_digit(3, r@),
{
    proof {
        use_type_invariant(a);
    }
    Trit { value: 2 - a.value }
}

/// Ternary XOR: `AND(OR(a, b), NOT(AND(a, b)))`.
pub fn txor_gate(a: Trit, b: Trit) -> (r: Trit)
    ensures
        r@ == gate_xor(3, a@, b@),
        is_digit(3, r@),
{
    tand_gate(tor_gate(a, b), tnot_gate(tand_gate(a, b)))
}

/// The ternary adder circuits.
pub struct TernaryAdder;

impl TernaryAdder {
    /// The one-trit adder: the full adder's wiring with the ternary gates.
    /// Sum and carry are trits for every one of the 27 inputs.
    pub fn full_adder(a: Trit, b: Trit, carry: Trit) -> (r: TernaryAdderOutput)
        ensures
            r.sum@ == adder_sum(3, a@, b@, carry@),
            r.carry@ == adder_carry(3, a@, b@, carry@),
            is_digit(3, r.sum@),
            is_digit(3, r.carry@),
    {
        let w1: Trit = txor_gate(a, b);
        let sum: Trit = txor_gate(w1, carry);
        let w3: Trit = tand_gate(a, b);
        let w2: Trit = tand_gate(w1, carry);
        let carry_out: Trit = tor_gate(w2, w3);
        TernaryAdderOutput { sum, carry: carry_out }
    }

    /// The four-trit ripple-carry adder: position 0 is added first, and each
    /// position's carry enters the next.
    pub fn add(a: &[Trit; 4], b: &[Trit; 4], carry: Trit) -> (r: TernarySum)
        ensures
            trits_view(r.sum@) == ripple_sum(3, trits_view(a@), trits_view(b@), carry@),
            r.carry@ == ripple_carry(3, trits_view(a@), trits_view(b@), carry@),
            all_digits(3, trits_view(r.sum@)),
            is_digit(3, r.carry@),
    {
        let mut sum: [Trit; 4] = [Trit { value: 0 }; 4];
        let mut chain: Trit = carry;
        let ghost av = trits_view(a@);
        let ghost bv = trits_view(b@);
        let mut i: usize = 0;
        proof {
            use_type_invariant(carry);
            assert(av.skip(0) =~= av);
            assert(bv.skip(0) =~= bv);
            assert(trits_view(sum@.take(0)) + ripple_sum(3, av, bv, carry@) =~= ripple_sum(
                3,
                av,
                bv,
                carry@,
            ));
        }
        while i < 4
            invariant
                i <= 4,
                av == trits_view(a@),
                bv == trits_view(b@),
                is_digit(3, chain@),
                all_digits(3, trits_view(sum@.take(i as int))),
                ripple_sum(3, av, bv, carry@) == trits_view(sum@.take(i as int)) + ripple_sum(
                    3,
                    av.skip(i as int),
                    bv.skip(i as int),
                    chain@,
                ),
                ripple_carry(3, av, bv, carry@) == ripple_carry(
                    3,
                    av.skip(i as int),
                    bv.skip(i as int),
                    chain@,
                ),
            decreases 4 - i,
        {
            let step: TernaryAdderOutput = Self::full_adder(a[i], b[i], chain);
            proof {
                lemma_ripple_unfold(3, av, bv, chain@, i as int);
            }
            let ghost before = sum@;
            sum[i] = step.sum;
            chain = step.carry;
            proof {
                assert(trits_view(sum@.take(i + 1)) =~= trits_view(before.take(i as int)) + seq![
                    step.sum@,
                ]);
            }
            i += 1;
        }
        proof {
            assert(av.skip(4).len() == 0);
            assert(sum@.take(4) =~= sum@);
            assert(trits_view(sum@) + Seq::<int>::empty() =~= trits_view(sum@));
        }
        TernarySum { sum, carry: chain }
    }
}

/// The four trits of `value`, least significant first. A value of 81 or
/// more does not fit and is reported, not truncated.
pub fn to_ternary(value: u8) -> (r: Result<[Trit; 4], AdderError>)
    ensures
        match r {
            Ok(trits) => value < 81 && trits_view(trits@) == digits_of(3, value as int, 4)
                && value_of(3, trits_view(trits@)) == value,
            Err(e) => value >= 81 && e == AdderError::Overflow,
        },
{
    let mut trits: [Trit; 4] = [Trit { value: 0 }; 4];
    let mut rest: u8 = value;
    let mut i: usize = 0;
    proof {
        assert(trits_view(trits@.take(0)) + digits_of(3, value as int, 4) =~= digits_of(
            3,
            value as int,
            4,
        ));
    }
    while i < 4
        invariant
            i <= 4,
            digits_of(3, value as int, 4) == trits_view(trits@.take(i as int)) + digits_of(
                3,
                rest as int,
                (4 - i) as nat,
            ),
            fits(3, rest as int, (4 - i) as nat) <==> fits(3, value as int, 4),
        decreases 4 - i,
    {
        let ghost before = trits@;
        trits[i] = Trit { value: rest % 3 };
        proof {
            lemma_fits_step(3, rest as int, (3 - i) as nat);
            assert(trits_view(trits@.take(i + 1)) =~= trits_view(before.take(i as int)) + seq![
                (rest % 3) as int,
            ]);
        }
        rest = rest / 3;
        i += 1;
    }
    proof {
        assert(trits@.take(4) =~= trits@);
        assert(trits_view(trits@) + Seq::<int>::empty() =~= trits_view(trits@));
        lemma_pow_four(3);
        if rest == 0 {
            law_round_trip(3, value as int, 4);
        }
    }
    if rest != 0 {
        Err(AdderError::Overflow)
    } else {
        Ok(trits)
    }
}

/// The value that four trits denote, least significant first.
pub fn to_decimal(trits: &[Trit; 4]) -> (r: u8)
    ensures
        r == value_of(3, trits_view(trits@)),
        r < 81,
{
    let ghost s = trits_view(trits@);
    let mut acc: u8 = 0;
    let mut i: usize = 4;
    proof {
        lemma_pow_four(3);
        assert(s.skip(4).len() == 0);
    }
    while i > 0
        invariant
            i <= 4,
            s == trits_view(trits@),
            all_digits(3, s.skip(i as int)),
            acc == value_of(3, s.skip(i as int)),
        decreases i,
    {
        i -= 1;
        let low: u8 = trits[i].value();
        proof {
            let tail = s.skip(i + 1);
            let here = s.skip(i as int);
            assert(here.skip(1) =~= tail);
            assert(here[0] == low);
            assert forall|j: int| 0 <= j < here.len() implies is_digit(3, #[trigger] here[j]) by {
                if j > 0 {
                    assert(here[j] == tail[j - 1]);
                }
            }
            law_value_bounded(3, tail);
            lemma_pow_four(3);
            assert(tail.len() <= 3);
            assert(value_of(3, tail) < 27);
        }
        acc = acc * 3 + low;
    }
    proof {
        assert(s.skip(0) =~= s);
        law_value_bounded(3, s);
        lemma_pow_four(3);
    }
    acc
}

} // verus!

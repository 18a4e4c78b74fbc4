//! What holds of the model for every radix, width and operand.

use vstd::prelude::*;
use vstd::arithmetic::power::{pow, lemma_pow0, lemma_pow_positive};
use crate::model::{
    is_digit, all_digits, gate_and, gate_or, gate_not, gate_xor, adder_sum, adder_carry,
    ripple_sum, ripple_carry, value_of, digits_of, fits, zeros,
};

verus! {

/// `pow(radix, width + 1)` is `radix * pow(radix, width)`.
pub proof fn lemma_pow_step(radix: int, width: nat)
    ensures
        pow(radix, width + 1) == radix * pow(radix, width),
{
    reveal(pow);
}

/// The weights of the first five positions.
pub proof fn lemma_pow_four(radix: int)
    ensures
        pow(radix, 0) == 1,
        pow(radix, 1) == radix,
        pow(radix, 2) == radix * radix,
        pow(radix, 3) == radix * radix * radix,
        pow(radix, 4) == radix * radix * radix * radix,
{
    lemma_pow0(radix);
    lemma_pow_step(radix, 0);
    lemma_pow_step(radix, 1);
    lemma_pow_step(radix, 2);
    lemma_pow_step(radix, 3);
    assert(radix * (radix * (radix * (radix * 1))) == radix * radix * radix * radix)
        by (nonlinear_arith);
    assert(radix * (radix * (radix * 1)) == radix * radix * radix) by (nonlinear_arith);
    assert(radix * (radix * 1) == radix * radix) by (nonlinear_arith);
}

/// NOT is an involution, and maps digits to digits.
pub proof fn law_not_involution(radix: int, a: int)
    ensures
        gate_not(radix, gate_not(radix, a)) == a,
        is_digit(radix, a) ==> is_digit(radix, gate_not(radix, a)),
{
}

/// Every gate maps digits to digits.
pub proof fn law_gates_closed(radix: int, a: int, b: int)
    requires
        is_digit(radix, a),
        is_digit(radix, b),
    ensures
        is_digit(radix, gate_and(a, b)),
        is_digit(radix, gate_or(a, b)),
        is_digit(radix, gate_xor(radix, a, b)),
{
}

/// The digit adder maps digits to digits: both the sum and the outgoing
/// carry stay in `[0, radix)`.
pub proof fn law_adder_closed(radix: int, a: int, b: int, carry: int)
    requires
        is_digit(radix, a),
        is_digit(radix, b),
        is_digit(radix, carry),
    ensures
        is_digit(radix, adder_sum(radix, a, b, carry)),
        is_digit(radix, adder_carry(radix, a, b, carry)),
{
}

/// The digit adder does not tell its two operands apart.
pub proof fn law_adder_commutes(radix: int, a: int, b: int, carry: int)
    ensures
        adder_sum(radix, a, b, carry) == adder_sum(radix, b, a, carry),
        adder_carry(radix, a, b, carry) == adder_carry(radix, b, a, carry),
{
}

/// With radix 2 the digit adder adds: sum and carry are the two binary
/// digits of `a + b + carry`.
pub proof fn law_binary_adder_exact(a: int, b: int, carry: int)
    requires
        is_digit(2, a),
        is_digit(2, b),
        is_digit(2, carry),
    ensures
        adder_sum(2, a, b, carry) + 2 * adder_carry(2, a, b, carry) == a + b + carry,
{
}

/// The chain keeps the width, and maps digits to digits.
pub proof fn law_ripple_closed(radix: int, a: Seq<int>, b: Seq<int>, carry: int)
    requires
        a.len() == b.len(),
        all_digits(radix, a),
        all_digits(radix, b),
        is_digit(radix, carry),
    ensures
        ripple_sum(radix, a, b, carry).len() == a.len(),
        all_digits(radix, ripple_sum(radix, a, b, carry)),
        is_digit(radix, ripple_carry(radix, a, b, carry)),
    decreases a.len(),
{
    if a.len() > 0 {
        law_adder_closed(radix, a[0], b[0], carry);
        law_ripple_closed(radix, a.skip(1), b.skip(1), adder_carry(radix, a[0], b[0], carry));
    }
}

/// Adding is commutative: swapping the operands changes neither the sum
/// digits nor the final carry.
pub proof fn law_add_commutes(radix: int, a: Seq<int>, b: Seq<int>, carry: int)
    requires
        a.len() == b.len(),
    ensures
        ripple_sum(radix, a, b, carry) == ripple_sum(radix, b, a, carry),
        ripple_carry(radix, a, b, carry) == ripple_carry(radix, b, a, carry),
    decreases a.len(),
{
    if a.len() > 0 {
        law_adder_commutes(radix, a[0], b[0], carry);
        law_add_commutes(radix, a.skip(1), b.skip(1), adder_carry(radix, a[0], b[0], carry));
    }
}

/// The zero vector is an identity: adding it with no incoming carry gives
/// the other operand back, and no carry.
pub proof fn law_add_zero(radix: int, a: Seq<int>)
    requires
        all_digits(radix, a),
    ensures
        ripple_sum(radix, a, zeros(a.len()), 0) == a,
        ripple_carry(radix, a, zeros(a.len()), 0) == 0,
    decreases a.len(),
{
    let z = zeros(a.len());
    if a.len() > 0 {
        assert(is_digit(radix, a[0]));
        assert(z.skip(1) =~= zeros(a.skip(1).len()));
        assert forall|i: int| 0 <= i < a.skip(1).len() implies is_digit(
            radix,
            #[trigger] a.skip(1)[i],
        ) by {
            assert(a.skip(1)[i] == a[i + 1]);
        }
        law_add_zero(radix, a.skip(1));
        assert(ripple_sum(radix, a, z, 0) =~= a);
    } else {
        assert(ripple_sum(radix, a, z, 0) =~= a);
    }
}

/// With radix 2 the chain adds: the sum digits and the final carry together
/// denote `a + b + carry`.
pub proof fn law_binary_add_exact(a: Seq<int>, b: Seq<int>, carry: int)
    requires
        a.len() == b.len(),
        all_digits(2, a),
        all_digits(2, b),
        is_digit(2, carry),
    ensures
        value_of(2, ripple_sum(2, a, b, carry)) + pow(2, a.len()) * ripple_carry(2, a, b, carry)
            == value_of(2, a) + value_of(2, b) + carry,
    decreases a.len(),
{
    if a.len() == 0 {
        lemma_pow0(2);
    } else {
        let s = adder_sum(2, a[0], b[0], carry);
        let c = adder_carry(2, a[0], b[0], carry);
        let rest = ripple_sum(2, a.skip(1), b.skip(1), c);
        let out = ripple_carry(2, a.skip(1), b.skip(1), c);
        law_binary_adder_exact(a[0], b[0], carry);
        law_adder_closed(2, a[0], b[0], carry);
        lemma_skip_digits(2, a);
        lemma_skip_digits(2, b);
        law_binary_add_exact(a.skip(1), b.skip(1), c);
        let sum = ripple_sum(2, a, b, carry);
        assert(sum.skip(1) =~= rest);
        assert(sum[0] == s);
        lemma_pow_step(2, (a.len() - 1) as nat);
        let p = pow(2, (a.len() - 1) as nat);
        assert(pow(2, a.len()) * out == 2 * (p * out)) by (nonlinear_arith)
            requires
                pow(2, a.len()) == 2 * p,
        ;
    }
}

/// Dropping the lowest digit of a vector of digits leaves a vector of digits.
pub proof fn lemma_skip_digits(radix: int, s: Seq<int>)
    requires
        all_digits(radix, s),
        s.len() > 0,
    ensures
        all_digits(radix, s.skip(1)),
{
    assert forall|i: int| 0 <= i < s.skip(1).len() implies is_digit(
        radix,
        #[trigger] s.skip(1)[i],
    ) by {
        assert(s.skip(1)[i] == s[i + 1]);
    }
}

/// The chain at position `i`: its first sum digit and the chain that
/// follows it.
pub proof fn lemma_ripple_unfold(radix: int, a: Seq<int>, b: Seq<int>, carry: int, i: int)
    requires
        a.len() == b.len(),
        0 <= i < a.len(),
    ensures
        ripple_sum(radix, a.skip(i), b.skip(i), carry) == seq![
            adder_sum(radix, a[i], b[i], carry),
        ] + ripple_sum(radix, a.skip(i + 1), b.skip(i + 1), adder_carry(radix, a[i], b[i], carry)),
        ripple_carry(radix, a.skip(i), b.skip(i), carry) == ripple_carry(
            radix,
            a.skip(i + 1),
            b.skip(i + 1),
            adder_carry(radix, a[i], b[i], carry),
        ),
{
    assert(a.skip(i).skip(1) =~= a.skip(i + 1));
    assert(b.skip(i).skip(1) =~= b.skip(i + 1));
}

/// Removing the lowest digit of a value removes one digit from the width
/// that it needs.
pub proof fn lemma_fits_step(radix: int, value: int, width: nat)
    requires
        radix >= 1,
        value >= 0,
    ensures
        fits(radix, value, width + 1) <==> fits(radix, value / radix, width),
{
    lemma_pow_step(radix, width);
    let p = pow(radix, width);
    assert((0 <= value < radix * p) <==> (0 <= value / radix < p)) by (nonlinear_arith)
        requires
            radix >= 1,
            value >= 0,
    ;
}

/// A suffix of a vector of digits denotes no more than the whole vector,
/// and splits into its lowest digit and the next suffix.
pub proof fn lemma_suffix_value(radix: int, s: Seq<int>, i: int)
    requires
        all_digits(radix, s),
        0 <= i <= s.len(),
    ensures
        0 <= value_of(radix, s.skip(i)) <= value_of(radix, s),
        i < s.len() ==> value_of(radix, s.skip(i)) == s[i] + radix * value_of(
            radix,
            s.skip(i + 1),
        ),
    decreases i,
{
    assert forall|j: int| 0 <= j < s.skip(i).len() implies is_digit(
        radix,
        #[trigger] s.skip(i)[j],
    ) by {
        assert(s.skip(i)[j] == s[i + j]);
    }
    law_value_bounded(radix, s.skip(i));
    if i < s.len() {
        assert(s.skip(i).skip(1) =~= s.skip(i + 1));
    }
    if i == 0 {
        assert(s.skip(0) =~= s);
    } else {
        lemma_suffix_value(radix, s, i - 1);
        assert(is_digit(radix, s[i - 1]));
        let v = value_of(radix, s.skip(i));
        assert(v <= radix * v) by (nonlinear_arith)
            requires
                v >= 0,
                radix >= 1,
        ;
    }
}

/// A vector of `n` digits denotes a value in `[0, radix^n)`.
pub proof fn law_value_bounded(radix: int, s: Seq<int>)
    requires
        all_digits(radix, s),
    ensures
        fits(radix, value_of(radix, s), s.len()),
    decreases s.len(),
{
    if s.len() == 0 {
        lemma_pow0(radix);
    } else {
        assert(is_digit(radix, s[0]));
        lemma_skip_digits(radix, s);
        law_value_bounded(radix, s.skip(1));
        lemma_pow_step(radix, (s.len() - 1) as nat);
        let p = pow(radix, (s.len() - 1) as nat);
        let v = value_of(radix, s.skip(1));
        assert(0 <= s[0] + radix * v < radix * p) by (nonlinear_arith)
            requires
                0 <= s[0] < radix,
                0 <= v < p,
        ;
    }
}

/// Positional weights: a digit appended at position `n` adds `d * radix^n`
/// to the value, so a vector denotes the sum of `s[i] * radix^i`.
pub proof fn law_value_positional(radix: int, s: Seq<int>, d: int)
    ensures
        value_of(radix, s.push(d)) == value_of(radix, s) + d * pow(radix, s.len()),
    decreases s.len(),
{
    let t = s.push(d);
    if s.len() == 0 {
        lemma_pow0(radix);
        assert(t.skip(1).len() == 0);
        assert(value_of(radix, t.skip(1)) == 0);
    } else {
        law_value_positional(radix, s.skip(1), d);
        assert(t.skip(1) =~= s.skip(1).push(d));
        lemma_pow_step(radix, (s.len() - 1) as nat);
        let p = pow(radix, (s.len() - 1) as nat);
        let v = value_of(radix, s.skip(1));
        assert(radix * (v + d * p) == radix * v + d * (radix * p)) by (nonlinear_arith);
    }
}

/// The digit at position `i` of an encoding is `(value / radix^i) mod radix`.
pub proof fn law_digit_at(radix: int, value: int, width: nat, i: int)
    requires
        radix >= 1,
        value >= 0,
        0 <= i < width,
    ensures
        digits_of(radix, value, width).len() == width,
        digits_of(radix, value, width)[i] == (value / pow(radix, i as nat)) % radix,
    decreases width,
{
    law_digits_of_closed(radix, value, width);
    if i == 0 {
        lemma_pow0(radix);
    } else {
        let q = value / radix;
        let p = pow(radix, (i - 1) as nat);
        assert(q >= 0) by (nonlinear_arith)
            requires
                radix >= 1,
                value >= 0,
                q == value / radix,
        ;
        law_digits_of_closed(radix, q, (width - 1) as nat);
        law_digit_at(radix, q, (width - 1) as nat, i - 1);
        lemma_pow_step(radix, (i - 1) as nat);
        lemma_pow_positive(radix, (i - 1) as nat);
        vstd::arithmetic::div_mod::lemma_div_denominator(value, radix, p);
    }
}

/// Encoding gives `width` digits of the radix, whatever the value.
pub proof fn law_digits_of_closed(radix: int, value: int, width: nat)
    requires
        radix >= 1,
    ensures
        digits_of(radix, value, width).len() == width,
        all_digits(radix, digits_of(radix, value, width)),
    decreases width,
{
    if width > 0 {
        law_digits_of_closed(radix, value / radix, (width - 1) as nat);
        assert(0 <= value % radix < radix) by (nonlinear_arith)
            requires
                radix >= 1,
        ;
    }
}

/// Round trip: decoding what encoding gave returns the value, for every
/// value that fits the width.
pub proof fn law_round_trip(radix: int, value: int, width: nat)
    requires
        radix >= 1,
        fits(radix, value, width),
    ensures
        value_of(radix, digits_of(radix, value, width)) == value,
    decreases width,
{
    if width == 0 {
        lemma_pow0(radix);
    } else {
        let q = value / radix;
        let p = pow(radix, (width - 1) as nat);
        lemma_pow_step(radix, (width - 1) as nat);
        assert(0 <= q < p && value == radix * q + value % radix) by (nonlinear_arith)
            requires
                radix >= 1,
                0 <= value < radix * p,
                q == value / radix,
        ;
        law_round_trip(radix, q, (width - 1) as nat);
        let d = digits_of(radix, value, width);
        assert(d.skip(1) =~= digits_of(radix, q, (width - 1) as nat));
        assert(d[0] == value % radix);
    }
}

/// The other direction: encoding what a vector of digits denotes, at the
/// vector's own width, returns the vector.
pub proof fn law_encode_inverts_decode(radix: int, s: Seq<int>)
    requires
        all_digits(radix, s),
    ensures
        digits_of(radix, value_of(radix, s), s.len()) == s,
    decreases s.len(),
{
    if s.len() == 0 {
        assert(digits_of(radix, value_of(radix, s), s.len()) =~= s);
    } else {
        assert(is_digit(radix, s[0]));
        lemma_skip_digits(radix, s);
        law_encode_inverts_decode(radix, s.skip(1));
        let v = value_of(radix, s.skip(1));
        let total = value_of(radix, s);
        assert(total % radix == s[0] && total / radix == v) by (nonlinear_arith)
            requires
                0 <= s[0] < radix,
                total == s[0] + radix * v,
        ;
        assert(digits_of(radix, total, s.len()) =~= s);
    }
}

} // verus!

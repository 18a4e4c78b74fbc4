//! The mathematical model: gates, the digit adder, the carry chain and the
//! positional codec as functions on integers and sequences of integers.
//!
//! Every contract of the executable modules is stated over these functions.
//! A digit vector is a `Seq<int>` whose index 0 is the least significant digit.

use vstd::prelude::*;
use vstd::arithmetic::power::pow;

verus! {

/// `d` is a digit of the given radix: it lies in `[0, radix)`.
pub open spec fn is_digit(radix: int, d: int) -> bool {
    0 <= d < radix
}

/// Every element of `s` is a digit of the given radix.
pub open spec fn all_digits(radix: int, s: Seq<int>) -> bool {
    forall|i: int| 0 <= i < s.len() ==> is_digit(radix, #[trigger] s[i])
}

/// AND of two digits: the smaller of the two.
pub open spec fn gate_and(a: int, b: int) -> int {
    if a <= b { a } else { b }
}

/// OR of two digits: the larger of the two.
pub open spec fn gate_or(a: int, b: int) -> int {
    if a <= b { b } else { a }
}

/// NOT of a digit: its mirror image in `[0, radix)`.
pub open spec fn gate_not(radix: int, a: int) -> int {
    (radix - 1) - a
}

/// XOR of two digits: `AND(OR(a, b), NOT(AND(a, b)))`.
pub open spec fn gate_xor(radix: int, a: int, b: int) -> int {
    gate_and(gate_or(a, b), gate_not(radix, gate_and(a, b)))
}

/// The sum digit of the single-position adder.
pub open spec fn adder_sum(radix: int, a: int, b: int, carry: int) -> int {
    gate_xor(radix, gate_xor(radix, a, b), carry)
}

/// The outgoing carry of the single-position adder.
pub open spec fn adder_carry(radix: int, a: int, b: int, carry: int) -> int {
    gate_or(gate_and(gate_xor(radix, a, b), carry), gate_and(a, b))
}

/// The sum digits of the ripple-carry chain over `a` and `b`, started with
/// `carry`: position 0 is added first and hands its carry to position 1, and
/// so on. Only the first `a.len()` positions of `b` are read.
pub open spec fn ripple_sum(radix: int, a: Seq<int>, b: Seq<int>, carry: int) -> Seq<int>
    decreases a.len(),
{
    if a.len() == 0 {
        Seq::empty()
    } else {
        seq![adder_sum(radix, a[0], b[0], carry)] + ripple_sum(
            radix,
            a.skip(1),
            b.skip(1),
            adder_carry(radix, a[0], b[0], carry),
        )
    }
}

/// The carry that leaves the last position of the ripple-carry chain.
pub open spec fn ripple_carry(radix: int, a: Seq<int>, b: Seq<int>, carry: int) -> int
    decreases a.len(),
{
    if a.len() == 0 {
        carry
    } else {
        ripple_carry(radix, a.skip(1), b.skip(1), adder_carry(radix, a[0], b[0], carry))
    }
}

/// The integer that a digit vector denotes: the sum of `s[i] * radix^i`.
pub open spec fn value_of(radix: int, s: Seq<int>) -> int
    decreases s.len(),
{
    if s.len() == 0 {
        0
    } else {
        s[0] + radix * value_of(radix, s.skip(1))
    }
}

/// The `width` least significant digits of `value` in the given radix.
pub open spec fn digits_of(radix: int, value: int, width: nat) -> Seq<int>
    decreases width,
{
    if width == 0 {
        Seq::empty()
    } else {
        seq![value % radix] + digits_of(radix, value / radix, (width - 1) as nat)
    }
}

/// `value` can be written with `width` digits of the given radix.
pub open spec fn fits(radix: int, value: int, width: nat) -> bool {
    0 <= value < pow(radix, width)
}

/// The vector of `width` zero digits.
pub open spec fn zeros(width: nat) -> Seq<int> {
    Seq::new(width, |i: int| 0int)
}

/// The digit that a bit stands for: 1 for `true`, 0 for `false`.
pub open spec fn bit(b: bool) -> int {
    if b { 1 } else { 0 }
}

/// The digit vector that a sequence of bits stands for.
pub open spec fn bits_view(s: Seq<bool>) -> Seq<int> {
    Seq::new(s.len(), |i: int| bit(s[i]))
}

/// The digit vector that a sequence of raw bytes stands for.
pub open spec fn raw_view(s: Seq<u8>) -> Seq<int> {
    Seq::new(s.len(), |i: int| s[i] as int)
}

} // verus!

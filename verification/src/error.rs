//! The failures that the library reports.

use vstd::prelude::*;

verus! {

/// Why an operation returned no result.
#[derive(Debug, Clone, Copy, PartialEq, Eq, Structural)]
pub enum AdderError {
    /// A raw value lies outside `[0, radix)`.
    InvalidDigit,
    /// An operand's length differs from the adder's width.
    WidthMismatch,
    /// A value does not fit in the requested number of digits.
    Overflow,
}

} // verus!

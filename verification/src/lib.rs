//! A gate-level simulator of ripple-carry adders over unsigned positional
//! digits: gate primitives, a single-position digit adder, the ripple-carry
//! chain built from it, and the codec between integers and digit vectors.
//!
//! Digit vectors are least significant digit first throughout.

pub mod error;
pub mod model;
pub mod laws;
pub mod digit;
pub mod vector;
pub mod adder;
pub mod binary;
pub mod ternary;

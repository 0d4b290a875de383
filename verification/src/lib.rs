//! A second-order linear recurrence library: a `Sequence` is determined by two
//! seed values and the rule `next = previous + current`. It computes the term
//! at a given position and looks up the position of a given value, over
//! arbitrary-precision integers.

pub mod number;
pub mod sequence;

pub use number::{IntoNumber, Number};
pub use sequence::{FindError, Sequence};

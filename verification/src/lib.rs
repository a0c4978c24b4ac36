//! Closed intervals `[min, max]` of binary32 numbers, with the scalar,
//! arithmetic and set operations that keep a result around every value that
//! its operands can take.
//!
//! The bounds are held as 32-bit patterns, and the library works on them
//! with integers alone: order, sign, rounding to whole numbers, hull and
//! overlap, and scaling by powers of two are decided on the patterns. Where
//! an operation needs rounded arithmetic (a product, a power), the caller
//! supplies the results for the bounds and the library decides which of them
//! bound the result.
//!
//! - `binary32`: the layout of a pattern, the numeric order, sign changes and
//!   scaling through the exponent field.
//! - `value`: the number that a pattern stands for, and why the work on
//!   patterns is right about it.
//! - `rounding`: rounding to the nearest whole number.
//! - `interval`: the interval type and its operations.
//! - `laws`: what holds of the operations taken together.

pub mod binary32;
pub mod interval;
pub mod laws;
pub mod rounding;
pub mod value;

pub use interval::RealInterval;

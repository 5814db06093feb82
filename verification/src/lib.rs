//! Exact factorials of machine integers, computed over an arbitrary-precision
//! accumulator and, for large inputs, over a partition of `1..=n` whose chunk
//! products are formed in parallel and multiplied together.
//!
//! - `math`: factorials and products as mathematical functions, with lemmas.
//! - `decimal`: decimal notation, as a function from numbers to text and back.
//! - `bignum`: the accumulator, over `ibig::UBig`.
//! - `partition`: the choice of algorithm and the cut of `1..=n` into chunks.
//! - `engine`: the two algorithms and [`factorial`] itself.
//! - `theorems`: what holds of the engine as a whole.

pub mod bignum;
pub mod decimal;
pub mod engine;
pub mod math;
pub mod partition;
pub mod theorems;

pub use engine::{
    apply_factorial_to_range, factorial, factorial_with_parallelism, multi_threaded_factorial,
    reduce_products, single_threaded_factorial,
};

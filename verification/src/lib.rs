//! A small feed-forward neural network engine over fixed-point arithmetic.
//!
//! A value `v: i64` stands for the real number `v / FX_SCALE`. All scalar
//! operations saturate at the representable range instead of overflowing.

pub mod fixed;
pub mod views;
pub mod utils;
pub mod network;

//! Bit doubling: every bit of a byte sequence is written twice, in order.
//!
//! The crate offers many interchangeable kernels (scalar, word-parallel,
//! table-driven, register-lane and chunked parallel) that all compute the
//! same function, [`model::doubled`].
pub mod model;
pub mod scalar;
pub mod pack;
pub mod opt;
pub mod squares;
pub mod multipliers;
pub mod lookups;
pub mod lanes;
pub mod vector;
pub mod chunks;
pub mod generate;
pub mod dump;
pub mod expander;

//! Commitment and constraint batching for multilinear polynomials over a
//! 64-bit prime field.
pub mod committer;
pub mod field;
pub mod poly;
pub mod statement;

//! Circuit construction for probabilistic verification of a matrix product.
//!
//! The library builds a rank-1 constraint system that checks `A * B == C`
//! for square matrices over the BN254 base field using Freivalds'
//! randomized algorithm: for each of `k` rounds a challenge vector `r` is
//! drawn from a Poseidon sponge transcript (a Fiat-Shamir transform over
//! the absorbed matrix entries), and the circuit enforces
//! `A * (B * r) == C * r` entry by entry.

pub mod circuit;
pub mod field;
pub mod matrix;
pub mod rounds;
pub mod builder;

pub use builder::builder;
pub use circuit::{CircuitError, FreivaldsCircuit};

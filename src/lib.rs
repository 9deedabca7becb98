//! Tower sum-check argument over the Goldilocks quadratic extension: layered
//! witness construction for product and fractional-sum (logup) claims, the
//! prover that reduces them round by round with one batched sum-check per layer,
//! and the matching verifier, specified as a state machine over the transcript.
//!
//! - `field`: the Goldilocks field and its quadratic extension, with ring laws.
//! - `mle`: evaluation tables, multilinear evaluation and the equality polynomial.
//! - `transcript`: the Fiat-Shamir transcript.
//! - `sumcheck`: the batched degree-3 sum-check prover and verifier.
//! - `witness`: interleaving of records and the product and logup towers.
//! - `tower_proof`, `tower_prover`, `tower_verifier`: the proof and the two parties.
//! - `circuit_layout`, `graph`, `expression`: layer sizes of layered circuits and the
//!   plain data types shared with circuit construction.

pub mod field;
pub mod mle;
pub mod transcript;
pub mod sumcheck;
pub mod witness;

pub mod tower_proof;
pub mod tower_prover;
pub mod tower_verifier;
pub mod circuit_layout;
pub mod graph;
pub mod expression;

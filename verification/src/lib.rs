//! Selective-disclosure identity proofs over the BN254 scalar field.
//!
//! A holder of personal attributes (name, birth year, city, state, gender)
//! commits to them as field elements; a Groth16 proof binds the private
//! attributes to four public values, and predicates over those public
//! values (age thresholds, gender match) are evaluated without learning
//! the attributes themselves.

pub mod field;
pub mod encoder;
pub mod circuit;
pub mod info;
pub mod zkproof;
pub mod keys;
pub mod codec;
pub mod json;
pub mod transport;
pub mod snark;

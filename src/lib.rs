//! Structured polynomial commitments: a group of related multilinear
//! polynomials is committed to as one object, opened jointly at one point,
//! and checked by a verifier that shares the prover's transcript.
pub mod field;
pub mod poly;
pub mod pedersen;
pub mod transcript;
pub mod layout;
pub mod structured;
pub mod hyrax;
pub mod codec;

//! The Keccak permutation, the sponge built on it, and the byte encodings
//! that the hash functions of this crate frame their inputs with.

pub mod aux_functions;
pub mod keccakf;
pub mod sponge;

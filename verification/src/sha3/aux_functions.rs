//! Byte-level helpers: the string encodings of the derived hash functions,
//! and general work on byte buffers.

pub mod byte_utils;
pub mod nist_800_185;

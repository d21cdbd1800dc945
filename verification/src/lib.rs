//! A single-token asset record with a self-describing metadata document.
//!
//! The heart of the crate is a binary-to-text codec (a 64-symbol alphabet
//! with `=` padding) and a metadata assembler that composes independently
//! stored fields, some of them themselves stored in encoded form, into one
//! re-decodable descriptor string.

pub mod assembler;
pub mod codec;
pub mod contract;
pub mod text;

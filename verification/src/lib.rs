//! A binary serialization and deserialization library for product types:
//! a fixed, deterministic little-endian byte encoding for primitive values,
//! together with an engine that extends the encoding to composite values
//! (named-field records and positional tuples) by encoding their fields in
//! declaration order.

pub mod codec;
pub mod engine;
pub mod le;
pub mod primitives;

pub use codec::{Deser, DeserError, Ser};

//! Conversions between the three textual forms of an engine identifier:
//! the length-prefixed hex blob, the dotted-decimal object identifier and
//! the 96-bit serial number carried in its last arc.

pub mod convert;
pub mod decimal;
pub mod dotted;
pub mod engine;
pub mod error;
pub mod frame;
pub mod hex;
pub mod laws;
pub mod oid;
pub mod serial;
pub mod text;
pub mod varint;

//! Short, sortable identifiers derived from unix timestamps.
//!
//! A timestamp is written as its minimal big-endian bytes, and those bytes
//! are encoded in base 32 over an alphabet whose symbols ascend in character
//! order. Identifiers order first by length, then lexicographically, and
//! that order agrees with the order of the timestamps.
pub mod base32;
pub mod bytes;
pub mod clock;
pub mod id;
pub mod laws;

pub use bytes::be_bytes_minimal;
pub use clock::{lexicoid_from_clock, lexicoid_now, ClockError};
pub use id::{lexicoid, Id, ALPHABET};

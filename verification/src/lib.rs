//! A bootstrap memory allocator for early kernel boot, built around one
//! contiguous region that is bump-allocated from both ends: bytes grow
//! upward from the low end, whole pages grow downward from the high end,
//! and the unclaimed middle gap shrinks as either side advances.
//!
//! The crate also carries a small chained-bucket hash map used by the
//! surrounding minimal standard library.

pub mod bump;
pub mod collections;

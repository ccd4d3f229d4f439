//! A compact, read-only list of non-decreasing integers, held in an
//! Elias-Fano encoding, with positional access, a byte form and a sorted
//! intersection.

pub mod codec;
pub mod framing;
pub mod merge;
pub mod list;
pub mod laws;

//! Error taxonomy of the box codec. Every error is fatal to the whole
//! parse call: one malformed box fails the entire document.

use vstd::prelude::*;

verus! {

/// Why a parse failed.
#[derive(Debug, Clone, Copy, PartialEq, Eq)]
pub enum Mp4Error {
    /// Fewer bytes remain than a header or field requires.
    TruncatedInput,
    /// A top-level tag absent from the registry; the payload packs the four
    /// raw tag bytes in order, first byte in the most significant position.
    UnknownBoxType(u32),
    /// A NUL-terminated string field is not well-formed UTF-8.
    InvalidUtf8,
    /// A guard chain reached a state no candidate covers.
    UnmetCondition,
    /// A box body declares more bytes than its fields consume.
    SizeMismatch,
}

} // verus!

//! The ways in which reading or editing a costume save fails.

use vstd::prelude::*;

verus! {

/// Why an operation on a costume save was refused.
#[derive(Debug, Clone, Copy, PartialEq, Eq, Structural)]
pub enum CostumeError {
    /// The bytes are not readable as a costume save: the metadata segment is
    /// missing, data ends before a declared length, a length is malformed, or
    /// the segment's identifier or signature is not text.
    Parse,
    /// A field's payload is not valid UTF-8 text.
    TextDecode,
    /// A record that the fixed schema expects is absent.
    Lookup,
    /// A payload or the metadata segment is longer than its length field can
    /// express.
    Oversize,
}

} // verus!

//! What can be wrong with a text that should hold a mesh or a list of
//! transforms.

use vstd::prelude::*;

verus! {

/// What a malformed line failed to be.
#[derive(Clone, Copy, Debug, PartialEq, Eq, Structural)]
pub enum ParseKind {
    /// The line that should hold the count holds none, or is missing.
    Count,
    /// A line that should hold three fields holds fewer or more.
    FieldCount,
    /// A field is not a number literal.
    Number,
}

/// Why a text was refused.
#[derive(Clone, Copy, Debug, PartialEq, Eq, Structural)]
pub enum CodecError {
    /// Line `line`, counted from 1, is malformed.
    Parse { line: usize, kind: ParseKind },
    /// The text ends before the records that its count declares: it
    /// declares `declared` records and has `lines` lines in all.
    Shape { declared: u64, lines: usize },
}

} // verus!

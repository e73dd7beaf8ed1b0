//! The ways in which a redaction can fail.

use vstd::prelude::*;

verus! {

/// Why no hidden range set could be computed. Every one of these ends the
/// session before anything is disclosed.
#[derive(Clone, Copy, Debug, PartialEq, Eq, Structural)]
pub enum RedactionError {
    /// A literal or a pattern does not occur in the buffer.
    PatternNotFound,
    /// A field path does not lead to a value of the structured body.
    FieldNotFound,
    /// The buffer is not UTF-8, so that text offsets would not be byte offsets.
    InvalidUtf8,
    /// A range has its start behind its end, or ends behind the buffer.
    InvalidRange,
    /// A pattern is not a regular expression.
    InvalidPattern,
}

} // verus!

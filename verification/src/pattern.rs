//! Regular expressions over transcript text.

use crate::error::RedactionError;
use vstd::prelude::*;
use vstd::utf8::encode_utf8;

verus! {

/// The error of the `regex` crate for a pattern that it does not compile.
#[verifier::external_type_specification]
#[verifier::external_body]
pub struct ExRegexError(regex::Error);

/// What the `regex` crate finds for a pattern, a text and a capture group:
/// nothing at all where the pattern does not compile; otherwise nothing where
/// the pattern has no match in the text or where the group took no part in the
/// leftmost match, and else the byte offsets at which that group starts and
/// ends.
pub uninterp spec fn regex_capture(pattern: Seq<char>, text: Seq<char>, group: int) -> Option<
    Option<(usize, usize)>,
>;

/// `Regex::new`, then `Regex::captures` on the text, `Captures::get` for the
/// group and the `start` and `end` of that match. The pattern is refused with
/// the crate's error; the rest is the search result by its name. A match
/// starts at or before its end, and the text can be sliced by it: it ends in
/// the bytes of the text.
#[verifier::external_body]
fn capture_offsets(pattern: &str, text: &str, group: usize) -> (found: Result<
    Option<(usize, usize)>,
    regex::Error,
>)
    ensures
        found is Ok <==> regex_capture(pattern@, text@, group as int) is Some,
        found matches Ok(offsets) ==> regex_capture(pattern@, text@, group as int) == Some(offsets),
        found matches Ok(Some(offsets)) ==> offsets.0 <= offsets.1 <= encode_utf8(text@).len(),
{
    let compiled = regex::Regex::new(pattern)?;
    Ok(compiled.captures(text).and_then(|found| found.get(group)).map(|m| (m.start(), m.end())))
}

/// What a search for a capture group comes to: the offsets of the group, or
/// the reason why there are none.
pub open spec fn capture_outcome(found: Option<Option<(usize, usize)>>) -> Result<
    (usize, usize),
    RedactionError,
> {
    match found {
        None => Err(RedactionError::InvalidPattern),
        Some(None) => Err(RedactionError::PatternNotFound),
        Some(Some(offsets)) => Ok(offsets),
    }
}

/// The result of a search that has been made, as the library reports it.
pub fn classify_capture(found: Result<Option<(usize, usize)>, regex::Error>) -> (outcome: Result<
    (usize, usize),
    RedactionError,
>)
    ensures
        outcome == (match found {
            Err(_) => Err::<(usize, usize), RedactionError>(RedactionError::InvalidPattern),
            Ok(None) => Err::<(usize, usize), RedactionError>(RedactionError::PatternNotFound),
            Ok(Some(offsets)) => Ok::<(usize, usize), RedactionError>(offsets),
        }),
{
    match found {
        Err(_) => Err(RedactionError::InvalidPattern),
        Ok(None) => Err(RedactionError::PatternNotFound),
        Ok(Some(offsets)) => Ok(offsets),
    }
}

/// The byte offsets of capture group `group` in the leftmost match of
/// `pattern` in `text`.
pub fn find_capture(pattern: &str, text: &str, group: usize) -> (outcome: Result<
    (usize, usize),
    RedactionError,
>)
    ensures
        outcome == capture_outcome(regex_capture(pattern@, text@, group as int)),
        outcome matches Ok(offsets) ==> offsets.0 <= offsets.1 <= encode_utf8(text@).len(),
{
    classify_capture(capture_offsets(pattern, text, group))
}

} // verus!

//! Redaction rules and their evaluation against a transcript.

use crate::error::RedactionError;
use crate::member::{find_member, member_range};
use crate::pattern::{capture_outcome, find_capture, regex_capture};
use crate::range_set::{checked_range, ByteRange, ByteRangeSet};
use crate::search::{find_first, first_occurrence, matches_at};
use crate::text::utf8_text;
use crate::transcript::Transcript;
use vstd::prelude::*;
use vstd::utf8::*;

verus! {

/// A rule that names bytes of one buffer which must stay hidden.
#[derive(Clone, Debug)]
pub enum RedactionRule {
    /// The leftmost occurrence of `needle`, byte for byte.
    LiteralMatch { needle: Vec<u8> },
    /// The value at a dotted path of the structured body, together with the
    /// `prefix_len` bytes in front of it and the `suffix_len` bytes behind it:
    /// the key, the colon and the quotes as they are written around the value.
    FieldPath { path: String, prefix_len: usize, suffix_len: usize },
    /// The member at a dotted path of the structured body as it is written:
    /// from the quote that opens its key `key` to the quote that closes its
    /// value, whatever blanks stand around the colon. The value must be
    /// written in quotes.
    FieldMember { path: String, key: Vec<u8> },
    /// Capture group `group` of the leftmost match of `pattern` in the buffer
    /// read as text.
    RegexCapture { pattern: String, group: usize },
}

/// A leaf value of a structured body: its dotted path, and where it starts and
/// ends, counted in bytes from the start of the body.
#[derive(Clone, Debug)]
pub struct LocatedField {
    pub path: String,
    pub start: usize,
    pub end: usize,
}

/// What is known of the structured body of one buffer: the position in the
/// buffer at which the body starts, and the leaf values found in it. A buffer
/// without such a body has no fields.
#[derive(Clone, Debug)]
pub struct StructuredBody {
    pub offset: usize,
    pub fields: Vec<LocatedField>,
}

/// The rules of one session: what to hide in each direction, and whether the
/// server's identity is revealed.
#[derive(Clone, Debug)]
pub struct DisclosurePolicy {
    pub sent: Vec<RedactionRule>,
    pub received: Vec<RedactionRule>,
    pub reveal_identity: bool,
}

/// Where the first field with `path` starts and ends in its body.
pub open spec fn located(fields: Seq<LocatedField>, path: Seq<char>) -> Option<(usize, usize)>
    decreases fields.len(),
{
    if fields.len() == 0 {
        None
    } else {
        match located(fields.drop_last(), path) {
            Some(found) => Some(found),
            None => if fields.last().path@ == path {
                Some((fields.last().start, fields.last().end))
            } else {
                None
            },
        }
    }
}

/// The range of `buffer_len` bytes that hides a field found at `found` in a
/// body that starts at `offset`, widened by `prefix_len` to the left and by
/// `suffix_len` to the right. The range must lie in the body: it starts at
/// the first byte of the body or behind it, and ends in the buffer.
pub open spec fn widened_field(
    found: (usize, usize),
    offset: usize,
    prefix_len: usize,
    suffix_len: usize,
    buffer_len: int,
) -> Result<ByteRange, RedactionError> {
    let start = offset + found.0 - prefix_len;
    let end = offset + found.1 + suffix_len;
    if found.0 <= found.1 && offset <= start && end <= buffer_len {
        Ok(ByteRange { start: start as usize, end: end as usize })
    } else {
        Err(RedactionError::InvalidRange)
    }
}

/// The range that `rule` hides in `buffer`, or why it hides none.
pub open spec fn rule_range(rule: RedactionRule, buffer: Seq<u8>, body: StructuredBody) -> Result<
    ByteRange,
    RedactionError,
> {
    match rule {
        RedactionRule::LiteralMatch { needle } => match first_occurrence(buffer, needle@) {
            Some(at) => Ok(ByteRange { start: at as usize, end: (at + needle@.len()) as usize }),
            None => Err(RedactionError::PatternNotFound),
        },
        RedactionRule::FieldPath { path, prefix_len, suffix_len } => if !valid_utf8(buffer) {
            Err(RedactionError::InvalidUtf8)
        } else {
            match located(body.fields@, path@) {
                None => Err(RedactionError::FieldNotFound),
                Some(found) => widened_field(
                    found,
                    body.offset,
                    prefix_len,
                    suffix_len,
                    buffer.len() as int,
                ),
            }
        },
        RedactionRule::FieldMember { path, key } => if !valid_utf8(buffer) {
            Err(RedactionError::InvalidUtf8)
        } else {
            match located(body.fields@, path@) {
                None => Err(RedactionError::FieldNotFound),
                Some(found) => match member_range(
                    buffer,
                    key@,
                    body.offset + found.0,
                    body.offset + found.1,
                ) {
                    Some(range) => if body.offset <= range.start {
                        Ok(range)
                    } else {
                        Err(RedactionError::InvalidRange)
                    },
                    None => Err(RedactionError::FieldNotFound),
                },
            }
        },
        RedactionRule::RegexCapture { pattern, group } => if !valid_utf8(buffer) {
            Err(RedactionError::InvalidUtf8)
        } else {
            match capture_outcome(regex_capture(pattern@, decode_utf8(buffer), group as int)) {
                Err(e) => Err(e),
                Ok(offsets) => checked_range(offsets.0, offsets.1, buffer.len() as int),
            }
        },
    }
}

/// The positions that `rules` hide in `buffer`: the union of what each rule
/// hides, or the error of the first rule that fails.
pub open spec fn hidden_positions(
    rules: Seq<RedactionRule>,
    buffer: Seq<u8>,
    body: StructuredBody,
) -> Result<Set<int>, RedactionError>
    decreases rules.len(),
{
    if rules.len() == 0 {
        Ok(Set::<int>::empty())
    } else {
        match hidden_positions(rules.drop_last(), buffer, body) {
            Err(e) => Err(e),
            Ok(hidden) => match rule_range(rules.last(), buffer, body) {
                Err(e) => Err(e),
                Ok(range) => Ok(hidden.union(range.positions())),
            },
        }
    }
}

/// A field that is found among the first `k` fields is the one found among
/// all of them.
proof fn lemma_located_prefix(fields: Seq<LocatedField>, path: Seq<char>, k: int)
    requires
        0 <= k <= fields.len(),
        located(fields.take(k), path) is Some,
    ensures
        located(fields, path) == located(fields.take(k), path),
    decreases fields.len() - k,
{
    if k == fields.len() {
        assert(fields.take(k) =~= fields);
    } else {
        assert(fields.take(k + 1).drop_last() =~= fields.take(k));
        lemma_located_prefix(fields, path, k + 1);
    }
}

/// Where the first field with `path` starts and ends in its body.
pub fn locate_field(fields: &Vec<LocatedField>, path: &String) -> (found: Option<(usize, usize)>)
    ensures
        found == located(fields@, path@),
{
    let mut i: usize = 0;
    proof {
        assert(fields@.take(0) =~= Seq::<LocatedField>::empty());
    }
    while i < fields.len()
        invariant
            0 <= i <= fields@.len(),
            located(fields@.take(i as int), path@) is None,
        decreases fields.len() - i,
    {
        proof {
            assert(fields@.take(i + 1).drop_last() =~= fields@.take(i as int));
            assert(fields@.take(i + 1).last() == fields@[i as int]);
        }
        if fields[i].path == *path {
            proof {
                lemma_located_prefix(fields@, path@, i + 1);
            }
            return Some((fields[i].start, fields[i].end));
        }
        i += 1;
    }
    proof {
        assert(fields@.take(i as int) =~= fields@);
    }
    None
}

/// The range that hides a field together with what is written around it.
pub fn widen_field(
    found: (usize, usize),
    offset: usize,
    prefix_len: usize,
    suffix_len: usize,
    buffer_len: usize,
) -> (result: Result<ByteRange, RedactionError>)
    ensures
        result == widened_field(found, offset, prefix_len, suffix_len, buffer_len as int),
        result matches Ok(range) ==> offset <= range.start <= range.end <= buffer_len,
{
    if found.0 > found.1 {
        return Err(RedactionError::InvalidRange);
    }
    let end = match offset.checked_add(found.1) {
        Some(value_end) => match value_end.checked_add(suffix_len) {
            Some(end) => end,
            None => {
                return Err(RedactionError::InvalidRange);
            },
        },
        None => {
            return Err(RedactionError::InvalidRange);
        },
    };
    if end > buffer_len {
        return Err(RedactionError::InvalidRange);
    }
    if prefix_len > found.0 {
        return Err(RedactionError::InvalidRange);
    }
    Ok(ByteRange { start: offset + (found.0 - prefix_len), end })
}

/// The range that `rule` hides in `buffer`.
pub fn evaluate_rule(rule: &RedactionRule, buffer: &[u8], body: &StructuredBody) -> (result: Result<
    ByteRange,
    RedactionError,
>)
    ensures
        result == rule_range(*rule, buffer@, *body),
        result matches Ok(range) ==> range.start <= range.end <= buffer@.len(),
        (rule is FieldPath || rule is FieldMember) ==> (result matches Ok(range) ==> body.offset
            <= range.start),
        rule is RegexCapture ==> result != Err::<ByteRange, RedactionError>(
            RedactionError::InvalidRange,
        ),
{
    match rule {
        RedactionRule::LiteralMatch { needle } => match find_first(buffer, needle.as_slice()) {
            Some(at) => {
                let buffer_len: usize = buffer.len();
                assert(matches_at(buffer@, needle@, at as int));
                assert(at + needle@.len() <= buffer_len);
                Ok(ByteRange { start: at, end: at + needle.len() })
            },
            None => Err(RedactionError::PatternNotFound),
        },
        RedactionRule::FieldPath { path, prefix_len, suffix_len } => match utf8_text(buffer) {
            None => Err(RedactionError::InvalidUtf8),
            Some(_) => match locate_field(&body.fields, path) {
                None => Err(RedactionError::FieldNotFound),
                Some(found) => widen_field(
                    found,
                    body.offset,
                    *prefix_len,
                    *suffix_len,
                    buffer.len(),
                ),
            },
        },
        RedactionRule::FieldMember { path, key } => match utf8_text(buffer) {
            None => Err(RedactionError::InvalidUtf8),
            Some(_) => match locate_field(&body.fields, path) {
                None => Err(RedactionError::FieldNotFound),
                Some(found) => {
                    let buffer_len: usize = buffer.len();
                    let value = match body.offset.checked_add(found.0) {
                        Some(start) => match body.offset.checked_add(found.1) {
                            Some(end) => Some((start, end)),
                            None => None,
                        },
                        None => None,
                    };
                    match value {
                        Some((start, end)) => match find_member(
                            buffer,
                            key.as_slice(),
                            start,
                            end,
                        ) {
                            Some(range) => if body.offset <= range.start {
                                Ok(range)
                            } else {
                                Err(RedactionError::InvalidRange)
                            },
                            None => Err(RedactionError::FieldNotFound),
                        },
                        None => {
                            assert(!crate::member::has_member(
                                buffer@,
                                key@,
                                body.offset + found.0,
                                body.offset + found.1,
                            ));
                            Err(RedactionError::FieldNotFound)
                        },
                    }
                },
            },
        },
        RedactionRule::RegexCapture { pattern, group } => match utf8_text(buffer) {
            None => Err(RedactionError::InvalidUtf8),
            Some(text) => match find_capture(pattern.as_str(), text, *group) {
                Err(e) => Err(e),
                Ok(offsets) => {
                    proof {
                        decode_utf8_encode_utf8(buffer@);
                    }
                    ByteRange::new(offsets.0, offsets.1, buffer.len())
                },
            },
        },
    }
}

/// The set of positions that `rules` hide in `buffer`. The first rule that
/// fails ends the evaluation with its error, and nothing is hidden by halves.
pub fn evaluate_rules(rules: &Vec<RedactionRule>, buffer: &[u8], body: &StructuredBody) -> (result:
    Result<ByteRangeSet, RedactionError>)
    ensures
        match hidden_positions(rules@, buffer@, *body) {
            Ok(hidden) => result is Ok && result->Ok_0@ == hidden
                && result->Ok_0.spec_buffer_len() == buffer@.len() && result->Ok_0.wf(),
            Err(e) => result is Err && result->Err_0 == e,
        },
{
    let mut hidden = ByteRangeSet::new(buffer.len());
    let mut i: usize = 0;
    proof {
        assert(rules@.take(0) =~= Seq::<RedactionRule>::empty());
    }
    while i < rules.len()
        invariant
            0 <= i <= rules@.len(),
            hidden.spec_buffer_len() == buffer@.len(),
            hidden.wf(),
            hidden_positions(rules@.take(i as int), buffer@, *body) == Ok::<
                Set<int>,
                RedactionError,
            >(hidden@),
        decreases rules.len() - i,
    {
        proof {
            assert(rules@.take(i + 1).drop_last() =~= rules@.take(i as int));
            assert(rules@.take(i + 1).last() == rules@[i as int]);
        }
        match evaluate_rule(&rules[i], buffer, body) {
            Err(e) => {
                proof {
                    lemma_hidden_positions_fail(rules@, buffer@, *body, i + 1);
                }
                return Err(e);
            },
            Ok(range) => {
                let inserted = hidden.insert(range);
                assert(inserted is Ok);
            },
        }
        i += 1;
    }
    proof {
        assert(rules@.take(i as int) =~= rules@);
    }
    Ok(hidden)
}

/// Where the first `k` rules fail, all the rules fail in the same way.
proof fn lemma_hidden_positions_fail(
    rules: Seq<RedactionRule>,
    buffer: Seq<u8>,
    body: StructuredBody,
    k: int,
)
    requires
        0 <= k <= rules.len(),
        hidden_positions(rules.take(k), buffer, body) is Err,
    ensures
        hidden_positions(rules, buffer, body) == hidden_positions(rules.take(k), buffer, body),
    decreases rules.len() - k,
{
    if k == rules.len() {
        assert(rules.take(k) =~= rules);
    } else {
        assert(rules.take(k + 1).drop_last() =~= rules.take(k));
        lemma_hidden_positions_fail(rules, buffer, body, k + 1);
    }
}

/// What a policy hides of a transcript: the hidden positions of what was sent
/// and of what was received, or the error of the first rule that fails, the
/// rules for what was sent coming first.
pub open spec fn evaluation(
    policy: DisclosurePolicy,
    sent: Seq<u8>,
    received: Seq<u8>,
    sent_body: StructuredBody,
    received_body: StructuredBody,
) -> Result<(Set<int>, Set<int>), RedactionError> {
    match hidden_positions(policy.sent@, sent, sent_body) {
        Err(e) => Err(e),
        Ok(sent_hidden) => match hidden_positions(policy.received@, received, received_body) {
            Err(e) => Err(e),
            Ok(received_hidden) => Ok((sent_hidden, received_hidden)),
        },
    }
}

/// The positions that must stay hidden in each direction of `transcript`.
pub fn evaluate(
    policy: &DisclosurePolicy,
    transcript: &Transcript,
    sent_body: &StructuredBody,
    received_body: &StructuredBody,
) -> (result: Result<(ByteRangeSet, ByteRangeSet), RedactionError>)
    ensures
        match evaluation(
            *policy,
            transcript.sent_bytes(),
            transcript.received_bytes(),
            *sent_body,
            *received_body,
        ) {
            Ok(hidden) => result is Ok && result->Ok_0.0@ == hidden.0 && result->Ok_0.1@
                == hidden.1 && result->Ok_0.0.spec_buffer_len() == transcript.sent_bytes().len()
                && result->Ok_0.1.spec_buffer_len() == transcript.received_bytes().len()
                && result->Ok_0.0.wf() && result->Ok_0.1.wf(),
            Err(e) => result is Err && result->Err_0 == e,
        },
{
    let sent_hidden = match evaluate_rules(&policy.sent, transcript.sent(), sent_body) {
        Ok(hidden) => hidden,
        Err(e) => {
            return Err(e);
        },
    };
    let received_hidden = match evaluate_rules(
        &policy.received,
        transcript.received(),
        received_body,
    ) {
        Ok(hidden) => hidden,
        Err(e) => {
            return Err(e);
        },
    };
    Ok((sent_hidden, received_hidden))
}

} // verus!

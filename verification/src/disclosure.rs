//! What a prover reveals of a transcript: everything that no rule hides.

use crate::error::RedactionError;
use crate::member::{lemma_member_range, member_at, QUOTE};
use crate::policy::{
    evaluate, evaluation, hidden_positions, located, rule_range, DisclosurePolicy, RedactionRule,
    StructuredBody,
};
use crate::range_set::{complement_of, span, ByteRange, ByteRangeSet};
use crate::search::{
    first_occurrence, lemma_first_occurrence_in_context, lemma_first_occurrence_is_leftmost,
    matches_at, occurs_in,
};
use crate::text::redacted;
use crate::transcript::Transcript;
use vstd::prelude::*;

verus! {

/// The positions revealed in each direction, and whether the server's
/// identity is revealed with them. It is made once per session and handed to
/// the proof as a whole.
pub struct Disclosure {
    sent: ByteRangeSet,
    received: ByteRangeSet,
    reveal_identity: bool,
}

/// What a policy reveals of a transcript: in each direction the positions of
/// the buffer that no rule hides.
pub open spec fn revelation(
    policy: DisclosurePolicy,
    sent: Seq<u8>,
    received: Seq<u8>,
    sent_body: StructuredBody,
    received_body: StructuredBody,
) -> Result<(Set<int>, Set<int>), RedactionError> {
    match evaluation(policy, sent, received, sent_body, received_body) {
        Err(e) => Err(e),
        Ok(hidden) => Ok(
            (
                complement_of(hidden.0, sent.len() as int),
                complement_of(hidden.1, received.len() as int),
            ),
        ),
    }
}

impl Disclosure {
    /// The positions revealed of what was sent.
    pub closed spec fn sent_revealed(&self) -> Set<int> {
        self.sent@
    }

    /// The positions revealed of what was received.
    pub closed spec fn received_revealed(&self) -> Set<int> {
        self.received@
    }

    /// The length of the buffer that was sent.
    pub closed spec fn sent_len(&self) -> usize {
        self.sent.spec_buffer_len()
    }

    /// The length of the buffer that was received.
    pub closed spec fn received_len(&self) -> usize {
        self.received.spec_buffer_len()
    }

    /// Whether the server's identity is revealed.
    pub closed spec fn identity_revealed(&self) -> bool {
        self.reveal_identity
    }

    /// The disclosure that reveals, in each direction, the whole buffer but
    /// the hidden positions.
    pub fn from_hidden(
        sent_hidden: &ByteRangeSet,
        received_hidden: &ByteRangeSet,
        reveal_identity: bool,
    ) -> (disclosure: Disclosure)
        ensures
            disclosure.sent_revealed() == complement_of(
                sent_hidden@,
                sent_hidden.spec_buffer_len() as int,
            ),
            disclosure.received_revealed() == complement_of(
                received_hidden@,
                received_hidden.spec_buffer_len() as int,
            ),
            disclosure.sent_len() == sent_hidden.spec_buffer_len(),
            disclosure.received_len() == received_hidden.spec_buffer_len(),
            disclosure.identity_revealed() == reveal_identity,
    {
        Disclosure {
            sent: sent_hidden.complement(sent_hidden.buffer_len()),
            received: received_hidden.complement(received_hidden.buffer_len()),
            reveal_identity,
        }
    }

    /// Evaluates `policy` against `transcript` and reveals what it does not
    /// hide. Where a rule fails there is no disclosure at all.
    pub fn build(
        policy: &DisclosurePolicy,
        transcript: &Transcript,
        sent_body: &StructuredBody,
        received_body: &StructuredBody,
    ) -> (result: Result<Disclosure, RedactionError>)
        ensures
            match revelation(
                *policy,
                transcript.sent_bytes(),
                transcript.received_bytes(),
                *sent_body,
                *received_body,
            ) {
                Ok(revealed) => result is Ok && result->Ok_0.sent_revealed() == revealed.0
                    && result->Ok_0.received_revealed() == revealed.1
                    && result->Ok_0.sent_len() == transcript.sent_bytes().len()
                    && result->Ok_0.received_len() == transcript.received_bytes().len()
                    && result->Ok_0.identity_revealed() == policy.reveal_identity,
                Err(e) => result is Err && result->Err_0 == e,
            },
    {
        match evaluate(policy, transcript, sent_body, received_body) {
            Err(e) => Err(e),
            Ok((sent_hidden, received_hidden)) => Ok(
                Disclosure::from_hidden(&sent_hidden, &received_hidden, policy.reveal_identity),
            ),
        }
    }

    /// The set revealed of what was sent, over the buffer that was sent.
    pub fn sent(&self) -> (set: &ByteRangeSet)
        ensures
            set@ == self.sent_revealed(),
            set.spec_buffer_len() == self.sent_len(),
            set.wf(),
    {
        proof {
            use_type_invariant(&self.sent);
        }
        &self.sent
    }

    /// The set revealed of what was received, over the buffer that was
    /// received.
    pub fn received(&self) -> (set: &ByteRangeSet)
        ensures
            set@ == self.received_revealed(),
            set.spec_buffer_len() == self.received_len(),
            set.wf(),
    {
        proof {
            use_type_invariant(&self.received);
        }
        &self.received
    }

    /// Whether the server's identity is revealed.
    pub fn reveal_identity(&self) -> (flag: bool)
        ensures
            flag == self.identity_revealed(),
    {
        self.reveal_identity
    }

    /// Takes the disclosure apart for the one step that submits it.
    pub fn into_parts(self) -> (parts: (ByteRangeSet, ByteRangeSet, bool))
        ensures
            parts.0@ == self.sent_revealed(),
            parts.0.spec_buffer_len() == self.sent_len(),
            parts.0.wf(),
            parts.1@ == self.received_revealed(),
            parts.1.spec_buffer_len() == self.received_len(),
            parts.1.wf(),
            parts.2 == self.identity_revealed(),
    {
        proof {
            use_type_invariant(&self.sent);
            use_type_invariant(&self.received);
        }
        (self.sent, self.received, self.reveal_identity)
    }
}

/// A literal rule hides exactly the needle. Where the needle stands between a
/// prefix and a suffix and nowhere further left, the rule hides the needle's
/// positions and no other, and the buffer shown without them is the prefix,
/// one sentinel for each byte of the needle, and the suffix.
pub proof fn lemma_literal_rule_hides_the_needle(
    prefix: Seq<u8>,
    needle: Vec<u8>,
    suffix: Seq<u8>,
    body: StructuredBody,
    sentinel: u8,
)
    requires
        prefix.len() + needle@.len() + suffix.len() <= usize::MAX,
        forall|earlier: int|
            0 <= earlier < prefix.len() ==> !matches_at(
                prefix + needle@ + suffix,
                needle@,
                earlier,
            ),
    ensures
        rule_range(RedactionRule::LiteralMatch { needle }, prefix + needle@ + suffix, body) == Ok::<
            ByteRange,
            RedactionError,
        >(
            ByteRange {
                start: prefix.len() as usize,
                end: (prefix.len() + needle@.len()) as usize,
            },
        ),
        hidden_positions(
            seq![RedactionRule::LiteralMatch { needle }],
            prefix + needle@ + suffix,
            body,
        ) == Ok::<Set<int>, RedactionError>(
            span(prefix.len() as int, (prefix.len() + needle@.len()) as int),
        ),
        redacted(
            prefix + needle@ + suffix,
            complement_of(
                span(prefix.len() as int, (prefix.len() + needle@.len()) as int),
                (prefix + needle@ + suffix).len() as int,
            ),
            sentinel,
        ) == prefix + Seq::new(needle@.len(), |i: int| sentinel) + suffix,
{
    let buffer = prefix + needle@ + suffix;
    let rule = RedactionRule::LiteralMatch { needle };
    let rules = seq![rule];
    lemma_first_occurrence_in_context(prefix, needle@, suffix);
    assert(rules.drop_last() =~= Seq::<RedactionRule>::empty());
    assert(rules.last() == rule);
    assert(hidden_positions(Seq::<RedactionRule>::empty(), buffer, body) == Ok::<
        Set<int>,
        RedactionError,
    >(Set::<int>::empty()));
    assert(Set::<int>::empty().union(span(prefix.len() as int, (prefix.len() + needle@.len()) as int))
        =~= span(prefix.len() as int, (prefix.len() + needle@.len()) as int));
    assert(redacted(
        buffer,
        complement_of(
            span(prefix.len() as int, (prefix.len() + needle@.len()) as int),
            buffer.len() as int,
        ),
        sentinel,
    ) =~= prefix + Seq::new(needle@.len(), |i: int| sentinel) + suffix);
}

/// Where the rules of a direction succeed, every one of them has a range,
/// the range lies in the buffer, and all its positions are hidden.
pub proof fn lemma_every_rule_is_obeyed(
    rules: Seq<RedactionRule>,
    buffer: Seq<u8>,
    body: StructuredBody,
    i: int,
)
    requires
        hidden_positions(rules, buffer, body) is Ok,
        0 <= i < rules.len(),
    ensures
        rule_range(rules[i], buffer, body) is Ok,
        rule_range(rules[i], buffer, body)->Ok_0.positions().subset_of(
            hidden_positions(rules, buffer, body)->Ok_0,
        ),
    decreases rules.len(),
{
    let earlier = rules.drop_last();
    if i < rules.len() - 1 {
        lemma_every_rule_is_obeyed(earlier, buffer, body, i);
        assert(earlier[i] == rules[i]);
    }
}

/// What the rules of a direction hide is not revealed, and is not shown:
/// where the rules succeed, no position of any rule's range is in the
/// complement of the hidden positions, and the buffer shown by that
/// complement has the sentinel at every such position of the buffer.
pub proof fn lemma_hidden_bytes_are_not_shown(
    rules: Seq<RedactionRule>,
    buffer: Seq<u8>,
    body: StructuredBody,
    i: int,
    x: int,
    sentinel: u8,
)
    requires
        hidden_positions(rules, buffer, body) is Ok,
        0 <= i < rules.len(),
        rule_range(rules[i], buffer, body)->Ok_0.positions().contains(x),
    ensures
        !complement_of(hidden_positions(rules, buffer, body)->Ok_0, buffer.len() as int).contains(
            x,
        ),
        0 <= x < buffer.len() ==> redacted(
            buffer,
            complement_of(hidden_positions(rules, buffer, body)->Ok_0, buffer.len() as int),
            sentinel,
        )[x] == sentinel,
{
    lemma_every_rule_is_obeyed(rules, buffer, body, i);
}

/// What no rule hides is shown as it is: where the rules succeed, the buffer
/// shown by the complement of the hidden positions has the buffer's own byte
/// at every position that is not hidden, and is as long as the buffer.
pub proof fn lemma_other_bytes_are_shown(
    rules: Seq<RedactionRule>,
    buffer: Seq<u8>,
    body: StructuredBody,
    x: int,
    sentinel: u8,
)
    requires
        hidden_positions(rules, buffer, body) is Ok,
        0 <= x < buffer.len(),
        !hidden_positions(rules, buffer, body)->Ok_0.contains(x),
    ensures
        redacted(
            buffer,
            complement_of(hidden_positions(rules, buffer, body)->Ok_0, buffer.len() as int),
            sentinel,
        ).len() == buffer.len(),
        redacted(
            buffer,
            complement_of(hidden_positions(rules, buffer, body)->Ok_0, buffer.len() as int),
            sentinel,
        )[x] == buffer[x],
{
}

/// What stands at revealed positions is found in what is shown: a needle
/// that stands in the buffer at positions that are all revealed stands in the
/// shown bytes too.
pub proof fn lemma_revealed_needle_is_found(
    buffer: Seq<u8>,
    revealed: Set<int>,
    sentinel: u8,
    needle: Seq<u8>,
    at: int,
)
    requires
        matches_at(buffer, needle, at),
        forall|x: int| at <= x < at + needle.len() ==> revealed.contains(x),
    ensures
        matches_at(redacted(buffer, revealed, sentinel), needle, at),
        occurs_in(redacted(buffer, revealed, sentinel), needle),
{
    let shown = redacted(buffer, revealed, sentinel);
    assert(shown.subrange(at, at + needle.len()) =~= buffer.subrange(at, at + needle.len()));
    assert(matches_at(shown, needle, at));
}

/// What is hidden is not found in what is shown: a needle without the
/// sentinel, of which every occurrence in the buffer has a position that is
/// not revealed, stands nowhere in the shown bytes.
pub proof fn lemma_hidden_needle_is_absent(
    buffer: Seq<u8>,
    revealed: Set<int>,
    sentinel: u8,
    needle: Seq<u8>,
)
    requires
        needle.len() > 0,
        forall|k: int| 0 <= k < needle.len() ==> needle[k] != sentinel,
        forall|at: int|
            matches_at(buffer, needle, at) ==> exists|x: int|
                at <= x < at + needle.len() && !revealed.contains(x),
    ensures
        !occurs_in(redacted(buffer, revealed, sentinel), needle),
{
    let shown = redacted(buffer, revealed, sentinel);
    if occurs_in(shown, needle) {
        let at = choose|at: int| matches_at(shown, needle, at);
        let window = shown.subrange(at, at + needle.len());
        assert forall|x: int| at <= x < at + needle.len() implies revealed.contains(x) by {
            assert(window[x - at] == shown[x]);
            assert(needle[x - at] != sentinel);
        }
        assert(buffer.subrange(at, at + needle.len()) =~= window);
        assert(matches_at(buffer, needle, at));
    }
}

/// A secret that a literal rule hides is not found in what is shown, where it
/// stands in the buffer once: none of its bytes being the sentinel, and the
/// rules of the direction succeeding, the shown bytes do not hold it.
pub proof fn lemma_secret_is_not_found(
    rules: Seq<RedactionRule>,
    buffer: Seq<u8>,
    body: StructuredBody,
    i: int,
    needle: Vec<u8>,
    sentinel: u8,
)
    requires
        buffer.len() <= usize::MAX,
        hidden_positions(rules, buffer, body) is Ok,
        0 <= i < rules.len(),
        rules[i] == (RedactionRule::LiteralMatch { needle }),
        needle@.len() > 0,
        forall|k: int| 0 <= k < needle@.len() ==> needle@[k] != sentinel,
        forall|at: int, other: int|
            matches_at(buffer, needle@, at) && matches_at(buffer, needle@, other) ==> at == other,
    ensures
        !occurs_in(
            redacted(
                buffer,
                complement_of(hidden_positions(rules, buffer, body)->Ok_0, buffer.len() as int),
                sentinel,
            ),
            needle@,
        ),
{
    let hidden = hidden_positions(rules, buffer, body)->Ok_0;
    let revealed = complement_of(hidden, buffer.len() as int);
    lemma_every_rule_is_obeyed(rules, buffer, body, i);
    lemma_first_occurrence_is_leftmost(buffer, needle@);
    let first = first_occurrence(buffer, needle@)->0;
    assert(matches_at(buffer, needle@, first));
    assert(rule_range(rules[i], buffer, body)->Ok_0.positions().contains(first));
    assert forall|at: int| matches_at(buffer, needle@, at) implies exists|x: int|
        at <= x < at + needle@.len() && !revealed.contains(x) by {
        assert(at == first);
        assert(at <= first < at + needle@.len() && !revealed.contains(first));
    }
    lemma_hidden_needle_is_absent(buffer, revealed, sentinel, needle@);
}

/// What no rule touches is found in what is shown: a needle that stands in
/// the buffer at positions of which none is hidden stands in the shown bytes
/// too.
pub proof fn lemma_untouched_needle_is_found(
    rules: Seq<RedactionRule>,
    buffer: Seq<u8>,
    body: StructuredBody,
    needle: Seq<u8>,
    at: int,
    sentinel: u8,
)
    requires
        hidden_positions(rules, buffer, body) is Ok,
        matches_at(buffer, needle, at),
        forall|x: int|
            at <= x < at + needle.len() ==> !hidden_positions(rules, buffer, body)->Ok_0.contains(
                x,
            ),
    ensures
        occurs_in(
            redacted(
                buffer,
                complement_of(hidden_positions(rules, buffer, body)->Ok_0, buffer.len() as int),
                sentinel,
            ),
            needle,
        ),
{
    let hidden = hidden_positions(rules, buffer, body)->Ok_0;
    lemma_revealed_needle_is_found(
        buffer,
        complement_of(hidden, buffer.len() as int),
        sentinel,
        needle,
        at,
    );
}

/// Where in the buffer the value of the first field with `path` starts and
/// ends, by what the body says.
pub open spec fn value_in_buffer(body: StructuredBody, path: Seq<char>) -> (int, int) {
    let found = located(body.fields@, path)->Some_0;
    (body.offset + found.0, body.offset + found.1)
}

/// A member rule hides exactly the member, key and value. Where the member
/// is written in the body around the value that the body has at the path,
/// the rule hides every position from the quote that opens the key to the
/// quote that closes the value, and no position in front of the one or behind
/// the other, whatever blanks stand around the colon.
pub proof fn lemma_member_rule_hides_key_and_value(
    path: String,
    key: Vec<u8>,
    buffer: Seq<u8>,
    body: StructuredBody,
    start: int,
    colon: int,
)
    requires
        buffer.len() <= usize::MAX,
        vstd::utf8::valid_utf8(buffer),
        located(body.fields@, path@) is Some,
        body.offset <= start,
        member_at(
            buffer,
            key@,
            start,
            colon,
            value_in_buffer(body, path@).0,
            value_in_buffer(body, path@).1,
        ),
    ensures
        rule_range(RedactionRule::FieldMember { path, key }, buffer, body) is Ok,
        rule_range(RedactionRule::FieldMember { path, key }, buffer, body)->Ok_0.positions() == span(
            start,
            value_in_buffer(body, path@).1 + 1,
        ),
        buffer[start] == QUOTE,
        buffer[value_in_buffer(body, path@).1] == QUOTE,
        hidden_positions(seq![RedactionRule::FieldMember { path, key }], buffer, body) == Ok::<
            Set<int>,
            RedactionError,
        >(span(start, value_in_buffer(body, path@).1 + 1)),
{
    let value = value_in_buffer(body, path@);
    let rule = RedactionRule::FieldMember { path, key };
    let rules = seq![rule];
    lemma_member_range(buffer, key@, start, colon, value.0, value.1);
    assert(rules.drop_last() =~= Seq::<RedactionRule>::empty());
    assert(rules.last() == rule);
    assert(hidden_positions(Seq::<RedactionRule>::empty(), buffer, body) == Ok::<
        Set<int>,
        RedactionError,
    >(Set::<int>::empty()));
    assert(Set::<int>::empty().union(span(start, value.1 + 1)) =~= span(start, value.1 + 1));
}

/// Whether `rule` is one of the two rules that hide a field of the body.
pub open spec fn is_field_rule(rule: RedactionRule) -> bool {
    rule is FieldPath || rule is FieldMember
}

/// What a field rule hides lies in the body: its range starts at the first
/// byte of the body or behind it, and ends in the buffer.
pub proof fn lemma_field_range_lies_in_the_body(
    rule: RedactionRule,
    buffer: Seq<u8>,
    body: StructuredBody,
)
    requires
        buffer.len() <= usize::MAX,
        is_field_rule(rule),
        rule_range(rule, buffer, body) is Ok,
    ensures
        body.offset <= rule_range(rule, buffer, body)->Ok_0.start,
        rule_range(rule, buffer, body)->Ok_0.start <= rule_range(rule, buffer, body)->Ok_0.end,
        rule_range(rule, buffer, body)->Ok_0.end <= buffer.len(),
{
    match rule {
        RedactionRule::FieldMember { path, key } => {
            let value = value_in_buffer(body, path@);
            assert(crate::member::has_member(buffer, key@, value.0, value.1));
            let (start, colon) = choose|start: int, colon: int|
                member_at(buffer, key@, start, colon, value.0, value.1);
            lemma_member_range(buffer, key@, start, colon, value.0, value.1);
        },
        _ => {},
    }
}

/// Where every rule of a direction is a field rule, nothing in front of the
/// body is hidden, and nothing behind the buffer.
pub proof fn lemma_field_rules_hide_in_the_body(
    rules: Seq<RedactionRule>,
    buffer: Seq<u8>,
    body: StructuredBody,
)
    requires
        buffer.len() <= usize::MAX,
        forall|i: int| 0 <= i < rules.len() ==> is_field_rule(#[trigger] rules[i]),
        hidden_positions(rules, buffer, body) is Ok,
    ensures
        hidden_positions(rules, buffer, body)->Ok_0.subset_of(
            span(body.offset as int, buffer.len() as int),
        ),
    decreases rules.len(),
{
    if rules.len() > 0 {
        let earlier = rules.drop_last();
        assert forall|i: int| 0 <= i < earlier.len() implies is_field_rule(
            #[trigger] earlier[i],
        ) by {
            assert(earlier[i] == rules[i]);
        }
        lemma_field_rules_hide_in_the_body(earlier, buffer, body);
        assert(is_field_rule(rules[rules.len() - 1]));
        lemma_field_range_lies_in_the_body(rules.last(), buffer, body);
    }
}

/// A literal rule whose needle is nowhere in the buffer fails, whatever else
/// the policy holds behind it: nothing is revealed by leaving it out.
pub proof fn lemma_missing_literal_fails(
    needle: Vec<u8>,
    rest: Seq<RedactionRule>,
    buffer: Seq<u8>,
    body: StructuredBody,
)
    requires
        !crate::search::occurs_in(buffer, needle@),
    ensures
        hidden_positions(seq![RedactionRule::LiteralMatch { needle }] + rest, buffer, body) == Err::<
            Set<int>,
            RedactionError,
        >(RedactionError::PatternNotFound),
    decreases rest.len(),
{
    let first = seq![RedactionRule::LiteralMatch { needle }];
    if rest.len() == 0 {
        assert(first + rest =~= first);
        assert(first.drop_last() =~= Seq::<RedactionRule>::empty());
        assert(first.last() == RedactionRule::LiteralMatch { needle });
        assert(hidden_positions(Seq::<RedactionRule>::empty(), buffer, body) == Ok::<
            Set<int>,
            RedactionError,
        >(Set::<int>::empty()));
    } else {
        assert((first + rest).drop_last() =~= first + rest.drop_last());
        lemma_missing_literal_fails(needle, rest.drop_last(), buffer, body);
    }
}

} // verus!

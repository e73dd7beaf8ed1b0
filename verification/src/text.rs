//! Transcript bytes as text, and the rendering of what was not revealed.

use crate::range_set::{
    canonical_ranges, in_byte_ranges, lemma_canonical_ranges, lemma_row_lies_in_one_range,
    ranges_are_canonical, ranges_cover, span, ByteRange, ByteRangeSet,
};
use crate::search::matches_at;
use crate::transcript::RevealedBytes;
use vstd::prelude::*;
use vstd::slice::slice_subrange;
use vstd::string::*;
use vstd::utf8::*;

verus! {

/// What is shown in place of a byte that was not revealed: the four
/// characters U+00F0, U+0178, U+2122 and U+02C6.
pub const REDACTION_MARKER: &'static str = "\u{f0}\u{178}\u{2122}\u{2c6}";

/// The byte that stands for one that was not revealed, where a verifier looks
/// for bytes in what was revealed.
pub const UNREVEALED: u8 = 0;

/// Bytes that were to be shown as text are not UTF-8.
#[derive(Clone, Copy, Debug, PartialEq, Eq, Structural)]
pub struct InvalidUtf8;

/// `buffer` with `sentinel` at each position that `revealed` does not hold.
pub open spec fn redacted(buffer: Seq<u8>, revealed: Set<int>, sentinel: u8) -> Seq<u8> {
    Seq::new(
        buffer.len(),
        |i: int|
            if revealed.contains(i) {
                buffer[i]
            } else {
                sentinel
            },
    )
}

/// `core::str::from_utf8`: the bytes as text where they are UTF-8, and
/// nothing where they are not. The text is the decoding of exactly these
/// bytes.
#[verifier::external_body]
pub(crate) fn utf8_text(bytes: &[u8]) -> (text: Option<&str>)
    ensures
        text is Some <==> valid_utf8(bytes@),
        text matches Some(t) ==> t@ == decode_utf8(bytes@),
{
    core::str::from_utf8(bytes).ok()
}

/// A copy of `buffer` in which every byte outside `revealed` is `sentinel`.
/// Revealed bytes keep their value and their place, and the length stays.
pub fn redact(buffer: &[u8], revealed: &ByteRangeSet, sentinel: u8) -> (shown: Vec<u8>)
    ensures
        shown@ == redacted(buffer@, revealed@, sentinel),
{
    let mut shown: Vec<u8> = Vec::new();
    let mut i: usize = 0;
    while i < buffer.len()
        invariant
            0 <= i <= buffer.len(),
            shown@.len() == i,
            forall|k: int|
                0 <= k < i ==> shown@[k] == (if revealed@.contains(k) {
                    buffer@[k]
                } else {
                    sentinel
                }),
        decreases buffer.len() - i,
    {
        if revealed.contains(i) {
            shown.push(buffer[i]);
        } else {
            shown.push(sentinel);
        }
        i += 1;
    }
    assert(shown@ =~= redacted(buffer@, revealed@, sentinel));
    shown
}

/// `marker`, `count` times over.
pub open spec fn markers(count: int, marker: Seq<char>) -> Seq<char>
    decreases count,
{
    if count <= 0 {
        Seq::<char>::empty()
    } else {
        markers(count - 1, marker) + marker
    }
}

/// Where the last of `ranges` ends, and 0 where there is none.
pub open spec fn end_of(ranges: Seq<ByteRange>) -> int {
    if ranges.len() == 0 {
        0
    } else {
        ranges.last().end as int
    }
}

/// The bytes up to the end of the last of `ranges` as text: the bytes of each
/// range decoded, and in front of each range one marker for every byte since
/// the range before.
pub open spec fn shown_through(bytes: Seq<u8>, ranges: Seq<ByteRange>, marker: Seq<char>) -> Seq<
    char,
>
    decreases ranges.len(),
{
    if ranges.len() == 0 {
        Seq::<char>::empty()
    } else {
        shown_through(bytes, ranges.drop_last(), marker) + markers(
            ranges.last().start - end_of(ranges.drop_last()),
            marker,
        ) + decode_utf8(bytes.subrange(ranges.last().start as int, ranges.last().end as int))
    }
}

/// `bytes` as text with one marker for every byte that is not in `revealed`.
/// What was revealed keeps its value and its place, a NUL too.
pub open spec fn shown_text(bytes: Seq<u8>, revealed: Set<int>, marker: Seq<char>) -> Seq<char> {
    shown_through(bytes, canonical_ranges(revealed), marker) + markers(
        bytes.len() - end_of(canonical_ranges(revealed)),
        marker,
    )
}

/// Whether every run of revealed bytes is text by itself.
pub open spec fn revealed_is_text(bytes: Seq<u8>, revealed: Set<int>) -> bool {
    forall|i: int|
        0 <= i < canonical_ranges(revealed).len() ==> valid_utf8(
            bytes.subrange(
                (#[trigger] canonical_ranges(revealed)[i]).start as int,
                canonical_ranges(revealed)[i].end as int,
            ),
        )
}

/// Appends `count` markers to `out`.
fn append_markers(out: &mut String, count: usize)
    ensures
        final(out)@ == old(out)@ + markers(count as int, REDACTION_MARKER@),
{
    let mut k: usize = 0;
    assert(out@ + markers(0, REDACTION_MARKER@) =~= out@);
    while k < count
        invariant
            0 <= k <= count,
            out@ == old(out)@ + markers(k as int, REDACTION_MARKER@),
        decreases count - k,
    {
        out.append(REDACTION_MARKER);
        assert(out@ =~= old(out)@ + markers(k + 1, REDACTION_MARKER@));
        k += 1;
    }
}

/// One direction as text, with a marker in place of every byte that was not
/// revealed. Revealed bytes keep their value and their place, whatever they
/// are, a NUL too: the text shows which bytes were hidden, and no others as
/// hidden. Each run of revealed bytes must be text by itself.
pub fn bytes_to_redacted_string(shown: &RevealedBytes) -> (result: Result<String, InvalidUtf8>)
    ensures
        result is Ok <==> revealed_is_text(shown.bytes(), shown.revealed()),
        result matches Ok(text) ==> text@ == shown_text(
            shown.bytes(),
            shown.revealed(),
            REDACTION_MARKER@,
        ),
{
    let bytes = shown.as_bytes();
    let set = shown.revealed_set();
    let ranges = set.ranges();
    let mut out = String::new();
    let mut cursor: usize = 0;
    let mut i: usize = 0;
    proof {
        assert(ranges@.take(0) =~= Seq::<ByteRange>::empty());
    }
    while i < ranges.len()
        invariant
            0 <= i <= ranges@.len(),
            bytes@ == shown.bytes(),
            ranges@ == canonical_ranges(shown.revealed()),
            crate::range_set::ranges_are_canonical(ranges@),
            forall|k: int|
                0 <= k < ranges@.len() ==> (#[trigger] ranges@[k]).start <= ranges@[k].end
                    <= bytes@.len(),
            cursor == end_of(ranges@.take(i as int)),
            out@ == shown_through(bytes@, ranges@.take(i as int), REDACTION_MARKER@),
            forall|k: int|
                0 <= k < i ==> valid_utf8(
                    bytes@.subrange((#[trigger] ranges@[k]).start as int, ranges@[k].end as int),
                ),
        decreases ranges.len() - i,
    {
        let range = ranges[i];
        proof {
            assert(ranges@.take(i + 1).drop_last() =~= ranges@.take(i as int));
            assert(ranges@.take(i + 1).last() == range);
            if i > 0 {
                assert(ranges@.take(i as int).last() == ranges@[i - 1]);
                assert(ranges@[i - 1].end < ranges@[i as int].start);
            }
        }
        append_markers(&mut out, range.start - cursor);
        let run = slice_subrange(bytes, range.start, range.end);
        match utf8_text(run) {
            Some(text) => {
                out.append(text);
            },
            None => {
                return Err(InvalidUtf8);
            },
        }
        cursor = range.end;
        i += 1;
    }
    proof {
        assert(ranges@.take(i as int) =~= ranges@);
    }
    append_markers(&mut out, bytes.len() - cursor);
    Ok(out)
}

/// Where nothing was revealed, the text is one marker for every byte.
pub proof fn lemma_nothing_revealed_shows_markers(bytes: Seq<u8>, marker: Seq<char>)
    ensures
        shown_text(bytes, Set::<int>::empty(), marker) == markers(bytes.len() as int, marker),
        revealed_is_text(bytes, Set::<int>::empty()),
{
    let none = Seq::<ByteRange>::empty();
    assert(ranges_cover(none, Set::<int>::empty()));
    lemma_canonical_ranges(none, Set::<int>::empty());
    assert(Seq::<char>::empty() + markers(bytes.len() as int, marker) =~= markers(
        bytes.len() as int,
        marker,
    ));
}

/// Where everything was revealed, the text is the text of the bytes, and it
/// is text exactly where the bytes are.
pub proof fn lemma_everything_revealed_shows_the_text(bytes: Seq<u8>, marker: Seq<char>)
    requires
        0 < bytes.len() <= usize::MAX,
    ensures
        shown_text(bytes, span(0, bytes.len() as int), marker) == decode_utf8(bytes),
        revealed_is_text(bytes, span(0, bytes.len() as int)) <==> valid_utf8(bytes),
{
    let all = seq![ByteRange { start: 0, end: bytes.len() as usize }];
    let revealed = span(0, bytes.len() as int);
    assert forall|x: int| revealed.contains(x) <==> crate::range_set::in_byte_ranges(all, x) by {
        if revealed.contains(x) {
            assert(all[0].start <= x < all[0].end);
        }
    }
    assert(ranges_cover(all, revealed));
    lemma_canonical_ranges(all, revealed);
    assert(all.drop_last() =~= Seq::<ByteRange>::empty());
    assert(bytes.subrange(0, bytes.len() as int) =~= bytes);
    assert(shown_through(bytes, Seq::<ByteRange>::empty(), marker) == Seq::<char>::empty());
    assert(markers(0, marker) == Seq::<char>::empty());
    assert(shown_through(bytes, all, marker) =~= decode_utf8(bytes));
    assert(shown_text(bytes, revealed, marker) =~= decode_utf8(bytes));
    assert(canonical_ranges(revealed)[0] == all[0]);
}

/// Whether `part` stands somewhere in `text`.
pub open spec fn text_holds(text: Seq<char>, part: Seq<char>) -> bool {
    exists|at: int|
        0 <= at && at + part.len() <= text.len() && #[trigger] text.subrange(
            at,
            at + part.len(),
        ) == part
}

/// What stands in a text stands in every text around it.
proof fn lemma_text_holds_in_context(
    before: Seq<char>,
    text: Seq<char>,
    after: Seq<char>,
    part: Seq<char>,
)
    requires
        text_holds(text, part),
    ensures
        text_holds(before + text + after, part),
{
    let at = choose|at: int|
        0 <= at && at + part.len() <= text.len() && #[trigger] text.subrange(
            at,
            at + part.len(),
        ) == part;
    let whole = before + text + after;
    let there = before.len() + at;
    assert(whole.subrange(there, there + part.len()) =~= text.subrange(at, at + part.len()));
}

/// Text that another text begins with ends at a boundary of characters of
/// that other text.
proof fn lemma_prefix_ends_at_boundary(part: Seq<u8>, whole: Seq<u8>)
    requires
        valid_utf8(part),
        valid_utf8(whole),
        part.len() <= whole.len(),
        whole.subrange(0, part.len() as int) == part,
    ensures
        is_char_boundary(whole, part.len() as int),
    decreases part.len(),
{
    if part.len() > 0 {
        assert(whole.subrange(0, part.len() as int)[0] == whole[0]);
        assert(valid_first_scalar(part));
        assert(valid_first_scalar(whole));
        let first = length_of_first_scalar(part);
        assert(length_of_first_scalar(whole) == first);
        assert(first <= part.len());
        let part_rest = pop_first_scalar(part);
        let whole_rest = pop_first_scalar(whole);
        assert(whole_rest.subrange(0, part_rest.len() as int) =~= part_rest) by {
            assert forall|k: int| 0 <= k < part_rest.len() implies whole_rest[k]
                == part_rest[k] by {
                assert(whole.subrange(0, part.len() as int)[first + k] == whole[first + k]);
            }
        }
        lemma_prefix_ends_at_boundary(part_rest, whole_rest);
    }
}

/// Text that stands in the bytes of a text stands in that text: where both
/// are UTF-8, the characters of the one are among the characters of the
/// other.
pub proof fn lemma_decoded_text_holds_needle(run: Seq<u8>, needle: Seq<u8>, at: int)
    requires
        valid_utf8(run),
        valid_utf8(needle),
        needle.len() > 0,
        matches_at(run, needle, at),
    ensures
        text_holds(decode_utf8(run), decode_utf8(needle)),
{
    let len = run.len() as int;
    let n = needle.len() as int;
    assert(run.subrange(at, at + n)[0] == run[at]);
    is_char_boundary_start_end_of_seq(needle);
    is_char_boundary_iff_not_is_continuation_byte(needle, 0);
    is_char_boundary_iff_not_is_continuation_byte(run, at);
    valid_utf8_split(run, at);
    decode_utf8_split(run, at);
    let head = run.subrange(0, at);
    let tail = run.subrange(at, len);
    assert(tail.subrange(0, n) =~= needle);
    lemma_prefix_ends_at_boundary(needle, tail);
    valid_utf8_split(tail, n);
    decode_utf8_split(tail, n);
    let rest = tail.subrange(n, tail.len() as int);
    assert(decode_utf8(run) =~= decode_utf8(head) + decode_utf8(needle) + decode_utf8(rest));
    let text = decode_utf8(run);
    let there = decode_utf8(head).len() as int;
    assert(text.subrange(there, there + decode_utf8(needle).len()) =~= decode_utf8(needle));
}

/// What stands in the text of one of the ranges stands in the text up to the
/// end of the ranges.
proof fn lemma_shown_through_holds(
    bytes: Seq<u8>,
    ranges: Seq<ByteRange>,
    marker: Seq<char>,
    i: int,
    part: Seq<char>,
)
    requires
        0 <= i < ranges.len(),
        text_holds(decode_utf8(bytes.subrange(ranges[i].start as int, ranges[i].end as int)), part),
    ensures
        text_holds(shown_through(bytes, ranges, marker), part),
    decreases ranges.len(),
{
    let before = ranges.drop_last();
    let gap = markers(ranges.last().start - end_of(before), marker);
    let last = decode_utf8(bytes.subrange(ranges.last().start as int, ranges.last().end as int));
    let none = Seq::<char>::empty();
    if i == ranges.len() - 1 {
        lemma_text_holds_in_context(shown_through(bytes, before, marker) + gap, last, none, part);
        assert(shown_through(bytes, ranges, marker) =~= shown_through(bytes, before, marker) + gap
            + last + none);
    } else {
        assert(before[i] == ranges[i]);
        lemma_shown_through_holds(bytes, before, marker, i, part);
        lemma_text_holds_in_context(none, shown_through(bytes, before, marker), gap + last, part);
        assert(shown_through(bytes, ranges, marker) =~= none + shown_through(
            bytes,
            before,
            marker,
        ) + (gap + last));
    }
}

/// Text that was revealed is shown: where what was revealed is text, a needle
/// of text that stands in the bytes at positions that were all revealed has
/// its characters in the text that is shown.
pub proof fn lemma_revealed_text_is_shown(
    bytes: Seq<u8>,
    revealed: Set<int>,
    marker: Seq<char>,
    needle: Seq<u8>,
    at: int,
)
    requires
        ranges_cover(canonical_ranges(revealed), revealed),
        revealed.subset_of(span(0, bytes.len() as int)),
        revealed_is_text(bytes, revealed),
        valid_utf8(needle),
        needle.len() > 0,
        matches_at(bytes, needle, at),
        forall|x: int| at <= x < at + needle.len() ==> revealed.contains(x),
    ensures
        text_holds(shown_text(bytes, revealed, marker), decode_utf8(needle)),
{
    let ranges = canonical_ranges(revealed);
    let n = needle.len() as int;
    lemma_row_lies_in_one_range(ranges, at, at + n);
    let i = choose|i: int|
        0 <= i < ranges.len() && (#[trigger] ranges[i]).start <= at && at + n <= ranges[i].end;
    let start = ranges[i].start as int;
    let end = ranges[i].end as int;
    assert(end <= bytes.len()) by {
        assert(ranges[i].start <= end - 1 < ranges[i].end);
        assert(crate::range_set::in_byte_ranges(ranges, end - 1));
        assert(revealed.contains(end - 1));
        assert(span(0, bytes.len() as int).contains(end - 1));
    }
    let run = bytes.subrange(start, end);
    assert(run.subrange(at - start, at - start + n) =~= bytes.subrange(at, at + n));
    assert(matches_at(run, needle, at - start));
    lemma_decoded_text_holds_needle(run, needle, at - start);
    lemma_shown_through_holds(bytes, ranges, marker, i, decode_utf8(needle));
    lemma_text_holds_in_context(
        Seq::<char>::empty(),
        shown_through(bytes, ranges, marker),
        markers(bytes.len() - end_of(ranges), marker),
        decode_utf8(needle),
    );
    assert(shown_text(bytes, revealed, marker) =~= Seq::<char>::empty() + shown_through(
        bytes,
        ranges,
        marker,
    ) + markers(bytes.len() - end_of(ranges), marker));
}

/// Whether no character of `part` is a character of `marker`.
pub open spec fn shares_no_char(part: Seq<char>, marker: Seq<char>) -> bool {
    forall|a: int, b: int| 0 <= a < part.len() && 0 <= b < marker.len() ==> part[a] != marker[b]
}

/// Whether `c` is a character of `marker`.
pub open spec fn is_marker_char(c: char, marker: Seq<char>) -> bool {
    exists|b: int| 0 <= b < marker.len() && #[trigger] marker[b] == c
}

/// Markers are made of the characters of the marker, and there are some
/// where the marker is not empty and is written once at least.
proof fn lemma_markers_chars(count: int, marker: Seq<char>)
    ensures
        forall|x: int|
            0 <= x < markers(count, marker).len() ==> is_marker_char(
                #[trigger] markers(count, marker)[x],
                marker,
            ),
        count > 0 && marker.len() > 0 ==> markers(count, marker).len() > 0,
    decreases count,
{
    if count > 0 {
        lemma_markers_chars(count - 1, marker);
        let fewer = markers(count - 1, marker);
        let all = markers(count, marker);
        assert forall|x: int| 0 <= x < all.len() implies is_marker_char(
            #[trigger] all[x],
            marker,
        ) by {
            if x < fewer.len() {
                assert(all[x] == fewer[x]);
                assert(is_marker_char(fewer[x], marker));
            } else {
                assert(marker[x - fewer.len()] == all[x]);
            }
        }
    }
}

/// A text that stands in three texts in a row, and has no character of the
/// one in the middle, stands in the first or in the last of them, unless it
/// could reach from the first into the last.
proof fn lemma_text_held_beside(
    before: Seq<char>,
    between: Seq<char>,
    after: Seq<char>,
    part: Seq<char>,
)
    requires
        part.len() > 0,
        text_holds(before + between + after, part),
        forall|a: int, x: int|
            0 <= a < part.len() && 0 <= x < between.len() ==> part[a] != between[x],
        between.len() > 0 || before.len() == 0 || after.len() == 0,
    ensures
        text_holds(before, part) || text_holds(after, part),
{
    let whole = before + between + after;
    let n = part.len() as int;
    let at = choose|at: int|
        0 <= at && at + n <= whole.len() && #[trigger] whole.subrange(at, at + n) == part;
    let window = whole.subrange(at, at + n);
    let first = before.len() as int;
    let second = first + between.len();
    if at + n <= first {
        assert(before.subrange(at, at + n) =~= window);
    } else if at >= second {
        assert(after.subrange(at - second, at - second + n) =~= window);
    } else if between.len() > 0 {
        let x = if at >= first {
            at
        } else {
            first
        };
        assert(window[x - at] == whole[x]);
        assert(whole[x] == between[x - first]);
        assert(part[x - at] != between[x - first]);
    }
}

/// The bytes of two texts in a row are the bytes of the one and then the
/// bytes of the other.
proof fn lemma_encode_in_a_row(first: Seq<char>, second: Seq<char>)
    ensures
        encode_utf8(first + second) == encode_utf8(first) + encode_utf8(second),
    decreases first.len(),
{
    if first.len() == 0 {
        assert(first + second =~= second);
        assert(encode_utf8(first) + encode_utf8(second) =~= encode_utf8(second));
    } else {
        assert((first + second).drop_first() =~= first.drop_first() + second);
        lemma_encode_in_a_row(first.drop_first(), second);
        assert(encode_utf8(first + second) =~= encode_utf8(first) + encode_utf8(second));
    }
}

/// Text that stands in a text stands in its bytes: where both are UTF-8 and
/// the characters of the one are among the characters of the other, the bytes
/// of the one are among the bytes of the other.
pub proof fn lemma_needle_stands_in_bytes(run: Seq<u8>, needle: Seq<u8>)
    requires
        valid_utf8(run),
        valid_utf8(needle),
        text_holds(decode_utf8(run), decode_utf8(needle)),
    ensures
        exists|at: int| matches_at(run, needle, at),
{
    let text = decode_utf8(run);
    let part = decode_utf8(needle);
    let n = part.len() as int;
    let at = choose|at: int|
        0 <= at && at + n <= text.len() && #[trigger] text.subrange(at, at + n) == part;
    let head = text.subrange(0, at);
    let rest = text.subrange(at + n, text.len() as int);
    assert(text =~= head + part + rest);
    lemma_encode_in_a_row(head + part, rest);
    lemma_encode_in_a_row(head, part);
    decode_utf8_encode_utf8(run);
    decode_utf8_encode_utf8(needle);
    let there = encode_utf8(head).len() as int;
    assert(run =~= encode_utf8(head) + needle + encode_utf8(rest));
    assert(run.subrange(there, there + needle.len()) =~= needle);
    assert(matches_at(run, needle, there));
}

/// What stands in the text up to the end of the ranges, and has no character
/// of the marker, stands in the text of one of the ranges.
proof fn lemma_shown_through_held(
    bytes: Seq<u8>,
    ranges: Seq<ByteRange>,
    marker: Seq<char>,
    part: Seq<char>,
)
    requires
        ranges_are_canonical(ranges),
        part.len() > 0,
        marker.len() > 0,
        shares_no_char(part, marker),
        text_holds(shown_through(bytes, ranges, marker), part),
    ensures
        exists|i: int|
            0 <= i < ranges.len() && text_holds(
                decode_utf8(
                    bytes.subrange((#[trigger] ranges[i]).start as int, ranges[i].end as int),
                ),
                part,
            ),
    decreases ranges.len(),
{
    if ranges.len() == 0 {
        assert(shown_through(bytes, ranges, marker).len() == 0);
    } else {
        let before = ranges.drop_last();
        let count = ranges.last().start - end_of(before);
        let gap = markers(count, marker);
        let last = decode_utf8(bytes.subrange(ranges.last().start as int, ranges.last().end as int));
        let shown = shown_through(bytes, before, marker);
        lemma_markers_chars(count, marker);
        assert forall|a: int, x: int| 0 <= a < part.len() && 0 <= x < gap.len() implies part[a]
            != gap[x] by {
            assert(is_marker_char(gap[x], marker));
            let b = choose|b: int| 0 <= b < marker.len() && #[trigger] marker[b] == gap[x];
            assert(part[a] != marker[b]);
        }
        if before.len() > 0 {
            assert(before.last() == ranges[ranges.len() - 2]);
            assert(ranges[ranges.len() - 2].end < ranges[ranges.len() - 1].start);
        }
        lemma_text_held_beside(shown, gap, last, part);
        if text_holds(shown, part) {
            assert forall|i: int| 0 <= i < before.len() implies (#[trigger] before[i])
                == ranges[i] by {}
            assert(ranges_are_canonical(before));
            lemma_shown_through_held(bytes, before, marker, part);
            let i = choose|i: int|
                0 <= i < before.len() && text_holds(
                    decode_utf8(
                        bytes.subrange((#[trigger] before[i]).start as int, before[i].end as int),
                    ),
                    part,
                );
            assert(before[i] == ranges[i]);
        } else {
            let i = ranges.len() - 1;
            assert(ranges[i] == ranges.last());
        }
    }
}

/// What the shown text holds was revealed: where what was revealed is text,
/// a needle of text without a character of the marker whose characters stand
/// in the shown text stands in the bytes, at positions that were all
/// revealed.
pub proof fn lemma_shown_text_was_revealed(
    bytes: Seq<u8>,
    revealed: Set<int>,
    marker: Seq<char>,
    needle: Seq<u8>,
)
    requires
        ranges_cover(canonical_ranges(revealed), revealed),
        revealed.subset_of(span(0, bytes.len() as int)),
        revealed_is_text(bytes, revealed),
        valid_utf8(needle),
        needle.len() > 0,
        marker.len() > 0,
        shares_no_char(decode_utf8(needle), marker),
        text_holds(shown_text(bytes, revealed, marker), decode_utf8(needle)),
    ensures
        exists|at: int|
            matches_at(bytes, needle, at) && forall|x: int|
                at <= x < at + needle.len() ==> revealed.contains(x),
{
    let ranges = canonical_ranges(revealed);
    let part = decode_utf8(needle);
    assert(part.len() > 0) by {
        reveal_with_fuel(decode_utf8, 2);
    }
    let trailing = markers(bytes.len() - end_of(ranges), marker);
    lemma_markers_chars(bytes.len() - end_of(ranges), marker);
    assert forall|a: int, x: int| 0 <= a < part.len() && 0 <= x < trailing.len() implies part[a]
        != trailing[x] by {
        assert(is_marker_char(trailing[x], marker));
        let b = choose|b: int| 0 <= b < marker.len() && #[trigger] marker[b] == trailing[x];
        assert(part[a] != marker[b]);
    }
    let none = Seq::<char>::empty();
    assert(shown_text(bytes, revealed, marker) =~= shown_through(bytes, ranges, marker) + trailing
        + none);
    lemma_text_held_beside(shown_through(bytes, ranges, marker), trailing, none, part);
    lemma_shown_through_held(bytes, ranges, marker, part);
    let i = choose|i: int|
        0 <= i < ranges.len() && text_holds(
            decode_utf8(bytes.subrange((#[trigger] ranges[i]).start as int, ranges[i].end as int)),
            part,
        );
    let start = ranges[i].start as int;
    let end = ranges[i].end as int;
    assert(end <= bytes.len()) by {
        assert(ranges[i].start <= end - 1 < ranges[i].end);
        assert(in_byte_ranges(ranges, end - 1));
        assert(span(0, bytes.len() as int).contains(end - 1));
    }
    let run = bytes.subrange(start, end);
    lemma_needle_stands_in_bytes(run, needle);
    let inside = choose|at: int| matches_at(run, needle, at);
    let at = start + inside;
    assert(bytes.subrange(at, at + needle.len()) =~= run.subrange(inside, inside + needle.len()));
    assert(matches_at(bytes, needle, at));
    assert forall|x: int| at <= x < at + needle.len() implies revealed.contains(x) by {
        assert(ranges[i].start <= x < ranges[i].end);
        assert(in_byte_ranges(ranges, x));
    }
}

/// What was hidden is not shown: where what was revealed is text, a needle
/// of text without a character of the marker, of which every occurrence in
/// the bytes has a position that was not revealed, has its characters nowhere
/// in the shown text.
pub proof fn lemma_hidden_text_is_not_shown(
    bytes: Seq<u8>,
    revealed: Set<int>,
    marker: Seq<char>,
    needle: Seq<u8>,
)
    requires
        ranges_cover(canonical_ranges(revealed), revealed),
        revealed.subset_of(span(0, bytes.len() as int)),
        revealed_is_text(bytes, revealed),
        valid_utf8(needle),
        needle.len() > 0,
        marker.len() > 0,
        shares_no_char(decode_utf8(needle), marker),
        forall|at: int|
            matches_at(bytes, needle, at) ==> exists|x: int|
                at <= x < at + needle.len() && !revealed.contains(x),
    ensures
        !text_holds(shown_text(bytes, revealed, marker), decode_utf8(needle)),
{
    if text_holds(shown_text(bytes, revealed, marker), decode_utf8(needle)) {
        lemma_shown_text_was_revealed(bytes, revealed, marker, needle);
    }
}

/// The marker has four characters.
pub proof fn lemma_marker_len()
    ensures
        REDACTION_MARKER@.len() == 4,
{
    reveal_strlit("\u{f0}\u{178}\u{2122}\u{2c6}");
}

} // verus!

//! Members of a structured body as they are written: a key in quotes, a
//! colon, and a value in quotes, with blanks around the colon or without.

use crate::range_set::ByteRange;
use crate::search::matches_here;
use vstd::prelude::*;

verus! {

/// The quotation mark.
pub const QUOTE: u8 = 0x22;

/// The colon.
pub const COLON: u8 = 0x3a;

/// Whether `byte` is a blank: a space, a tab, a line feed or a carriage
/// return.
pub open spec fn is_blank(byte: u8) -> bool {
    byte == 0x20 || byte == 0x09 || byte == 0x0a || byte == 0x0d
}

/// Whether every byte of `buffer` from `from` up to `to` is a blank.
pub open spec fn all_blank(buffer: Seq<u8>, from: int, to: int) -> bool {
    forall|k: int| from <= k < to ==> is_blank(#[trigger] buffer[k])
}

/// Whether a member with the key `key` is written in `buffer` from `start`
/// on, with its colon at `colon` and its value, without the quotes, from
/// `value_start` up to `value_end`: the key in quotes, blanks or none, the
/// colon, blanks or none, and the value in quotes.
pub open spec fn member_at(
    buffer: Seq<u8>,
    key: Seq<u8>,
    start: int,
    colon: int,
    value_start: int,
    value_end: int,
) -> bool {
    &&& 0 <= start
    &&& value_start <= value_end < buffer.len()
    &&& buffer[start] == QUOTE
    &&& buffer.subrange(start + 1, start + 1 + key.len()) == key
    &&& buffer[start + 1 + key.len()] == QUOTE
    &&& start + 1 + key.len() < colon < value_start - 1
    &&& all_blank(buffer, start + 2 + key.len(), colon)
    &&& buffer[colon] == COLON
    &&& all_blank(buffer, colon + 1, value_start - 1)
    &&& buffer[value_start - 1] == QUOTE
    &&& buffer[value_end] == QUOTE
}

/// Whether a member with the key `key` and the value from `value_start` up
/// to `value_end` is written in `buffer`.
pub open spec fn has_member(buffer: Seq<u8>, key: Seq<u8>, value_start: int, value_end: int) -> bool {
    exists|start: int, colon: int| member_at(buffer, key, start, colon, value_start, value_end)
}

/// The range of the member with the key `key` and the value from
/// `value_start` up to `value_end`: from the quote that opens the key to the
/// quote that closes the value, both included. There is none where no such
/// member is written there.
pub open spec fn member_range(buffer: Seq<u8>, key: Seq<u8>, value_start: int, value_end: int) -> Option<
    ByteRange,
> {
    if has_member(buffer, key, value_start, value_end) {
        let found = choose|found: (int, int)|
            member_at(buffer, key, found.0, found.1, value_start, value_end);
        Some(ByteRange { start: found.0 as usize, end: (value_end + 1) as usize })
    } else {
        None
    }
}

/// A byte that is no blank and has only blanks behind it up to `limit` stands
/// right in front of the longest run of blanks that ends at `limit`.
proof fn lemma_blank_run(buffer: Seq<u8>, run: int, limit: int, at: int)
    requires
        0 <= run <= limit <= buffer.len(),
        all_blank(buffer, run, limit),
        run == 0 || !is_blank(buffer[run - 1]),
        0 <= at < limit,
        !is_blank(buffer[at]),
        all_blank(buffer, at + 1, limit),
    ensures
        at + 1 == run,
{
    if at + 1 < run {
        assert(is_blank(buffer[run - 1]));
    }
    if at + 1 > run {
        assert(is_blank(buffer[at]));
    }
}

/// A value has one member at most: where a member is written in front of it
/// and around it, it starts at one place and has its colon at one place.
pub proof fn lemma_member_is_unique(
    buffer: Seq<u8>,
    key: Seq<u8>,
    value_start: int,
    value_end: int,
    start: int,
    colon: int,
    other_start: int,
    other_colon: int,
)
    requires
        member_at(buffer, key, start, colon, value_start, value_end),
        member_at(buffer, key, other_start, other_colon, value_start, value_end),
    ensures
        start == other_start,
        colon == other_colon,
{
    if colon < other_colon {
        assert(is_blank(buffer[other_colon]));
    }
    if other_colon < colon {
        assert(is_blank(buffer[colon]));
    }
    let key_end = start + 1 + key.len();
    let other_end = other_start + 1 + key.len();
    if key_end < other_end {
        assert(is_blank(buffer[other_end]));
    }
    if other_end < key_end {
        assert(is_blank(buffer[key_end]));
    }
}

/// Where a member is written, `member_range` names its range.
pub proof fn lemma_member_range(
    buffer: Seq<u8>,
    key: Seq<u8>,
    start: int,
    colon: int,
    value_start: int,
    value_end: int,
)
    requires
        member_at(buffer, key, start, colon, value_start, value_end),
        buffer.len() <= usize::MAX,
    ensures
        member_range(buffer, key, value_start, value_end) == Some(
            ByteRange { start: start as usize, end: (value_end + 1) as usize },
        ),
{
    let found = choose|found: (int, int)|
        member_at(buffer, key, found.0, found.1, value_start, value_end);
    assert(member_at(buffer, key, (start, colon).0, (start, colon).1, value_start, value_end));
    lemma_member_is_unique(buffer, key, value_start, value_end, start, colon, found.0, found.1);
}

/// Whether `byte` is a blank.
fn blank(byte: u8) -> (is: bool)
    ensures
        is == is_blank(byte),
{
    byte == 0x20 || byte == 0x09 || byte == 0x0a || byte == 0x0d
}

/// The start of the longest run of blanks in `buffer` that ends at `limit`.
fn blank_run_start(buffer: &[u8], limit: usize) -> (run: usize)
    requires
        limit <= buffer@.len(),
    ensures
        run <= limit,
        all_blank(buffer@, run as int, limit as int),
        run == 0 || !is_blank(buffer@[run - 1]),
{
    let mut run = limit;
    while run > 0 && blank(buffer[run - 1])
        invariant
            run <= limit <= buffer@.len(),
            all_blank(buffer@, run as int, limit as int),
        decreases run,
    {
        run -= 1;
    }
    run
}

/// The range of the member with the key `key` whose value stands in `buffer`
/// from `value_start` up to `value_end`, quotes not counted: from the quote
/// that opens the key to the quote that closes the value, whatever blanks
/// stand around the colon.
pub fn find_member(buffer: &[u8], key: &[u8], value_start: usize, value_end: usize) -> (found:
    Option<ByteRange>)
    ensures
        found == member_range(buffer@, key@, value_start as int, value_end as int),
        found matches Some(range) ==> range.start < value_start && range.end == value_end + 1
            && range.end <= buffer@.len(),
{
    let len = buffer.len();
    let ghost none = forall|start: int, colon: int|
        !member_at(buffer@, key@, start, colon, value_start as int, value_end as int);
    if value_start > value_end || value_end >= len || value_start < 2 {
        assert(none);
        return None;
    }
    if buffer[value_end] != QUOTE || buffer[value_start - 1] != QUOTE {
        assert(none);
        return None;
    }
    let run = blank_run_start(buffer, value_start - 1);
    assert forall|start: int, colon: int|
        member_at(
            buffer@,
            key@,
            start,
            colon,
            value_start as int,
            value_end as int,
        ) implies colon + 1 == run by {
        lemma_blank_run(buffer@, run as int, value_start - 1, colon);
    }
    if run == 0 || buffer[run - 1] != COLON {
        assert(none);
        return None;
    }
    let colon = run - 1;
    let key_run = blank_run_start(buffer, colon);
    assert forall|start: int, other: int|
        member_at(
            buffer@,
            key@,
            start,
            other,
            value_start as int,
            value_end as int,
        ) implies start + 2 + key@.len() == key_run by {
        assert(other == colon);
        lemma_blank_run(buffer@, key_run as int, colon as int, start + 1 + key@.len());
    }
    if key_run == 0 || buffer[key_run - 1] != QUOTE {
        assert(none);
        return None;
    }
    let key_end = key_run - 1;
    if key_end <= key.len() {
        assert(none);
        return None;
    }
    let start = key_end - key.len() - 1;
    if buffer[start] != QUOTE || !matches_here(buffer, key, start + 1) {
        assert(none);
        return None;
    }
    proof {
        assert(member_at(
            buffer@,
            key@,
            start as int,
            colon as int,
            value_start as int,
            value_end as int,
        ));
        lemma_member_range(
            buffer@,
            key@,
            start as int,
            colon as int,
            value_start as int,
            value_end as int,
        );
    }
    Some(ByteRange { start, end: value_end + 1 })
}

} // verus!

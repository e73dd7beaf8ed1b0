//! Exact byte search in a transcript buffer.

use crate::error::RedactionError;
use crate::range_set::{in_byte_ranges, ranges_are_canonical, ByteRange, ByteRangeSet};
use vstd::prelude::*;

verus! {

/// Whether `needle` stands in `hay` at position `at`.
pub open spec fn matches_at(hay: Seq<u8>, needle: Seq<u8>, at: int) -> bool {
    0 <= at && at + needle.len() <= hay.len() && hay.subrange(at, at + needle.len()) == needle
}

/// Whether `needle` stands somewhere in `hay`.
pub open spec fn occurs_in(hay: Seq<u8>, needle: Seq<u8>) -> bool {
    exists|at: int| matches_at(hay, needle, at)
}

/// Whether `at` is the leftmost position at which `needle` stands in `hay`.
pub open spec fn is_first_match(hay: Seq<u8>, needle: Seq<u8>, at: int) -> bool {
    matches_at(hay, needle, at) && forall|earlier: int|
        earlier < at ==> !matches_at(hay, needle, earlier)
}

/// The leftmost position at which `needle` stands in `hay`, if there is one.
pub open spec fn first_occurrence(hay: Seq<u8>, needle: Seq<u8>) -> Option<int> {
    if occurs_in(hay, needle) {
        Some(choose|at: int| is_first_match(hay, needle, at))
    } else {
        None
    }
}

/// The positions below `limit` at which `needle` stands in `hay`, ascending.
pub open spec fn occurrences_below(hay: Seq<u8>, needle: Seq<u8>, limit: int) -> Seq<int>
    decreases limit,
{
    if limit <= 0 {
        Seq::<int>::empty()
    } else if matches_at(hay, needle, limit - 1) {
        occurrences_below(hay, needle, limit - 1).push(limit - 1)
    } else {
        occurrences_below(hay, needle, limit - 1)
    }
}

/// For each needle in turn, the ranges at which it stands in `hay`, from left
/// to right.
pub open spec fn occurrence_ranges(hay: Seq<u8>, needles: Seq<Seq<u8>>) -> Seq<ByteRange>
    decreases needles.len(),
{
    if needles.len() == 0 {
        Seq::<ByteRange>::empty()
    } else {
        occurrence_ranges(hay, needles.drop_last()) + ranges_of(
            occurrences_below(hay, needles.last(), hay.len() as int),
            needles.last().len(),
        )
    }
}

/// The ranges of `len` bytes that start at `starts`.
pub open spec fn ranges_of(starts: Seq<int>, len: nat) -> Seq<ByteRange> {
    Seq::new(
        starts.len(),
        |i: int| ByteRange { start: starts[i] as usize, end: (starts[i] + len) as usize },
    )
}

/// A leftmost match is the only leftmost match, and `first_occurrence` names
/// it.
pub proof fn lemma_first_occurrence(hay: Seq<u8>, needle: Seq<u8>, at: int)
    requires
        is_first_match(hay, needle, at),
    ensures
        first_occurrence(hay, needle) == Some(at),
{
    assert(matches_at(hay, needle, at));
    let chosen = choose|c: int| is_first_match(hay, needle, c);
    assert(is_first_match(hay, needle, chosen));
    if chosen < at {
        assert(!matches_at(hay, needle, chosen));
    }
    if at < chosen {
        assert(!matches_at(hay, needle, at));
    }
}

/// Where a needle stands at all, it stands somewhere leftmost.
proof fn lemma_least_match(hay: Seq<u8>, needle: Seq<u8>, at: int)
    requires
        matches_at(hay, needle, at),
    ensures
        exists|first: int| is_first_match(hay, needle, first),
    decreases at,
{
    if exists|earlier: int| earlier < at && matches_at(hay, needle, earlier) {
        let earlier = choose|earlier: int| earlier < at && matches_at(hay, needle, earlier);
        lemma_least_match(hay, needle, earlier);
    } else {
        assert(is_first_match(hay, needle, at));
    }
}

/// What `first_occurrence` names is the leftmost match, and it names none
/// only where there is no match.
pub proof fn lemma_first_occurrence_is_leftmost(hay: Seq<u8>, needle: Seq<u8>)
    ensures
        match first_occurrence(hay, needle) {
            Some(at) => is_first_match(hay, needle, at),
            None => !occurs_in(hay, needle),
        },
{
    if occurs_in(hay, needle) {
        let at = choose|at: int| matches_at(hay, needle, at);
        lemma_least_match(hay, needle, at);
    }
}

/// A needle that stands between a prefix and a suffix, and nowhere further
/// left, is first found right behind the prefix.
pub proof fn lemma_first_occurrence_in_context(prefix: Seq<u8>, needle: Seq<u8>, suffix: Seq<u8>)
    requires
        forall|earlier: int|
            0 <= earlier < prefix.len() ==> !matches_at(prefix + needle + suffix, needle, earlier),
    ensures
        first_occurrence(prefix + needle + suffix, needle) == Some(prefix.len() as int),
{
    let hay = prefix + needle + suffix;
    let at = prefix.len() as int;
    assert(hay.subrange(at, at + needle.len()) =~= needle);
    lemma_first_occurrence(hay, needle, at);
}

/// Whether `needle` stands in `hay` at `at`.
pub(crate) fn matches_here(hay: &[u8], needle: &[u8], at: usize) -> (found: bool)
    requires
        at + needle@.len() <= hay@.len(),
    ensures
        found == matches_at(hay@, needle@, at as int),
{
    let hay_len: usize = hay.len();
    let mut k: usize = 0;
    while k < needle.len()
        invariant
            0 <= k <= needle@.len(),
            at + needle@.len() <= hay@.len(),
            hay@.len() == hay_len,
            forall|j: int| 0 <= j < k ==> hay@[at + j] == needle@[j],
        decreases needle.len() - k,
    {
        if hay[at + k] != needle[k] {
            proof {
                let window = hay@.subrange(at as int, at + needle@.len());
                assert(window[k as int] == hay@[at + k]);
            }
            return false;
        }
        k += 1;
    }
    assert(hay@.subrange(at as int, at + needle@.len()) =~= needle@);
    true
}

/// The leftmost position at which `needle` stands in `hay`. The empty needle
/// stands at position 0 of every buffer.
pub fn find_first(hay: &[u8], needle: &[u8]) -> (found: Option<usize>)
    ensures
        found is Some <==> occurs_in(hay@, needle@),
        found matches Some(at) ==> is_first_match(hay@, needle@, at as int) && first_occurrence(
            hay@,
            needle@,
        ) == Some(at as int),
        found is None ==> first_occurrence(hay@, needle@) is None,
{
    if needle.len() > hay.len() {
        assert(!occurs_in(hay@, needle@));
        return None;
    }
    let last = hay.len() - needle.len();
    let mut at: usize = 0;
    loop
        invariant
            0 <= at <= last,
            last == hay@.len() - needle@.len(),
            forall|earlier: int| earlier < at ==> !matches_at(hay@, needle@, earlier),
        decreases last - at,
    {
        if matches_here(hay, needle, at) {
            proof {
                lemma_first_occurrence(hay@, needle@, at as int);
            }
            return Some(at);
        }
        if at == last {
            assert(!occurs_in(hay@, needle@));
            return None;
        }
        at += 1;
    }
}

/// Whether `needle` stands somewhere in `hay`.
pub fn contains_bytes(hay: &[u8], needle: &[u8]) -> (found: bool)
    ensures
        found == occurs_in(hay@, needle@),
{
    find_first(hay, needle).is_some()
}

/// The views of `needles`, in their order.
pub open spec fn needle_views(needles: Seq<&[u8]>) -> Seq<Seq<u8>> {
    Seq::new(needles.len(), |i: int| needles[i]@)
}

/// Where `needle` stands nowhere from `from` up to `limit`, the positions
/// below `limit` are those below `from`.
proof fn lemma_occurrences_stop(hay: Seq<u8>, needle: Seq<u8>, from: int, limit: int)
    requires
        0 <= from <= limit,
        forall|p: int| from <= p < limit ==> !matches_at(hay, needle, p),
    ensures
        occurrences_below(hay, needle, limit) == occurrences_below(hay, needle, from),
    decreases limit - from,
{
    if from < limit {
        lemma_occurrences_stop(hay, needle, from, limit - 1);
    }
}

/// A position lies in a list of ranges with one more range exactly if it lies
/// in the list or in that range.
proof fn lemma_in_pushed_ranges(ranges: Seq<ByteRange>, range: ByteRange, x: int)
    ensures
        in_byte_ranges(ranges.push(range), x) <==> (in_byte_ranges(ranges, x) || range.start <= x
            < range.end),
{
    let longer = ranges.push(range);
    if in_byte_ranges(ranges, x) {
        let i = choose|i: int|
            0 <= i < ranges.len() && (#[trigger] ranges[i]).start <= x < ranges[i].end;
        assert(longer[i] == ranges[i]);
    }
    if range.start <= x < range.end {
        assert(longer[ranges.len() as int] == range);
    }
    if in_byte_ranges(longer, x) {
        let i = choose|i: int|
            0 <= i < longer.len() && (#[trigger] longer[i]).start <= x < longer[i].end;
        if i < ranges.len() {
            assert(longer[i] == ranges[i]);
        }
    }
}

/// Whether every one of `needles` stands somewhere in `hay`.
pub open spec fn all_occur(hay: Seq<u8>, needles: Seq<Seq<u8>>) -> bool {
    forall|n: int| 0 <= n < needles.len() ==> occurs_in(hay, #[trigger] needles[n])
}

/// The ranges at which the private needles stand in `seq`, and the ranges of
/// everything else.
///
/// Every needle is a secret that must be hidden. A needle that stands nowhere
/// in `seq` cannot be hidden, and then nothing is handed out: the search
/// fails with `PatternNotFound`, and it fails in no other case.
///
/// The private ranges come needle by needle, each needle's from left to
/// right, and may overlap. The public ranges are the complement of their
/// union in `seq`, from left to right, none empty and none touching the next.
pub fn find_ranges(seq: &[u8], private_seq: &[&[u8]]) -> (found: Result<
    (Vec<ByteRange>, Vec<ByteRange>),
    RedactionError,
>)
    requires
        forall|n: int| 0 <= n < private_seq@.len() ==> (#[trigger] private_seq@[n])@.len() > 0,
    ensures
        found is Ok <==> all_occur(seq@, needle_views(private_seq@)),
        found matches Err(e) ==> e == RedactionError::PatternNotFound,
        found matches Ok(parts) ==> {
            &&& parts.1@ == occurrence_ranges(seq@, needle_views(private_seq@))
            &&& ranges_are_canonical(parts.0@)
            &&& forall|x: int|
                in_byte_ranges(parts.0@, x) <==> (0 <= x < seq@.len() && !in_byte_ranges(
                    parts.1@,
                    x,
                ))
        },
{
    let ghost needles = needle_views(private_seq@);
    let mut private: Vec<ByteRange> = Vec::new();
    let mut hidden = ByteRangeSet::new(seq.len());
    let mut n: usize = 0;
    proof {
        assert(needles.take(0) =~= Seq::<Seq<u8>>::empty());
    }
    while n < private_seq.len()
        invariant
            0 <= n <= private_seq@.len(),
            needles == needle_views(private_seq@),
            forall|m: int| 0 <= m < private_seq@.len() ==> (#[trigger] private_seq@[m])@.len() > 0,
            private@ == occurrence_ranges(seq@, needles.take(n as int)),
            all_occur(seq@, needles.take(n as int)),
            hidden.spec_buffer_len() == seq@.len(),
            forall|x: int| hidden@.contains(x) <==> in_byte_ranges(private@, x),
        decreases private_seq.len() - n,
    {
        let needle = private_seq[n];
        let ghost done = private@;
        if find_first(seq, needle).is_none() {
            assert(!occurs_in(seq@, needles[n as int]));
            return Err(RedactionError::PatternNotFound);
        }
        proof {
            assert(needles[n as int] == needle@);
            assert forall|m: int| 0 <= m < n + 1 implies occurs_in(
                seq@,
                #[trigger] needles.take(n + 1)[m],
            ) by {
                if m < n {
                    assert(needles.take(n as int)[m] == needles.take(n + 1)[m]);
                }
            }
        }
        proof {
            assert(needles.take(n + 1).drop_last() =~= needles.take(n as int));
            assert(needles.take(n + 1).last() == needle@);
            assert(ranges_of(occurrences_below(seq@, needle@, 0), needle@.len()) =~= Seq::<
                ByteRange,
            >::empty());
            assert(done + Seq::<ByteRange>::empty() =~= done);
            let first = choose|at: int| matches_at(seq@, needle@, at);
            assert(first + needle@.len() <= seq@.len());
        }
        let last = seq.len() - needle.len();
        let mut at: usize = 0;
        loop
            invariant_except_break
                0 <= at <= last,
                private@ == done + ranges_of(
                    occurrences_below(seq@, needle@, at as int),
                    needle@.len(),
                ),
            invariant
                last == seq@.len() - needle@.len(),
                needle@.len() > 0,
                hidden.spec_buffer_len() == seq@.len(),
                forall|x: int| hidden@.contains(x) <==> in_byte_ranges(private@, x),
            ensures
                private@ == done + ranges_of(
                    occurrences_below(seq@, needle@, last + 1),
                    needle@.len(),
                ),
            decreases last - at,
        {
            let ghost starts = occurrences_below(seq@, needle@, at as int);
            if matches_here(seq, needle, at) {
                let range = ByteRange { start: at, end: at + needle.len() };
                let ghost listed = private@;
                private.push(range);
                let inserted = hidden.insert(range);
                proof {
                    assert(inserted is Ok);
                    assert(ranges_of(starts.push(at as int), needle@.len()) =~= ranges_of(
                        starts,
                        needle@.len(),
                    ).push(range));
                    assert(private@ =~= done + ranges_of(
                        starts.push(at as int),
                        needle@.len(),
                    ));
                    assert forall|x: int| hidden@.contains(x) <==> in_byte_ranges(
                        private@,
                        x,
                    ) by {
                        lemma_in_pushed_ranges(listed, range, x);
                    }
                }
            }
            if at == last {
                break ;
            }
            at += 1;
        }
        proof {
            lemma_occurrences_stop(seq@, needle@, last + 1, seq@.len() as int);
        }
        n += 1;
    }
    proof {
        assert(needles.take(n as int) =~= needles);
    }
    let public = hidden.complement(seq.len()).ranges();
    Ok((public, private))
}

} // verus!

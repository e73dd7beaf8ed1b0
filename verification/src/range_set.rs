//! Sets of byte positions of one transcript buffer, kept as ranges.

use crate::error::RedactionError;
use vstd::prelude::*;

verus! {

/// The range set of the `rangeset` crate. Nothing inside it is visible to a
/// proof; what it holds is spoken of through [`range_set_values`].
#[verifier::external_type_specification]
#[verifier::external_body]
#[verifier::reject_recursive_types(T)]
pub struct ExRangeSet<T>(rangeset::RangeSet<T>);

/// The values that a `rangeset::RangeSet<usize>` contains.
pub uninterp spec fn range_set_values(set: rangeset::RangeSet<usize>) -> Set<int>;

/// The positions `start <= i < end`.
pub open spec fn span(start: int, end: int) -> Set<int> {
    Set::new(|i: int| start <= i < end)
}

/// What is left of `[0, len)` when `positions` is taken out.
pub open spec fn complement_of(positions: Set<int>, len: int) -> Set<int> {
    span(0, len).difference(positions)
}

/// Whether `x` lies in one of `ranges`, each a pair of start and end.
pub open spec fn in_ranges(ranges: Seq<(usize, usize)>, x: int) -> bool {
    exists|i: int| 0 <= i < ranges.len() && (#[trigger] ranges[i]).0 <= x < ranges[i].1
}

/// Ranges as the `rangeset` crate keeps them: none empty, each ending before
/// the next one starts, with a gap between them.
pub open spec fn canonical(ranges: Seq<(usize, usize)>) -> bool {
    &&& forall|i: int| 0 <= i < ranges.len() ==> (#[trigger] ranges[i]).0 < ranges[i].1
    &&& forall|i: int, j: int|
        0 <= i < j < ranges.len() ==> (#[trigger] ranges[i]).1 < (#[trigger] ranges[j]).0
}

/// `RangeSet::default()`: the set without any range, which contains no value.
#[verifier::external_body]
fn backend_empty() -> (set: rangeset::RangeSet<usize>)
    ensures
        range_set_values(set) == Set::<int>::empty(),
{
    rangeset::RangeSet::default()
}

/// `Union::union` of a set with a range: a new set that contains what `set`
/// contains and every value of `start..end`. A range with `start >= end` is
/// empty and adds nothing.
#[verifier::external_body]
fn backend_with_range(set: &rangeset::RangeSet<usize>, start: usize, end: usize) -> (grown:
    rangeset::RangeSet<usize>)
    ensures
        range_set_values(grown) == range_set_values(*set).union(span(start as int, end as int)),
{
    rangeset::Union::union(set, &(start..end))
}

/// `Union::union` of two sets: a new set that contains what either contains.
#[verifier::external_body]
fn backend_union(a: &rangeset::RangeSet<usize>, b: &rangeset::RangeSet<usize>) -> (set:
    rangeset::RangeSet<usize>)
    ensures
        range_set_values(set) == range_set_values(*a).union(range_set_values(*b)),
{
    rangeset::Union::union(a, b)
}

/// `Disjoint::is_disjoint` of two sets: whether no value is in both.
#[verifier::external_body]
fn backend_is_disjoint(a: &rangeset::RangeSet<usize>, b: &rangeset::RangeSet<usize>) -> (disjoint:
    bool)
    ensures
        disjoint == range_set_values(*a).disjoint(range_set_values(*b)),
{
    rangeset::Disjoint::is_disjoint(a, b)
}

/// `RangeSet::contains`: whether `value` is in the set.
#[verifier::external_body]
fn backend_contains(set: &rangeset::RangeSet<usize>, value: usize) -> (found: bool)
    ensures
        found == range_set_values(*set).contains(value as int),
{
    set.contains(&value)
}

/// `RangeSet::iter_ranges`, each range handed out as its start and end. The
/// crate keeps its ranges sorted, non-empty, non-intersecting and non-adjacent,
/// and the set contains exactly the values of these ranges.
#[verifier::external_body]
fn backend_ranges(set: &rangeset::RangeSet<usize>) -> (ranges: Vec<(usize, usize)>)
    ensures
        canonical(ranges@),
        forall|x: int| range_set_values(*set).contains(x) <==> in_ranges(ranges@, x),
{
    set.iter_ranges().map(|r| (r.start, r.end)).collect()
}

/// Whether two sets over buffers of `len_a` and `len_b` bytes are
/// complementary: the lengths are one, no position is in both sets, and every
/// position of the buffer is in one of them.
pub open spec fn are_complementary(a: Set<int>, len_a: int, b: Set<int>, len_b: int) -> bool {
    len_a == len_b && a.disjoint(b) && a.union(b) == span(0, len_a)
}

/// The range `[start, end)` where it lies in a buffer of `buffer_len` bytes,
/// and `InvalidRange` where the start lies behind the end or the end behind
/// the buffer.
pub open spec fn checked_range(start: usize, end: usize, buffer_len: int) -> Result<
    ByteRange,
    RedactionError,
> {
    if start <= end && end <= buffer_len {
        Ok(ByteRange { start, end })
    } else {
        Err(RedactionError::InvalidRange)
    }
}

/// A half-open range `[start, end)` of positions in a buffer.
#[derive(Clone, Copy, Debug, PartialEq, Eq, Structural)]
pub struct ByteRange {
    pub start: usize,
    pub end: usize,
}

impl ByteRange {
    /// The positions of the range. There are none where `start >= end`.
    pub open spec fn positions(&self) -> Set<int> {
        span(self.start as int, self.end as int)
    }

    /// Whether the range lies in a buffer of `buffer_len` bytes.
    pub open spec fn fits(&self, buffer_len: usize) -> bool {
        self.start <= self.end && self.end <= buffer_len
    }

    /// The range `[start, end)` of a buffer of `buffer_len` bytes, or
    /// `InvalidRange` where the start lies behind the end or the end behind
    /// the buffer.
    pub fn new(start: usize, end: usize, buffer_len: usize) -> (result: Result<
        ByteRange,
        RedactionError,
    >)
        ensures
            result == checked_range(start, end, buffer_len as int),
    {
        if start <= end && end <= buffer_len {
            Ok(ByteRange { start, end })
        } else {
            Err(RedactionError::InvalidRange)
        }
    }
}

/// Whether `x` lies in one of `ranges`.
pub open spec fn in_byte_ranges(ranges: Seq<ByteRange>, x: int) -> bool {
    exists|i: int| 0 <= i < ranges.len() && (#[trigger] ranges[i]).start <= x < ranges[i].end
}

/// Ranges in their one canonical order: none empty, each ending before the
/// next one starts, with at least one position between them.
pub open spec fn ranges_are_canonical(ranges: Seq<ByteRange>) -> bool {
    &&& forall|i: int| 0 <= i < ranges.len() ==> (#[trigger] ranges[i]).start < ranges[i].end
    &&& forall|i: int, j: int|
        0 <= i < j < ranges.len() ==> (#[trigger] ranges[i]).end < (#[trigger] ranges[j]).start
}

/// Whether `ranges` are the canonical ranges of `positions`: canonical, and
/// holding exactly these positions.
pub open spec fn ranges_cover(ranges: Seq<ByteRange>, positions: Set<int>) -> bool {
    ranges_are_canonical(ranges) && forall|x: int|
        positions.contains(x) <==> in_byte_ranges(ranges, x)
}

/// The canonical ranges of `positions`, of which there is one list at most.
pub open spec fn canonical_ranges(positions: Set<int>) -> Seq<ByteRange> {
    choose|ranges: Seq<ByteRange>| ranges_cover(ranges, positions)
}

/// A set of positions of a buffer of known length.
pub struct ByteRangeSet {
    inner: rangeset::RangeSet<usize>,
    buffer_len: usize,
}

impl View for ByteRangeSet {
    type V = Set<int>;

    closed spec fn view(&self) -> Set<int> {
        range_set_values(self.inner)
    }
}

impl ByteRangeSet {
    /// The length of the buffer that the set speaks of.
    pub closed spec fn spec_buffer_len(&self) -> usize {
        self.buffer_len
    }

    /// Every position of the set lies in the buffer.
    #[verifier::type_invariant]
    pub closed spec fn wf(&self) -> bool {
        self@.subset_of(span(0, self.buffer_len as int))
    }

    /// The empty set over a buffer of `buffer_len` bytes.
    pub fn new(buffer_len: usize) -> (set: ByteRangeSet)
        ensures
            set@ == Set::<int>::empty(),
            set.spec_buffer_len() == buffer_len,
            set.wf(),
    {
        ByteRangeSet { inner: backend_empty(), buffer_len }
    }

    /// The length of the buffer that the set speaks of.
    #[verifier::when_used_as_spec(spec_buffer_len)]
    pub fn buffer_len(&self) -> (len: usize)
        ensures
            len == self.spec_buffer_len(),
            self.wf(),
    {
        proof {
            use_type_invariant(self);
        }
        self.buffer_len
    }

    /// Adds the positions of `range`. Ranges that overlap or touch become one.
    pub fn insert(&mut self, range: ByteRange) -> (result: Result<(), RedactionError>)
        ensures
            final(self).spec_buffer_len() == old(self).spec_buffer_len(),
            final(self).wf(),
            range.fits(old(self).spec_buffer_len()) ==> result is Ok && final(self)@ == old(self)@
                .union(range.positions()),
            !range.fits(old(self).spec_buffer_len()) ==> result == Err::<(), RedactionError>(
                RedactionError::InvalidRange,
            ) && final(self)@ == old(self)@,
    {
        proof {
            use_type_invariant(&*self);
        }
        if range.start > range.end || range.end > self.buffer_len {
            return Err(RedactionError::InvalidRange);
        }
        self.inner = backend_with_range(&self.inner, range.start, range.end);
        Ok(())
    }

    /// The positions of `[0, buffer_len)` that are not in the set, as a set
    /// over a buffer of `buffer_len` bytes.
    ///
    /// The ranges are walked from the left. Before each one the gap since the
    /// end of the one before is taken, and behind the last one the rest of the
    /// buffer.
    pub fn complement(&self, buffer_len: usize) -> (gaps: ByteRangeSet)
        ensures
            gaps@ == complement_of(self@, buffer_len as int),
            gaps.spec_buffer_len() == buffer_len,
            gaps.wf(),
    {
        let ranges = backend_ranges(&self.inner);
        let mut inner = backend_empty();
        let mut cursor: usize = 0;
        let mut i: usize = 0;
        while i < ranges.len()
            invariant
                0 <= i <= ranges.len(),
                canonical(ranges@),
                forall|x: int| range_set_values(self.inner).contains(x) <==> in_ranges(ranges@, x),
                i == 0 ==> cursor == 0,
                i > 0 ==> cursor == ranges@[i - 1].1,
                range_set_values(inner) =~= Set::new(
                    |x: int|
                        0 <= x < cursor && x < buffer_len && !range_set_values(self.inner).contains(
                            x,
                        ),
                ),
            decreases ranges.len() - i,
        {
            let (start, end) = ranges[i];
            let ghost before = range_set_values(inner);
            let gap_end = if start < buffer_len {
                start
            } else {
                buffer_len
            };
            if cursor < gap_end {
                inner = backend_with_range(&inner, cursor, gap_end);
            }
            proof {
                assert(i > 0 ==> ranges@[i - 1].1 < ranges@[i as int].0);
                assert(cursor <= start < end);
                assert forall|x: int| cursor <= x < start implies !in_ranges(ranges@, x) by {
                    if in_ranges(ranges@, x) {
                        let j = choose|j: int|
                            0 <= j < ranges@.len() && (#[trigger] ranges@[j]).0 <= x < ranges@[j].1;
                        if j < i {
                            if j < i - 1 {
                                assert(ranges@[j].1 < ranges@[i - 1].0);
                                assert(ranges@[i - 1].0 < ranges@[i - 1].1);
                            }
                        } else if j > i {
                            assert(ranges@[i as int].1 < ranges@[j].0);
                        }
                    }
                }
                assert forall|x: int| start <= x < end implies in_ranges(ranges@, x) by {
                    assert(ranges@[i as int].0 <= x < ranges@[i as int].1);
                }
                assert forall|x: int|
                    range_set_values(inner).contains(x) <==> (0 <= x < end && x < buffer_len
                        && !range_set_values(self.inner).contains(x)) by {
                    assert(range_set_values(inner) =~= before.union(
                        span(cursor as int, gap_end as int),
                    ));
                    assert(range_set_values(self.inner).contains(x) <==> in_ranges(ranges@, x));
                    if cursor <= x < start {
                        assert(!in_ranges(ranges@, x));
                    }
                    if start <= x < end {
                        assert(in_ranges(ranges@, x));
                    }
                }
                assert(range_set_values(inner) =~= Set::new(
                    |x: int|
                        0 <= x < end && x < buffer_len && !range_set_values(self.inner).contains(x),
                ));
            }
            cursor = end;
            i += 1;
        }
        let ghost before = range_set_values(inner);
        if cursor < buffer_len {
            inner = backend_with_range(&inner, cursor, buffer_len);
        }
        proof {
            assert(range_set_values(inner) =~= before.union(
                span(cursor as int, buffer_len as int),
            ));
            assert forall|x: int| cursor <= x implies !in_ranges(ranges@, x) by {
                if in_ranges(ranges@, x) {
                    let j = choose|j: int|
                        0 <= j < ranges@.len() && (#[trigger] ranges@[j]).0 <= x < ranges@[j].1;
                    if j < ranges@.len() - 1 {
                        assert(ranges@[j].1 < ranges@[ranges@.len() - 1].0);
                        assert(ranges@[ranges@.len() - 1].0 < ranges@[ranges@.len() - 1].1);
                    }
                }
            }
            assert(range_set_values(inner) =~= complement_of(
                range_set_values(self.inner),
                buffer_len as int,
            ));
        }
        ByteRangeSet { inner, buffer_len }
    }

    /// The positions that are in this set or in `other`, over the longer of
    /// the two buffers.
    pub fn union(&self, other: &ByteRangeSet) -> (both: ByteRangeSet)
        ensures
            both@ == self@.union(other@),
            both.spec_buffer_len() == if self.spec_buffer_len() >= other.spec_buffer_len() {
                self.spec_buffer_len()
            } else {
                other.spec_buffer_len()
            },
            both.wf(),
    {
        proof {
            use_type_invariant(self);
            use_type_invariant(other);
        }
        let buffer_len = if self.buffer_len >= other.buffer_len {
            self.buffer_len
        } else {
            other.buffer_len
        };
        ByteRangeSet { inner: backend_union(&self.inner, &other.inner), buffer_len }
    }

    /// Whether the two sets have no position in common.
    pub fn is_disjoint_from(&self, other: &ByteRangeSet) -> (disjoint: bool)
        ensures
            disjoint == self@.disjoint(other@),
    {
        backend_is_disjoint(&self.inner, &other.inner)
    }

    /// The ranges of the set from left to right: none of them empty, none
    /// touching the next, and together exactly the positions of the set.
    pub fn ranges(&self) -> (list: Vec<ByteRange>)
        ensures
            list@ == canonical_ranges(self@),
            ranges_are_canonical(list@),
            forall|x: int| self@.contains(x) <==> in_byte_ranges(list@, x),
            forall|i: int| 0 <= i < list@.len() ==> (#[trigger] list@[i]).fits(self.spec_buffer_len()),
    {
        proof {
            use_type_invariant(self);
        }
        let pairs = backend_ranges(&self.inner);
        let mut list: Vec<ByteRange> = Vec::new();
        let mut i: usize = 0;
        while i < pairs.len()
            invariant
                0 <= i <= pairs.len(),
                list@.len() == i,
                forall|k: int|
                    0 <= k < i ==> (#[trigger] list@[k]).start == pairs@[k].0 && list@[k].end
                        == pairs@[k].1,
            decreases pairs.len() - i,
        {
            let (start, end) = pairs[i];
            list.push(ByteRange { start, end });
            i += 1;
        }
        proof {
            assert forall|x: int| self@.contains(x) <==> in_byte_ranges(list@, x) by {
                if in_ranges(pairs@, x) {
                    let j = choose|j: int|
                        0 <= j < pairs@.len() && (#[trigger] pairs@[j]).0 <= x < pairs@[j].1;
                    assert(list@[j].start <= x < list@[j].end);
                }
                if in_byte_ranges(list@, x) {
                    let j = choose|j: int|
                        0 <= j < list@.len() && (#[trigger] list@[j]).start <= x < list@[j].end;
                    assert(pairs@[j].0 <= x < pairs@[j].1);
                }
            }
            assert forall|i: int| 0 <= i < list@.len() implies (#[trigger] list@[i]).fits(
                self.spec_buffer_len(),
            ) by {
                let last = list@[i].end - 1;
                assert(pairs@[i].0 <= last < pairs@[i].1);
                assert(in_ranges(pairs@, last));
                assert(self@.contains(last));
            }
        }
        proof {
            lemma_canonical_ranges(list@, self@);
        }
        list
    }

    /// Whether `position` is in the set.
    pub fn contains(&self, position: usize) -> (found: bool)
        ensures
            found == self@.contains(position as int),
    {
        backend_contains(&self.inner, position)
    }

    /// Whether the two sets hold the same positions, whatever the lengths of
    /// their buffers.
    pub fn same_positions(&self, other: &ByteRangeSet) -> (same: bool)
        ensures
            same == (self@ == other@),
    {
        proof {
            use_type_invariant(self);
            use_type_invariant(other);
        }
        let len = if self.buffer_len >= other.buffer_len {
            self.buffer_len
        } else {
            other.buffer_len
        };
        let outside_other = other.complement(len);
        let outside_self = self.complement(len);
        let same = self.is_disjoint_from(&outside_other) && other.is_disjoint_from(&outside_self);
        proof {
            if same {
                assert forall|x: int| self@.contains(x) <==> other@.contains(x) by {
                    if self@.contains(x) && !other@.contains(x) {
                        assert(span(0, len as int).contains(x));
                        assert(outside_other@.contains(x));
                    }
                    if other@.contains(x) && !self@.contains(x) {
                        assert(span(0, len as int).contains(x));
                        assert(outside_self@.contains(x));
                    }
                }
                assert(self@ =~= other@);
            }
        }
        same
    }

    /// Whether the two sets are complementary: they speak of buffers of one
    /// length, have no position in common, and together hold every position
    /// of the buffer.
    pub fn is_complement_of(&self, other: &ByteRangeSet) -> (complementary: bool)
        ensures
            complementary == are_complementary(
                self@,
                self.spec_buffer_len() as int,
                other@,
                other.spec_buffer_len() as int,
            ),
    {
        proof {
            use_type_invariant(self);
            use_type_invariant(other);
        }
        if self.buffer_len != other.buffer_len {
            return false;
        }
        let rest = self.complement(self.buffer_len);
        let complementary = rest.same_positions(other);
        proof {
            let len = self.buffer_len as int;
            if complementary {
                assert(self@.union(other@) =~= span(0, len));
            } else if self@.disjoint(other@) && self@.union(other@) == span(0, len) {
                assert(rest@ =~= other@);
            }
        }
        complementary
    }

    /// The set as the `rangeset` crate holds it, for a caller that hands it on.
    pub fn into_inner(self) -> (inner: rangeset::RangeSet<usize>)
        ensures
            range_set_values(inner) == self@,
    {
        self.inner
    }
}

/// The first of canonical ranges starts at or before every position of any
/// of them.
proof fn lemma_first_range_is_leftmost(ranges: Seq<ByteRange>, x: int)
    requires
        ranges_are_canonical(ranges),
        in_byte_ranges(ranges, x),
    ensures
        ranges.len() > 0,
        ranges[0].start <= x,
{
    let i = choose|i: int|
        0 <= i < ranges.len() && (#[trigger] ranges[i]).start <= x < ranges[i].end;
    if i > 0 {
        assert(ranges[0].start < ranges[0].end);
        assert(ranges[0].end < ranges[i].start);
    }
}

/// Among canonical ranges, the end of the first lies in none of them.
proof fn lemma_first_end_is_a_gap(ranges: Seq<ByteRange>)
    requires
        ranges_are_canonical(ranges),
        ranges.len() > 0,
    ensures
        !in_byte_ranges(ranges, ranges[0].end as int),
{
    let x = ranges[0].end as int;
    if in_byte_ranges(ranges, x) {
        let i = choose|i: int|
            0 <= i < ranges.len() && (#[trigger] ranges[i]).start <= x < ranges[i].end;
        if i > 0 {
            assert(ranges[0].end < ranges[i].start);
        }
    }
}

/// Canonical ranges without their first are canonical, and hold what the
/// others held outside the first.
proof fn lemma_rest_of_ranges(ranges: Seq<ByteRange>, x: int)
    requires
        ranges_are_canonical(ranges),
        ranges.len() > 0,
    ensures
        ranges_are_canonical(ranges.drop_first()),
        in_byte_ranges(ranges.drop_first(), x) <==> in_byte_ranges(ranges, x) && !(
        ranges[0].start <= x < ranges[0].end),
{
    let rest = ranges.drop_first();
    assert forall|i: int| 0 <= i < rest.len() implies (#[trigger] rest[i]).start < rest[i].end by {
        assert(rest[i] == ranges[i + 1]);
    }
    assert forall|i: int, j: int| 0 <= i < j < rest.len() implies (#[trigger] rest[i]).end < (
    #[trigger] rest[j]).start by {
        assert(rest[i] == ranges[i + 1]);
        assert(rest[j] == ranges[j + 1]);
    }
    if in_byte_ranges(rest, x) {
        let i = choose|i: int| 0 <= i < rest.len() && (#[trigger] rest[i]).start <= x < rest[i].end;
        assert(rest[i] == ranges[i + 1]);
        assert(ranges[0].end < ranges[i + 1].start);
        assert(ranges[i + 1].start <= x < ranges[i + 1].end);
    }
    if in_byte_ranges(ranges, x) && !(ranges[0].start <= x < ranges[0].end) {
        let i = choose|i: int|
            0 <= i < ranges.len() && (#[trigger] ranges[i]).start <= x < ranges[i].end;
        assert(rest[i - 1] == ranges[i]);
        assert(rest[i - 1].start <= x < rest[i - 1].end);
    }
}

/// A set of positions has one canonical list of ranges: two canonical lists
/// that hold the same positions are the same list.
pub proof fn lemma_canonical_ranges_are_unique(a: Seq<ByteRange>, b: Seq<ByteRange>)
    requires
        ranges_are_canonical(a),
        ranges_are_canonical(b),
        forall|x: int| in_byte_ranges(a, x) <==> in_byte_ranges(b, x),
    ensures
        a == b,
    decreases a.len(),
{
    if a.len() == 0 || b.len() == 0 {
        if a.len() > 0 {
            assert(a[0].start <= a[0].start < a[0].end);
            assert(in_byte_ranges(a, a[0].start as int));
            lemma_first_range_is_leftmost(b, a[0].start as int);
        }
        if b.len() > 0 {
            assert(b[0].start <= b[0].start < b[0].end);
            assert(in_byte_ranges(b, b[0].start as int));
            lemma_first_range_is_leftmost(a, b[0].start as int);
        }
        assert(a =~= b);
    } else {
        assert(a[0].start <= a[0].start < a[0].end);
        assert(in_byte_ranges(a, a[0].start as int));
        lemma_first_range_is_leftmost(b, a[0].start as int);
        assert(b[0].start <= b[0].start < b[0].end);
        assert(in_byte_ranges(b, b[0].start as int));
        lemma_first_range_is_leftmost(a, b[0].start as int);
        assert(a[0].start == b[0].start);
        lemma_first_end_is_a_gap(a);
        lemma_first_end_is_a_gap(b);
        if a[0].end < b[0].end {
            assert(b[0].start <= a[0].end < b[0].end);
            assert(in_byte_ranges(b, a[0].end as int));
        }
        if b[0].end < a[0].end {
            assert(a[0].start <= b[0].end < a[0].end);
            assert(in_byte_ranges(a, b[0].end as int));
        }
        assert(a[0] == b[0]);
        assert forall|x: int|
            in_byte_ranges(a.drop_first(), x) <==> in_byte_ranges(b.drop_first(), x) by {
            lemma_rest_of_ranges(a, x);
            lemma_rest_of_ranges(b, x);
        }
        lemma_rest_of_ranges(a, 0);
        lemma_rest_of_ranges(b, 0);
        lemma_canonical_ranges_are_unique(a.drop_first(), b.drop_first());
        assert(a =~= seq![a[0]] + a.drop_first());
        assert(b =~= seq![b[0]] + b.drop_first());
    }
}

/// Ranges that are the canonical ranges of a set are the ones that
/// `canonical_ranges` names.
pub proof fn lemma_canonical_ranges(ranges: Seq<ByteRange>, positions: Set<int>)
    requires
        ranges_cover(ranges, positions),
    ensures
        canonical_ranges(positions) == ranges,
{
    lemma_canonical_ranges_are_unique(canonical_ranges(positions), ranges);
}

/// Positions in a row that canonical ranges hold lie in one of the ranges
/// together.
pub proof fn lemma_row_lies_in_one_range(ranges: Seq<ByteRange>, from: int, to: int)
    requires
        ranges_are_canonical(ranges),
        from < to,
        forall|x: int| from <= x < to ==> in_byte_ranges(ranges, x),
    ensures
        exists|i: int|
            0 <= i < ranges.len() && (#[trigger] ranges[i]).start <= from && to <= ranges[i].end,
    decreases to - from,
{
    if to - from == 1 {
        assert(in_byte_ranges(ranges, from));
        let i = choose|i: int|
            0 <= i < ranges.len() && (#[trigger] ranges[i]).start <= from < ranges[i].end;
        assert(ranges[i].start <= from && to <= ranges[i].end);
    } else {
        lemma_row_lies_in_one_range(ranges, from, to - 1);
        let i = choose|i: int|
            0 <= i < ranges.len() && (#[trigger] ranges[i]).start <= from && to - 1
                <= ranges[i].end;
        assert(in_byte_ranges(ranges, to - 1));
        let j = choose|j: int|
            0 <= j < ranges.len() && (#[trigger] ranges[j]).start <= to - 1 < ranges[j].end;
        if i < j {
            assert(ranges[i].end < ranges[j].start);
        }
        if j < i {
            assert(ranges[j].end < ranges[i].start);
        }
        assert(ranges[i].start <= from && to <= ranges[i].end);
    }
}

/// A set that is well formed holds no position outside its buffer.
pub proof fn lemma_positions_in_buffer(set: ByteRangeSet)
    requires
        set.wf(),
    ensures
        set@.subset_of(span(0, set.spec_buffer_len() as int)),
{
}

/// Taking the complement twice over the buffer of a set gives the set back.
pub proof fn lemma_complement_involutive(set: ByteRangeSet, len: usize)
    requires
        set.wf(),
        set.spec_buffer_len() == len,
    ensures
        complement_of(complement_of(set@, len as int), len as int) == set@,
{
    assert(complement_of(complement_of(set@, len as int), len as int) =~= set@);
}

/// A set and its complement over the set's buffer have no position in common,
/// and together they are every position of the buffer and no other: the two
/// are complementary.
pub proof fn lemma_complement_total(set: ByteRangeSet, len: usize)
    requires
        set.wf(),
        set.spec_buffer_len() == len,
    ensures
        set@.union(complement_of(set@, len as int)) == span(0, len as int),
        set@.disjoint(complement_of(set@, len as int)),
        are_complementary(set@, len as int, complement_of(set@, len as int), len as int),
{
    assert(set@.union(complement_of(set@, len as int)) =~= span(0, len as int));
}

/// The complement of the empty set is the whole buffer, and the complement of
/// the whole buffer is empty.
pub proof fn lemma_complement_of_extremes(len: usize)
    ensures
        complement_of(Set::<int>::empty(), len as int) == span(0, len as int),
        complement_of(span(0, len as int), len as int) == Set::<int>::empty(),
{
    assert(complement_of(Set::<int>::empty(), len as int) =~= span(0, len as int));
    assert(complement_of(span(0, len as int), len as int) =~= Set::<int>::empty());
}

} // verus!

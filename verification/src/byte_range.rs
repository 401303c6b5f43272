//! Half-open ranges of byte offsets.

use vstd::prelude::*;

verus! {

/// The offsets from `start` up to, not including, `end`.
#[derive(Clone, Copy, Debug, PartialEq, Eq, Structural)]
pub struct ByteRange {
    pub start: usize,
    pub end: usize,
}

impl ByteRange {
    /// The offsets that the interval holds.
    pub open spec fn offsets(self) -> Set<int> {
        Set::new(|x: int| self.start <= x < self.end)
    }

    pub open spec fn spec_is_empty(self) -> bool {
        self.end <= self.start
    }

    pub open spec fn spec_contains(self, val: usize) -> bool {
        self.start <= val < self.end
    }

    pub open spec fn spec_intersect(self, other: ByteRange) -> ByteRange {
        let start = if self.start >= other.start { self.start } else { other.start };
        let end = if self.end <= other.end { self.end } else { other.end };
        ByteRange { start, end: if start >= end { start } else { end } }
    }

    pub open spec fn spec_union(self, other: ByteRange) -> ByteRange {
        if self.spec_is_empty() {
            other
        } else if other.spec_is_empty() {
            self
        } else {
            ByteRange {
                start: if self.start <= other.start { self.start } else { other.start },
                end: if self.end >= other.end { self.end } else { other.end },
            }
        }
    }

    pub fn new(start: usize, end: usize) -> (range: ByteRange)
        ensures
            range == (ByteRange { start, end }),
    {
        ByteRange { start, end }
    }

    /// The range of the offsets from `first` to `last`, both included.
    pub fn inclusive(first: usize, last: usize) -> (range: ByteRange)
        ensures
            range.start == first,
            range.end == if last == usize::MAX { last } else { (last + 1) as usize },
    {
        ByteRange { start: first, end: last.saturating_add(1) }
    }

    #[verifier::when_used_as_spec(spec_is_empty)]
    pub fn is_empty(self) -> (empty: bool)
        ensures
            empty == self.spec_is_empty(),
            empty <==> self.offsets() =~= Set::<int>::empty(),
    {
        proof {
            if self.start < self.end {
                assert(self.offsets().contains(self.start as int));
            }
        }
        self.end <= self.start
    }

    pub fn size(self) -> (size: usize)
        ensures
            size == if self.start <= self.end { self.end - self.start } else { 0 },
    {
        if self.start <= self.end {
            self.end - self.start
        } else {
            0
        }
    }

    #[verifier::when_used_as_spec(spec_contains)]
    pub fn contains(self, val: usize) -> (inside: bool)
        ensures
            inside == self.spec_contains(val),
            inside == self.offsets().contains(val as int),
    {
        self.start <= val && val < self.end
    }

    /// The offsets that lie in both intervals. Where there are none, the
    /// result is empty and starts at the later of the two starts.
    #[verifier::when_used_as_spec(spec_intersect)]
    pub fn intersect(self, other: ByteRange) -> (both: ByteRange)
        ensures
            both == self.spec_intersect(other),
            both.start <= both.end,
            both.offsets() =~= self.offsets().intersect(other.offsets()),
    {
        let start = if self.start >= other.start { self.start } else { other.start };
        let end = if self.end <= other.end { self.end } else { other.end };
        ByteRange { start, end: if start >= end { start } else { end } }
    }

    /// The smallest interval that holds both intervals; an empty one counts
    /// for nothing.
    #[verifier::when_used_as_spec(spec_union)]
    pub fn union(self, other: ByteRange) -> (hull: ByteRange)
        ensures
            hull == self.spec_union(other),
            self.offsets().subset_of(hull.offsets()),
            other.offsets().subset_of(hull.offsets()),
    {
        if self.end <= self.start {
            other
        } else if other.end <= other.start {
            self
        } else {
            ByteRange {
                start: if self.start <= other.start { self.start } else { other.start },
                end: if self.end >= other.end { self.end } else { other.end },
            }
        }
    }
}


/// Whether `x` lies in one of the ranges.
pub open spec fn covered(ranges: Seq<ByteRange>, x: int) -> bool {
    exists|i: int| 0 <= i < ranges.len() && (#[trigger] ranges[i]).start <= x < ranges[i].end
}

/// Whether the ranges are in order and apart: none is empty, and each ends
/// before the ones behind it start.
pub open spec fn ranges_sorted(ranges: Seq<ByteRange>) -> bool {
    &&& forall|i: int| 0 <= i < ranges.len() ==> (#[trigger] ranges[i]).start < ranges[i].end
    &&& forall|i: int, j: int|
        0 <= i < j < ranges.len() ==> (#[trigger] ranges[i]).end < (#[trigger] ranges[j]).start
}

/// Whether no range reaches behind `len`.
pub open spec fn ranges_within(ranges: Seq<ByteRange>, len: int) -> bool {
    forall|i: int| 0 <= i < ranges.len() ==> (#[trigger] ranges[i]).end <= len
}

/// Adds a range to ranges that are in order and apart. What it overlaps or
/// touches grows together with it.
pub fn insert_range(ranges: &Vec<ByteRange>, added: ByteRange) -> (merged: Vec<ByteRange>)
    requires
        ranges_sorted(ranges@),
    ensures
        ranges_sorted(merged@),
        forall|x: int|
            #[trigger] covered(merged@, x) <==> covered(ranges@, x) || added.start <= x
                < added.end,
        forall|len: int|
            ranges_within(ranges@, len) && added.end <= len ==> #[trigger] ranges_within(
                merged@,
                len,
            ),
{
    let n = ranges.len();
    let mut out: Vec<ByteRange> = Vec::new();
    let mut first: usize = 0;
    while first < n && (added.end <= added.start || ranges[first].end < added.start)
        invariant
            first <= n,
            n == ranges@.len(),
            out@ == ranges@.subrange(0, first as int),
            added.start < added.end ==> forall|k: int|
                0 <= k < first ==> (#[trigger] ranges@[k]).end < added.start,
        decreases n - first,
    {
        out.push(ranges[first]);
        assert(out@ =~= ranges@.subrange(0, first + 1));
        first += 1;
    }
    if added.end <= added.start {
        assert(out@ =~= ranges@);
        assert forall|x: int| #[trigger] covered(out@, x) <==> covered(ranges@, x) || added.start
            <= x < added.end by {}
        return out;
    }
    let mut behind: usize = first;
    while behind < n && ranges[behind].start <= added.end
        invariant
            first <= behind <= n,
            n == ranges@.len(),
            forall|k: int| first <= k < behind ==> (#[trigger] ranges@[k]).start <= added.end,
        decreases n - behind,
    {
        behind += 1;
    }
    let grown = if first < behind {
        ByteRange {
            start: if added.start <= ranges[first].start { added.start } else { ranges[first].start },
            end: if added.end >= ranges[behind - 1].end { added.end } else { ranges[behind - 1].end },
        }
    } else {
        added
    };
    out.push(grown);
    let mut k: usize = behind;
    while k < n
        invariant
            behind <= k <= n,
            n == ranges@.len(),
            out@ == ranges@.subrange(0, first as int).push(grown) + ranges@.subrange(
                behind as int,
                k as int,
            ),
        decreases n - k,
    {
        out.push(ranges[k]);
        assert(out@ =~= ranges@.subrange(0, first as int).push(grown) + ranges@.subrange(
            behind as int,
            k + 1,
        ));
        k += 1;
    }
    proof {
        let list = ranges@;
        let made = out@;
        let a = first as int;
        let b = behind as int;
        assert(made.len() == a + 1 + (n - b));
        assert forall|j: int| 0 <= j < made.len() implies #[trigger] made[j] == (if j < a {
            list[j]
        } else if j == a {
            grown
        } else {
            list[j - a - 1 + b]
        }) by {}
        assert forall|m: int| a <= m < b implies grown.start <= (#[trigger] list[m]).start
            && list[m].end <= grown.end by {
            if a < m {
                assert(list[a].end < list[m].start);
            }
            if m < b - 1 {
                assert(list[m].end < list[b - 1].start);
            }
        }
        assert(ranges_sorted(made)) by {
            assert forall|i: int| 0 <= i < made.len() implies (#[trigger] made[i]).start
                < made[i].end by {
                if i < a {
                    assert(list[i].start < list[i].end);
                } else if i > a {
                    assert(list[i - a - 1 + b].start < list[i - a - 1 + b].end);
                }
            }
            assert forall|i: int, j: int| 0 <= i < j < made.len() implies (#[trigger] made[i]).end
                < (#[trigger] made[j]).start by {
                let src_i = if i < a { i } else { i - a - 1 + b };
                let src_j = if j < a { j } else { j - a - 1 + b };
                if i < a && j == a {
                    assert(list[i].end < added.start);
                    if a < b {
                        assert(list[i].end < list[a].start);
                    }
                } else if i == a && j > a {
                    assert(list[b].start > added.end);
                    if a < b {
                        assert(list[b - 1].end < list[src_j].start);
                    }
                    if b < src_j {
                        assert(list[b].end < list[src_j].start);
                        assert(list[b].start < list[b].end);
                    }
                } else {
                    assert(list[src_i].end < list[src_j].start);
                }
            }
        }
        assert forall|x: int| #[trigger] covered(made, x) <==> covered(list, x) || added.start <= x
            < added.end by {
            if covered(made, x) {
                let j = choose|j: int| 0 <= j < made.len() && (#[trigger] made[j]).start <= x
                    < made[j].end;
                if j < a {
                    assert(list[j].start <= x < list[j].end);
                } else if j > a {
                    assert(list[j - a - 1 + b].start <= x < list[j - a - 1 + b].end);
                } else if !(added.start <= x < added.end) {
                    if x < added.start {
                        assert(list[a].start <= x < list[a].end);
                    } else {
                        assert(list[b - 1].start <= x < list[b - 1].end);
                    }
                }
            }
            if covered(list, x) {
                let m = choose|m: int| 0 <= m < list.len() && (#[trigger] list[m]).start <= x
                    < list[m].end;
                if m < a {
                    assert(made[m].start <= x < made[m].end);
                } else if m >= b {
                    assert(made[m - b + a + 1] == list[m]);
                    assert(made[m - b + a + 1].start <= x < made[m - b + a + 1].end);
                } else {
                    assert(made[a].start <= x < made[a].end);
                }
            }
            if added.start <= x < added.end {
                assert(made[a].start <= x < made[a].end);
            }
        }
        assert forall|len: int|
            ranges_within(list, len) && added.end <= len implies #[trigger] ranges_within(
            made,
            len,
        ) by {
            assert forall|j: int| 0 <= j < made.len() implies (#[trigger] made[j]).end <= len by {
                if j < a {
                    assert(list[j].end <= len);
                } else if j > a {
                    assert(list[j - a - 1 + b].end <= len);
                } else if a < b {
                    assert(list[b - 1].end <= len);
                }
            }
        }
    }
    out
}

/// Every offset that the ranges up to `i` cover.
pub open spec fn covered_upto(ranges: Seq<ByteRange>, i: int, x: int) -> bool {
    covered(ranges.subrange(0, i), x)
}

/// The ranges in order and apart that cover what the given ranges cover.
pub fn normalize(ranges: &Vec<ByteRange>) -> (merged: Vec<ByteRange>)
    ensures
        ranges_sorted(merged@),
        forall|x: int| #[trigger] covered(merged@, x) <==> covered(ranges@, x),
        forall|len: int| ranges_within(ranges@, len) ==> #[trigger] ranges_within(merged@, len),
{
    let mut merged: Vec<ByteRange> = Vec::new();
    let mut i: usize = 0;
    while i < ranges.len()
        invariant
            i <= ranges@.len(),
            ranges_sorted(merged@),
            forall|x: int| #[trigger] covered(merged@, x) <==> covered_upto(ranges@, i as int, x),
            forall|len: int|
                ranges_within(ranges@, len) ==> #[trigger] ranges_within(merged@, len),
        decreases ranges@.len() - i,
    {
        let ghost before = merged@;
        let added = ranges[i];
        merged = insert_range(&merged, added);
        proof {
            let shorter = ranges@.subrange(0, i as int);
            let longer = ranges@.subrange(0, i + 1);
            assert forall|x: int| #[trigger] covered(merged@, x) <==> covered_upto(
                ranges@,
                i + 1,
                x,
            ) by {
                assert(covered(merged@, x) <==> covered(before, x) || added.start <= x
                    < added.end);
                assert(covered(before, x) <==> covered_upto(ranges@, i as int, x));
                if covered(shorter, x) {
                    let m = choose|m: int| 0 <= m < shorter.len() && (#[trigger] shorter[m]).start
                        <= x < shorter[m].end;
                    assert(longer[m] == shorter[m]);
                }
                if added.start <= x < added.end {
                    assert(longer[i as int] == added);
                }
                if covered(longer, x) {
                    let m = choose|m: int| 0 <= m < longer.len() && (#[trigger] longer[m]).start
                        <= x < longer[m].end;
                    if m < i {
                        assert(shorter[m] == longer[m]);
                    }
                }
            }
            assert forall|len: int| ranges_within(ranges@, len) implies #[trigger] ranges_within(
                merged@,
                len,
            ) by {
                assert(ranges_within(before, len));
                assert(ranges@[i as int].end <= len);
            }
        }
        i += 1;
    }
    proof {
        assert(ranges@.subrange(0, ranges@.len() as int) =~= ranges@);
    }
    merged
}


/// The ranges, in order and apart, of the offsets in `[lo, hi)` that the
/// given ranges do not cover.
pub fn gaps(ranges: &Vec<ByteRange>, lo: usize, hi: usize) -> (free: Vec<ByteRange>)
    requires
        ranges_sorted(ranges@),
    ensures
        ranges_sorted(free@),
        forall|x: int| #[trigger] covered(free@, x) <==> lo <= x < hi && !covered(ranges@, x),
{
    let mut free: Vec<ByteRange> = Vec::new();
    let mut cur: usize = lo;
    let mut i: usize = 0;
    while i < ranges.len()
        invariant
            i <= ranges@.len(),
            ranges_sorted(ranges@),
            ranges_sorted(free@),
            lo <= cur,
            cur == lo || (i > 0 && cur == ranges@[i - 1].end),
            forall|j: int| 0 <= j < i ==> (#[trigger] ranges@[j]).end <= cur,
            free@.len() > 0 ==> free@.last().end < cur,
            forall|x: int|
                #[trigger] covered(free@, x) <==> lo <= x < cur && x < hi && !covered(ranges@, x),
        decreases ranges@.len() - i,
    {
        let range = ranges[i];
        let ghost before = free@;
        let ghost old_cur = cur;
        proof {
            assert(ranges@[i as int].start < ranges@[i as int].end);
            if i > 0 {
                assert(ranges@[i - 1].end < ranges@[i as int].start);
            }
            assert forall|j: int| i < j < ranges@.len() implies range.end < (
            #[trigger] ranges@[j]).start by {
                assert(ranges@[i as int].end < ranges@[j].start);
            }
        }
        let mut pushed = false;
        if range.start > cur && cur < hi {
            let stop = if range.start < hi { range.start } else { hi };
            free.push(ByteRange { start: cur, end: stop });
            pushed = true;
        }
        if range.end > cur {
            cur = range.end;
        }
        proof {
            let gap = ByteRange {
                start: old_cur,
                end: if range.start < hi { range.start } else { hi },
            };
            if pushed {
                assert(free@ == before.push(gap));
                assert forall|a: int, b: int| 0 <= a < b < free@.len() implies (
                #[trigger] free@[a]).end < (#[trigger] free@[b]).start by {
                    if b == before.len() {
                        if a < before.len() - 1 {
                            assert(before[a].end < before[before.len() - 1].start);
                            assert(before[before.len() - 1].start < before[before.len() - 1].end);
                        }
                    } else {
                        assert(before[a].end < before[b].start);
                    }
                }
                assert forall|a: int| 0 <= a < free@.len() implies (#[trigger] free@[a]).start
                    < free@[a].end by {
                    if a < before.len() {
                        assert(before[a].start < before[a].end);
                    }
                }
            }
            assert forall|x: int| #[trigger] covered(free@, x) <==> lo <= x < cur && x < hi
                && !covered(ranges@, x) by {
                if covered(free@, x) {
                    let a = choose|a: int| 0 <= a < free@.len() && (#[trigger] free@[a]).start <= x
                        < free@[a].end;
                    if pushed && a == before.len() {
                        if covered(ranges@, x) {
                            let m = choose|m: int| 0 <= m < ranges@.len() && (
                            #[trigger] ranges@[m]).start <= x < ranges@[m].end;
                            if m < i {
                                assert(ranges@[m].end <= old_cur);
                            } else if m > i {
                                assert(range.end < ranges@[m].start);
                            }
                        }
                    } else {
                        assert(before[a].start <= x < before[a].end);
                        assert(covered(before, x));
                    }
                }
                if lo <= x < cur && x < hi && !covered(ranges@, x) {
                    if x < old_cur {
                        assert(covered(before, x));
                        let a = choose|a: int| 0 <= a < before.len() && (
                        #[trigger] before[a]).start <= x < before[a].end;
                        assert(free@[a] == before[a]);
                    } else {
                        assert(!(ranges@[i as int].start <= x < ranges@[i as int].end));
                        assert(pushed);
                        assert(free@[before.len() as int] == gap);
                        assert(gap.start <= x < gap.end);
                    }
                }
            }
        }
        i += 1;
    }
    if cur < hi {
        let ghost before = free@;
        let tail = ByteRange { start: cur, end: hi };
        free.push(tail);
        proof {
            assert forall|a: int, b: int| 0 <= a < b < free@.len() implies (#[trigger] free@[a]).end
                < (#[trigger] free@[b]).start by {
                if b == before.len() {
                    if a < before.len() - 1 {
                        assert(before[a].end < before[before.len() - 1].start);
                        assert(before[before.len() - 1].start < before[before.len() - 1].end);
                    }
                } else {
                    assert(before[a].end < before[b].start);
                }
            }
            assert forall|a: int| 0 <= a < free@.len() implies (#[trigger] free@[a]).start
                < free@[a].end by {
                if a < before.len() {
                    assert(before[a].start < before[a].end);
                }
            }
            assert forall|x: int| #[trigger] covered(free@, x) <==> lo <= x < hi && !covered(
                ranges@,
                x,
            ) by {
                if covered(free@, x) {
                    let a = choose|a: int| 0 <= a < free@.len() && (#[trigger] free@[a]).start <= x
                        < free@[a].end;
                    if a == before.len() {
                        if covered(ranges@, x) {
                            let m = choose|m: int| 0 <= m < ranges@.len() && (
                            #[trigger] ranges@[m]).start <= x < ranges@[m].end;
                            assert(ranges@[m].end <= cur);
                        }
                    } else {
                        assert(before[a].start <= x < before[a].end);
                        assert(covered(before, x));
                    }
                }
                if lo <= x < hi && !covered(ranges@, x) {
                    if x < cur {
                        assert(covered(before, x));
                        let a = choose|a: int| 0 <= a < before.len() && (
                        #[trigger] before[a]).start <= x < before[a].end;
                        assert(free@[a] == before[a]);
                    } else {
                        assert(free@[before.len() as int] == tail);
                    }
                }
            }
        }
    }
    free
}

} // verus!

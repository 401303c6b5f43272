//! The edits that a selection asks for, as deltas on the buffer.

use vstd::prelude::*;
use crate::byte_range::{covered, insert_range, normalize, ranges_sorted, ranges_within, ByteRange};
use crate::byte_rope::{chunk_views, Rope};
use crate::delta::{
    element_views, DeltaView, lemma_apply_len, lemma_builder_pieces, lemma_pieces_push, lemma_sorted_push,
    lemma_tail_piece, pieces_apply, pieces_edit, pieces_finish, pieces_len, Builder, DeltaElement,
    Piece, RopeDelta,
};
use crate::selection::{SelRegion, Selection, SelectionView};

verus! {

/// `n` times the byte of `fill`, nothing where there is none.
pub open spec fn fill_bytes(fill: Option<u8>, n: int) -> Seq<u8> {
    match fill {
        None => Seq::empty(),
        Some(byte) => Seq::new(n as nat, |i: int| byte),
    }
}

/// The first `upto` bytes of `base` after each byte that the ranges cover was
/// removed, or replaced by the byte of `fill` where there is one.
pub open spec fn rewritten(base: Seq<u8>, ranges: Seq<ByteRange>, fill: Option<u8>, upto: int) -> Seq<u8>
    decreases upto,
{
    if upto <= 0 {
        Seq::empty()
    } else {
        let before = rewritten(base, ranges, fill, upto - 1);
        if covered(ranges, upto - 1) {
            match fill {
                None => before,
                Some(byte) => before.push(byte),
            }
        } else {
            before.push(base[upto - 1])
        }
    }
}

/// Where the first `k` of the ranges end.
pub open spec fn last_end(ranges: Seq<ByteRange>, k: int) -> int {
    if k <= 0 {
        0
    } else {
        ranges[k - 1].end as int
    }
}

/// The pieces that rewrite the first `k` of the ranges.
pub open spec fn span_pieces(ranges: Seq<ByteRange>, fill: Option<u8>, k: int) -> Seq<Piece>
    decreases k,
{
    if k <= 0 {
        Seq::empty()
    } else {
        pieces_edit(
            span_pieces(ranges, fill, k - 1),
            last_end(ranges, k - 1),
            ranges[k - 1].start as int,
            ranges[k - 1].end as int,
            fill_bytes(fill, ranges[k - 1].end - ranges[k - 1].start),
        )
    }
}

/// The pieces that rewrite ranges which are in order and apart, in a buffer
/// of `base_len` bytes.
pub open spec fn rewrite_pieces(ranges: Seq<ByteRange>, fill: Option<u8>, base_len: int) -> Seq<Piece> {
    pieces_finish(
        span_pieces(ranges, fill, ranges.len() as int),
        last_end(ranges, ranges.len() as int),
        base_len,
    )
}

/// Whether `delta` is the delta that removes the bytes that `ranges` cover
/// from a buffer of `len` bytes, or writes the byte of `fill` over them: its
/// pieces rewrite the ranges, in order and apart, that cover what `ranges`
/// cover.
pub open spec fn is_rewrite(delta: DeltaView, ranges: Seq<ByteRange>, fill: Option<u8>, len: nat) -> bool {
    exists|merged: Seq<ByteRange>|
        {
            &&& ranges_sorted(merged)
            &&& forall|x: int| covered(merged, x) <==> #[trigger] covered(ranges, x)
            &&& delta.pieces == rewrite_pieces(merged, fill, len as int)
            &&& delta.base_len == len
        }
}

/// The pieces that make the insertions `points`, sorted by their offsets, in
/// a buffer of `base_len` bytes.
pub open spec fn insertion_pieces(points: Seq<InsertionView>, base_len: int) -> Seq<Piece> {
    pieces_finish(
        point_pieces(in_order(points), points.len() as int),
        last_at(in_order(points), points.len() as int),
        base_len,
    )
}

/// Offsets that no range covers are kept.
pub proof fn lemma_rewritten_gap(base: Seq<u8>, ranges: Seq<ByteRange>, fill: Option<u8>, from: int, to: int)
    requires
        0 <= from <= to <= base.len(),
        forall|x: int| from <= x < to ==> !covered(ranges, x),
    ensures
        rewritten(base, ranges, fill, to) == rewritten(base, ranges, fill, from) + base.subrange(
            from,
            to,
        ),
    decreases to - from,
{
    if from == to {
        assert(rewritten(base, ranges, fill, from) + base.subrange(from, to) =~= rewritten(
            base,
            ranges,
            fill,
            from,
        ));
    } else {
        lemma_rewritten_gap(base, ranges, fill, from, to - 1);
        assert(!covered(ranges, to - 1));
        assert(rewritten(base, ranges, fill, from) + base.subrange(from, to - 1).push(base[to - 1])
            =~= rewritten(base, ranges, fill, from) + base.subrange(from, to));
        assert((rewritten(base, ranges, fill, from) + base.subrange(from, to - 1)).push(
            base[to - 1],
        ) =~= rewritten(base, ranges, fill, from) + base.subrange(from, to - 1).push(base[to - 1]));
    }
}

/// Offsets that a range covers are removed or filled.
pub proof fn lemma_rewritten_run(base: Seq<u8>, ranges: Seq<ByteRange>, fill: Option<u8>, from: int, to: int)
    requires
        0 <= from <= to <= base.len(),
        forall|x: int| from <= x < to ==> covered(ranges, x),
    ensures
        rewritten(base, ranges, fill, to) == rewritten(base, ranges, fill, from) + fill_bytes(
            fill,
            to - from,
        ),
    decreases to - from,
{
    if from == to {
        assert(rewritten(base, ranges, fill, from) + fill_bytes(fill, to - from) =~= rewritten(
            base,
            ranges,
            fill,
            from,
        ));
    } else {
        lemma_rewritten_run(base, ranges, fill, from, to - 1);
        assert(covered(ranges, to - 1));
        match fill {
            None => {
                assert(rewritten(base, ranges, fill, from) + fill_bytes(fill, to - from)
                    =~= rewritten(base, ranges, fill, from) + fill_bytes(fill, to - 1 - from));
            },
            Some(byte) => {
                assert((rewritten(base, ranges, fill, from) + fill_bytes(
                    fill,
                    to - 1 - from,
                )).push(byte) =~= rewritten(base, ranges, fill, from) + fill_bytes(
                    fill,
                    to - from,
                ));
            },
        }
    }
}

/// What is rewritten depends only on which offsets the ranges cover.
pub proof fn lemma_rewritten_same(base: Seq<u8>, first: Seq<ByteRange>, second: Seq<ByteRange>, fill: Option<u8>, upto: int)
    requires
        forall|x: int| 0 <= x < upto ==> (covered(first, x) <==> covered(second, x)),
    ensures
        rewritten(base, first, fill, upto) == rewritten(base, second, fill, upto),
    decreases upto,
{
    if upto > 0 {
        lemma_rewritten_same(base, first, second, fill, upto - 1);
        assert(covered(first, upto - 1) <==> covered(second, upto - 1));
    }
}

/// Nothing gets longer by being rewritten.
pub proof fn lemma_rewritten_len(base: Seq<u8>, ranges: Seq<ByteRange>, fill: Option<u8>, upto: int)
    ensures
        rewritten(base, ranges, fill, upto).len() <= if upto <= 0 { 0 } else { upto },
    decreases upto,
{
    if upto > 0 {
        lemma_rewritten_len(base, ranges, fill, upto - 1);
    }
}

/// The pieces for the first `k` ranges make what is rewritten up to their end.
pub proof fn lemma_span_pieces(base: Seq<u8>, ranges: Seq<ByteRange>, fill: Option<u8>, k: int)
    requires
        ranges_sorted(ranges),
        ranges_within(ranges, base.len() as int),
        0 <= k <= ranges.len(),
    ensures
        pieces_apply(span_pieces(ranges, fill, k), base) == rewritten(
            base,
            ranges,
            fill,
            last_end(ranges, k),
        ),
        0 <= last_end(ranges, k) <= base.len(),
    decreases k,
{
    if k > 0 {
        lemma_span_pieces(base, ranges, fill, k - 1);
        let range = ranges[k - 1];
        let last = last_end(ranges, k - 1);
        if k > 1 {
            assert(ranges[k - 2].end < ranges[k - 1].start);
        }
        assert(range.start < range.end);
        assert(range.end <= base.len());
        assert forall|x: int| last <= x < range.start implies !covered(ranges, x) by {
            if covered(ranges, x) {
                let m = choose|m: int| 0 <= m < ranges.len() && (#[trigger] ranges[m]).start <= x
                    < ranges[m].end;
                if m < k - 1 {
                    if m < k - 2 {
                        assert(ranges[m].end < ranges[k - 2].start);
                        assert(ranges[k - 2].start < ranges[k - 2].end);
                    }
                } else if m > k - 1 {
                    assert(ranges[k - 1].end < ranges[m].start);
                }
            }
        }
        assert forall|x: int| range.start <= x < range.end implies covered(ranges, x) by {
            assert(ranges[k - 1].start <= x < ranges[k - 1].end);
        }
        lemma_rewritten_gap(base, ranges, fill, last, range.start as int);
        lemma_rewritten_run(base, ranges, fill, range.start as int, range.end as int);
        lemma_builder_pieces(
            span_pieces(ranges, fill, k - 1),
            last,
            range.start as int,
            range.end as int,
            fill_bytes(fill, range.end - range.start),
            base,
        );
    }
}

/// The finished pieces make what is rewritten in all of the base.
pub proof fn lemma_rewrite_pieces(base: Seq<u8>, ranges: Seq<ByteRange>, fill: Option<u8>)
    requires
        ranges_sorted(ranges),
        ranges_within(ranges, base.len() as int),
    ensures
        pieces_apply(
            pieces_finish(
                span_pieces(ranges, fill, ranges.len() as int),
                last_end(ranges, ranges.len() as int),
                base.len() as int,
            ),
            base,
        ) == rewritten(base, ranges, fill, base.len() as int),
{
    let n = ranges.len() as int;
    let last = last_end(ranges, n);
    lemma_span_pieces(base, ranges, fill, n);
    lemma_tail_piece(span_pieces(ranges, fill, n), last, base);
    assert forall|x: int| last <= x < base.len() implies !covered(ranges, x) by {
        if covered(ranges, x) {
            let m = choose|m: int| 0 <= m < ranges.len() && (#[trigger] ranges[m]).start <= x
                < ranges[m].end;
            if m < n - 1 {
                assert(ranges[m].end < ranges[n - 1].start);
                assert(ranges[n - 1].start < ranges[n - 1].end);
            }
        }
    }
    lemma_rewritten_gap(base, ranges, fill, last, base.len() as int);
}

/// A vector of `n` times `byte`.
pub fn repeated_byte(byte: u8, n: usize) -> (bytes: Vec<u8>)
    ensures
        bytes@ == Seq::new(n as nat, |i: int| byte),
{
    let mut bytes: Vec<u8> = Vec::new();
    let mut i: usize = 0;
    while i < n
        invariant
            i <= n,
            bytes@ == Seq::new(i as nat, |k: int| byte),
        decreases n - i,
    {
        bytes.push(byte);
        assert(bytes@ =~= Seq::new((i + 1) as nat, |k: int| byte));
        i += 1;
    }
    bytes
}

/// The delta that removes the bytes that the ranges cover, or writes the byte
/// of `fill` over each of them.
pub fn rewrite_ranges(ranges: &Vec<ByteRange>, fill: Option<u8>, base_len: usize) -> (delta:
    RopeDelta)
    requires
        ranges_sorted(ranges@),
        ranges_within(ranges@, base_len as int),
    ensures
        delta.base_len == base_len,
        delta@.pieces == rewrite_pieces(ranges@, fill, base_len as int),
        delta@.ordered(),
        delta@.fits(base_len as nat),
        delta@.new_len() <= base_len,
        forall|base: Seq<u8>|
            base.len() == base_len ==> #[trigger] delta@.apply(base) == rewritten(
                base,
                ranges@,
                fill,
                base_len as int,
            ),
{
    let mut builder = Builder::new(base_len);
    let mut k: usize = 0;
    while k < ranges.len()
        invariant
            k <= ranges@.len(),
            ranges_sorted(ranges@),
            ranges_within(ranges@, base_len as int),
            builder.wf(),
            builder.base_len == base_len,
            builder.last_offset == last_end(ranges@, k as int),
            builder.pieces() == span_pieces(ranges@, fill, k as int),
        decreases ranges@.len() - k,
    {
        let range = ranges[k];
        proof {
            if k > 0 {
                assert(ranges@[k - 1].end < ranges@[k as int].start);
            }
            assert(ranges@[k as int].start < ranges@[k as int].end);
            assert(ranges@[k as int].end <= base_len);
        }
        let bytes = match fill {
            None => Vec::new(),
            Some(byte) => repeated_byte(byte, range.end - range.start),
        };
        assert(bytes@ =~= fill_bytes(fill, range.end - range.start));
        builder.replace(range.start, range.end, bytes);
        k += 1;
    }
    let delta = builder.build();
    proof {
        assert forall|base: Seq<u8>| base.len() == base_len implies #[trigger] delta@.apply(base)
            == rewritten(base, ranges@, fill, base_len as int) by {
            lemma_rewrite_pieces(base, ranges@, fill);
        }
        let zeros = Seq::<u8>::new(base_len as nat, |i: int| 0u8);
        assert(delta@.apply(zeros) == rewritten(zeros, ranges@, fill, base_len as int));
        lemma_apply_len(delta@.pieces, zeros);
        lemma_rewritten_len(zeros, ranges@, fill, base_len as int);
    }
    delta
}

/// The range of the bytes of `region` that lie in a buffer of `len` bytes.
pub open spec fn region_range(region: SelRegion, len: usize) -> ByteRange {
    ByteRange {
        start: if region.min() < len { region.min() } else { len },
        end: if region.max() < len { (region.max() + 1) as usize } else { len },
    }
}

/// The ranges of the bytes that the regions of a selection hold.
pub open spec fn selected(selection: SelectionView, len: usize) -> Seq<ByteRange> {
    Seq::new(selection.regions.len(), |i: int| region_range(selection.regions[i], len))
}

/// The range of the byte before the caret of `region`.
pub open spec fn before_caret(region: SelRegion, len: usize) -> ByteRange {
    let caret = if region.caret < len { region.caret } else { len };
    ByteRange { start: if caret == 0 { 0 } else { (caret - 1) as usize }, end: caret }
}

/// The ranges of the bytes before the carets of a selection.
pub open spec fn before_carets(selection: SelectionView, len: usize) -> Seq<ByteRange> {
    Seq::new(selection.regions.len(), |i: int| before_caret(selection.regions[i], len))
}

/// The range of the byte under the caret of `region`.
pub open spec fn under_caret(region: SelRegion, len: usize) -> ByteRange {
    if region.caret < len {
        ByteRange { start: region.caret, end: (region.caret + 1) as usize }
    } else {
        ByteRange { start: len, end: len }
    }
}

/// The ranges of the bytes under the carets of a selection.
pub open spec fn under_carets(selection: SelectionView, len: usize) -> Seq<ByteRange> {
    Seq::new(selection.regions.len(), |i: int| under_caret(selection.regions[i], len))
}

/// Whether `delta` writes `byte` over the byte under each caret and appends
/// it once if a caret stands behind the last byte.
pub open spec fn is_overwrite(delta: DeltaView, selection: SelectionView, byte: u8, len: usize) -> bool {
    exists|inner: DeltaView|
        {
            &&& is_rewrite(inner, under_carets(selection, len), Some(byte), len as nat)
            &&& delta.base_len == len
            &&& delta.pieces == if caret_at_end(selection, len) {
                inner.pieces.push(Piece::Insert { bytes: seq![byte] })
            } else {
                inner.pieces
            }
        }
}

/// Whether a caret of the selection stands behind the last byte.
pub open spec fn caret_at_end(selection: SelectionView, len: usize) -> bool {
    exists|i: int| 0 <= i < selection.regions.len() && (#[trigger] selection.regions[i]).caret >= len
}

/// The ranges of the bytes that the regions of `selection` hold.
pub fn selected_ranges(selection: &Selection, len: usize) -> (ranges: Vec<ByteRange>)
    ensures
        ranges@ == selected(selection@, len),
        ranges_within(ranges@, len as int),
{
    let mut ranges: Vec<ByteRange> = Vec::new();
    let mut i: usize = 0;
    while i < selection.regions.len()
        invariant
            i <= selection.regions@.len(),
            ranges@.len() == i,
            forall|k: int| 0 <= k < i ==> #[trigger] ranges@[k] == region_range(
                selection.regions@[k],
                len,
            ),
        decreases selection.regions@.len() - i,
    {
        let region = selection.regions[i];
        let start = if region.min() < len { region.min() } else { len };
        let end = if region.max() < len { region.max() + 1 } else { len };
        ranges.push(ByteRange { start, end });
        i += 1;
    }
    assert(ranges@ =~= selected(selection@, len));
    ranges
}

/// The delta that removes every byte that a region of the selection holds.
pub fn deletion(rope: &Rope, selection: &Selection) -> (delta: RopeDelta)
    ensures
        is_rewrite(delta@, selected(selection@, rope@.len() as usize), None, rope@.len()),
        delta.applies_to(rope@.len()),
        delta@.ordered(),
        delta@.new_len() <= rope@.len(),
        delta@.apply(rope@) == rewritten(
            rope@,
            selected(selection@, rope@.len() as usize),
            None,
            rope@.len() as int,
        ),
{
    let len = rope.len();
    let ranges = selected_ranges(selection, len);
    let merged = normalize(&ranges);
    let delta = rewrite_ranges(&merged, None, len);
    proof {
        lemma_rewritten_same(rope@, merged@, ranges@, None, len as int);
    }
    delta
}

/// The delta that removes the byte before each caret.
pub fn backspace(rope: &Rope, selection: &Selection) -> (delta: RopeDelta)
    ensures
        is_rewrite(delta@, before_carets(selection@, rope@.len() as usize), None, rope@.len()),
        delta.applies_to(rope@.len()),
        delta@.ordered(),
        delta@.new_len() <= rope@.len(),
        delta@.apply(rope@) == rewritten(
            rope@,
            before_carets(selection@, rope@.len() as usize),
            None,
            rope@.len() as int,
        ),
{
    let len = rope.len();
    let mut ranges: Vec<ByteRange> = Vec::new();
    let mut i: usize = 0;
    while i < selection.regions.len()
        invariant
            i <= selection.regions@.len(),
            ranges@.len() == i,
            forall|k: int| 0 <= k < i ==> #[trigger] ranges@[k] == before_caret(
                selection.regions@[k],
                len,
            ),
        decreases selection.regions@.len() - i,
    {
        let region = selection.regions[i];
        let caret = if region.caret < len { region.caret } else { len };
        ranges.push(ByteRange { start: if caret == 0 { 0 } else { caret - 1 }, end: caret });
        i += 1;
    }
    assert(ranges@ =~= before_carets(selection@, len));
    assert(ranges_within(ranges@, len as int));
    let merged = normalize(&ranges);
    let delta = rewrite_ranges(&merged, None, len);
    proof {
        lemma_rewritten_same(rope@, merged@, ranges@, None, len as int);
    }
    delta
}

/// The delta that writes `byte` over the byte under each caret. A caret
/// behind the last byte has no byte under it and changes nothing.
pub fn replace(rope: &Rope, selection: &Selection, byte: u8) -> (delta: RopeDelta)
    ensures
        is_rewrite(
            delta@,
            under_carets(selection@, rope@.len() as usize),
            Some(byte),
            rope@.len(),
        ),
        delta.applies_to(rope@.len()),
        delta@.ordered(),
        delta@.apply(rope@) == rewritten(
            rope@,
            under_carets(selection@, rope@.len() as usize),
            Some(byte),
            rope@.len() as int,
        ),
{
    let len = rope.len();
    let mut ranges: Vec<ByteRange> = Vec::new();
    let mut i: usize = 0;
    while i < selection.regions.len()
        invariant
            i <= selection.regions@.len(),
            ranges@.len() == i,
            forall|k: int| 0 <= k < i ==> #[trigger] ranges@[k] == under_caret(
                selection.regions@[k],
                len,
            ),
        decreases selection.regions@.len() - i,
    {
        let region = selection.regions[i];
        if region.caret < len {
            ranges.push(ByteRange { start: region.caret, end: region.caret + 1 });
        } else {
            ranges.push(ByteRange { start: len, end: len });
        }
        i += 1;
    }
    assert(ranges@ =~= under_carets(selection@, len));
    assert(ranges_within(ranges@, len as int));
    let merged = normalize(&ranges);
    let delta = rewrite_ranges(&merged, Some(byte), len);
    proof {
        lemma_rewritten_same(rope@, merged@, ranges@, Some(byte), len as int);
        assert(delta@.apply(rope@) == rewritten(rope@, merged@, Some(byte), len as int));
    }
    delta
}

/// The delta that writes `byte` over the byte under each caret. A caret
/// behind the last byte has no byte under it: there `byte` is appended, once.
/// There is no delta where the buffer cannot grow any more.
pub fn overwrite(rope: &Rope, selection: &Selection, byte: u8) -> (delta: Option<RopeDelta>)
    ensures
        delta is None <==> caret_at_end(selection@, rope@.len() as usize) && rope@.len()
            == usize::MAX,
        delta matches Some(d) ==> {
            &&& is_overwrite(d@, selection@, byte, rope@.len() as usize)
            &&& d.applies_to(rope@.len())
            &&& d@.ordered()
            &&& d@.apply(rope@) == rewritten(
                rope@,
                under_carets(selection@, rope@.len() as usize),
                Some(byte),
                rope@.len() as int,
            ) + if caret_at_end(selection@, rope@.len() as usize) {
                seq![byte]
            } else {
                Seq::<u8>::empty()
            }
        },
{
    let len = rope.len();
    let mut ranges: Vec<ByteRange> = Vec::new();
    let mut at_end = false;
    let mut i: usize = 0;
    while i < selection.regions.len()
        invariant
            i <= selection.regions@.len(),
            ranges@.len() == i,
            forall|k: int| 0 <= k < i ==> #[trigger] ranges@[k] == under_caret(
                selection.regions@[k],
                len,
            ),
            at_end <==> exists|k: int| 0 <= k < i && (#[trigger] selection.regions@[k]).caret >= len,
        decreases selection.regions@.len() - i,
    {
        let region = selection.regions[i];
        if region.caret < len {
            ranges.push(ByteRange { start: region.caret, end: region.caret + 1 });
        } else {
            ranges.push(ByteRange { start: len, end: len });
            at_end = true;
        }
        i += 1;
    }
    assert(ranges@ =~= under_carets(selection@, len));
    assert(ranges_within(ranges@, len as int));
    if at_end && len == usize::MAX {
        return None;
    }
    let merged = normalize(&ranges);
    let mut delta = rewrite_ranges(&merged, Some(byte), len);
    let ghost inner = delta@;
    proof {
        assert(is_rewrite(inner, ranges@, Some(byte), len as nat));
        lemma_rewritten_same(rope@, merged@, ranges@, Some(byte), len as int);
        lemma_apply_len(delta@.pieces, rope@);
        assert(delta@.apply(rope@) == rewritten(rope@, ranges@, Some(byte), len as int));
    }
    if at_end {
        let mut tail: Vec<u8> = Vec::new();
        tail.push(byte);
        let insert = DeltaElement::Insert(tail);
        proof {
            let pieces = delta@.pieces;
            assert(insert@ == Piece::Insert { bytes: seq![byte] });
            lemma_pieces_push(pieces, insert@, rope@);
            lemma_sorted_push(pieces, 0, insert@);
            assert(element_views(delta.els@.push(insert)) =~= pieces.push(insert@));
            assert forall|k: int| 0 <= k < pieces.push(insert@).len() implies (
            #[trigger] pieces.push(insert@)[k]).in_bounds(len as nat) by {
                if k < pieces.len() {
                    assert(pieces.push(insert@)[k] == pieces[k]);
                    assert(pieces[k].in_bounds(len as nat));
                }
            }
        }
        delta.els.push(insert);
    } else {
        assert(delta@.apply(rope@) + Seq::<u8>::empty() =~= delta@.apply(rope@));
    }
    Some(delta)
}


/// Bytes to insert at an offset, as specifications see them.
pub struct InsertionView {
    pub at: int,
    pub bytes: Seq<u8>,
}

/// Bytes to insert at an offset.
#[derive(Debug)]
pub struct Insertion {
    pub at: usize,
    pub bytes: Vec<u8>,
}

impl View for Insertion {
    type V = InsertionView;

    open spec fn view(&self) -> InsertionView {
        InsertionView { at: self.at as int, bytes: self.bytes@ }
    }
}

impl Clone for Insertion {
    fn clone(&self) -> (copy: Insertion)
        ensures
            copy@ == self@,
    {
        let bytes = self.bytes.clone();
        assert(bytes@ =~= self.bytes@);
        Insertion { at: self.at, bytes }
    }
}

/// The insertions that a vector of insertions holds.
pub open spec fn insertion_views(list: Seq<Insertion>) -> Seq<InsertionView> {
    Seq::new(list.len(), |i: int| list[i]@)
}

/// Whether the offsets of the insertions do not decrease.
pub open spec fn points_sorted(points: Seq<InsertionView>) -> bool {
    forall|i: int, j: int|
        0 <= i < j < points.len() ==> (#[trigger] points[i]).at <= (#[trigger] points[j]).at
}

/// Whether every insertion is at an offset of a buffer of `len` bytes, or at
/// its end.
pub open spec fn points_within(points: Seq<InsertionView>, len: int) -> bool {
    forall|i: int| 0 <= i < points.len() ==> 0 <= (#[trigger] points[i]).at <= len
}

/// How many bytes the insertions add.
pub open spec fn total_inserted(points: Seq<InsertionView>) -> nat
    decreases points.len(),
{
    if points.len() == 0 {
        0
    } else {
        total_inserted(points.drop_last()) + points.last().bytes.len()
    }
}

/// `item` put into sorted insertions: behind all that are at its offset or
/// before it.
pub open spec fn place(points: Seq<InsertionView>, item: InsertionView) -> Seq<InsertionView>
    decreases points.len(),
{
    if points.len() == 0 {
        seq![item]
    } else if points.last().at <= item.at {
        points.push(item)
    } else {
        place(points.drop_last(), item).push(points.last())
    }
}

/// The insertions sorted by their offsets. Those at one offset keep their order.
pub open spec fn in_order(points: Seq<InsertionView>) -> Seq<InsertionView>
    decreases points.len(),
{
    if points.len() == 0 {
        Seq::empty()
    } else {
        place(in_order(points.drop_last()), points.last())
    }
}

/// Where the `k`-th of the insertions before is, the start where there is none.
pub open spec fn last_at(points: Seq<InsertionView>, k: int) -> int {
    if k <= 0 {
        0
    } else {
        points[k - 1].at
    }
}

/// The pieces that make the first `k` insertions.
pub open spec fn point_pieces(points: Seq<InsertionView>, k: int) -> Seq<Piece>
    decreases k,
{
    if k <= 0 {
        Seq::empty()
    } else {
        pieces_edit(
            point_pieces(points, k - 1),
            last_at(points, k - 1),
            points[k - 1].at,
            points[k - 1].at,
            points[k - 1].bytes,
        )
    }
}

/// The bytes of `base` up to the `k`-th insertion, with the first `k`
/// insertions in their places.
pub open spec fn spliced(base: Seq<u8>, points: Seq<InsertionView>, k: int) -> Seq<u8>
    decreases k,
{
    if k <= 0 {
        Seq::empty()
    } else {
        spliced(base, points, k - 1) + base.subrange(last_at(points, k - 1), points[k - 1].at)
            + points[k - 1].bytes
    }
}

/// `base` with sorted insertions in their places.
pub open spec fn with_insertions(base: Seq<u8>, points: Seq<InsertionView>) -> Seq<u8> {
    spliced(base, points, points.len() as int) + base.subrange(
        last_at(points, points.len() as int),
        base.len() as int,
    )
}

/// `bytes`, `count` times.
pub open spec fn repeated(bytes: Seq<u8>, count: nat) -> Seq<u8>
    decreases count,
{
    if count == 0 {
        Seq::empty()
    } else {
        repeated(bytes, (count - 1) as nat) + bytes
    }
}

/// Bytes repeated are as long as the bytes times the count.
pub proof fn lemma_repeated_len(bytes: Seq<u8>, count: nat)
    ensures
        repeated(bytes, count).len() == count * bytes.len(),
    decreases count,
{
    let n = bytes.len() as int;
    if count > 0 {
        let fewer = (count - 1) as nat;
        lemma_repeated_len(bytes, fewer);
        assert(count * n == fewer * n + n) by (nonlinear_arith)
            requires
                fewer == count - 1,
        ;
    } else {
        assert(count * n == 0) by (nonlinear_arith)
            requires
                count == 0,
        ;
    }
}

/// One more insertion adds its bytes to the total.
pub proof fn lemma_total_push(points: Seq<InsertionView>, item: InsertionView)
    ensures
        total_inserted(points.push(item)) == total_inserted(points) + item.bytes.len(),
{
    assert(points.push(item).drop_last() =~= points);
}

/// The first insertions add no more than all of them.
pub proof fn lemma_total_prefix(points: Seq<InsertionView>, k: int)
    requires
        0 <= k <= points.len(),
    ensures
        total_inserted(points.subrange(0, k)) <= total_inserted(points),
    decreases points.len() - k,
{
    if k < points.len() {
        lemma_total_prefix(points, k + 1);
        assert(points.subrange(0, k + 1).drop_last() =~= points.subrange(0, k));
    } else {
        assert(points.subrange(0, k) =~= points);
    }
}

/// Putting an insertion in its place keeps the order and adds its bytes.
pub proof fn lemma_place(points: Seq<InsertionView>, item: InsertionView, len: int)
    requires
        points_sorted(points),
    ensures
        points_sorted(place(points, item)),
        place(points, item).len() == points.len() + 1,
        total_inserted(place(points, item)) == total_inserted(points) + item.bytes.len(),
        points_within(points, len) && 0 <= item.at <= len ==> points_within(
            place(points, item),
            len,
        ),
        forall|i: int|
            0 <= i < place(points, item).len() ==> (#[trigger] place(points, item)[i]) == item || (
            exists|j: int| 0 <= j < points.len() && points[j] == place(points, item)[i]),
    decreases points.len(),
{
    let placed = place(points, item);
    if points.len() == 0 {
        assert(seq![item].drop_last() =~= Seq::<InsertionView>::empty());
        assert(total_inserted(Seq::<InsertionView>::empty()) == 0);
    } else if points.last().at <= item.at {
        lemma_total_push(points, item);
        assert forall|i: int, j: int| 0 <= i < j < placed.len() implies (#[trigger] placed[i]).at
            <= (#[trigger] placed[j]).at by {
            if j == points.len() {
                if i < points.len() - 1 {
                    assert(points[i].at <= points[points.len() - 1].at);
                }
            } else {
                assert(points[i].at <= points[j].at);
            }
        }
        assert forall|i: int| 0 <= i < placed.len() implies (#[trigger] placed[i]) == item || (
        exists|j: int| 0 <= j < points.len() && points[j] == placed[i]) by {
            if i < points.len() {
                assert(points[i] == placed[i]);
            }
        }
    } else {
        let front = points.drop_last();
        let last = points.last();
        assert(points_sorted(front)) by {
            assert forall|i: int, j: int| 0 <= i < j < front.len() implies (#[trigger] front[i]).at
                <= (#[trigger] front[j]).at by {
                assert(points[i].at <= points[j].at);
            }
        }
        lemma_place(front, item, len);
        let inner = place(front, item);
        lemma_total_push(inner, last);
        assert(placed == inner.push(last));
        assert forall|i: int, j: int| 0 <= i < j < placed.len() implies (#[trigger] placed[i]).at
            <= (#[trigger] placed[j]).at by {
            if j == inner.len() {
                assert(placed[i] == inner[i]);
                if inner[i] == item {
                } else {
                    let m = choose|m: int| 0 <= m < front.len() && front[m] == inner[i];
                    assert(points[m].at <= points[points.len() - 1].at);
                }
            } else {
                assert(inner[i].at <= inner[j].at);
            }
        }
        if points_within(points, len) && 0 <= item.at <= len {
            assert(points_within(front, len)) by {
                assert forall|i: int| 0 <= i < front.len() implies 0 <= (#[trigger] front[i]).at
                    <= len by {
                    assert(front[i] == points[i]);
                }
            }
            assert forall|i: int| 0 <= i < placed.len() implies 0 <= (#[trigger] placed[i]).at
                <= len by {
                if i < inner.len() {
                    assert(placed[i] == inner[i]);
                } else {
                    assert(placed[i] == points[points.len() - 1]);
                }
            }
        }
        assert forall|i: int| 0 <= i < placed.len() implies (#[trigger] placed[i]) == item || (
        exists|j: int| 0 <= j < points.len() && points[j] == placed[i]) by {
            if i < inner.len() {
                assert(placed[i] == inner[i]);
                if inner[i] != item {
                    let m = choose|m: int| 0 <= m < front.len() && front[m] == inner[i];
                    assert(points[m] == placed[i]);
                }
            } else {
                assert(points[points.len() - 1] == placed[i]);
            }
        }
    }
}

/// Where an insertion is put: before the first that is behind its offset.
pub proof fn lemma_place_index(points: Seq<InsertionView>, item: InsertionView, k: int)
    requires
        points_sorted(points),
        0 <= k <= points.len(),
        forall|j: int| k <= j < points.len() ==> (#[trigger] points[j]).at > item.at,
        k > 0 ==> points[k - 1].at <= item.at,
    ensures
        place(points, item) == points.insert(k, item),
    decreases points.len(),
{
    if points.len() == 0 {
        assert(points.insert(k, item) =~= seq![item]);
    } else if points.last().at <= item.at {
        if k < points.len() {
            assert(points[points.len() - 1].at > item.at);
        }
        assert(points.insert(k, item) =~= points.push(item));
    } else {
        let front = points.drop_last();
        if k == points.len() {
            assert(points[k - 1].at <= item.at);
        }
        assert(points_sorted(front)) by {
            assert forall|i: int, j: int| 0 <= i < j < front.len() implies (#[trigger] front[i]).at
                <= (#[trigger] front[j]).at by {
                assert(points[i].at <= points[j].at);
            }
        }
        assert forall|j: int| k <= j < front.len() implies (#[trigger] front[j]).at > item.at by {
            assert(front[j] == points[j]);
        }
        if k > 0 {
            assert(front[k - 1] == points[k - 1]);
        }
        lemma_place_index(front, item, k);
        assert(front.insert(k, item).push(points.last()) =~= points.insert(k, item));
    }
}

/// Sorting keeps the insertions and what they add.
pub proof fn lemma_in_order(points: Seq<InsertionView>, len: int)
    ensures
        points_sorted(in_order(points)),
        in_order(points).len() == points.len(),
        total_inserted(in_order(points)) == total_inserted(points),
        points_within(points, len) ==> points_within(in_order(points), len),
    decreases points.len(),
{
    if points.len() > 0 {
        let front = points.drop_last();
        lemma_in_order(front, len);
        lemma_place(in_order(front), points.last(), len);
        if points_within(points, len) {
            assert(points_within(front, len)) by {
                assert forall|i: int| 0 <= i < front.len() implies 0 <= (#[trigger] front[i]).at
                    <= len by {
                    assert(front[i] == points[i]);
                }
            }
            assert(0 <= points[points.len() - 1].at <= len);
        }
    }
}

/// The pieces for the first `k` insertions make the base up to there with the
/// insertions in their places.
pub proof fn lemma_point_pieces(base: Seq<u8>, points: Seq<InsertionView>, k: int)
    requires
        points_sorted(points),
        points_within(points, base.len() as int),
        0 <= k <= points.len(),
    ensures
        pieces_apply(point_pieces(points, k), base) == spliced(base, points, k),
        pieces_len(point_pieces(points, k)) == last_at(points, k) + total_inserted(
            points.subrange(0, k),
        ),
        0 <= last_at(points, k) <= base.len(),
    decreases k,
{
    if k > 0 {
        lemma_point_pieces(base, points, k - 1);
        if k > 1 {
            assert(points[k - 2].at <= points[k - 1].at);
        }
        assert(0 <= points[k - 1].at <= base.len());
        lemma_builder_pieces(
            point_pieces(points, k - 1),
            last_at(points, k - 1),
            points[k - 1].at,
            points[k - 1].at,
            points[k - 1].bytes,
            base,
        );
        assert(points.subrange(0, k).drop_last() =~= points.subrange(0, k - 1));
    } else {
        assert(points.subrange(0, 0) =~= Seq::<InsertionView>::empty());
    }
}

/// One insertion puts its bytes between the bytes before its offset and the
/// bytes behind it.
pub proof fn lemma_one_insertion(base: Seq<u8>, item: InsertionView)
    requires
        0 <= item.at <= base.len(),
    ensures
        in_order(seq![item]) == seq![item],
        with_insertions(base, in_order(seq![item])) == base.subrange(0, item.at) + item.bytes
            + base.subrange(item.at, base.len() as int),
{
    let one = seq![item];
    assert(one.drop_last() =~= Seq::<InsertionView>::empty());
    assert(in_order(one.drop_last()) =~= Seq::<InsertionView>::empty());
    assert(in_order(one) == place(Seq::<InsertionView>::empty(), item));
    assert(spliced(base, one, 0) =~= Seq::<u8>::empty());
    assert(spliced(base, one, 1) =~= base.subrange(0, item.at) + item.bytes);
}

/// Sorts insertions by their offsets. Those at one offset keep their order.
pub fn sort_insertions(list: &Vec<Insertion>) -> (sorted: Vec<Insertion>)
    ensures
        insertion_views(sorted@) == in_order(insertion_views(list@)),
{
    let ghost views = insertion_views(list@);
    let mut sorted: Vec<Insertion> = Vec::new();
    let mut i: usize = 0;
    proof {
        assert(views.subrange(0, 0) =~= Seq::<InsertionView>::empty());
        assert(insertion_views(sorted@) =~= Seq::<InsertionView>::empty());
    }
    while i < list.len()
        invariant
            i <= list@.len(),
            views == insertion_views(list@),
            insertion_views(sorted@) == in_order(views.subrange(0, i as int)),
            sorted@.len() == i,
        decreases list@.len() - i,
    {
        let item = list[i].clone();
        let ghost before = insertion_views(sorted@);
        proof {
            lemma_in_order(views.subrange(0, i as int), 0);
            assert(views.subrange(0, i + 1).drop_last() =~= views.subrange(0, i as int));
            assert(views.subrange(0, i + 1).last() == item@);
        }
        let mut k: usize = sorted.len();
        while k > 0 && sorted[k - 1].at > item.at
            invariant
                k <= sorted@.len(),
                forall|j: int| k <= j < sorted@.len() ==> (#[trigger] sorted@[j]).at > item.at,
            decreases k,
        {
            k -= 1;
        }
        proof {
            assert forall|j: int| k <= j < before.len() implies (#[trigger] before[j]).at
                > item@.at by {
                assert(sorted@[j].at > item.at);
            }
            if k > 0 {
                assert(before[k - 1].at == sorted@[k - 1].at);
            }
            lemma_place_index(before, item@, k as int);
            assert(insertion_views(sorted@.insert(k as int, item)) =~= before.insert(
                k as int,
                item@,
            ));
        }
        sorted.insert(k, item);
        i += 1;
    }
    proof {
        assert(views.subrange(0, views.len() as int) =~= views);
    }
    sorted
}

/// The delta that makes the insertions, sorted by their offsets. There is no
/// delta where the edited buffer would be too long for its length to be an
/// offset.
pub fn insertions_delta(list: &Vec<Insertion>, base_len: usize) -> (delta: Option<RopeDelta>)
    requires
        points_within(insertion_views(list@), base_len as int),
    ensures
        delta is Some <==> base_len + total_inserted(insertion_views(list@)) <= usize::MAX,
        delta matches Some(d) ==> {
            &&& d.base_len == base_len
            &&& d@.pieces == insertion_pieces(insertion_views(list@), base_len as int)
            &&& d@.ordered()
            &&& d@.fits(base_len as nat)
            &&& d@.new_len() == base_len + total_inserted(insertion_views(list@))
            &&& forall|base: Seq<u8>|
                base.len() == base_len ==> #[trigger] d@.apply(base) == with_insertions(
                    base,
                    in_order(insertion_views(list@)),
                )
        },
{
    let ghost views = insertion_views(list@);
    let mut total: usize = base_len;
    let mut i: usize = 0;
    proof {
        assert(views.subrange(0, 0) =~= Seq::<InsertionView>::empty());
    }
    while i < list.len()
        invariant
            i <= list@.len(),
            views == insertion_views(list@),
            total == base_len + total_inserted(views.subrange(0, i as int)),
        decreases list@.len() - i,
    {
        proof {
            assert(views.subrange(0, i + 1).drop_last() =~= views.subrange(0, i as int));
            assert(views.subrange(0, i + 1).last() == list@[i as int]@);
            lemma_total_prefix(views, i + 1);
        }
        match total.checked_add(list[i].bytes.len()) {
            Some(sum) => {
                total = sum;
            },
            None => {
                return None;
            },
        }
        i += 1;
    }
    proof {
        assert(views.subrange(0, views.len() as int) =~= views);
    }
    let sorted = sort_insertions(list);
    let ghost points = insertion_views(sorted@);
    proof {
        lemma_in_order(views, base_len as int);
    }
    let mut builder = Builder::new(base_len);
    let mut k: usize = 0;
    while k < sorted.len()
        invariant
            k <= sorted@.len(),
            points == insertion_views(sorted@),
            points_sorted(points),
            points_within(points, base_len as int),
            builder.wf(),
            builder.base_len == base_len,
            builder.last_offset == last_at(points, k as int),
            builder.pieces() == point_pieces(points, k as int),
        decreases sorted@.len() - k,
    {
        let item = sorted[k].clone();
        proof {
            assert(points[k as int] == sorted@[k as int]@);
            if k > 0 {
                assert(points[k - 1].at <= points[k as int].at);
            }
            assert(0 <= points[k as int].at <= base_len);
        }
        builder.replace(item.at, item.at, item.bytes);
        k += 1;
    }
    let delta = builder.build();
    proof {
        let n = points.len() as int;
        let zeros = Seq::<u8>::new(base_len as nat, |i: int| 0u8);
        lemma_point_pieces(zeros, points, n);
        lemma_tail_piece(point_pieces(points, n), last_at(points, n), zeros);
        assert(points.subrange(0, n) =~= points);
        assert forall|base: Seq<u8>| base.len() == base_len implies #[trigger] delta@.apply(base)
            == with_insertions(base, in_order(views)) by {
            lemma_point_pieces(base, points, n);
            lemma_tail_piece(point_pieces(points, n), last_at(points, n), base);
        }
    }
    Some(delta)
}

/// Where a paste goes for `region`: before its first byte, or behind its last.
pub open spec fn paste_at(region: SelRegion, after: bool, len: usize) -> int {
    if after {
        region_range(region, len).end as int
    } else {
        region_range(region, len).start as int
    }
}

/// What a paste inserts: for each region the entry of the register at its
/// place, going round, `count` times.
pub open spec fn paste_points(selection: SelectionView, contents: Seq<Seq<u8>>, after: bool, count: usize, len: usize) -> Seq<InsertionView> {
    Seq::new(
        selection.regions.len(),
        |i: int|
            InsertionView {
                at: paste_at(selection.regions[i], after, len),
                bytes: if contents.len() == 0 {
                    Seq::empty()
                } else {
                    repeated(contents[i % (contents.len() as int)], count as nat)
                },
            },
    )
}

/// What typing inserts: the bytes at each caret.
pub open spec fn insert_points(selection: SelectionView, bytes: Seq<u8>, len: usize) -> Seq<InsertionView> {
    Seq::new(
        selection.regions.len(),
        |i: int|
            InsertionView {
                at: if selection.regions[i].caret < len {
                    selection.regions[i].caret as int
                } else {
                    len as int
                },
                bytes,
            },
    )
}

/// `bytes`, `count` times, where that fits in `room` bytes.
pub fn repeat_within(bytes: &Vec<u8>, count: usize, room: usize) -> (made: Option<Vec<u8>>)
    ensures
        made is Some <==> repeated(bytes@, count as nat).len() <= room,
        made matches Some(m) ==> m@ == repeated(bytes@, count as nat),
{
    proof {
        lemma_repeated_len(bytes@, count as nat);
    }
    match count.checked_mul(bytes.len()) {
        None => None,
        Some(size) => {
            if size > room {
                return None;
            }
            let mut made: Vec<u8> = Vec::new();
            let mut round: usize = 0;
            while round < count
                invariant
                    round <= count,
                    made@ == repeated(bytes@, round as nat),
                decreases count - round,
            {
                let ghost before = made@;
                let mut k: usize = 0;
                while k < bytes.len()
                    invariant
                        k <= bytes@.len(),
                        made@ == before + bytes@.subrange(0, k as int),
                    decreases bytes@.len() - k,
                {
                    made.push(bytes[k]);
                    k += 1;
                }
                assert(bytes@.subrange(0, bytes@.len() as int) =~= bytes@);
                round += 1;
            }
            Some(made)
        },
    }
}

/// The delta that inserts, for each region, the entry of `contents` at the
/// place of the region (going round), `count` times: behind the last byte of
/// the region if `after` is set, before its first byte otherwise. There is no
/// delta where the buffer would grow too long.
pub fn paste(rope: &Rope, selection: &Selection, contents: &Vec<Vec<u8>>, after: bool, count: usize) -> (delta: Option<RopeDelta>)
    ensures
        ({
            let len = rope@.len() as usize;
            let points = paste_points(selection@, chunk_views(contents@), after, count, len);
            &&& delta is Some <==> len + total_inserted(points) <= usize::MAX
            &&& delta matches Some(d) ==> {
                &&& d@.pieces == insertion_pieces(points, len as int)
                &&& d.base_len == len
                &&& d.applies_to(rope@.len())
                &&& d@.ordered()
                &&& d@.new_len() == len + total_inserted(points)
                &&& d@.apply(rope@) == with_insertions(rope@, in_order(points))
            }
        }),
{
    let len = rope.len();
    let ghost points = paste_points(selection@, chunk_views(contents@), after, count, len);
    let mut list: Vec<Insertion> = Vec::new();
    let mut room: usize = usize::MAX - len;
    let mut i: usize = 0;
    proof {
        assert(points.subrange(0, 0) =~= Seq::<InsertionView>::empty());
        assert(insertion_views(list@) =~= points.subrange(0, 0));
    }
    while i < selection.regions.len()
        invariant
            i <= selection.regions@.len(),
            len == rope@.len(),
            points == paste_points(selection@, chunk_views(contents@), after, count, len),
            insertion_views(list@) == points.subrange(0, i as int),
            room == usize::MAX - len - total_inserted(points.subrange(0, i as int)),
        decreases selection.regions@.len() - i,
    {
        let region = selection.regions[i];
        let at = if after {
            if region.max() < len { region.max() + 1 } else { len }
        } else {
            if region.min() < len { region.min() } else { len }
        };
        proof {
            assert(points.subrange(0, i + 1).drop_last() =~= points.subrange(0, i as int));
            lemma_total_prefix(points, i + 1);
        }
        let bytes = if contents.len() == 0 {
            Some(Vec::new())
        } else {
            repeat_within(&contents[i % contents.len()], count, room)
        };
        match bytes {
            None => {
                return None;
            },
            Some(bytes) => {
                room = room - bytes.len();
                let item = Insertion { at, bytes };
                proof {
                    assert(item@ == points[i as int]);
                    assert(insertion_views(list@.push(item)) =~= points.subrange(0, i + 1));
                }
                list.push(item);
            },
        }
        i += 1;
    }
    proof {
        assert(points.subrange(0, points.len() as int) =~= points);
        assert(points_within(points, len as int));
    }
    insertions_delta(&list, len)
}

/// The delta that inserts `bytes` at each caret. There is no delta where the
/// buffer would grow too long.
pub fn insert(rope: &Rope, selection: &Selection, bytes: &Vec<u8>) -> (delta: Option<RopeDelta>)
    ensures
        ({
            let len = rope@.len() as usize;
            let points = insert_points(selection@, bytes@, len);
            &&& delta is Some <==> len + total_inserted(points) <= usize::MAX
            &&& delta matches Some(d) ==> {
                &&& d@.pieces == insertion_pieces(points, len as int)
                &&& d.base_len == len
                &&& d.applies_to(rope@.len())
                &&& d@.ordered()
                &&& d@.new_len() == len + total_inserted(points)
                &&& d@.apply(rope@) == with_insertions(rope@, in_order(points))
            }
        }),
{
    let len = rope.len();
    let ghost points = insert_points(selection@, bytes@, len);
    let mut list: Vec<Insertion> = Vec::new();
    let mut room: usize = usize::MAX - len;
    let mut i: usize = 0;
    proof {
        assert(points.subrange(0, 0) =~= Seq::<InsertionView>::empty());
        assert(insertion_views(list@) =~= points.subrange(0, 0));
    }
    while i < selection.regions.len()
        invariant
            i <= selection.regions@.len(),
            len == rope@.len(),
            points == insert_points(selection@, bytes@, len),
            insertion_views(list@) == points.subrange(0, i as int),
            room == usize::MAX - len - total_inserted(points.subrange(0, i as int)),
        decreases selection.regions@.len() - i,
    {
        let region = selection.regions[i];
        let at = if region.caret < len { region.caret } else { len };
        proof {
            assert(points.subrange(0, i + 1).drop_last() =~= points.subrange(0, i as int));
            lemma_total_prefix(points, i + 1);
        }
        if bytes.len() > room {
            return None;
        }
        room = room - bytes.len();
        let copy = bytes.clone();
        assert(copy@ =~= bytes@);
        let item = Insertion { at, bytes: copy };
        proof {
            assert(item@ == points[i as int]);
            assert(insertion_views(list@.push(item)) =~= points.subrange(0, i + 1));
        }
        list.push(item);
        i += 1;
    }
    proof {
        assert(points.subrange(0, points.len() as int) =~= points);
        assert(points_within(points, len as int));
    }
    insertions_delta(&list, len)
}

} // verus!

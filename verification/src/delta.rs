//! Edits as deltas: a description of a new byte sequence as pieces copied from
//! an old one and pieces inserted, in the order in which they appear.

use vstd::prelude::*;
use crate::byte_rope::{copy_range, Bytes, OutOfBounds, Rope, RopeBuilder};

verus! {

/// One piece of a delta, as specifications see it.
pub enum Piece {
    /// The bytes of the old sequence in `[start, end)`.
    Copy { start: int, end: int },
    /// New bytes.
    Insert { bytes: Seq<u8> },
}

/// One piece of a delta.
#[derive(Debug)]
pub enum DeltaElement {
    /// The bytes of the old sequence in `[start, end)`.
    Copy(usize, usize),
    /// New bytes.
    Insert(Vec<u8>),
}

impl View for DeltaElement {
    type V = Piece;

    open spec fn view(&self) -> Piece {
        match *self {
            DeltaElement::Copy(start, end) => Piece::Copy { start: start as int, end: end as int },
            DeltaElement::Insert(bytes) => Piece::Insert { bytes: bytes@ },
        }
    }
}

impl Clone for DeltaElement {
    fn clone(&self) -> (copy: DeltaElement)
        ensures
            copy@ == self@,
    {
        match self {
            DeltaElement::Copy(start, end) => DeltaElement::Copy(*start, *end),
            DeltaElement::Insert(bytes) => {
                let copy = bytes.clone();
                assert(copy@ =~= bytes@);
                DeltaElement::Insert(copy)
            },
        }
    }
}

impl Piece {
    /// How many bytes the piece contributes to the new sequence.
    pub open spec fn len(self) -> nat {
        match self {
            Piece::Copy { start, end } => if start <= end { (end - start) as nat } else { 0 },
            Piece::Insert { bytes } => bytes.len(),
        }
    }

    /// Whether the piece can be taken from an old sequence of `base_len` bytes.
    pub open spec fn in_bounds(self, base_len: nat) -> bool {
        match self {
            Piece::Copy { start, end } => 0 <= start <= end <= base_len,
            Piece::Insert { bytes } => true,
        }
    }

    /// The bytes that the piece contributes, given the old sequence.
    pub open spec fn apply(self, base: Seq<u8>) -> Seq<u8> {
        match self {
            Piece::Copy { start, end } => base.subrange(start, end),
            Piece::Insert { bytes } => bytes,
        }
    }

    /// The part of the piece that contributes its bytes `[lo, hi)`.
    pub open spec fn cut(self, lo: int, hi: int) -> Piece {
        match self {
            Piece::Copy { start, end } => Piece::Copy { start: start + lo, end: start + hi },
            Piece::Insert { bytes } => Piece::Insert { bytes: bytes.subrange(lo, hi) },
        }
    }
}

/// Whether every piece can be taken from an old sequence of `base_len` bytes.
pub open spec fn pieces_in_bounds(pieces: Seq<Piece>, base_len: nat) -> bool {
    forall|i: int| 0 <= i < pieces.len() ==> (#[trigger] pieces[i]).in_bounds(base_len)
}

/// The length of the new sequence.
pub open spec fn pieces_len(pieces: Seq<Piece>) -> nat
    decreases pieces.len(),
{
    if pieces.len() == 0 {
        0
    } else {
        pieces[0].len() + pieces_len(pieces.drop_first())
    }
}

/// The new sequence: what the pieces contribute, one after the other.
pub open spec fn pieces_apply(pieces: Seq<Piece>, base: Seq<u8>) -> Seq<u8>
    decreases pieces.len(),
{
    if pieces.len() == 0 {
        Seq::empty()
    } else {
        pieces[0].apply(base) + pieces_apply(pieces.drop_first(), base)
    }
}

/// Whether the copied ranges come in the order of the old sequence, none
/// starting before `from` or before the end of the one before it.
pub open spec fn pieces_sorted(pieces: Seq<Piece>, from: int) -> bool
    decreases pieces.len(),
{
    if pieces.len() == 0 {
        true
    } else {
        match pieces[0] {
            Piece::Copy { start, end } => from <= start <= end && pieces_sorted(
                pieces.drop_first(),
                end,
            ),
            Piece::Insert { bytes } => pieces_sorted(pieces.drop_first(), from),
        }
    }
}

/// Where the last copied range ends, `from` if nothing is copied.
pub open spec fn pieces_end(pieces: Seq<Piece>, from: int) -> int
    decreases pieces.len(),
{
    if pieces.len() == 0 {
        from
    } else {
        match pieces[0] {
            Piece::Copy { start, end } => pieces_end(pieces.drop_first(), end),
            Piece::Insert { bytes } => pieces_end(pieces.drop_first(), from),
        }
    }
}

/// Where the position `ix` of the old sequence lies in the new one, for
/// `ix > 0` or `after`. A position in a copied range moves with the range. One
/// in a gap between ranges falls to the place of the gap. Where bytes are
/// inserted at the position, it lands behind them if `after` is set and
/// before them otherwise.
pub open spec fn pieces_scan(pieces: Seq<Piece>, ix: int, after: bool) -> int
    decreases pieces.len(),
{
    if pieces.len() == 0 {
        0
    } else {
        match pieces[0] {
            Piece::Copy { start, end } => if ix <= start {
                0
            } else if ix < end || (ix == end && !after) {
                ix - start
            } else {
                pieces[0].len() + pieces_scan(pieces.drop_first(), ix, after)
            },
            Piece::Insert { bytes } => bytes.len() + pieces_scan(pieces.drop_first(), ix, after),
        }
    }
}

/// Where the position `ix` of the old sequence lies in the new one.
pub open spec fn pieces_transform(pieces: Seq<Piece>, ix: int, after: bool) -> int {
    if ix == 0 && !after {
        0
    } else {
        pieces_scan(pieces, ix, after)
    }
}

/// The pieces of a vector of elements.
pub open spec fn element_views(els: Seq<DeltaElement>) -> Seq<Piece> {
    Seq::new(els.len(), |i: int| els[i]@)
}

/// A delta as specifications see it.
pub struct DeltaView {
    pub pieces: Seq<Piece>,
    pub base_len: nat,
}

impl DeltaView {
    /// Whether the delta can be applied to a sequence of `len` bytes.
    pub open spec fn fits(self, len: nat) -> bool {
        self.base_len == len && pieces_in_bounds(self.pieces, len)
    }

    /// The length of the sequence that the delta makes.
    pub open spec fn new_len(self) -> nat {
        pieces_len(self.pieces)
    }

    /// The sequence that the delta makes of `base`.
    pub open spec fn apply(self, base: Seq<u8>) -> Seq<u8> {
        pieces_apply(self.pieces, base)
    }

    /// Whether the copied ranges lie in the old sequence, in its order and
    /// without overlap: what is not copied is deleted, what is inserted is new.
    pub open spec fn ordered(self) -> bool {
        pieces_sorted(self.pieces, 0) && pieces_end(self.pieces, 0) <= self.base_len
    }

    /// Where the position `ix` of the old sequence lies in the new one.
    pub open spec fn transform(self, ix: int, after: bool) -> int {
        pieces_transform(self.pieces, ix, after)
    }
}

/// An edit of a byte sequence of `base_len` bytes.
#[derive(Debug)]
pub struct RopeDelta {
    pub els: Vec<DeltaElement>,
    pub base_len: usize,
}

impl View for RopeDelta {
    type V = DeltaView;

    open spec fn view(&self) -> DeltaView {
        DeltaView { pieces: element_views(self.els@), base_len: self.base_len as nat }
    }
}

/// One more piece adds its length and its bytes at the end.
pub proof fn lemma_pieces_push(pieces: Seq<Piece>, last: Piece, base: Seq<u8>)
    ensures
        pieces_len(pieces.push(last)) == pieces_len(pieces) + last.len(),
        pieces_apply(pieces.push(last), base) == pieces_apply(pieces, base) + last.apply(base),
    decreases pieces.len(),
{
    if pieces.len() == 0 {
        assert(pieces.push(last).drop_first() =~= pieces);
        assert(pieces_apply(pieces.push(last), base) =~= pieces_apply(pieces, base) + last.apply(
            base,
        ));
    } else {
        assert(pieces.push(last).drop_first() =~= pieces.drop_first().push(last));
        lemma_pieces_push(pieces.drop_first(), last, base);
        assert(pieces_apply(pieces.push(last), base) =~= pieces_apply(pieces, base) + last.apply(
            base,
        ));
    }
}

/// Pieces behind pieces add their length and their bytes at the end.
pub proof fn lemma_pieces_concat(first: Seq<Piece>, second: Seq<Piece>, base: Seq<u8>)
    ensures
        pieces_len(first + second) == pieces_len(first) + pieces_len(second),
        pieces_apply(first + second, base) == pieces_apply(first, base) + pieces_apply(
            second,
            base,
        ),
    decreases first.len(),
{
    if first.len() == 0 {
        assert(first + second =~= second);
        assert(pieces_apply(first + second, base) =~= pieces_apply(first, base) + pieces_apply(
            second,
            base,
        ));
    } else {
        assert((first + second).drop_first() =~= first.drop_first() + second);
        lemma_pieces_concat(first.drop_first(), second, base);
        assert(pieces_apply(first + second, base) =~= pieces_apply(first, base) + pieces_apply(
            second,
            base,
        ));
    }
}

/// The new sequence is as long as the pieces say.
pub proof fn lemma_apply_len(pieces: Seq<Piece>, base: Seq<u8>)
    requires
        pieces_in_bounds(pieces, base.len()),
    ensures
        pieces_apply(pieces, base).len() == pieces_len(pieces),
    decreases pieces.len(),
{
    if pieces.len() > 0 {
        assert(pieces[0].in_bounds(base.len()));
        assert forall|i: int| 0 <= i < pieces.drop_first().len() implies (
        #[trigger] pieces.drop_first()[i]).in_bounds(base.len()) by {
            assert(pieces.drop_first()[i] == pieces[i + 1]);
        }
        lemma_apply_len(pieces.drop_first(), base);
    }
}

/// Copied ranges in order that end in the old sequence all lie in it.
pub proof fn lemma_sorted_in_bounds(pieces: Seq<Piece>, from: int, base_len: nat)
    requires
        0 <= from,
        pieces_sorted(pieces, from),
        pieces_end(pieces, from) <= base_len,
    ensures
        pieces_in_bounds(pieces, base_len),
        from <= pieces_end(pieces, from),
    decreases pieces.len(),
{
    if pieces.len() > 0 {
        let rest = pieces.drop_first();
        match pieces[0] {
            Piece::Copy { start, end } => {
                lemma_sorted_in_bounds(rest, end, base_len);
            },
            Piece::Insert { bytes } => {
                lemma_sorted_in_bounds(rest, from, base_len);
            },
        }
        assert forall|i: int| 0 <= i < pieces.len() implies (#[trigger] pieces[i]).in_bounds(
            base_len,
        ) by {
            if i > 0 {
                assert(pieces[i] == rest[i - 1]);
            }
        }
    }
}

/// A position of the old sequence lands in the new one.
pub proof fn lemma_scan_bound(pieces: Seq<Piece>, ix: int, after: bool)
    ensures
        0 <= pieces_scan(pieces, ix, after) <= pieces_len(pieces),
    decreases pieces.len(),
{
    if pieces.len() > 0 {
        lemma_scan_bound(pieces.drop_first(), ix, after);
    }
}

impl RopeDelta {
    /// Whether the delta can be applied to a sequence of `len` bytes and the
    /// length of what it makes is an offset.
    pub open spec fn applies_to(&self, len: nat) -> bool {
        self@.fits(len) && self@.new_len() <= usize::MAX
    }

    /// The delta that replaces the bytes in `[start, end)` of a sequence of
    /// `base_len` bytes by `bytes`.
    pub fn simple_edit(start: usize, end: usize, bytes: Vec<u8>, base_len: usize) -> (delta:
        RopeDelta)
        requires
            start <= end <= base_len,
        ensures
            delta.base_len == base_len,
            delta@.ordered(),
            delta@.fits(base_len as nat),
            delta@.new_len() == start + bytes@.len() + (base_len - end),
            forall|base: Seq<u8>|
                base.len() == base_len ==> #[trigger] delta@.apply(base) == base.subrange(
                    0,
                    start as int,
                ) + bytes@ + base.subrange(end as int, base_len as int),
    {
        let mut builder = Builder::new(base_len);
        let ghost inserted = bytes@;
        builder.replace(start, end, bytes);
        let delta = builder.build();
        proof {
            let none = Seq::<Piece>::empty();
            let edited = pieces_edit(none, 0, start as int, end as int, inserted);
            assert(delta@.pieces == pieces_finish(edited, end as int, base_len as int));
            let any = Seq::<u8>::new(base_len as nat, |i: int| 0u8);
            lemma_builder_pieces(none, 0, start as int, end as int, inserted, any);
            lemma_tail_piece(edited, end as int, any);
            assert forall|base: Seq<u8>| base.len() == base_len implies #[trigger] delta@.apply(
                base,
            ) == base.subrange(0, start as int) + inserted + base.subrange(
                end as int,
                base_len as int,
            ) by {
                lemma_builder_pieces(none, 0, start as int, end as int, inserted, base);
                lemma_tail_piece(edited, end as int, base);
                assert(pieces_apply(none, base) + base.subrange(0, start as int) =~= base.subrange(
                    0,
                    start as int,
                ));
            }
        }
        delta
    }

    /// The delta that changes nothing in a sequence of `base_len` bytes.
    pub fn identity(base_len: usize) -> (delta: RopeDelta)
        ensures
            delta.base_len == base_len,
            delta@.ordered(),
            delta@.fits(base_len as nat),
            delta@.new_len() == base_len,
            forall|base: Seq<u8>| base.len() == base_len ==> #[trigger] delta@.apply(base) == base,
    {
        let delta = RopeDelta::simple_edit(0, 0, Vec::new(), base_len);
        proof {
            assert forall|base: Seq<u8>| base.len() == base_len implies #[trigger] delta@.apply(
                base,
            ) == base by {
                assert(base.subrange(0, 0) + Seq::<u8>::empty() + base.subrange(0, base_len as int)
                    =~= base);
            }
        }
        delta
    }
}

/// The pieces after one more edit: the gap from `last` to `start` is copied,
/// the bytes in `[start, end)` are left out, and `bytes` are inserted.
pub open spec fn pieces_edit(pieces: Seq<Piece>, last: int, start: int, end: int, bytes: Seq<u8>) -> Seq<Piece> {
    let copied = if start > last {
        pieces.push(Piece::Copy { start: last, end: start })
    } else {
        pieces
    };
    if bytes.len() > 0 {
        copied.push(Piece::Insert { bytes })
    } else {
        copied
    }
}

/// The pieces of a finished delta: what lies behind the last edit is copied.
pub open spec fn pieces_finish(pieces: Seq<Piece>, last: int, base_len: int) -> Seq<Piece> {
    if last < base_len {
        pieces.push(Piece::Copy { start: last, end: base_len })
    } else {
        pieces
    }
}

/// An edit adds the bytes of the gap before it and the bytes it inserts.
pub proof fn lemma_builder_pieces(pieces: Seq<Piece>, last: int, start: int, end: int, bytes: Seq<u8>, base: Seq<u8>)
    requires
        0 <= last <= start <= end <= base.len(),
    ensures
        pieces_apply(pieces_edit(pieces, last, start, end, bytes), base) == pieces_apply(
            pieces,
            base,
        ) + base.subrange(last, start) + bytes,
        pieces_len(pieces_edit(pieces, last, start, end, bytes)) == pieces_len(pieces) + (start
            - last) + bytes.len(),
{
    let gap = Piece::Copy { start: last, end: start };
    let copied = if start > last { pieces.push(gap) } else { pieces };
    if start > last {
        lemma_pieces_push(pieces, gap, base);
    } else {
        assert(pieces_apply(pieces, base) + base.subrange(last, start) =~= pieces_apply(
            pieces,
            base,
        ));
    }
    if bytes.len() > 0 {
        lemma_pieces_push(copied, Piece::Insert { bytes }, base);
    } else {
        assert(pieces_apply(copied, base) + bytes =~= pieces_apply(copied, base));
    }
}

/// Finishing adds the bytes behind the last edit.
pub proof fn lemma_tail_piece(pieces: Seq<Piece>, last: int, base: Seq<u8>)
    requires
        0 <= last <= base.len(),
    ensures
        pieces_apply(pieces_finish(pieces, last, base.len() as int), base) == pieces_apply(
            pieces,
            base,
        ) + base.subrange(last, base.len() as int),
        pieces_len(pieces_finish(pieces, last, base.len() as int)) == pieces_len(pieces) + (
        base.len() - last),
{
    if last < base.len() {
        lemma_pieces_push(pieces, Piece::Copy { start: last, end: base.len() as int }, base);
    } else {
        assert(pieces_apply(pieces, base) + base.subrange(last, base.len() as int)
            =~= pieces_apply(pieces, base));
    }
}

/// Sorted pieces stay sorted when a piece that starts behind their end is
/// appended.
pub proof fn lemma_sorted_push(pieces: Seq<Piece>, from: int, last: Piece)
    requires
        pieces_sorted(pieces, from),
        last matches Piece::Copy { start, end } ==> pieces_end(pieces, from) <= start <= end,
    ensures
        pieces_sorted(pieces.push(last), from),
        pieces_end(pieces.push(last), from) == match last {
            Piece::Copy { start, end } => end,
            Piece::Insert { bytes } => pieces_end(pieces, from),
        },
    decreases pieces.len(),
{
    let pushed = pieces.push(last);
    if pieces.len() == 0 {
        assert(pushed[0] == last);
        assert(pushed.drop_first() =~= pieces);
        match last {
            Piece::Copy { start, end } => {
                assert(pieces_sorted(pieces, end));
                assert(pieces_end(pieces, end) == end);
            },
            Piece::Insert { bytes } => {
                assert(pieces_sorted(pieces, from));
                assert(pieces_end(pieces, from) == from);
            },
        }
    } else {
        assert(pushed[0] == pieces[0]);
        assert(pushed.drop_first() =~= pieces.drop_first().push(last));
        match pieces[0] {
            Piece::Copy { start, end } => lemma_sorted_push(pieces.drop_first(), end, last),
            Piece::Insert { bytes } => lemma_sorted_push(pieces.drop_first(), from, last),
        }
    }
}

/// Builds a delta from edits that are given in the order of the old sequence.
pub struct Builder {
    pub els: Vec<DeltaElement>,
    pub base_len: usize,
    /// The end of the last edit: no piece reaches behind it.
    pub last_offset: usize,
}

impl Builder {
    /// The pieces built so far.
    pub open spec fn pieces(&self) -> Seq<Piece> {
        element_views(self.els@)
    }

    /// Whether the pieces built so far are in order and end before the last edit.
    pub open spec fn wf(&self) -> bool {
        &&& pieces_sorted(self.pieces(), 0)
        &&& pieces_end(self.pieces(), 0) <= self.last_offset <= self.base_len
    }

    pub fn new(base_len: usize) -> (builder: Builder)
        ensures
            builder.wf(),
            builder.base_len == base_len,
            builder.last_offset == 0,
            builder.pieces() == Seq::<Piece>::empty(),
    {
        let builder = Builder { els: Vec::new(), base_len, last_offset: 0 };
        assert(builder.pieces() =~= Seq::<Piece>::empty());
        builder
    }

    /// Deletes the bytes in `[start, end)`.
    pub fn delete(&mut self, start: usize, end: usize)
        requires
            old(self).wf(),
            old(self).last_offset <= start <= end <= old(self).base_len,
        ensures
            final(self).wf(),
            final(self).base_len == old(self).base_len,
            final(self).last_offset == end,
            final(self).pieces() == pieces_edit(
                old(self).pieces(),
                old(self).last_offset as int,
                start as int,
                end as int,
                Seq::empty(),
            ),
    {
        self.replace(start, end, Vec::new());
    }

    /// Replaces the bytes in `[start, end)` by `bytes`.
    pub fn replace(&mut self, start: usize, end: usize, bytes: Vec<u8>)
        requires
            old(self).wf(),
            old(self).last_offset <= start <= end <= old(self).base_len,
        ensures
            final(self).wf(),
            final(self).base_len == old(self).base_len,
            final(self).last_offset == end,
            final(self).pieces() == pieces_edit(
                old(self).pieces(),
                old(self).last_offset as int,
                start as int,
                end as int,
                bytes@,
            ),
    {
        if start > self.last_offset {
            let gap = DeltaElement::Copy(self.last_offset, start);
            proof {
                lemma_sorted_push(self.pieces(), 0, gap@);
                assert(element_views(self.els@.push(gap)) =~= self.pieces().push(gap@));
            }
            self.els.push(gap);
        }
        self.last_offset = end;
        if bytes.len() > 0 {
            let insert = DeltaElement::Insert(bytes);
            proof {
                lemma_sorted_push(self.pieces(), 0, insert@);
                assert(element_views(self.els@.push(insert)) =~= self.pieces().push(insert@));
            }
            self.els.push(insert);
        }
    }

    /// The delta of the edits. What lies behind the last of them is kept.
    pub fn build(self) -> (delta: RopeDelta)
        requires
            self.wf(),
        ensures
            delta.base_len == self.base_len,
            delta@.pieces == pieces_finish(
                self.pieces(),
                self.last_offset as int,
                self.base_len as int,
            ),
            delta@.ordered(),
            delta@.fits(self.base_len as nat),
    {
        let mut els = self.els;
        if self.last_offset < self.base_len {
            let tail = DeltaElement::Copy(self.last_offset, self.base_len);
            proof {
                lemma_sorted_push(element_views(els@), 0, tail@);
                assert(element_views(els@.push(tail)) =~= element_views(els@).push(tail@));
            }
            els.push(tail);
        }
        let delta = RopeDelta { els, base_len: self.base_len };
        proof {
            lemma_sorted_in_bounds(delta@.pieces, 0, self.base_len as nat);
        }
        delta
    }
}


/// The rest of a sequence of pieces is what follows its first piece.
pub proof fn lemma_rest(pieces: Seq<Piece>, i: int)
    requires
        0 <= i < pieces.len(),
    ensures
        pieces.subrange(i, pieces.len() as int).len() > 0,
        pieces.subrange(i, pieces.len() as int)[0] == pieces[i],
        pieces.subrange(i, pieces.len() as int).drop_first() == pieces.subrange(
            i + 1,
            pieces.len() as int,
        ),
{
    assert(pieces.subrange(i, pieces.len() as int).drop_first() =~= pieces.subrange(
        i + 1,
        pieces.len() as int,
    ));
}

/// The pieces seen so far and the rest make the whole.
pub proof fn lemma_split(pieces: Seq<Piece>, i: int, base: Seq<u8>)
    requires
        0 <= i <= pieces.len(),
    ensures
        pieces_len(pieces) == pieces_len(pieces.subrange(0, i)) + pieces_len(
            pieces.subrange(i, pieces.len() as int),
        ),
        pieces_apply(pieces, base) == pieces_apply(pieces.subrange(0, i), base) + pieces_apply(
            pieces.subrange(i, pieces.len() as int),
            base,
        ),
{
    assert(pieces.subrange(0, i) + pieces.subrange(i, pieces.len() as int) =~= pieces);
    lemma_pieces_concat(pieces.subrange(0, i), pieces.subrange(i, pieces.len() as int), base);
}

impl Rope {
    /// The rope that `delta` makes of this one. It fails where the delta was
    /// not made for a rope of this length, where it copies from outside the
    /// rope, and where the new length would be no offset.
    pub fn apply_delta(&self, delta: &RopeDelta) -> (edited: Result<Rope, OutOfBounds>)
        ensures
            edited is Ok <==> delta.applies_to(self@.len()),
            edited matches Ok(rope) ==> rope@ == delta@.apply(self@),
    {
        let total = self.len();
        if delta.base_len != total {
            return Err(OutOfBounds);
        }
        let ghost pieces = delta@.pieces;
        let mut builder = RopeBuilder::new();
        let mut built: usize = 0;
        let mut i: usize = 0;
        proof {
            assert(pieces.subrange(0, 0) =~= Seq::<Piece>::empty());
        }
        while i < delta.els.len()
            invariant
                i <= delta.els@.len(),
                pieces == delta@.pieces,
                pieces.len() == delta.els@.len(),
                total == self@.len(),
                delta.base_len == total,
                built == builder@.len(),
                built == pieces_len(pieces.subrange(0, i as int)),
                builder@ == pieces_apply(pieces.subrange(0, i as int), self@),
                pieces_in_bounds(pieces.subrange(0, i as int), total as nat),
            decreases delta.els@.len() - i,
        {
            let ghost done = pieces.subrange(0, i as int);
            let ghost piece = pieces[i as int];
            proof {
                assert(piece == delta.els@[i as int]@);
                assert(pieces.subrange(0, i + 1) =~= done.push(piece));
                lemma_pieces_push(done, piece, self@);
                lemma_split(pieces, i + 1, self@);
                assert(pieces_len(pieces.subrange(i + 1, pieces.len() as int)) >= 0);
            }
            match &delta.els[i] {
                DeltaElement::Copy(start, end) => {
                    if !(*start <= *end && *end <= total) {
                        assert(!piece.in_bounds(total as nat));
                        return Err(OutOfBounds);
                    }
                    if *end - *start > usize::MAX - built {
                        return Err(OutOfBounds);
                    }
                    match self.subseq(*start, *end) {
                        Ok(part) => {
                            builder.push(part);
                        },
                        Err(e) => {
                            return Err(e);
                        },
                    }
                    built += *end - *start;
                },
                DeltaElement::Insert(bytes) => {
                    if bytes.len() > usize::MAX - built {
                        return Err(OutOfBounds);
                    }
                    let copy = bytes.clone();
                    assert(copy@ =~= bytes@);
                    builder.push_leaf(Bytes(copy));
                    built += bytes.len();
                },
            }
            proof {
                assert forall|k: int| 0 <= k < done.push(piece).len() implies (
                #[trigger] done.push(piece)[k]).in_bounds(total as nat) by {
                    if k < done.len() {
                        assert(done.push(piece)[k] == done[k]);
                    }
                }
            }
            i += 1;
        }
        proof {
            assert(pieces.subrange(0, pieces.len() as int) =~= pieces);
        }
        Ok(builder.build())
    }
}

/// What has to be inserted to get back the bytes of `base` in `[from, to)`.
pub open spec fn pieces_gap(base: Seq<u8>, from: int, to: int) -> Seq<Piece> {
    if from < to {
        seq![Piece::Insert { bytes: base.subrange(from, to) }]
    } else {
        Seq::empty()
    }
}

/// What copies the bytes `[from, to)` of the new sequence.
pub open spec fn pieces_keep(from: int, to: int) -> Seq<Piece> {
    if from < to {
        seq![Piece::Copy { start: from, end: to }]
    } else {
        Seq::empty()
    }
}

/// The pieces that undo `pieces`, where the pieces before them end at
/// `base_pos` in the old sequence and at `out_pos` in the new one: what was
/// copied is copied back, what was left out is inserted from `base`, and
/// what was inserted is left out.
pub open spec fn pieces_invert(pieces: Seq<Piece>, base: Seq<u8>, base_pos: int, out_pos: int) -> Seq<Piece>
    decreases pieces.len(),
{
    if pieces.len() == 0 {
        pieces_gap(base, base_pos, base.len() as int)
    } else {
        match pieces[0] {
            Piece::Copy { start, end } => pieces_gap(base, base_pos, start) + pieces_keep(
                out_pos,
                out_pos + (end - start),
            ) + pieces_invert(pieces.drop_first(), base, end, out_pos + (end - start)),
            Piece::Insert { bytes } => pieces_invert(
                pieces.drop_first(),
                base,
                base_pos,
                out_pos + bytes.len(),
            ),
        }
    }
}

impl DeltaView {
    /// The delta that undoes this one on `base`.
    pub open spec fn invert(self, base: Seq<u8>) -> DeltaView {
        DeltaView { pieces: pieces_invert(self.pieces, base, 0, 0), base_len: self.new_len() }
    }
}

/// Appending sorted pieces to sorted pieces that end before them.
pub proof fn lemma_sorted_concat(first: Seq<Piece>, second: Seq<Piece>, from: int)
    requires
        pieces_sorted(first, from),
        pieces_sorted(second, pieces_end(first, from)),
    ensures
        pieces_sorted(first + second, from),
        pieces_end(first + second, from) == pieces_end(second, pieces_end(first, from)),
    decreases first.len(),
{
    if first.len() == 0 {
        assert(first + second =~= second);
    } else {
        assert((first + second)[0] == first[0]);
        assert((first + second).drop_first() =~= first.drop_first() + second);
        match first[0] {
            Piece::Copy { start, end } => lemma_sorted_concat(first.drop_first(), second, end),
            Piece::Insert { bytes } => lemma_sorted_concat(first.drop_first(), second, from),
        }
    }
}

/// Sorted pieces are sorted from any earlier offset too.
pub proof fn lemma_sorted_from_earlier(pieces: Seq<Piece>, from: int, earlier: int)
    requires
        pieces_sorted(pieces, from),
        earlier <= from,
    ensures
        pieces_sorted(pieces, earlier),
        pieces_end(pieces, earlier) <= pieces_end(pieces, from),
        pieces_end(pieces, from) == from || pieces_end(pieces, earlier) == pieces_end(pieces, from),
    decreases pieces.len(),
{
    if pieces.len() > 0 {
        match pieces[0] {
            Piece::Copy { start, end } => {},
            Piece::Insert { bytes } => lemma_sorted_from_earlier(
                pieces.drop_first(),
                from,
                earlier,
            ),
        }
    }
}

/// The pieces that undo a delta give back the old sequence from the new one,
/// and they are a delta in order on the new sequence.
pub proof fn lemma_invert(pieces: Seq<Piece>, base: Seq<u8>, base_pos: int, out_pos: int, new: Seq<u8>)
    requires
        0 <= base_pos,
        0 <= out_pos,
        pieces_sorted(pieces, base_pos),
        pieces_end(pieces, base_pos) <= base.len(),
        out_pos + pieces_len(pieces) <= new.len(),
        new.subrange(out_pos, out_pos + pieces_len(pieces)) == pieces_apply(pieces, base),
    ensures
        pieces_apply(pieces_invert(pieces, base, base_pos, out_pos), new) == base.subrange(
            base_pos,
            base.len() as int,
        ),
        pieces_len(pieces_invert(pieces, base, base_pos, out_pos)) == base.len() - base_pos,
        pieces_sorted(pieces_invert(pieces, base, base_pos, out_pos), out_pos),
        pieces_end(pieces_invert(pieces, base, base_pos, out_pos), out_pos) <= out_pos
            + pieces_len(pieces),
    decreases pieces.len(),
{
    lemma_sorted_in_bounds(pieces, base_pos, base.len());
    let inverse = pieces_invert(pieces, base, base_pos, out_pos);
    if pieces.len() == 0 {
        let gap = pieces_gap(base, base_pos, base.len() as int);
        if base_pos < base.len() {
            let insert = Piece::Insert { bytes: base.subrange(base_pos, base.len() as int) };
            lemma_pieces_push(Seq::empty(), insert, new);
            assert(Seq::<Piece>::empty().push(insert) =~= gap);
            assert(pieces_apply(Seq::<Piece>::empty(), new) + insert.apply(new) =~= base.subrange(
                base_pos,
                base.len() as int,
            ));
            lemma_sorted_push(Seq::empty(), out_pos, insert);
        } else {
            assert(base.subrange(base_pos, base.len() as int) =~= Seq::<u8>::empty());
        }
    } else {
        let rest = pieces.drop_first();
        lemma_apply_len(pieces, base);
        assert(pieces[0].in_bounds(base.len()));
        assert forall|i: int| 0 <= i < rest.len() implies (#[trigger] rest[i]).in_bounds(
            base.len(),
        ) by {
            assert(rest[i] == pieces[i + 1]);
        }
        lemma_apply_len(rest, base);
        match pieces[0] {
            Piece::Copy { start, end } => {
                let n = end - start;
                let gap = pieces_gap(base, base_pos, start);
                let keep = pieces_keep(out_pos, out_pos + n);
                let tail = pieces_invert(rest, base, end, out_pos + n);
                assert(new.subrange(out_pos + n, out_pos + n + pieces_len(rest)) =~= pieces_apply(
                    rest,
                    base,
                )) by {
                    assert(new.subrange(out_pos + n, out_pos + n + pieces_len(rest))
                        =~= new.subrange(out_pos, out_pos + pieces_len(pieces)).subrange(
                        n,
                        n + pieces_len(rest),
                    ));
                    assert(pieces_apply(pieces, base).subrange(n, n + pieces_len(rest))
                        =~= pieces_apply(rest, base));
                }
                lemma_invert(rest, base, end, out_pos + n, new);
                assert(new.subrange(out_pos, out_pos + n) =~= base.subrange(start, end)) by {
                    assert(new.subrange(out_pos, out_pos + n) =~= new.subrange(
                        out_pos,
                        out_pos + pieces_len(pieces),
                    ).subrange(0, n));
                    assert(pieces_apply(pieces, base).subrange(0, n) =~= base.subrange(
                        start,
                        end,
                    ));
                }
                // what the gap and the copy give back
                if base_pos < start {
                    let insert = Piece::Insert { bytes: base.subrange(base_pos, start) };
                    assert(gap =~= Seq::<Piece>::empty().push(insert));
                    lemma_pieces_push(Seq::empty(), insert, new);
                    lemma_sorted_push(Seq::empty(), out_pos, insert);
                    assert(pieces_apply(gap, new) =~= base.subrange(base_pos, start));
                } else {
                    assert(pieces_apply(gap, new) =~= base.subrange(base_pos, start));
                }
                assert(pieces_len(gap) == start - base_pos);
                assert(pieces_sorted(gap, out_pos) && pieces_end(gap, out_pos) == out_pos);
                if 0 < n {
                    let copy = Piece::Copy { start: out_pos, end: out_pos + n };
                    assert(keep =~= Seq::<Piece>::empty().push(copy));
                    lemma_pieces_push(Seq::empty(), copy, new);
                    lemma_sorted_push(Seq::empty(), out_pos, copy);
                    assert(pieces_apply(keep, new) =~= base.subrange(start, end));
                } else {
                    assert(pieces_apply(keep, new) =~= base.subrange(start, end));
                }
                assert(pieces_len(keep) == n);
                assert(pieces_sorted(keep, out_pos) && pieces_end(keep, out_pos) == out_pos + n);
                lemma_pieces_concat(gap, keep, new);
                lemma_pieces_concat(gap + keep, tail, new);
                lemma_sorted_concat(gap, keep, out_pos);
                lemma_sorted_concat(gap + keep, tail, out_pos);
                assert(base.subrange(base_pos, start) + base.subrange(start, end) + base.subrange(
                    end,
                    base.len() as int,
                ) =~= base.subrange(base_pos, base.len() as int));
            },
            Piece::Insert { bytes } => {
                let n = bytes.len() as int;
                assert(new.subrange(out_pos + n, out_pos + n + pieces_len(rest)) =~= pieces_apply(
                    rest,
                    base,
                )) by {
                    assert(new.subrange(out_pos + n, out_pos + n + pieces_len(rest))
                        =~= new.subrange(out_pos, out_pos + pieces_len(pieces)).subrange(
                        n,
                        n + pieces_len(rest),
                    ));
                    assert(pieces_apply(pieces, base).subrange(n, n + pieces_len(rest))
                        =~= pieces_apply(rest, base));
                }
                lemma_invert(rest, base, base_pos, out_pos + n, new);
                lemma_sorted_from_earlier(
                    pieces_invert(rest, base, base_pos, out_pos + n),
                    out_pos + n,
                    out_pos,
                );
            },
        }
    }
}

impl DeltaView {
    /// Undoing a delta gives back the sequence it was applied to, and the
    /// delta that undoes is itself in order and made for the new sequence.
    pub proof fn lemma_invert_undoes(self, base: Seq<u8>)
        requires
            self.ordered(),
            self.base_len == base.len(),
        ensures
            self.fits(base.len()),
            self.invert(base).ordered(),
            self.invert(base).fits(self.apply(base).len()),
            self.invert(base).new_len() == base.len(),
            self.invert(base).apply(self.apply(base)) == base,
    {
        lemma_sorted_in_bounds(self.pieces, 0, self.base_len);
        lemma_apply_len(self.pieces, base);
        let new = self.apply(base);
        assert(new.subrange(0, pieces_len(self.pieces) as int) =~= new);
        lemma_invert(self.pieces, base, 0, 0, new);
        assert(base.subrange(0, base.len() as int) =~= base);
        lemma_sorted_in_bounds(self.invert(base).pieces, 0, self.new_len());
    }
}


/// The pieces that make the bytes `[lo, hi)` of what `pieces` make.
pub open spec fn pieces_slice(pieces: Seq<Piece>, lo: int, hi: int) -> Seq<Piece>
    decreases pieces.len(),
{
    if pieces.len() == 0 || hi <= lo {
        Seq::empty()
    } else {
        let n = pieces[0].len() as int;
        let rest = pieces_slice(pieces.drop_first(), if lo > n { lo - n } else { 0 }, hi - n);
        if lo < n {
            seq![pieces[0].cut(lo, if hi < n { hi } else { n })] + rest
        } else {
            rest
        }
    }
}

/// The pieces that make, of an old sequence, what `second` makes of what
/// `first` makes of it.
pub open spec fn pieces_compose(first: Seq<Piece>, second: Seq<Piece>) -> Seq<Piece>
    decreases second.len(),
{
    if second.len() == 0 {
        Seq::empty()
    } else {
        (match second[0] {
            Piece::Copy { start, end } => pieces_slice(first, start, end),
            Piece::Insert { bytes } => seq![second[0]],
        }) + pieces_compose(first, second.drop_first())
    }
}

impl DeltaView {
    /// The delta that does at once what `self` and then `next` do.
    pub open spec fn compose(self, next: DeltaView) -> DeltaView {
        DeltaView { pieces: pieces_compose(self.pieces, next.pieces), base_len: self.base_len }
    }
}

/// Pieces in bounds have their first piece and their other pieces in bounds.
pub proof fn lemma_in_bounds_rest(pieces: Seq<Piece>, base_len: nat)
    requires
        pieces_in_bounds(pieces, base_len),
        pieces.len() > 0,
    ensures
        pieces[0].in_bounds(base_len),
        pieces_in_bounds(pieces.drop_first(), base_len),
{
    assert forall|i: int| 0 <= i < pieces.drop_first().len() implies (
    #[trigger] pieces.drop_first()[i]).in_bounds(base_len) by {
        assert(pieces.drop_first()[i] == pieces[i + 1]);
    }
}

/// Pieces in bounds behind pieces in bounds are in bounds.
pub proof fn lemma_in_bounds_concat(first: Seq<Piece>, second: Seq<Piece>, base_len: nat)
    requires
        pieces_in_bounds(first, base_len),
        pieces_in_bounds(second, base_len),
    ensures
        pieces_in_bounds(first + second, base_len),
{
    assert forall|i: int| 0 <= i < (first + second).len() implies (#[trigger] (first
        + second)[i]).in_bounds(base_len) by {
        if i < first.len() {
            assert((first + second)[i] == first[i]);
        } else {
            assert((first + second)[i] == second[i - first.len()]);
        }
    }
}

/// A slice of pieces makes the slice of what the pieces make.
pub proof fn lemma_slice(pieces: Seq<Piece>, lo: int, hi: int, base: Seq<u8>)
    requires
        pieces_in_bounds(pieces, base.len()),
        0 <= lo <= hi <= pieces_len(pieces),
    ensures
        pieces_in_bounds(pieces_slice(pieces, lo, hi), base.len()),
        pieces_len(pieces_slice(pieces, lo, hi)) == hi - lo,
        pieces_apply(pieces_slice(pieces, lo, hi), base) == pieces_apply(pieces, base).subrange(
            lo,
            hi,
        ),
    decreases pieces.len(),
{
    lemma_apply_len(pieces, base);
    if pieces.len() == 0 || hi <= lo {
        assert(pieces_apply(pieces, base).subrange(lo, hi) =~= Seq::<u8>::empty());
    } else {
        let first = pieces[0];
        let n = first.len() as int;
        let rest = pieces.drop_first();
        lemma_in_bounds_rest(pieces, base.len());
        lemma_apply_len(rest, base);
        let whole = pieces_apply(pieces, base);
        assert(first.apply(base).len() == n);
        if lo < n {
            let top = if hi < n { hi } else { n };
            let cut = first.cut(lo, top);
            assert(cut.in_bounds(base.len()));
            assert(cut.apply(base) =~= first.apply(base).subrange(lo, top));
            assert(cut.len() == top - lo);
            if hi <= n {
                let tail = pieces_slice(rest, 0, hi - n);
                assert(tail =~= Seq::<Piece>::empty());
                assert(seq![cut] + tail =~= Seq::<Piece>::empty().push(cut));
                lemma_pieces_push(Seq::empty(), cut, base);
                assert(pieces_apply(Seq::<Piece>::empty(), base) + cut.apply(base)
                    =~= whole.subrange(lo, hi));
            } else {
                lemma_slice(rest, 0, hi - n, base);
                let tail = pieces_slice(rest, 0, hi - n);
                let head = Seq::<Piece>::empty().push(cut);
                assert(seq![cut] =~= head);
                lemma_pieces_push(Seq::empty(), cut, base);
                lemma_pieces_concat(head, tail, base);
                lemma_in_bounds_concat(head, tail, base.len());
                assert(pieces_apply(Seq::<Piece>::empty(), base) + cut.apply(base) + pieces_apply(
                    rest,
                    base,
                ).subrange(0, hi - n) =~= whole.subrange(lo, hi));
            }
        } else {
            lemma_slice(rest, lo - n, hi - n, base);
            assert(pieces_apply(rest, base).subrange(lo - n, hi - n) =~= whole.subrange(lo, hi));
        }
    }
}

/// The composed pieces make what the second pieces make of what the first make.
pub proof fn lemma_compose(first: Seq<Piece>, second: Seq<Piece>, base: Seq<u8>)
    requires
        pieces_in_bounds(first, base.len()),
        pieces_in_bounds(second, pieces_len(first)),
    ensures
        pieces_in_bounds(pieces_compose(first, second), base.len()),
        pieces_len(pieces_compose(first, second)) == pieces_len(second),
        pieces_apply(pieces_compose(first, second), base) == pieces_apply(
            second,
            pieces_apply(first, base),
        ),
    decreases second.len(),
{
    lemma_apply_len(first, base);
    if second.len() > 0 {
        let rest = second.drop_first();
        lemma_in_bounds_rest(second, pieces_len(first));
        lemma_compose(first, rest, base);
        let middle = pieces_apply(first, base);
        let head = match second[0] {
            Piece::Copy { start, end } => pieces_slice(first, start, end),
            Piece::Insert { bytes } => seq![second[0]],
        };
        match second[0] {
            Piece::Copy { start, end } => {
                lemma_slice(first, start, end, base);
            },
            Piece::Insert { bytes } => {
                assert(head =~= Seq::<Piece>::empty().push(second[0]));
                lemma_pieces_push(Seq::empty(), second[0], base);
                assert(pieces_apply(Seq::<Piece>::empty(), base) + bytes =~= bytes);
            },
        }
        lemma_pieces_concat(head, pieces_compose(first, rest), base);
        lemma_in_bounds_concat(head, pieces_compose(first, rest), base.len());
    }
}

impl DeltaView {
    /// A composed delta does what its two parts do one after the other.
    pub proof fn lemma_compose_applies(self, next: DeltaView, base: Seq<u8>)
        requires
            self.fits(base.len()),
            next.fits(self.new_len()),
        ensures
            self.compose(next).fits(base.len()),
            self.compose(next).new_len() == next.new_len(),
            self.compose(next).apply(base) == next.apply(self.apply(base)),
    {
        lemma_compose(self.pieces, next.pieces, base);
    }

    /// A position that a delta moves lies in what the delta makes.
    pub proof fn lemma_transform_bound(self, ix: int, after: bool)
        ensures
            0 <= self.transform(ix, after) <= self.new_len(),
    {
        lemma_scan_bound(self.pieces, ix, after);
    }
}

impl RopeDelta {
    /// Where the offset `ix` of the old sequence lies in the new one. Where
    /// bytes are inserted at `ix` it lies behind them if `after` is set.
    pub fn transform(&self, ix: usize, after: bool) -> (moved: usize)
        requires
            self@.new_len() <= usize::MAX,
        ensures
            moved == self@.transform(ix as int, after),
    {
        if ix == 0 && !after {
            return 0;
        }
        let ghost pieces = self@.pieces;
        let mut result: usize = 0;
        let mut i: usize = 0;
        proof {
            assert(pieces.subrange(0, pieces.len() as int) =~= pieces);
            assert(pieces.subrange(0, 0) =~= Seq::<Piece>::empty());
        }
        while i < self.els.len()
            invariant
                i <= self.els@.len(),
                pieces == self@.pieces,
                pieces.len() == self.els@.len(),
                pieces_len(pieces) <= usize::MAX,
                ix != 0 || after,
                result == pieces_len(pieces.subrange(0, i as int)),
                result + pieces_scan(pieces.subrange(i as int, pieces.len() as int), ix as int, after)
                    == pieces_scan(pieces, ix as int, after),
            decreases self.els@.len() - i,
        {
            proof {
                lemma_rest(pieces, i as int);
                assert(pieces[i as int] == self.els@[i as int]@);
                assert(pieces.subrange(0, i + 1) =~= pieces.subrange(0, i as int).push(
                    pieces[i as int],
                ));
                lemma_pieces_push(pieces.subrange(0, i as int), pieces[i as int], Seq::empty());
                lemma_split(pieces, i + 1, Seq::empty());
                assert(pieces_len(pieces.subrange(i + 1, pieces.len() as int)) >= 0);
            }
            match &self.els[i] {
                DeltaElement::Copy(start, end) => {
                    if ix <= *start {
                        return result;
                    }
                    if ix < *end || (ix == *end && !after) {
                        return result + (ix - *start);
                    }
                    if *start <= *end {
                        result += *end - *start;
                    }
                },
                DeltaElement::Insert(bytes) => {
                    result += bytes.len();
                },
            }
            i += 1;
        }
        result
    }

    /// The delta that undoes this one, which was made for `base`.
    pub fn invert(&self, base: &Rope) -> (inverse: RopeDelta)
        requires
            self@.ordered(),
            self.base_len == base@.len(),
            self@.new_len() <= usize::MAX,
        ensures
            inverse@ == self@.invert(base@),
    {
        let ghost pieces = self@.pieces;
        let ghost whole = pieces_invert(pieces, base@, 0, 0);
        let total = base.len();
        let mut els: Vec<DeltaElement> = Vec::new();
        let mut base_pos: usize = 0;
        let mut out_pos: usize = 0;
        let mut i: usize = 0;
        proof {
            assert(pieces.subrange(0, pieces.len() as int) =~= pieces);
            assert(element_views(els@) + whole =~= whole);
            lemma_split(pieces, 0, base@);
            assert(pieces.subrange(0, 0) =~= Seq::<Piece>::empty());
        }
        while i < self.els.len()
            invariant
                i <= self.els@.len(),
                pieces == self@.pieces,
                pieces.len() == self.els@.len(),
                total == base@.len(),
                pieces_len(pieces) <= usize::MAX,
                out_pos == pieces_len(pieces.subrange(0, i as int)),
                pieces_sorted(pieces.subrange(i as int, pieces.len() as int), base_pos as int),
                pieces_end(pieces.subrange(i as int, pieces.len() as int), base_pos as int)
                    <= total,
                base_pos <= total,
                element_views(els@) + pieces_invert(
                    pieces.subrange(i as int, pieces.len() as int),
                    base@,
                    base_pos as int,
                    out_pos as int,
                ) == whole,
            decreases self.els@.len() - i,
        {
            let ghost after = pieces.subrange(i + 1, pieces.len() as int);
            let ghost before = element_views(els@);
            proof {
                lemma_rest(pieces, i as int);
                assert(pieces[i as int] == self.els@[i as int]@);
                assert(pieces.subrange(0, i + 1) =~= pieces.subrange(0, i as int).push(
                    pieces[i as int],
                ));
                lemma_pieces_push(pieces.subrange(0, i as int), pieces[i as int], Seq::empty());
                lemma_split(pieces, i + 1, Seq::empty());
                assert(pieces_len(after) >= 0);
            }
            match &self.els[i] {
                DeltaElement::Copy(start, end) => {
                    proof {
                        lemma_sorted_in_bounds(after, *end as int, total as nat);
                    }
                    if base_pos < *start {
                        match base.slice(base_pos, *start) {
                            Ok(bytes) => {
                                let gap = DeltaElement::Insert(bytes);
                                proof {
                                    assert(element_views(els@.push(gap)) =~= element_views(els@)
                                        + pieces_gap(base@, base_pos as int, *start as int));
                                }
                                els.push(gap);
                            },
                            Err(_) => {},
                        }
                    }
                    let ghost with_gap = element_views(els@);
                    assert(with_gap =~= before + pieces_gap(base@, base_pos as int, *start as int));
                    if *start < *end {
                        let keep = DeltaElement::Copy(out_pos, out_pos + (*end - *start));
                        proof {
                            assert(element_views(els@.push(keep)) =~= element_views(els@)
                                + pieces_keep(out_pos as int, out_pos + (*end - *start)));
                        }
                        els.push(keep);
                    }
                    proof {
                        let keep = pieces_keep(out_pos as int, out_pos + (*end - *start));
                        assert(element_views(els@) =~= with_gap + keep);
                        let tail = pieces_invert(
                            after,
                            base@,
                            *end as int,
                            out_pos + (*end - *start),
                        );
                        assert(before + (pieces_gap(base@, base_pos as int, *start as int) + keep
                            + tail) =~= with_gap + keep + tail);
                    }
                    out_pos += *end - *start;
                    base_pos = *end;
                },
                DeltaElement::Insert(bytes) => {
                    out_pos += bytes.len();
                },
            }
            i += 1;
        }
        proof {
            assert(pieces.subrange(i as int, pieces.len() as int) =~= Seq::<Piece>::empty());
            assert(pieces.subrange(0, i as int) =~= pieces);
        }
        if base_pos < total {
            match base.slice(base_pos, total) {
                Ok(bytes) => {
                    let gap = DeltaElement::Insert(bytes);
                    proof {
                        assert(element_views(els@.push(gap)) =~= element_views(els@) + pieces_gap(
                            base@,
                            base_pos as int,
                            total as int,
                        ));
                    }
                    els.push(gap);
                },
                Err(_) => {},
            }
        } else {
            assert(element_views(els@) + Seq::<Piece>::empty() =~= element_views(els@));
        }
        RopeDelta { els, base_len: out_pos }
    }

    /// Appends to `out` the elements that make the bytes `[lo, hi)` of what
    /// this delta makes.
    fn push_slice(&self, out: &mut Vec<DeltaElement>, lo: usize, hi: usize)
        ensures
            element_views(final(out)@) == element_views(old(out)@) + pieces_slice(
                self@.pieces,
                lo as int,
                hi as int,
            ),
    {
        let ghost pieces = self@.pieces;
        let ghost whole = pieces_slice(pieces, lo as int, hi as int);
        let ghost start_views = element_views(out@);
        let mut lo_rel: usize = lo;
        let mut hi_rel: usize = hi;
        let mut j: usize = 0;
        proof {
            assert(pieces.subrange(0, pieces.len() as int) =~= pieces);
        }
        while j < self.els.len() && lo_rel < hi_rel
            invariant
                j <= self.els@.len(),
                pieces == self@.pieces,
                pieces.len() == self.els@.len(),
                element_views(out@) + pieces_slice(
                    pieces.subrange(j as int, pieces.len() as int),
                    lo_rel as int,
                    hi_rel as int,
                ) == start_views + whole,
            decreases self.els@.len() - j,
        {
            let ghost before = element_views(out@);
            let ghost tail = pieces.subrange(j + 1, pieces.len() as int);
            proof {
                lemma_rest(pieces, j as int);
                assert(pieces[j as int] == self.els@[j as int]@);
            }
            let n: usize = match &self.els[j] {
                DeltaElement::Copy(start, end) => if *start <= *end {
                    *end - *start
                } else {
                    0
                },
                DeltaElement::Insert(bytes) => bytes.len(),
            };
            assert(n == pieces[j as int].len());
            if lo_rel < n {
                let top: usize = if hi_rel < n { hi_rel } else { n };
                let cut = match &self.els[j] {
                    DeltaElement::Copy(start, end) => DeltaElement::Copy(
                        *start + lo_rel,
                        *start + top,
                    ),
                    DeltaElement::Insert(bytes) => DeltaElement::Insert(
                        copy_range(bytes, lo_rel, top),
                    ),
                };
                proof {
                    assert(cut@ == pieces[j as int].cut(lo_rel as int, top as int));
                    assert(element_views(out@.push(cut)) =~= before + seq![cut@]);
                    let next = pieces_slice(tail, 0, hi_rel - n);
                    assert(before + (seq![cut@] + next) =~= before + seq![cut@] + next);
                }
                out.push(cut);
                lo_rel = 0;
            } else {
                lo_rel -= n;
            }
            if hi_rel <= n {
                hi_rel = 0;
                proof {
                    assert(pieces_slice(tail, lo_rel as int, 0) =~= Seq::<Piece>::empty());
                }
            } else {
                hi_rel -= n;
            }
            j += 1;
        }
        proof {
            let rest = pieces.subrange(j as int, pieces.len() as int);
            assert(pieces_slice(rest, lo_rel as int, hi_rel as int) =~= Seq::<Piece>::empty());
            assert(element_views(out@) + Seq::<Piece>::empty() =~= element_views(out@));
        }
    }

    /// The delta that does at once what this delta and then `next` do.
    pub fn compose(&self, next: &RopeDelta) -> (both: RopeDelta)
        ensures
            both@ == self@.compose(next@),
    {
        let ghost pieces = next@.pieces;
        let ghost whole = pieces_compose(self@.pieces, pieces);
        let mut els: Vec<DeltaElement> = Vec::new();
        let mut i: usize = 0;
        proof {
            assert(pieces.subrange(0, pieces.len() as int) =~= pieces);
            assert(element_views(els@) + whole =~= whole);
        }
        while i < next.els.len()
            invariant
                i <= next.els@.len(),
                pieces == next@.pieces,
                pieces.len() == next.els@.len(),
                element_views(els@) + pieces_compose(
                    self@.pieces,
                    pieces.subrange(i as int, pieces.len() as int),
                ) == whole,
            decreases next.els@.len() - i,
        {
            let ghost before = element_views(els@);
            let ghost tail = pieces_compose(
                self@.pieces,
                pieces.subrange(i + 1, pieces.len() as int),
            );
            proof {
                lemma_rest(pieces, i as int);
                assert(pieces[i as int] == next.els@[i as int]@);
            }
            match &next.els[i] {
                DeltaElement::Copy(start, end) => {
                    self.push_slice(&mut els, *start, *end);
                    proof {
                        let head = pieces_slice(self@.pieces, *start as int, *end as int);
                        assert(before + (head + tail) =~= before + head + tail);
                    }
                },
                DeltaElement::Insert(bytes) => {
                    let insert = next.els[i].clone();
                    proof {
                        assert(element_views(els@.push(insert)) =~= before + seq![insert@]);
                        assert(before + (seq![insert@] + tail) =~= before + seq![insert@] + tail);
                    }
                    els.push(insert);
                },
            }
            i += 1;
        }
        proof {
            assert(pieces.subrange(i as int, pieces.len() as int) =~= Seq::<Piece>::empty());
            assert(element_views(els@) + Seq::<Piece>::empty() =~= element_views(els@));
        }
        RopeDelta { els, base_len: self.base_len }
    }

    /// A copy of the delta.
    pub fn duplicate(&self) -> (copy: RopeDelta)
        ensures
            copy@ == self@,
    {
        let mut els: Vec<DeltaElement> = Vec::new();
        let mut i: usize = 0;
        while i < self.els.len()
            invariant
                i <= self.els@.len(),
                els@.len() == i,
                forall|k: int| 0 <= k < i ==> (#[trigger] els@[k])@ == self.els@[k]@,
            decreases self.els@.len() - i,
        {
            els.push(self.els[i].clone());
            i += 1;
        }
        proof {
            assert(element_views(els@) =~= element_views(self.els@));
        }
        RopeDelta { els, base_len: self.base_len }
    }
}


impl RopeDelta {
    /// Whether the delta can be applied to a sequence of `len` bytes.
    pub fn check_applies_to(&self, len: usize) -> (ok: bool)
        ensures
            ok == self.applies_to(len as nat),
    {
        if self.base_len != len {
            return false;
        }
        let ghost pieces = self@.pieces;
        let mut built: usize = 0;
        let mut i: usize = 0;
        proof {
            assert(pieces.subrange(0, 0) =~= Seq::<Piece>::empty());
        }
        while i < self.els.len()
            invariant
                i <= self.els@.len(),
                pieces == self@.pieces,
                pieces.len() == self.els@.len(),
                self.base_len == len,
                built == pieces_len(pieces.subrange(0, i as int)),
                pieces_in_bounds(pieces.subrange(0, i as int), len as nat),
            decreases self.els@.len() - i,
        {
            let ghost done = pieces.subrange(0, i as int);
            let ghost piece = pieces[i as int];
            proof {
                assert(piece == self.els@[i as int]@);
                assert(pieces.subrange(0, i + 1) =~= done.push(piece));
                lemma_pieces_push(done, piece, Seq::empty());
                lemma_split(pieces, i + 1, Seq::empty());
                assert(pieces_len(pieces.subrange(i + 1, pieces.len() as int)) >= 0);
            }
            let size: usize = match &self.els[i] {
                DeltaElement::Copy(start, end) => {
                    if !(*start <= *end && *end <= len) {
                        assert(!piece.in_bounds(len as nat));
                        return false;
                    }
                    *end - *start
                },
                DeltaElement::Insert(bytes) => bytes.len(),
            };
            if size > usize::MAX - built {
                return false;
            }
            built += size;
            proof {
                assert forall|k: int| 0 <= k < done.push(piece).len() implies (
                #[trigger] done.push(piece)[k]).in_bounds(len as nat) by {
                    if k < done.len() {
                        assert(done.push(piece)[k] == done[k]);
                    }
                }
            }
            i += 1;
        }
        proof {
            assert(pieces.subrange(0, pieces.len() as int) =~= pieces);
        }
        true
    }
}


impl RopeDelta {
    /// Whether the copied ranges lie in the old sequence, in its order and
    /// without overlap.
    pub fn check_ordered(&self) -> (ok: bool)
        ensures
            ok == self@.ordered(),
    {
        let ghost pieces = self@.pieces;
        let mut last: usize = 0;
        let mut i: usize = 0;
        proof {
            assert(pieces.subrange(0, pieces.len() as int) =~= pieces);
        }
        while i < self.els.len()
            invariant
                i <= self.els@.len(),
                pieces == self@.pieces,
                pieces.len() == self.els@.len(),
                pieces_sorted(pieces, 0) == pieces_sorted(
                    pieces.subrange(i as int, pieces.len() as int),
                    last as int,
                ),
                pieces_sorted(pieces, 0) ==> pieces_end(pieces, 0) == pieces_end(
                    pieces.subrange(i as int, pieces.len() as int),
                    last as int,
                ),
            decreases self.els@.len() - i,
        {
            proof {
                lemma_rest(pieces, i as int);
                assert(pieces[i as int] == self.els@[i as int]@);
            }
            match &self.els[i] {
                DeltaElement::Copy(start, end) => {
                    if !(last <= *start && *start <= *end) {
                        return false;
                    }
                    last = *end;
                },
                DeltaElement::Insert(bytes) => {},
            }
            i += 1;
        }
        proof {
            assert(pieces.subrange(i as int, pieces.len() as int) =~= Seq::<Piece>::empty());
        }
        last <= self.base_len
    }
}

} // verus!

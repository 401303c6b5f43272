//! A persistent rope of bytes, stored in the balanced tree of `xi_rope`.
//!
//! The tree itself is not verified. What it holds is named by [`rope_bytes`],
//! and every call into it goes through one of the private functions of this
//! module whose contract is believed without proof.

use vstd::prelude::*;
use xi_rope::tree::{Cursor, Leaf, Node, NodeInfo, TreeBuilder};

verus! {

/// A leaf that has fewer bytes than this is merged with its neighbour.
pub const MIN_LEAF: usize = 512;

/// A leaf that would grow beyond this many bytes is split in two.
pub const MAX_LEAF: usize = 4096;

/// `xi_rope::Interval`, a half-open range of offsets. It is only handed through.
#[verifier::external_type_specification]
#[verifier::external_body]
pub struct ExInterval(xi_rope::Interval);

/// An offset or a range that lies outside the rope it was used on.
#[derive(Clone, Copy, Debug, PartialEq, Eq, Structural)]
pub struct OutOfBounds;

/// The bytes of one leaf of the tree.
#[derive(Clone, Default, Debug)]
pub struct Bytes(pub Vec<u8>);

impl View for Bytes {
    type V = Seq<u8>;

    open spec fn view(&self) -> Seq<u8> {
        self.0@
    }
}

/// What the tree keeps in its inner nodes besides the length: nothing.
#[derive(Clone, Default, Debug)]
pub struct RopeInfo {}

/// The part of `other` that [`Bytes::append_range`] appends: the bytes from
/// `start` to `end`, or nothing where that is no range of `other`.
pub open spec fn range_or_empty(other: Seq<u8>, start: int, end: int) -> Seq<u8> {
    if 0 <= start <= end <= other.len() {
        other.subrange(start, end)
    } else {
        Seq::empty()
    }
}

/// A copy of the bytes of `bytes` in `[from, to)`.
pub fn copy_range(bytes: &Vec<u8>, from: usize, to: usize) -> (part: Vec<u8>)
    requires
        from <= to <= bytes@.len(),
    ensures
        part@ == bytes@.subrange(from as int, to as int),
{
    let mut part: Vec<u8> = Vec::new();
    let mut i: usize = from;
    while i < to
        invariant
            from <= i <= to <= bytes@.len(),
            part@ == bytes@.subrange(from as int, i as int),
        decreases to - i,
    {
        part.push(bytes[i]);
        i += 1;
    }
    part
}

/// Whether `after` and `rest` are what a leaf `before` becomes and gives
/// back when the bytes of `other` in `[start, end)` are appended to it: all
/// the bytes in one leaf if they are no more than `MAX_LEAF`, their first
/// half in the leaf and their second half given back otherwise.
pub open spec fn appended(before: Bytes, other: Bytes, start: usize, end: usize, after: Bytes, rest: Option<Bytes>) -> bool {
    let whole = before@ + range_or_empty(other@, start as int, end as int);
    match rest {
        None => after@ == whole && whole.len() <= MAX_LEAF,
        Some(r) => {
            &&& whole.len() > MAX_LEAF
            &&& after@ == whole.subrange(0, (whole.len() / 2) as int)
            &&& r@ == whole.subrange((whole.len() / 2) as int, whole.len() as int)
        },
    }
}

impl Bytes {
    /// Appends `other[start..end]` to this leaf. If the leaf would then hold
    /// more than `MAX_LEAF` bytes it keeps the first half, and the second half
    /// is returned. Leaves that were no longer than `MAX_LEAF` make leaves
    /// that are no longer; and where one of them held `MIN_LEAF` bytes, so
    /// do the leaves made.
    pub fn append_range(&mut self, other: &Bytes, start: usize, end: usize) -> (rest: Option<Bytes>)
        ensures
            old(self)@.len() <= MAX_LEAF && other@.len() <= MAX_LEAF ==> final(self)@.len()
                <= MAX_LEAF && (rest matches Some(r) ==> r@.len() <= MAX_LEAF),
            old(self)@.len() >= MIN_LEAF || range_or_empty(other@, start as int, end as int).len()
                >= MIN_LEAF ==> final(self)@.len() >= MIN_LEAF && (rest matches Some(r) ==> r@.len()
                >= MIN_LEAF),
            appended(*old(self), *other, start, end, *final(self), rest),
    {
        if start <= end && end <= other.0.len() {
            let mut i: usize = start;
            while i < end
                invariant
                    start <= i <= end <= other.0@.len(),
                    self.0@ == old(self).0@ + other.0@.subrange(start as int, i as int),
                decreases end - i,
            {
                self.0.push(other.0[i]);
                i += 1;
            }
        }
        if self.0.len() <= MAX_LEAF {
            None
        } else {
            let mid: usize = self.0.len() / 2;
            let right = self.0.split_off(mid);
            Some(Bytes(right))
        }
    }
}

/// `xi_rope::Interval::start_end`: the two ends of an interval that the tree
/// hands to a leaf. Nothing is claimed of them.
#[verifier::external_body]
fn interval_ends(iv: &xi_rope::Interval) -> (ends: (usize, usize)) {
    iv.start_end()
}

impl Leaf for Bytes {
    /// The number of bytes in the leaf.
    fn len(&self) -> (len: usize)
        ensures
            len == self@.len(),
    {
        self.0.len()
    }

    /// Whether the leaf holds enough bytes to stand beside other leaves.
    fn is_ok_child(&self) -> (ok: bool)
        ensures
            ok == (self@.len() >= MIN_LEAF),
    {
        self.0.len() >= MIN_LEAF
    }

    /// Appends the bytes of `other` that lie in `iv`, as `append_range`
    /// does for the two ends of `iv`, whatever they are.
    fn push_maybe_split(&mut self, other: &Bytes, iv: xi_rope::Interval) -> (rest: Option<Bytes>)
        ensures
            exists|start: usize, end: usize|
                #[trigger] appended(*old(self), *other, start, end, *final(self), rest),
    {
        let (start, end) = interval_ends(&iv);
        let rest = self.append_range(other, start, end);
        proof {
            assert(appended(*old(self), *other, start, end, *self, rest));
        }
        rest
    }
}

impl NodeInfo for RopeInfo {
    type L = Bytes;

    fn accumulate(&mut self, _other: &RopeInfo) {
    }

    fn compute_info(_leaf: &Bytes) -> RopeInfo {
        RopeInfo {  }
    }
}

/// An immutable sequence of bytes. Every operation that changes it returns a
/// new rope, which shares what it can with the old one.
///
/// No leaf of a rope holds more than `MAX_LEAF` bytes: leaves come into a
/// tree only through `node_from_leaf` and `builder_push_leaf`, which ask for
/// that, and the tree joins and cuts leaves with `Bytes::append_range`, which
/// keeps it so. The tree relies on this where it cuts a leaf.
#[verifier::external_body]
pub struct Rope {
    node: Node<RopeInfo>,
}

/// A rope under construction, to which ropes and leaves are appended.
#[verifier::external_body]
pub struct RopeBuilder {
    inner: TreeBuilder<RopeInfo>,
}

/// The bytes that a rope holds, in order.
pub uninterp spec fn rope_bytes(rope: Rope) -> Seq<u8>;

/// The bytes that were appended to a builder so far, in order.
pub uninterp spec fn builder_bytes(builder: RopeBuilder) -> Seq<u8>;

impl View for Rope {
    type V = Seq<u8>;

    open spec fn view(&self) -> Seq<u8> {
        rope_bytes(*self)
    }
}

impl View for RopeBuilder {
    type V = Seq<u8>;

    open spec fn view(&self) -> Seq<u8> {
        builder_bytes(*self)
    }
}

/// `Node::from_leaf`: a tree of one leaf holds the bytes of that leaf.
#[verifier::external_body]
fn node_from_leaf(leaf: Bytes) -> (rope: Rope)
    requires
        leaf@.len() <= MAX_LEAF,
    ensures
        rope_bytes(rope) == leaf@,
{
    Rope { node: Node::from_leaf(leaf) }
}

/// `Node::len`: the number of bytes in the tree, which the root keeps.
#[verifier::external_body]
fn node_len(rope: &Rope) -> (len: usize)
    ensures
        len == rope_bytes(*rope).len(),
{
    rope.node.len()
}

/// `Node::clone`: the clone shares the root and so holds the same bytes.
#[verifier::external_body]
fn node_clone(rope: &Rope) -> (copy: Rope)
    ensures
        rope_bytes(copy) == rope_bytes(*rope),
{
    Rope { node: rope.node.clone() }
}

/// `Node::subseq` on `Interval::new(start, end)`: a tree of the bytes from
/// `start` to `end`.
#[verifier::external_body]
fn node_subseq(rope: &Rope, start: usize, end: usize) -> (part: Rope)
    requires
        start <= end <= rope_bytes(*rope).len(),
    ensures
        rope_bytes(part) == rope_bytes(*rope).subrange(start as int, end as int),
{
    Rope { node: rope.node.subseq(xi_rope::Interval::new(start, end)) }
}

/// `Cursor::new` at `pos`, then `Cursor::get_leaf`: the leaf that holds the
/// byte at `pos` and the offset of that byte in the leaf. The leaf lies in the
/// rope `offset` bytes before `pos`.
#[verifier::external_body]
fn leaf_at(rope: &Rope, pos: usize) -> (found: (&Bytes, usize))
    requires
        pos < rope_bytes(*rope).len(),
    ensures
        found.1 < found.0@.len(),
        found.1 <= pos,
        pos - found.1 + found.0@.len() <= rope_bytes(*rope).len(),
        found.0@ == rope_bytes(*rope).subrange(pos - found.1, pos - found.1 + found.0@.len()),
{
    Cursor::new(&rope.node, pos).get_leaf().unwrap()
}

/// `TreeBuilder::new`: a builder to which nothing was appended.
#[verifier::external_body]
fn builder_new() -> (builder: RopeBuilder)
    ensures
        builder_bytes(builder) == Seq::<u8>::empty(),
{
    RopeBuilder { inner: TreeBuilder::new() }
}

/// `TreeBuilder::push`: concatenates a tree to what was built. The tree adds
/// the two lengths, so their sum has to fit.
#[verifier::external_body]
fn builder_push(builder: &mut RopeBuilder, rope: Rope)
    requires
        builder_bytes(*old(builder)).len() + rope_bytes(rope).len() <= usize::MAX,
    ensures
        builder_bytes(*final(builder)) == builder_bytes(*old(builder)) + rope_bytes(rope),
{
    builder.inner.push(rope.node)
}

/// `TreeBuilder::push_leaf`: concatenates one leaf to what was built.
#[verifier::external_body]
fn builder_push_leaf(builder: &mut RopeBuilder, leaf: Bytes)
    requires
        leaf@.len() <= MAX_LEAF,
        builder_bytes(*old(builder)).len() + leaf@.len() <= usize::MAX,
    ensures
        builder_bytes(*final(builder)) == builder_bytes(*old(builder)) + leaf@,
{
    builder.inner.push_leaf(leaf)
}

/// `TreeBuilder::build`: the tree of all that was appended, an empty leaf
/// where nothing was.
#[verifier::external_body]
fn builder_build(builder: RopeBuilder) -> (rope: Rope)
    ensures
        rope_bytes(rope) == builder_bytes(builder),
{
    Rope { node: builder.inner.build() }
}

/// All the sequences of `chunks`, one after the other.
pub open spec fn concat_chunks(chunks: Seq<Seq<u8>>) -> Seq<u8>
    decreases chunks.len(),
{
    if chunks.len() == 0 {
        Seq::empty()
    } else {
        concat_chunks(chunks.drop_last()) + chunks.last()
    }
}

/// The byte sequences that a vector of chunks holds.
pub open spec fn chunk_views(chunks: Seq<Vec<u8>>) -> Seq<Seq<u8>> {
    Seq::new(chunks.len(), |i: int| chunks[i]@)
}

impl RopeBuilder {
    pub fn new() -> (builder: RopeBuilder)
        ensures
            builder@ == Seq::<u8>::empty(),
    {
        builder_new()
    }

    /// Appends the bytes of `rope`.
    pub fn push(&mut self, rope: Rope)
        requires
            old(self)@.len() + rope@.len() <= usize::MAX,
        ensures
            final(self)@ == old(self)@ + rope@,
    {
        builder_push(self, rope)
    }

    /// Appends the bytes of `leaf`: as one leaf of the tree if they are no
    /// more than `MAX_LEAF`, as leaves of `MAX_LEAF` bytes and a rest
    /// otherwise.
    pub fn push_leaf(&mut self, leaf: Bytes)
        requires
            old(self)@.len() + leaf@.len() <= usize::MAX,
        ensures
            final(self)@ == old(self)@ + leaf@,
    {
        let total = leaf.0.len();
        if total <= MAX_LEAF {
            builder_push_leaf(self, leaf);
            return ;
        }
        let mut from: usize = 0;
        proof {
            assert(self@ + leaf@.subrange(0, 0) =~= self@);
        }
        while from < total
            invariant
                from <= total,
                total == leaf@.len(),
                old(self)@.len() + total <= usize::MAX,
                self@ == old(self)@ + leaf@.subrange(0, from as int),
            decreases total - from,
        {
            let to: usize = if total - from > MAX_LEAF { from + MAX_LEAF } else { total };
            let part = copy_range(&leaf.0, from, to);
            proof {
                assert(leaf@.subrange(0, from as int) + leaf@.subrange(from as int, to as int)
                    =~= leaf@.subrange(0, to as int));
            }
            builder_push_leaf(self, Bytes(part));
            from = to;
        }
        proof {
            assert(leaf@.subrange(0, total as int) =~= leaf@);
        }
    }

    /// The rope of all that was appended.
    pub fn build(self) -> (rope: Rope)
        ensures
            rope@ == self@,
    {
        builder_build(self)
    }
}

impl Clone for Rope {
    fn clone(&self) -> (copy: Rope)
        ensures
            copy@ == self@,
    {
        node_clone(self)
    }
}

impl Rope {
    /// The empty rope.
    pub fn new() -> (rope: Rope)
        ensures
            rope@ == Seq::<u8>::empty(),
    {
        node_from_leaf(Bytes(Vec::new()))
    }

    /// A rope that holds the bytes of `data`, in leaves of no more than
    /// `MAX_LEAF` bytes.
    pub fn from_vec(data: Vec<u8>) -> (rope: Rope)
        ensures
            rope@ == data@,
    {
        let mut builder = RopeBuilder::new();
        let ghost bytes = data@;
        let size = data.len();
        builder.push_leaf(Bytes(data));
        assert(Seq::<u8>::empty() + bytes =~= bytes);
        builder.build()
    }

    pub fn len(&self) -> (len: usize)
        ensures
            len == self@.len(),
    {
        node_len(self)
    }

    pub fn is_empty(&self) -> (empty: bool)
        ensures
            empty == (self@.len() == 0),
    {
        node_len(self) == 0
    }

    /// A second handle on the same bytes.
    pub fn duplicate(&self) -> (copy: Rope)
        ensures
            copy@ == self@,
    {
        node_clone(self)
    }

    /// The rope of the bytes in `[start, end)`, which shares its leaves with
    /// this one where it can.
    pub fn subseq(&self, start: usize, end: usize) -> (part: Result<Rope, OutOfBounds>)
        ensures
            part is Ok <==> start <= end <= self@.len(),
            part matches Ok(p) ==> p@ == self@.subrange(start as int, end as int),
    {
        if start <= end && end <= node_len(self) {
            Ok(node_subseq(self, start, end))
        } else {
            Err(OutOfBounds)
        }
    }

    /// The two ropes one after the other.
    pub fn concat(first: Rope, second: Rope) -> (joined: Rope)
        requires
            first@.len() + second@.len() <= usize::MAX,
        ensures
            joined@ == first@ + second@,
    {
        let mut builder = builder_new();
        builder_push(&mut builder, first);
        builder_push(&mut builder, second);
        builder_build(builder)
    }

    /// The bytes in `[start, end)` as the tree stores them: one chunk for each
    /// leaf that the range touches, in order. No chunk is empty, and together
    /// they are the range.
    pub fn iter_chunks(&self, start: usize, end: usize) -> (chunks: Result<Vec<Vec<u8>>, OutOfBounds>)
        ensures
            chunks is Ok <==> start <= end <= self@.len(),
            chunks matches Ok(c) ==> {
                &&& concat_chunks(chunk_views(c@)) == self@.subrange(start as int, end as int)
                &&& forall|i: int| 0 <= i < c@.len() ==> (#[trigger] c@[i])@.len() > 0
            },
    {
        let total = node_len(self);
        if !(start <= end && end <= total) {
            return Err(OutOfBounds);
        }
        let mut chunks: Vec<Vec<u8>> = Vec::new();
        let mut pos: usize = start;
        proof {
            assert(chunk_views(chunks@) =~= Seq::<Seq<u8>>::empty());
        }
        while pos < end
            invariant
                start <= pos <= end <= total,
                total == self@.len(),
                concat_chunks(chunk_views(chunks@)) == self@.subrange(start as int, pos as int),
                forall|i: int| 0 <= i < chunks@.len() ==> (#[trigger] chunks@[i])@.len() > 0,
            decreases end - pos,
        {
            let (leaf, offset) = leaf_at(self, pos);
            let room: usize = leaf.0.len() - offset;
            let take: usize = if end - pos < room { end - pos } else { room };
            let mut chunk: Vec<u8> = Vec::new();
            let mut k: usize = 0;
            while k < take
                invariant
                    k <= take,
                    offset + take <= leaf.0@.len() <= usize::MAX,
                    chunk@ == leaf.0@.subrange(offset as int, offset + k),
                decreases take - k,
            {
                chunk.push(leaf.0[offset + k]);
                k += 1;
            }
            proof {
                let before = chunk_views(chunks@);
                let after = chunk_views(chunks@.push(chunk));
                assert(after.drop_last() =~= before);
                assert(after.last() == chunk@);
                assert(chunk@ =~= self@.subrange(pos as int, pos + take));
                assert(self@.subrange(start as int, pos as int) + self@.subrange(pos as int, pos + take)
                    =~= self@.subrange(start as int, pos + take));
            }
            chunks.push(chunk);
            pos += take;
        }
        Ok(chunks)
    }

    /// The bytes in `[start, end)`, copied into one vector.
    pub fn slice(&self, start: usize, end: usize) -> (bytes: Result<Vec<u8>, OutOfBounds>)
        ensures
            bytes is Ok <==> start <= end <= self@.len(),
            bytes matches Ok(b) ==> b@ == self@.subrange(start as int, end as int),
    {
        match self.iter_chunks(start, end) {
            Err(e) => Err(e),
            Ok(chunks) => {
                let mut bytes: Vec<u8> = Vec::new();
                let mut i: usize = 0;
                proof {
                    assert(chunk_views(chunks@).subrange(0, 0) =~= Seq::<Seq<u8>>::empty());
                }
                while i < chunks.len()
                    invariant
                        i <= chunks@.len(),
                        bytes@ == concat_chunks(chunk_views(chunks@).subrange(0, i as int)),
                    decreases chunks@.len() - i,
                {
                    let chunk = &chunks[i];
                    let mut k: usize = 0;
                    let ghost before = bytes@;
                    while k < chunk.len()
                        invariant
                            k <= chunk@.len(),
                            bytes@ == before + chunk@.subrange(0, k as int),
                        decreases chunk@.len() - k,
                    {
                        bytes.push(chunk[k]);
                        k += 1;
                    }
                    proof {
                        let views = chunk_views(chunks@);
                        assert(views.subrange(0, i + 1).drop_last() =~= views.subrange(0, i as int));
                        assert(views.subrange(0, i + 1).last() == chunk@);
                        assert(chunk@.subrange(0, chunk@.len() as int) =~= chunk@);
                    }
                    i += 1;
                }
                proof {
                    let views = chunk_views(chunks@);
                    assert(views.subrange(0, views.len() as int) =~= views);
                }
                Ok(bytes)
            },
        }
    }

    /// All the bytes of the rope, copied into one vector.
    pub fn to_vec(&self) -> (bytes: Vec<u8>)
        ensures
            bytes@ == self@,
    {
        let total = node_len(self);
        match self.slice(0, total) {
            Ok(bytes) => {
                proof {
                    assert(self@.subrange(0, total as int) =~= self@);
                }
                bytes
            },
            Err(_) => Vec::new(),
        }
    }

    /// The byte at `pos`.
    pub fn byte_at(&self, pos: usize) -> (byte: Result<u8, OutOfBounds>)
        ensures
            byte is Ok <==> pos < self@.len(),
            byte matches Ok(b) ==> b == self@[pos as int],
    {
        if pos < node_len(self) {
            let (leaf, offset) = leaf_at(self, pos);
            Ok(leaf.0[offset])
        } else {
            Err(OutOfBounds)
        }
    }
}

} // verus!

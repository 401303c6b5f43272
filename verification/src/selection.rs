//! Selections: an ordered list of regions, one of which is the main one, and
//! the ways in which regions move, turn and follow an edit.

use vstd::prelude::*;
use vstd::arithmetic::div_mod::{lemma_add_mod_noop_right, lemma_mod_add_multiples_vanish, lemma_small_mod, lemma_sub_mod_noop_right};
use crate::byte_range::ByteRange;
use crate::delta::{DeltaView, RopeDelta};

verus! {

#[derive(Clone, Copy, Debug, PartialEq, Eq, Structural)]
pub enum Direction {
    Left,
    Right,
    Up,
    Down,
}

/// `x` moved into `[0, max_len]`.
pub open spec fn clamp(x: int, max_len: int) -> int {
    if x < 0 {
        0
    } else if x > max_len {
        max_len
    } else {
        x
    }
}

/// How far `count` steps in a direction lead, in bytes, with lines of
/// `bytes_per_line` bytes.
pub open spec fn step(direction: Direction, bytes_per_line: int, count: int) -> int {
    match direction {
        Direction::Left => -count,
        Direction::Right => count,
        Direction::Up => -(count * bytes_per_line),
        Direction::Down => count * bytes_per_line,
    }
}

/// Where the line of `pos` starts. Without a line length every offset is a
/// line of its own.
pub open spec fn line_start(pos: int, bytes_per_line: int) -> int {
    if bytes_per_line <= 0 {
        pos
    } else {
        pos - pos % bytes_per_line
    }
}

/// The boundary that lies in a direction from `pos`: the start or the end of
/// its line, the top or the bottom of the buffer.
pub open spec fn boundary(pos: int, direction: Direction, bytes_per_line: int, max_len: int) -> int {
    match direction {
        Direction::Left => clamp(line_start(pos, bytes_per_line), max_len),
        Direction::Right => if bytes_per_line <= 0 {
            clamp(pos, max_len)
        } else {
            clamp(line_start(pos, bytes_per_line) + bytes_per_line - 1, max_len)
        },
        Direction::Up => 0,
        Direction::Down => max_len,
    }
}

/// The offset that lies `count` steps from `pos` in a direction, kept in
/// `[0, max_len]`.
pub fn move_offset(pos: usize, direction: Direction, bytes_per_line: usize, max_len: usize, count: usize) -> (moved: usize)
    ensures
        moved == clamp(pos + step(direction, bytes_per_line as int, count as int), max_len as int),
{
    let distance: Option<usize> = match direction {
        Direction::Left | Direction::Right => Some(count),
        Direction::Up | Direction::Down => count.checked_mul(bytes_per_line),
    };
    let forward = match direction {
        Direction::Right | Direction::Down => true,
        Direction::Left | Direction::Up => false,
    };
    if forward {
        match distance {
            Some(d) => if pos >= max_len || d >= max_len - pos {
                max_len
            } else {
                pos + d
            },
            None => max_len,
        }
    } else {
        match distance {
            Some(d) => if d >= pos {
                0
            } else if pos - d > max_len {
                max_len
            } else {
                pos - d
            },
            None => 0,
        }
    }
}

/// Where the line of `pos` starts.
pub fn line_start_offset(pos: usize, bytes_per_line: usize) -> (start: usize)
    ensures
        start == line_start(pos as int, bytes_per_line as int),
        start <= pos,
{
    if bytes_per_line == 0 {
        pos
    } else {
        assert(pos % bytes_per_line <= pos) by (nonlinear_arith)
            requires
                bytes_per_line > 0,
        ;
        pos - pos % bytes_per_line
    }
}

/// The boundary that lies in a direction from `pos`.
pub fn boundary_offset(pos: usize, direction: Direction, bytes_per_line: usize, max_len: usize) -> (bound: usize)
    ensures
        bound == boundary(pos as int, direction, bytes_per_line as int, max_len as int),
{
    match direction {
        Direction::Up => 0,
        Direction::Down => max_len,
        Direction::Left => {
            let start = line_start_offset(pos, bytes_per_line);
            if start > max_len { max_len } else { start }
        },
        Direction::Right => {
            if bytes_per_line == 0 {
                if pos > max_len { max_len } else { pos }
            } else {
                let start = line_start_offset(pos, bytes_per_line);
                if start >= max_len || bytes_per_line - 1 >= max_len - start {
                    max_len
                } else {
                    start + (bytes_per_line - 1)
                }
            }
        },
    }
}

/// `pos + offset`, kept in `[0, max_len]`.
pub fn shift_offset(pos: usize, offset: isize, max_len: usize) -> (shifted: usize)
    ensures
        shifted == clamp(pos + offset, max_len as int),
{
    match pos.checked_add_signed(offset) {
        Some(sum) => if sum > max_len { max_len } else { sum },
        None => if offset < 0 { 0 } else { max_len },
    }
}

/// One selected stretch of bytes, from `tail` to `caret`, both included. The
/// caret is the end that moves.
#[derive(Clone, Copy, Debug, PartialEq, Eq, Structural)]
pub struct SelRegion {
    pub caret: usize,
    pub tail: usize,
}

impl SelRegion {
    pub open spec fn spec_min(&self) -> usize {
        if self.caret <= self.tail { self.caret } else { self.tail }
    }

    pub open spec fn spec_max(&self) -> usize {
        if self.caret >= self.tail { self.caret } else { self.tail }
    }

    pub open spec fn spec_is_forward(&self) -> bool {
        self.caret >= self.tail
    }

    pub open spec fn spec_collapse(&self) -> SelRegion {
        SelRegion { caret: self.caret, tail: self.caret }
    }

    /// Whether both ends are offsets of a buffer of `len` bytes, or its end.
    pub open spec fn in_bounds(self, len: int) -> bool {
        self.caret <= len && self.tail <= len
    }

    /// The region with both ends kept in `[0, max_len]`.
    pub open spec fn clamped(self, max_len: usize) -> SelRegion {
        SelRegion {
            caret: clamp(self.caret as int, max_len as int) as usize,
            tail: clamp(self.tail as int, max_len as int) as usize,
        }
    }

    /// The region as `delta` carries it along: each end goes where the delta
    /// takes its offset, is shifted, and is kept in `[0, max_len]`.
    pub open spec fn transported(self, delta: DeltaView, caret_offset: int, tail_offset: int, max_len: usize) -> SelRegion {
        SelRegion {
            caret: clamp(delta.transform(self.caret as int, false) + caret_offset, max_len as int) as usize,
            tail: clamp(delta.transform(self.tail as int, false) + tail_offset, max_len as int) as usize,
        }
    }

    pub fn new(caret: usize, tail: usize) -> (region: SelRegion)
        ensures
            region == (SelRegion { caret, tail }),
    {
        SelRegion { caret, tail }
    }

    #[verifier::when_used_as_spec(spec_min)]
    pub fn min(&self) -> (least: usize)
        ensures
            least == self.spec_min(),
    {
        if self.caret <= self.tail { self.caret } else { self.tail }
    }

    #[verifier::when_used_as_spec(spec_max)]
    pub fn max(&self) -> (most: usize)
        ensures
            most == self.spec_max(),
    {
        if self.caret >= self.tail { self.caret } else { self.tail }
    }

    /// The number of bytes from the first to the last, both counted.
    pub fn len(&self) -> (len: usize)
        ensures
            len == if self.max() - self.min() == usize::MAX {
                usize::MAX as int
            } else {
                self.max() - self.min() + 1
            },
    {
        (self.max() - self.min()).saturating_add(1)
    }

    #[verifier::when_used_as_spec(spec_is_forward)]
    pub fn is_forward(&self) -> (forward: bool)
        ensures
            forward == self.spec_is_forward(),
    {
        self.caret >= self.tail
    }

    /// The range of the bytes of the region.
    pub fn to_range(&self) -> (range: ByteRange)
        ensures
            range.start == self.min(),
            range.end == if self.max() == usize::MAX { usize::MAX } else { (self.max() + 1) as usize },
    {
        ByteRange::inclusive(self.min(), self.max())
    }

    /// Both ends move `count` steps.
    pub fn simple_move(&self, direction: Direction, bytes_per_line: usize, max_len: usize, count: usize) -> (moved: SelRegion)
        ensures
            moved.caret == clamp(
                self.caret + step(direction, bytes_per_line as int, count as int),
                max_len as int,
            ),
            moved.tail == clamp(
                self.tail + step(direction, bytes_per_line as int, count as int),
                max_len as int,
            ),
            moved.in_bounds(max_len as int),
    {
        SelRegion {
            caret: move_offset(self.caret, direction, bytes_per_line, max_len, count),
            tail: move_offset(self.tail, direction, bytes_per_line, max_len, count),
        }
    }

    /// The caret moves `count` steps, the tail stays.
    pub fn simple_extend(&self, direction: Direction, bytes_per_line: usize, max_len: usize, count: usize) -> (moved: SelRegion)
        ensures
            moved.caret == clamp(
                self.caret + step(direction, bytes_per_line as int, count as int),
                max_len as int,
            ),
            moved.tail == self.tail,
    {
        SelRegion {
            caret: move_offset(self.caret, direction, bytes_per_line, max_len, count),
            tail: self.tail,
        }
    }

    /// Both ends go to `offset`.
    pub fn jump_to(&self, offset: usize) -> (moved: SelRegion)
        ensures
            moved == (SelRegion { caret: offset, tail: offset }),
    {
        SelRegion { caret: offset, tail: offset }
    }

    /// The caret goes to `offset`, the tail stays.
    pub fn extend_to(&self, offset: usize) -> (moved: SelRegion)
        ensures
            moved == (SelRegion { caret: offset, tail: self.tail }),
    {
        SelRegion { caret: offset, tail: self.tail }
    }

    /// Both ends go to the boundary that lies in `direction` from the caret.
    pub fn jump_to_boundary(&self, direction: Direction, bytes_per_line: usize, max_len: usize) -> (moved: SelRegion)
        ensures
            moved.caret == boundary(
                self.caret as int,
                direction,
                bytes_per_line as int,
                max_len as int,
            ),
            moved.tail == moved.caret,
            moved.in_bounds(max_len as int),
    {
        let bound = boundary_offset(self.caret, direction, bytes_per_line, max_len);
        SelRegion { caret: bound, tail: bound }
    }

    /// The caret goes to the boundary that lies in `direction`, the tail stays.
    pub fn extend_to_boundary(&self, direction: Direction, bytes_per_line: usize, max_len: usize) -> (moved: SelRegion)
        ensures
            moved.caret == boundary(
                self.caret as int,
                direction,
                bytes_per_line as int,
                max_len as int,
            ),
            moved.tail == self.tail,
    {
        SelRegion {
            caret: boundary_offset(self.caret, direction, bytes_per_line, max_len),
            tail: self.tail,
        }
    }

    /// The tail goes to the caret.
    #[verifier::when_used_as_spec(spec_collapse)]
    pub fn collapse(&self) -> (collapsed: SelRegion)
        ensures
            collapsed == self.spec_collapse(),
    {
        SelRegion { caret: self.caret, tail: self.caret }
    }

    /// Caret and tail change places.
    pub fn swap_caret(&self) -> (swapped: SelRegion)
        ensures
            swapped == (SelRegion { caret: self.tail, tail: self.caret }),
    {
        SelRegion { caret: self.tail, tail: self.caret }
    }

    /// The same bytes with the caret at their end.
    pub fn to_forward(&self) -> (turned: SelRegion)
        ensures
            turned == (SelRegion { caret: self.max(), tail: self.min() }),
    {
        SelRegion { caret: self.max(), tail: self.min() }
    }

    /// The same bytes with the caret at their start.
    pub fn to_backward(&self) -> (turned: SelRegion)
        ensures
            turned == (SelRegion { caret: self.min(), tail: self.max() }),
    {
        SelRegion { caret: self.min(), tail: self.max() }
    }

    /// The same bytes, turned the way `from` is turned.
    pub fn inherit_direction(&self, from: &SelRegion) -> (turned: SelRegion)
        ensures
            turned.min() == self.min(),
            turned.max() == self.max(),
            turned.is_forward() == from.is_forward() || self.caret == self.tail,
            turned.caret == if from.is_forward() { self.max() } else { self.min() },
    {
        if from.is_forward() {
            self.to_forward()
        } else {
            self.to_backward()
        }
    }

    /// The region with both ends kept in `[0, max_len]`.
    pub fn clamp_to(&self, max_len: usize) -> (kept: SelRegion)
        ensures
            kept == self.clamped(max_len),
            kept.in_bounds(max_len as int),
    {
        SelRegion {
            caret: if self.caret > max_len { max_len } else { self.caret },
            tail: if self.tail > max_len { max_len } else { self.tail },
        }
    }

    /// The region after an edit.
    pub fn apply_delta(&self, delta: &RopeDelta, max_len: usize) -> (moved: SelRegion)
        requires
            delta@.new_len() <= usize::MAX,
        ensures
            moved == self.transported(delta@, 0, 0, max_len),
            moved.in_bounds(max_len as int),
    {
        self.apply_delta_offset_carets(delta, 0, 0, max_len)
    }

    /// The region after an edit, with its ends shifted by `caret_offset` and
    /// `tail_offset`.
    pub fn apply_delta_offset_carets(&self, delta: &RopeDelta, caret_offset: isize, tail_offset: isize, max_len: usize) -> (moved: SelRegion)
        requires
            delta@.new_len() <= usize::MAX,
        ensures
            moved == self.transported(delta@, caret_offset as int, tail_offset as int, max_len),
            moved.in_bounds(max_len as int),
    {
        let caret = delta.transform(self.caret, false);
        let tail = delta.transform(self.tail, false);
        SelRegion {
            caret: shift_offset(caret, caret_offset, max_len),
            tail: shift_offset(tail, tail_offset, max_len),
        }
    }
}


/// A selection as specifications see it.
pub struct SelectionView {
    pub regions: Seq<SelRegion>,
    pub main_selection: int,
}

impl SelectionView {
    /// There is a region, and the main one is one of them.
    pub open spec fn wf(self) -> bool {
        self.regions.len() >= 1 && 0 <= self.main_selection < self.regions.len()
    }

    /// Every end of every region is an offset of a buffer of `len` bytes, or
    /// its end.
    pub open spec fn in_bounds(self, len: int) -> bool {
        forall|i: int| 0 <= i < self.regions.len() ==> (#[trigger] self.regions[i]).in_bounds(len)
    }

    /// The selection with every region as `delta` carries it along.
    pub open spec fn transported(self, delta: DeltaView, caret_offset: int, tail_offset: int, max_len: usize) -> SelectionView {
        SelectionView {
            regions: Seq::new(
                self.regions.len(),
                |i: int| self.regions[i].transported(delta, caret_offset, tail_offset, max_len),
            ),
            main_selection: self.main_selection,
        }
    }

    /// The selection with every region kept in `[0, max_len]`.
    pub open spec fn clamped(self, max_len: usize) -> SelectionView {
        SelectionView {
            regions: Seq::new(self.regions.len(), |i: int| self.regions[i].clamped(max_len)),
            main_selection: self.main_selection,
        }
    }
}

/// The regions of all the lists, one list after the other.
pub open spec fn flatten_regions(lists: Seq<Seq<SelRegion>>) -> Seq<SelRegion>
    decreases lists.len(),
{
    if lists.len() == 0 {
        Seq::empty()
    } else {
        flatten_regions(lists.drop_last()) + lists.last()
    }
}

/// The lists of regions that a vector of vectors holds.
pub open spec fn region_lists(lists: Seq<Vec<SelRegion>>) -> Seq<Seq<SelRegion>> {
    Seq::new(lists.len(), |i: int| lists[i]@)
}

/// Whether no list is empty.
pub open spec fn all_nonempty(lists: Seq<Seq<SelRegion>>) -> bool {
    forall|i: int| 0 <= i < lists.len() ==> (#[trigger] lists[i]).len() > 0
}

impl SelectionView {
    /// The selection with each region replaced by the list at its place.
    /// Where a list is empty nothing changes. Otherwise the lists follow each
    /// other in the order of the regions they replace, and the first region
    /// that replaces the main one is the new main one.
    pub open spec fn replaced(self, lists: Seq<Seq<SelRegion>>) -> SelectionView {
        if all_nonempty(lists) {
            SelectionView {
                regions: flatten_regions(lists),
                main_selection: flatten_regions(lists.subrange(0, self.main_selection)).len() as int,
            }
        } else {
            self
        }
    }
}

/// Whether the bytes of `region` and the offsets in `[start, end)` have an
/// offset in common.
pub open spec fn touches(region: SelRegion, start: usize, end: usize) -> bool {
    region.min() < end && start <= region.max() && start < end
}

/// An ordered list of regions, one of which is the main one.
#[derive(Debug)]
pub struct Selection {
    pub regions: Vec<SelRegion>,
    pub main_selection: usize,
}

impl View for Selection {
    type V = SelectionView;

    open spec fn view(&self) -> SelectionView {
        SelectionView { regions: self.regions@, main_selection: self.main_selection as int }
    }
}

impl Clone for Selection {
    fn clone(&self) -> (copy: Selection)
        ensures
            copy@ == self@,
    {
        let regions = self.regions.clone();
        assert(regions@ =~= self.regions@);
        Selection { regions, main_selection: self.main_selection }
    }
}

impl Selection {
    pub open spec fn wf(&self) -> bool {
        self@.wf()
    }

    /// One empty region at the start, which is the main one.
    pub fn new() -> (selection: Selection)
        ensures
            selection.wf(),
            selection@.regions == seq![SelRegion { caret: 0, tail: 0 }],
            selection@.main_selection == 0,
    {
        let mut regions: Vec<SelRegion> = Vec::new();
        regions.push(SelRegion { caret: 0, tail: 0 });
        assert(regions@ =~= seq![SelRegion { caret: 0, tail: 0 }]);
        Selection { regions, main_selection: 0 }
    }

    /// The number of regions.
    pub fn len(&self) -> (len: usize)
        ensures
            len == self@.regions.len(),
    {
        self.regions.len()
    }

    /// The regions in their order.
    pub fn iter(&self) -> (regions: &Vec<SelRegion>)
        ensures
            regions@ == self@.regions,
    {
        &self.regions
    }

    /// The main region.
    pub fn main(&self) -> (region: SelRegion)
        requires
            self.wf(),
        ensures
            region == self@.regions[self@.main_selection],
    {
        self.regions[self.main_selection]
    }

    /// The caret of the main region.
    pub fn main_cursor_offset(&self) -> (offset: usize)
        requires
            self.wf(),
        ensures
            offset == self@.regions[self@.main_selection].caret,
    {
        self.regions[self.main_selection].caret
    }

    /// Makes the region `count` places further on the main one, going round
    /// at the end.
    pub fn select_next(&mut self, count: usize)
        requires
            old(self).wf(),
        ensures
            final(self)@ == old(self)@.rotated(count as int),
            final(self).wf(),
    {
        let len = self.regions.len();
        let main = self.main_selection;
        let steps = count % len;
        let room = len - main;
        proof {
            lemma_add_mod_noop_right(main as int, count as int, len as int);
            if steps < room {
                lemma_small_mod((main + steps) as nat, len as nat);
            } else {
                lemma_mod_add_multiples_vanish(main + steps - len, len as int);
                lemma_small_mod((main + steps - len) as nat, len as nat);
            }
        }
        self.main_selection = if steps < room { main + steps } else { steps - room };
    }

    /// Makes the region `count` places before the main one the main one,
    /// going round at the start.
    pub fn select_prev(&mut self, count: usize)
        requires
            old(self).wf(),
        ensures
            final(self)@ == old(self)@.rotated(-count),
            final(self).wf(),
    {
        let len = self.regions.len();
        let main = self.main_selection;
        let steps = count % len;
        proof {
            lemma_sub_mod_noop_right(main as int, count as int, len as int);
            if steps <= main {
                lemma_small_mod((main - steps) as nat, len as nat);
            } else {
                lemma_mod_add_multiples_vanish(main - steps, len as int);
                lemma_small_mod((len + main - steps) as nat, len as nat);
            }
        }
        self.main_selection = if steps <= main { main - steps } else { len - (steps - main) };
    }

    /// Drops the region at `index`, unless it is the only one. The main
    /// region stays the main one; where it is the one dropped, the region
    /// that takes its place becomes the main one, or the last one.
    pub fn remove(&mut self, index: usize)
        requires
            old(self).wf(),
            index < old(self)@.regions.len(),
        ensures
            final(self).wf(),
            final(self)@ == old(self)@.removed(index as int),
    {
        if self.regions.len() == 1 {
            return ;
        }
        self.regions.remove(index);
        if index < self.main_selection {
            self.main_selection = self.main_selection - 1;
        } else if index == self.main_selection && index == self.regions.len() {
            self.main_selection = index - 1;
        }
    }

    /// Keeps only the region at `index`.
    pub fn retain(&mut self, index: usize)
        requires
            old(self).wf(),
            index < old(self)@.regions.len(),
        ensures
            final(self).wf(),
            final(self)@ == old(self)@.retained(index as int),
    {
        let region = self.regions[index];
        let mut regions: Vec<SelRegion> = Vec::new();
        regions.push(region);
        assert(regions@ =~= seq![region]);
        self.regions = regions;
        self.main_selection = 0;
    }

    /// Selects all the bytes of a buffer of `len` bytes, from the first to
    /// the last.
    pub fn select_all(&mut self, len: usize)
        ensures
            final(self).wf(),
            final(self)@ == SelectionView::all(len),
            final(self)@.in_bounds(len as int),
    {
        let region = SelRegion { caret: len.saturating_sub(1), tail: 0 };
        let mut regions: Vec<SelRegion> = Vec::new();
        regions.push(region);
        assert(regions@ =~= seq![region]);
        self.regions = regions;
        self.main_selection = 0;
    }

    /// Replaces the region at each place by the list at that place, unless
    /// one of the lists is empty.
    pub fn replace_each(&mut self, lists: &Vec<Vec<SelRegion>>) -> (accepted: bool)
        requires
            old(self).wf(),
            lists@.len() == old(self)@.regions.len(),
        ensures
            accepted == all_nonempty(region_lists(lists@)),
            final(self)@ == old(self)@.replaced(region_lists(lists@)),
            final(self).wf(),
    {
        let ghost all = region_lists(lists@);
        let mut k: usize = 0;
        while k < lists.len()
            invariant
                k <= lists@.len(),
                self@ == old(self)@,
                self.wf(),
                all == region_lists(lists@),
                forall|i: int| 0 <= i < k ==> (#[trigger] all[i]).len() > 0,
            decreases lists@.len() - k,
        {
            if lists[k].len() == 0 {
                assert(all[k as int].len() == 0);
                return false;
            }
            k += 1;
        }
        let mut regions: Vec<SelRegion> = Vec::new();
        let mut new_main: usize = 0;
        let mut i: usize = 0;
        proof {
            assert(all.subrange(0, 0) =~= Seq::<Seq<SelRegion>>::empty());
        }
        while i < lists.len()
            invariant
                i <= lists@.len(),
                self.main_selection < lists@.len(),
                all == region_lists(lists@),
                all_nonempty(all),
                regions@ == flatten_regions(all.subrange(0, i as int)),
                i > self.main_selection ==> new_main == flatten_regions(
                    all.subrange(0, self.main_selection as int),
                ).len() && new_main < regions@.len(),
            decreases lists@.len() - i,
        {
            if i == self.main_selection {
                new_main = regions.len();
            }
            let list = &lists[i];
            let ghost before = regions@;
            let mut j: usize = 0;
            while j < list.len()
                invariant
                    j <= list@.len(),
                    regions@ == before + list@.subrange(0, j as int),
                decreases list@.len() - j,
            {
                regions.push(list[j]);
                j += 1;
            }
            proof {
                assert(list@.subrange(0, list@.len() as int) =~= list@);
                assert(all.subrange(0, i + 1).drop_last() =~= all.subrange(0, i as int));
                assert(all.subrange(0, i + 1).last() == all[i as int]);
                assert(all[i as int] == list@);
                assert(all[i as int].len() > 0);
            }
            i += 1;
        }
        proof {
            assert(all.subrange(0, all.len() as int) =~= all);
        }
        self.regions = regions;
        self.main_selection = new_main;
        true
    }

    /// Replaces each region by the regions that `f` makes of it, unless `f`
    /// makes none of some region: then nothing changes.
    pub fn map_selections<F: Fn(SelRegion) -> Vec<SelRegion>>(&mut self, f: F) -> (accepted: bool)
        requires
            old(self).wf(),
            forall|region: SelRegion| call_requires(f, (region,)),
        ensures
            final(self).wf(),
            exists|lists: Seq<Vec<SelRegion>>|
                {
                    &&& lists.len() == old(self)@.regions.len()
                    &&& forall|i: int|
                        0 <= i < lists.len() ==> call_ensures(
                            f,
                            (old(self)@.regions[i],),
                            #[trigger] lists[i],
                        )
                    &&& accepted == all_nonempty(region_lists(lists))
                    &&& final(self)@ == old(self)@.replaced(region_lists(lists))
                },
    {
        let mut lists: Vec<Vec<SelRegion>> = Vec::new();
        let mut i: usize = 0;
        while i < self.regions.len()
            invariant
                i <= self.regions@.len(),
                lists@.len() == i,
                forall|region: SelRegion| call_requires(f, (region,)),
                forall|k: int|
                    0 <= k < i ==> call_ensures(f, (self.regions@[k],), #[trigger] lists@[k]),
            decreases self.regions@.len() - i,
        {
            let made = f(self.regions[i]);
            lists.push(made);
            i += 1;
        }
        self.replace_each(&lists)
    }

    /// The regions that have a byte in `[start, end)`, in their order.
    pub fn regions_in_range(&self, start: usize, end: usize) -> (found: Vec<SelRegion>)
        ensures
            found@ == self@.regions.filter(|region: SelRegion| touches(region, start, end)),
    {
        let ghost pred = |region: SelRegion| touches(region, start, end);
        let mut found: Vec<SelRegion> = Vec::new();
        let mut i: usize = 0;
        proof {
            reveal(Seq::filter);
            assert(self.regions@.subrange(0, 0) =~= Seq::<SelRegion>::empty());
        }
        while i < self.regions.len()
            invariant
                i <= self.regions@.len(),
                pred == |region: SelRegion| touches(region, start, end),
                found@ == self.regions@.subrange(0, i as int).filter(pred),
            decreases self.regions@.len() - i,
        {
            let region = self.regions[i];
            proof {
                reveal(Seq::filter);
                let next = self.regions@.subrange(0, i + 1);
                assert(next.drop_last() =~= self.regions@.subrange(0, i as int));
                assert(next.last() == region);
            }
            if region.min() < end && start <= region.max() && start < end {
                found.push(region);
            }
            i += 1;
        }
        proof {
            assert(self.regions@.subrange(0, self.regions@.len() as int) =~= self.regions@);
        }
        found
    }

    /// Carries every region along with an edit.
    pub fn apply_delta(&mut self, delta: &RopeDelta, max_len: usize)
        requires
            delta@.new_len() <= usize::MAX,
        ensures
            final(self)@ == old(self)@.transported(delta@, 0, 0, max_len),
            final(self)@.in_bounds(max_len as int),
    {
        self.apply_delta_offset_carets(delta, 0, 0, max_len)
    }

    /// Carries every region along with an edit and shifts its ends.
    pub fn apply_delta_offset_carets(&mut self, delta: &RopeDelta, caret_offset: isize, tail_offset: isize, max_len: usize)
        requires
            delta@.new_len() <= usize::MAX,
        ensures
            final(self)@ == old(self)@.transported(
                delta@,
                caret_offset as int,
                tail_offset as int,
                max_len,
            ),
            final(self)@.in_bounds(max_len as int),
    {
        let mut regions: Vec<SelRegion> = Vec::new();
        let mut i: usize = 0;
        while i < self.regions.len()
            invariant
                i <= self.regions@.len(),
                delta@.new_len() <= usize::MAX,
                regions@.len() == i,
                forall|k: int|
                    0 <= k < i ==> #[trigger] regions@[k] == self.regions@[k].transported(
                        delta@,
                        caret_offset as int,
                        tail_offset as int,
                        max_len,
                    ) && regions@[k].in_bounds(max_len as int),
            decreases self.regions@.len() - i,
        {
            regions.push(
                self.regions[i].apply_delta_offset_carets(delta, caret_offset, tail_offset, max_len),
            );
            i += 1;
        }
        proof {
            assert(regions@ =~= old(self)@.transported(
                delta@,
                caret_offset as int,
                tail_offset as int,
                max_len,
            ).regions);
        }
        self.regions = regions;
    }

    /// Keeps every region in `[0, max_len]`.
    pub fn clamp_to(&mut self, max_len: usize)
        ensures
            final(self)@ == old(self)@.clamped(max_len),
            final(self)@.in_bounds(max_len as int),
    {
        let mut regions: Vec<SelRegion> = Vec::new();
        let mut i: usize = 0;
        while i < self.regions.len()
            invariant
                i <= self.regions@.len(),
                regions@.len() == i,
                forall|k: int|
                    0 <= k < i ==> #[trigger] regions@[k] == self.regions@[k].clamped(max_len)
                        && regions@[k].in_bounds(max_len as int),
            decreases self.regions@.len() - i,
        {
            regions.push(self.regions[i].clamp_to(max_len));
            i += 1;
        }
        proof {
            assert(regions@ =~= old(self)@.clamped(max_len).regions);
        }
        self.regions = regions;
    }
}


impl SelectionView {
    /// The selection with the region `by` places further on as the main one,
    /// counted round the selection.
    pub open spec fn rotated(self, by: int) -> SelectionView {
        SelectionView {
            main_selection: (self.main_selection + by) % (self.regions.len() as int),
            ..self
        }
    }

    /// The selection without the region at `at`, unless it is the only one.
    /// The main region stays the main one; where it is the one dropped, the
    /// region that takes its place becomes the main one, or the last one.
    pub open spec fn removed(self, at: int) -> SelectionView {
        if self.regions.len() <= 1 {
            self
        } else {
            SelectionView {
                regions: self.regions.remove(at),
                main_selection: if at < self.main_selection {
                    self.main_selection - 1
                } else if at == self.main_selection && at == self.regions.len() - 1 {
                    at - 1
                } else {
                    self.main_selection
                },
            }
        }
    }

    /// The selection of the region at `at` alone.
    pub open spec fn retained(self, at: int) -> SelectionView {
        SelectionView { regions: seq![self.regions[at]], main_selection: 0 }
    }

    /// The selection of all the bytes of a buffer of `len` bytes.
    pub open spec fn all(len: usize) -> SelectionView {
        SelectionView {
            regions: seq![
                SelRegion { caret: if len == 0 { 0 } else { (len - 1) as usize }, tail: 0 },
            ],
            main_selection: 0,
        }
    }

    /// The selection with every end moved by `by`.
    pub open spec fn shifted(self, by: int) -> SelectionView {
        SelectionView {
            regions: Seq::new(
                self.regions.len(),
                |i: int|
                    SelRegion {
                        caret: (self.regions[i].caret + by) as usize,
                        tail: (self.regions[i].tail + by) as usize,
                    },
            ),
            main_selection: self.main_selection,
        }
    }

    /// Whether every end of every region lies in `[low, high]`.
    pub open spec fn within(self, low: int, high: int) -> bool {
        forall|i: int|
            0 <= i < self.regions.len() ==> low <= (#[trigger] self.regions[i]).caret <= high && low
                <= self.regions[i].tail <= high
    }
}

impl Selection {
    /// Whether every end of every region lies in `[low, high]`.
    pub fn is_within(&self, low: usize, high: usize) -> (inside: bool)
        ensures
            inside == self@.within(low as int, high as int),
    {
        let mut i: usize = 0;
        while i < self.regions.len()
            invariant
                i <= self.regions@.len(),
                forall|k: int|
                    0 <= k < i ==> low <= (#[trigger] self.regions@[k]).caret <= high && low
                        <= self.regions@[k].tail <= high,
            decreases self.regions@.len() - i,
        {
            let region = self.regions[i];
            if !(low <= region.caret && region.caret <= high && low <= region.tail && region.tail
                <= high) {
                assert(self@.regions[i as int] == region);
                return false;
            }
            i += 1;
        }
        true
    }

    /// Moves every end `by` bytes towards the end.
    pub fn shift_up(&mut self, by: usize)
        requires
            forall|i: int|
                0 <= i < old(self)@.regions.len() ==> (#[trigger] old(self)@.regions[i]).caret + by
                    <= usize::MAX && old(self)@.regions[i].tail + by <= usize::MAX,
        ensures
            final(self)@ == old(self)@.shifted(by as int),
    {
        let mut regions: Vec<SelRegion> = Vec::new();
        let mut i: usize = 0;
        while i < self.regions.len()
            invariant
                i <= self.regions@.len(),
                self@ == old(self)@,
                forall|k: int|
                    0 <= k < self@.regions.len() ==> (#[trigger] self@.regions[k]).caret + by
                        <= usize::MAX && self@.regions[k].tail + by <= usize::MAX,
                regions@.len() == i,
                forall|k: int|
                    0 <= k < i ==> #[trigger] regions@[k] == (SelRegion {
                        caret: (self.regions@[k].caret + by) as usize,
                        tail: (self.regions@[k].tail + by) as usize,
                    }),
            decreases self.regions@.len() - i,
        {
            let region = self.regions[i];
            assert(self@.regions[i as int].caret + by <= usize::MAX);
            regions.push(SelRegion { caret: region.caret + by, tail: region.tail + by });
            i += 1;
        }
        proof {
            assert(regions@ =~= old(self)@.shifted(by as int).regions);
        }
        self.regions = regions;
    }

    /// Moves every end `by` bytes towards the start.
    pub fn shift_down(&mut self, by: usize)
        requires
            old(self)@.within(by as int, usize::MAX as int),
        ensures
            final(self)@ == old(self)@.shifted(-by),
    {
        let mut regions: Vec<SelRegion> = Vec::new();
        let mut i: usize = 0;
        while i < self.regions.len()
            invariant
                i <= self.regions@.len(),
                self@ == old(self)@,
                self@.within(by as int, usize::MAX as int),
                regions@.len() == i,
                forall|k: int|
                    0 <= k < i ==> #[trigger] regions@[k] == (SelRegion {
                        caret: (self.regions@[k].caret - by) as usize,
                        tail: (self.regions@[k].tail - by) as usize,
                    }),
            decreases self.regions@.len() - i,
        {
            let region = self.regions[i];
            assert(by <= self@.regions[i as int].caret);
            regions.push(SelRegion { caret: region.caret - by, tail: region.tail - by });
            i += 1;
        }
        proof {
            assert(regions@ =~= old(self)@.shifted(-by).regions);
        }
        self.regions = regions;
    }
}


/// A change that is made to every region of a selection alike.
#[derive(Clone, Copy, Debug, PartialEq, Eq, Structural)]
pub enum RegionOp {
    /// Both ends move a number of steps.
    Move(Direction, usize),
    /// The caret moves a number of steps.
    Extend(Direction, usize),
    /// Both ends go to an offset.
    JumpTo(usize),
    /// The caret goes to an offset.
    ExtendTo(usize),
    /// Both ends go to a boundary.
    JumpToBoundary(Direction),
    /// The caret goes to a boundary.
    ExtendToBoundary(Direction),
    /// The tail goes to the caret.
    Collapse,
    /// Caret and tail change places.
    SwapCaret,
    /// The caret goes to the end of the region.
    ToForward,
    /// The caret goes to the start of the region.
    ToBackward,
    /// The caret goes behind the end of the region.
    Append,
}

impl RegionOp {
    /// What the change makes of `region` in a buffer of `max_len` bytes with
    /// lines of `bytes_per_line` bytes.
    pub open spec fn changed(self, region: SelRegion, bytes_per_line: usize, max_len: usize) -> SelRegion {
        let w = bytes_per_line as int;
        let max = max_len as int;
        match self {
            RegionOp::Move(direction, count) => SelRegion {
                caret: clamp(region.caret + step(direction, w, count as int), max) as usize,
                tail: clamp(region.tail + step(direction, w, count as int), max) as usize,
            },
            RegionOp::Extend(direction, count) => SelRegion {
                caret: clamp(region.caret + step(direction, w, count as int), max) as usize,
                tail: region.tail,
            },
            RegionOp::JumpTo(offset) => SelRegion { caret: offset, tail: offset },
            RegionOp::ExtendTo(offset) => SelRegion { caret: offset, tail: region.tail },
            RegionOp::JumpToBoundary(direction) => SelRegion {
                caret: boundary(region.caret as int, direction, w, max) as usize,
                tail: boundary(region.caret as int, direction, w, max) as usize,
            },
            RegionOp::ExtendToBoundary(direction) => SelRegion {
                caret: boundary(region.caret as int, direction, w, max) as usize,
                tail: region.tail,
            },
            RegionOp::Collapse => SelRegion { caret: region.caret, tail: region.caret },
            RegionOp::SwapCaret => SelRegion { caret: region.tail, tail: region.caret },
            RegionOp::ToForward => SelRegion { caret: region.max(), tail: region.min() },
            RegionOp::ToBackward => SelRegion { caret: region.min(), tail: region.max() },
            RegionOp::Append => SelRegion {
                caret: clamp(region.max() + 1, max) as usize,
                tail: region.min(),
            },
        }
    }

    /// Makes the change to `region`.
    pub fn apply(self, region: SelRegion, bytes_per_line: usize, max_len: usize) -> (made: SelRegion)
        ensures
            made == self.changed(region, bytes_per_line, max_len),
    {
        match self {
            RegionOp::Move(direction, count) => region.simple_move(
                direction,
                bytes_per_line,
                max_len,
                count,
            ),
            RegionOp::Extend(direction, count) => region.simple_extend(
                direction,
                bytes_per_line,
                max_len,
                count,
            ),
            RegionOp::JumpTo(offset) => region.jump_to(offset),
            RegionOp::ExtendTo(offset) => region.extend_to(offset),
            RegionOp::JumpToBoundary(direction) => region.jump_to_boundary(
                direction,
                bytes_per_line,
                max_len,
            ),
            RegionOp::ExtendToBoundary(direction) => region.extend_to_boundary(
                direction,
                bytes_per_line,
                max_len,
            ),
            RegionOp::Collapse => region.collapse(),
            RegionOp::SwapCaret => region.swap_caret(),
            RegionOp::ToForward => region.to_forward(),
            RegionOp::ToBackward => region.to_backward(),
            RegionOp::Append => {
                let made = region.to_forward().simple_extend(
                    Direction::Right,
                    bytes_per_line,
                    max_len,
                    1,
                );
                assert(step(Direction::Right, bytes_per_line as int, 1) == 1);
                made
            },
        }
    }
}

impl SelectionView {
    /// The selection with the change `op` made to every region, and every
    /// region kept in `[0, max_len]`.
    pub open spec fn changed(self, op: RegionOp, bytes_per_line: usize, max_len: usize) -> SelectionView {
        SelectionView {
            regions: Seq::new(
                self.regions.len(),
                |i: int| op.changed(self.regions[i], bytes_per_line, max_len).clamped(max_len),
            ),
            main_selection: self.main_selection,
        }
    }
}

impl Selection {
    /// Makes the change `op` to every region and keeps every region in
    /// `[0, max_len]`.
    pub fn change_each(&mut self, op: RegionOp, bytes_per_line: usize, max_len: usize)
        ensures
            final(self)@ == old(self)@.changed(op, bytes_per_line, max_len),
            final(self)@.in_bounds(max_len as int),
            old(self).wf() ==> final(self).wf(),
    {
        let mut regions: Vec<SelRegion> = Vec::new();
        let mut i: usize = 0;
        while i < self.regions.len()
            invariant
                i <= self.regions@.len(),
                self@ == old(self)@,
                regions@.len() == i,
                forall|k: int|
                    0 <= k < i ==> #[trigger] regions@[k] == op.changed(
                        self.regions@[k],
                        bytes_per_line,
                        max_len,
                    ).clamped(max_len) && regions@[k].in_bounds(max_len as int),
            decreases self.regions@.len() - i,
        {
            regions.push(op.apply(self.regions[i], bytes_per_line, max_len).clamp_to(max_len));
            i += 1;
        }
        proof {
            assert(regions@ =~= old(self)@.changed(op, bytes_per_line, max_len).regions);
        }
        self.regions = regions;
    }
}


impl Selection {
    /// Whether there is a region and the main one is one of them.
    pub fn is_wf(&self) -> (ok: bool)
        ensures
            ok == self.wf(),
    {
        self.regions.len() >= 1 && self.main_selection < self.regions.len()
    }

    /// Whether every end of every region is an offset of a buffer of `len`
    /// bytes, or its end.
    pub fn is_in_bounds(&self, len: usize) -> (ok: bool)
        ensures
            ok == self@.in_bounds(len as int),
    {
        let mut i: usize = 0;
        while i < self.regions.len()
            invariant
                i <= self.regions@.len(),
                forall|k: int| 0 <= k < i ==> (#[trigger] self.regions@[k]).in_bounds(len as int),
            decreases self.regions@.len() - i,
        {
            let region = self.regions[i];
            if region.caret > len || region.tail > len {
                assert(!self@.regions[i as int].in_bounds(len as int));
                return false;
            }
            i += 1;
        }
        true
    }
}

} // verus!

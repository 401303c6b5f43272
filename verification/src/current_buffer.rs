//! A buffer: the bytes of a file or of a scratch pad with a selection, the
//! registers and the history; and the list of the buffers that are open.

use std::collections::HashMap;
use vstd::prelude::*;
use vstd::std_specs::hash::group_hash_axioms;
use crate::byte_range::{covered, normalize, ranges_sorted, ByteRange};
use crate::byte_rope::{chunk_views, OutOfBounds, Rope, RopeBuilder, Bytes};
use crate::delta::{lemma_apply_len, DeltaView, RopeDelta};
use crate::history::{step_of, History, HistoryView};
use crate::modes::mode::DirtyBytes;
use crate::operations::{
    in_order, insertion_pieces, paste, paste_points, region_range, selected_ranges, total_inserted,
    with_insertions,
};
use crate::selection::{region_lists, RegionOp, SelRegion, Selection, SelectionView};

verus! {

/// Which ends of the last region stand behind the last byte of the buffer.
#[derive(Debug, PartialEq, Clone, Copy, Eq, Hash, Structural)]
pub enum OverflowSelectionStyle {
    Cursor,
    Tail,
    CursorTail,
}

/// A buffer as specifications see it.
pub struct BufferView {
    pub path: Option<Seq<char>>,
    pub data: Seq<u8>,
    pub selection: SelectionView,
    pub registers: Map<u32, Seq<Seq<u8>>>,
    pub dirty: bool,
    pub history: HistoryView,
    pub data_start_offset: nat,
}

/// The bytes of each region of a selection, in the order of the regions.
pub open spec fn yanked(data: Seq<u8>, selection: SelectionView) -> Seq<Seq<u8>> {
    Seq::new(
        selection.regions.len(),
        |i: int|
            data.subrange(
                region_range(selection.regions[i], data.len() as usize).start as int,
                region_range(selection.regions[i], data.len() as usize).end as int,
            ),
    )
}

/// The range of the bytes of a region, whether the buffer holds them or not.
pub open spec fn drawn_range(region: SelRegion) -> ByteRange {
    ByteRange {
        start: region.min(),
        end: if region.max() == usize::MAX { usize::MAX } else { (region.max() + 1) as usize },
    }
}

/// Whether `dirty` names, in order and apart, the ranges of the bytes of the
/// regions of the two selections.
pub open spec fn changes_between(before: SelectionView, after: SelectionView, dirty: DirtyBytes) -> bool {
    &&& dirty matches DirtyBytes::ChangeInPlace(ranges)
    &&& ranges_sorted(ranges@)
    &&& forall|x: int|
        #[trigger] covered(ranges@, x) <==> covered(drawn_ranges(before), x) || covered(
            drawn_ranges(after),
            x,
        )
}

/// Whether `dirty` names the range of the main region before and the range
/// of the main region after.
pub open spec fn main_changed(before: SelectionView, after: SelectionView, dirty: DirtyBytes) -> bool {
    dirty matches DirtyBytes::ChangeInPlace(ranges) && ranges@ == seq![
        drawn_range(before.regions[before.main_selection]),
        drawn_range(after.regions[after.main_selection]),
    ]
}

/// The ranges of the regions of a selection.
pub open spec fn drawn_ranges(selection: SelectionView) -> Seq<ByteRange> {
    Seq::new(selection.regions.len(), |i: int| drawn_range(selection.regions[i]))
}

impl BufferView {
    /// The selection has a region and a main region, none of them reaches
    /// out of the bytes, and the same holds of what the history keeps.
    pub open spec fn wf(self) -> bool {
        &&& self.data.len() <= usize::MAX
        &&& self.selection.wf()
        &&& self.selection.in_bounds(self.data.len() as int)
        &&& self.history.wf()
    }

    /// Whether `delta` is an edit of this buffer.
    pub open spec fn accepts(self, delta: DeltaView) -> bool {
        delta.ordered() && delta.fits(self.data.len()) && delta.new_len() <= usize::MAX
    }

    /// The buffer after the edit `delta`: the bytes are edited, the selection
    /// goes along with them and has its ends shifted, and the history has the
    /// edit as a step of its own if `complete` is set, as a part of the
    /// pending step otherwise.
    pub open spec fn applied(self, delta: DeltaView, complete: bool, caret_offset: int, tail_offset: int) -> BufferView {
        let step = step_of(delta, self.data, self.selection);
        BufferView {
            data: delta.apply(self.data),
            selection: self.selection.transported(
                delta,
                caret_offset,
                tail_offset,
                delta.new_len() as usize,
            ),
            history: if complete {
                self.history.performed(step)
            } else {
                self.history.merged(step)
            },
            dirty: true,
            ..self
        }
    }

    /// The buffer after its last step was undone, if there is one to undo.
    pub open spec fn undone(self) -> BufferView {
        if self.history.can_undo(self.data.len()) {
            let step = self.history.committed().undo.last();
            BufferView {
                data: step.inverse.apply(self.data),
                selection: step.selection.clamped(step.inverse.new_len() as usize),
                history: self.history.undone(self.selection),
                dirty: true,
                ..self
            }
        } else {
            BufferView { history: self.history.committed(), ..self }
        }
    }

    /// The buffer after the step undone last was done again, if there is one.
    pub open spec fn redone(self) -> BufferView {
        if self.history.can_redo(self.data.len()) {
            let step = self.history.committed().redo.last();
            BufferView {
                data: step.forward.apply(self.data),
                selection: step.selection.clamped(step.forward.new_len() as usize),
                history: self.history.redone(self.selection),
                dirty: true,
                ..self
            }
        } else {
            BufferView { history: self.history.committed(), ..self }
        }
    }

    /// The buffer with the pending step of its history a step of its own.
    pub open spec fn committed(self) -> BufferView {
        BufferView { history: self.history.committed(), ..self }
    }

    /// The buffer as it is after it was written to `path`.
    pub open spec fn written(self, path: Seq<char>) -> BufferView {
        BufferView {
            dirty: false,
            path: match self.path {
                Some(p) => Some(p),
                None => Some(path),
            },
            ..self
        }
    }

    /// The buffer with another selection.
    pub open spec fn with_selection(self, selection: SelectionView) -> BufferView {
        BufferView { selection, ..self }
    }

    /// The buffer with the change `op` made to every region.
    pub open spec fn with_regions(self, op: RegionOp, bytes_per_line: usize) -> BufferView {
        BufferView {
            selection: self.selection.changed(op, bytes_per_line, self.data.len() as usize),
            ..self
        }
    }

    /// What a register holds: one empty entry where nothing was put into it.
    pub open spec fn register(self, key: u32) -> Seq<Seq<u8>> {
        if self.registers.contains_key(key) {
            self.registers[key]
        } else {
            seq![Seq::<u8>::empty()]
        }
    }

    /// The buffer with the bytes of its regions in the register `key`.
    pub open spec fn with_yank(self, key: u32) -> BufferView {
        BufferView {
            registers: self.registers.insert(key, yanked(self.data, self.selection)),
            ..self
        }
    }
}

/// The bytes of a file or of a scratch pad, with all that belongs to them.
pub struct CurrentBuffer {
    pub path: Option<String>,
    pub data: Rope,
    pub selection: Selection,
    /// The registers, each under the code of its character.
    pub registers: HashMap<u32, Vec<Vec<u8>>>,
    pub dirty: bool,
    pub history: History,
    /// The offset in the file of the first byte of `data`.
    pub data_start_offset: usize,
}

impl View for CurrentBuffer {
    type V = BufferView;

    open spec fn view(&self) -> BufferView {
        BufferView {
            path: match self.path {
                Some(path) => Some(path@),
                None => None,
            },
            data: self.data@,
            selection: self.selection@,
            registers: self.registers@.map_values(|entry: Vec<Vec<u8>>| chunk_views(entry@)),
            dirty: self.dirty,
            history: self.history@,
            data_start_offset: self.data_start_offset as nat,
        }
    }
}

impl Default for CurrentBuffer {
    fn default() -> (buffer: CurrentBuffer)
        ensures
            buffer.wf(),
            buffer@.path is None,
            buffer@.data == Seq::<u8>::empty(),
            !buffer@.dirty,
    {
        CurrentBuffer::from_data_and_path(Vec::new(), None)
    }
}

impl CurrentBuffer {
    pub open spec fn wf(&self) -> bool {
        self@.wf()
    }

    /// A clean buffer of `data` with one empty region at its start.
    pub fn from_data_and_path(data: Vec<u8>, path: Option<String>) -> (buffer: CurrentBuffer)
        ensures
            buffer.wf(),
            buffer@.data == data@,
            buffer@.path == match path {
                Some(p) => Some(p@),
                None => None,
            },
            buffer@.selection.regions == seq![SelRegion { caret: 0, tail: 0 }],
            buffer@.selection.main_selection == 0,
            buffer@.registers == Map::<u32, Seq<Seq<u8>>>::empty(),
            !buffer@.dirty,
            buffer@.history.undo.len() == 0,
            buffer@.history.redo.len() == 0,
            buffer@.history.partial is None,
            buffer@.data_start_offset == 0,
    {
        broadcast use group_hash_axioms;

        let ghost bytes = data@;
        let rope = Rope::from_vec(data);
        let len = rope.len();
        let buffer = CurrentBuffer {
            data: rope,
            selection: Selection::new(),
            registers: HashMap::new(),
            dirty: false,
            path,
            history: History::new(),
            data_start_offset: 0,
        };
        assert(buffer@.registers =~= Map::<u32, Seq<Seq<u8>>>::empty());
        buffer
    }

    /// The offset in the file of the first byte of the buffer.
    pub fn data_start_offset(&self) -> (offset: usize)
        ensures
            offset == self@.data_start_offset,
    {
        self.data_start_offset
    }

    /// The path of the buffer, `*scratch*` where it has none.
    pub fn name(&self) -> (name: String)
        ensures
            name@ == match self@.path {
                Some(path) => path,
                None => "*scratch*"@,
            },
    {
        match &self.path {
            Some(path) => path.clone(),
            None => "*scratch*".to_owned(),
        }
    }

    /// Gives the buffer a path if it has none.
    pub fn update_path_if_missing(&mut self, path: String)
        ensures
            final(self)@ == (BufferView {
                path: match old(self)@.path {
                    Some(p) => Some(p),
                    None => Some(path@),
                },
                ..old(self)@
            }),
    {
        if self.path.is_none() {
            self.path = Some(path);
        }
    }

    /// The ranges to draw again when the regions of the selection change.
    fn selection_ranges(&self) -> (ranges: Vec<ByteRange>)
        ensures
            ranges@ == drawn_ranges(self.selection@),
    {
        let mut ranges: Vec<ByteRange> = Vec::new();
        let mut i: usize = 0;
        while i < self.selection.regions.len()
            invariant
                i <= self.selection.regions@.len(),
                ranges@.len() == i,
                forall|k: int| 0 <= k < i ==> #[trigger] ranges@[k] == drawn_range(
                    self.selection.regions@[k],
                ),
            decreases self.selection.regions@.len() - i,
        {
            ranges.push(self.selection.regions[i].to_range());
            i += 1;
        }
        assert(ranges@ =~= drawn_ranges(self.selection@));
        ranges
    }

    /// What is to be drawn again when the selection `before` has become the
    /// selection of the buffer: the ranges, in order and apart, of the bytes
    /// of the regions before and after.
    fn selection_change(&self, before: Vec<ByteRange>, Ghost(was): Ghost<SelectionView>) -> (dirty:
        DirtyBytes)
        requires
            before@ == drawn_ranges(was),
        ensures
            changes_between(was, self@.selection, dirty),
    {
        let mut ranges = before;
        let mut after = self.selection_ranges();
        let ghost first = ranges@;
        let ghost second = after@;
        ranges.append(&mut after);
        let merged = normalize(&ranges);
        proof {
            assert forall|x: int| #[trigger] covered(merged@, x) <==> covered(first, x) || covered(
                second,
                x,
            ) by {
                let all = first + second;
                if covered(first, x) {
                    let i = choose|i: int| 0 <= i < first.len() && (#[trigger] first[i]).start <= x
                        < first[i].end;
                    assert(all[i] == first[i]);
                }
                if covered(second, x) {
                    let i = choose|i: int| 0 <= i < second.len() && (#[trigger] second[i]).start
                        <= x < second[i].end;
                    assert(all[first.len() + i] == second[i]);
                }
                if covered(all, x) {
                    let i = choose|i: int| 0 <= i < all.len() && (#[trigger] all[i]).start <= x
                        < all[i].end;
                    if i < first.len() {
                        assert(first[i] == all[i]);
                    } else {
                        assert(second[i - first.len()] == all[i]);
                    }
                }
            }
        }
        DirtyBytes::ChangeInPlace(merged)
    }

    /// Replaces the region at each place by the list at that place, kept in
    /// the bounds of the buffer. Where a list is empty the selection stays as
    /// it is.
    pub fn replace_selections(&mut self, lists: &Vec<Vec<SelRegion>>) -> (dirty: DirtyBytes)
        requires
            old(self).wf(),
            lists@.len() == old(self)@.selection.regions.len(),
        ensures
            final(self).wf(),
            final(self)@ == (BufferView { selection: final(self)@.selection, ..old(self)@ }),
            final(self)@.selection == old(self)@.selection.replaced(
                region_lists(lists@),
            ).clamped(old(self)@.data.len() as usize),
            changes_between(old(self)@.selection, final(self)@.selection, dirty),
    {
        let before = self.selection_ranges();
        self.selection.replace_each(lists);
        let len = self.data.len();
        self.selection.clamp_to(len);
        self.selection_change(before, Ghost(old(self)@.selection))
    }

    /// Replaces each region by the regions that `f` makes of it, kept in the
    /// bounds of the buffer. Where `f` makes no region of some region the
    /// selection stays as it is.
    pub fn map_selections<F: Fn(SelRegion) -> Vec<SelRegion>>(&mut self, f: F) -> (dirty: DirtyBytes)
        requires
            old(self).wf(),
            forall|region: SelRegion| call_requires(f, (region,)),
        ensures
            final(self).wf(),
            final(self)@ == (BufferView { selection: final(self)@.selection, ..old(self)@ }),
            exists|lists: Seq<Vec<SelRegion>>|
                {
                    &&& lists.len() == old(self)@.selection.regions.len()
                    &&& forall|i: int|
                        0 <= i < lists.len() ==> call_ensures(
                            f,
                            (old(self)@.selection.regions[i],),
                            #[trigger] lists[i],
                        )
                    &&& final(self)@.selection == old(self)@.selection.replaced(
                        region_lists(lists),
                    ).clamped(old(self)@.data.len() as usize)
                },
            changes_between(old(self)@.selection, final(self)@.selection, dirty),
    {
        let mut lists: Vec<Vec<SelRegion>> = Vec::new();
        let mut i: usize = 0;
        while i < self.selection.regions.len()
            invariant
                i <= self.selection.regions@.len(),
                self@ == old(self)@,
                lists@.len() == i,
                forall|region: SelRegion| call_requires(f, (region,)),
                forall|k: int|
                    0 <= k < i ==> call_ensures(
                        f,
                        (self.selection.regions@[k],),
                        #[trigger] lists@[k],
                    ),
            decreases self.selection.regions@.len() - i,
        {
            let made = f(self.selection.regions[i]);
            lists.push(made);
            i += 1;
        }
        self.replace_selections(&lists)
    }

    /// Makes the change `op` to every region, and keeps every region in the
    /// bounds of the buffer.
    pub fn map_regions(&mut self, op: RegionOp, bytes_per_line: usize) -> (dirty: DirtyBytes)
        requires
            old(self).wf(),
        ensures
            final(self).wf(),
            final(self)@ == (BufferView {
                selection: old(self)@.selection.changed(
                    op,
                    bytes_per_line,
                    old(self)@.data.len() as usize,
                ),
                ..old(self)@
            }),
            changes_between(old(self)@.selection, final(self)@.selection, dirty),
    {
        let before = self.selection_ranges();
        let len = self.data.len();
        self.selection.change_each(op, bytes_per_line, len);
        self.selection_change(before, Ghost(old(self)@.selection))
    }

    /// Edits the bytes and records the edit in the history.
    fn apply_delta_to_current_buffer(&mut self, delta: RopeDelta, is_final: bool)
        requires
            old(self).wf(),
            old(self)@.accepts(delta@),
        ensures
            final(self)@ == (BufferView {
                selection: old(self)@.selection,
                ..old(self)@.applied(delta@, is_final, 0, 0)
            }),
            final(self)@.history.wf(),
            final(self)@.data.len() == delta@.new_len(),
    {
        proof {
            lemma_apply_len(delta@.pieces, self.data@);
        }
        match self.data.apply_delta(&delta) {
            Ok(next_data) => {
                if is_final {
                    self.history.perform_final(&self.data, delta, self.selection.clone());
                } else {
                    self.history.perform_partial(&self.data, delta, &self.selection);
                }
                self.data = next_data;
                self.dirty = true;
            },
            Err(_) => {},
        }
    }

    /// Edits the buffer: the bytes are edited, the selection goes along, its
    /// ends shifted and kept in the bounds of the edited buffer, and the edit
    /// is a step of the history if `complete` is set, a part of the pending
    /// step otherwise. An edit that was not made for this buffer is refused
    /// and changes nothing.
    pub fn edit(&mut self, delta: RopeDelta, complete: bool, caret_offset: isize, tail_offset: isize) -> (dirty: Result<DirtyBytes, OutOfBounds>)
        requires
            old(self).wf(),
        ensures
            final(self).wf(),
            dirty is Ok <==> old(self)@.accepts(delta@),
            dirty matches Ok(d) ==> d is ChangeLength && final(self)@ == old(self)@.applied(
                delta@,
                complete,
                caret_offset as int,
                tail_offset as int,
            ),
            dirty is Err ==> final(self)@ == old(self)@,
    {
        if !(delta.check_ordered() && delta.check_applies_to(self.data.len())) {
            return Err(OutOfBounds);
        }
        let copy = delta.duplicate();
        self.apply_delta_to_current_buffer(delta, complete);
        let max_len = self.data.len();
        self.selection.apply_delta_offset_carets(&copy, caret_offset, tail_offset, max_len);
        Ok(DirtyBytes::ChangeLength)
    }

    /// Makes `delta` a step of the history and carries the selection along.
    pub fn apply_delta(&mut self, delta: RopeDelta) -> (dirty: Result<DirtyBytes, OutOfBounds>)
        requires
            old(self).wf(),
        ensures
            final(self).wf(),
            dirty is Ok <==> old(self)@.accepts(delta@),
            dirty matches Ok(d) ==> d is ChangeLength && final(self)@ == old(self)@.applied(
                delta@,
                true,
                0,
                0,
            ),
            dirty is Err ==> final(self)@ == old(self)@,
    {
        self.edit(delta, true, 0, 0)
    }

    /// Makes `delta` a step of the history, carries the selection along and
    /// shifts its ends.
    pub fn apply_delta_offset_carets(&mut self, delta: RopeDelta, caret_offset: isize, tail_offset: isize) -> (dirty: Result<DirtyBytes, OutOfBounds>)
        requires
            old(self).wf(),
        ensures
            final(self).wf(),
            dirty is Ok <==> old(self)@.accepts(delta@),
            dirty matches Ok(d) ==> d is ChangeLength && final(self)@ == old(self)@.applied(
                delta@,
                true,
                caret_offset as int,
                tail_offset as int,
            ),
            dirty is Err ==> final(self)@ == old(self)@,
    {
        self.edit(delta, true, caret_offset, tail_offset)
    }

    /// Makes `delta` a part of the pending step and carries the selection along.
    pub fn apply_incomplete_delta(&mut self, delta: RopeDelta) -> (dirty: Result<DirtyBytes, OutOfBounds>)
        requires
            old(self).wf(),
        ensures
            final(self).wf(),
            dirty is Ok <==> old(self)@.accepts(delta@),
            dirty matches Ok(d) ==> d is ChangeLength && final(self)@ == old(self)@.applied(
                delta@,
                false,
                0,
                0,
            ),
            dirty is Err ==> final(self)@ == old(self)@,
    {
        self.edit(delta, false, 0, 0)
    }

    /// Makes `delta` a part of the pending step, carries the selection along
    /// and shifts its ends.
    pub fn apply_incomplete_delta_offset_carets(&mut self, delta: RopeDelta, caret_offset: isize, tail_offset: isize) -> (dirty: Result<DirtyBytes, OutOfBounds>)
        requires
            old(self).wf(),
        ensures
            final(self).wf(),
            dirty is Ok <==> old(self)@.accepts(delta@),
            dirty matches Ok(d) ==> d is ChangeLength && final(self)@ == old(self)@.applied(
                delta@,
                false,
                caret_offset as int,
                tail_offset as int,
            ),
            dirty is Err ==> final(self)@ == old(self)@,
    {
        self.edit(delta, false, caret_offset, tail_offset)
    }

    /// Makes the pending step a step of its own.
    pub fn commit_delta(&mut self)
        ensures
            final(self)@ == (BufferView {
                history: old(self)@.history.committed(),
                ..old(self)@
            }),
            old(self).wf() ==> final(self).wf(),
    {
        self.history.commit_partial();
    }

    /// Undoes the last step of the history. `None` where there is none.
    pub fn perform_undo(&mut self) -> (dirty: Option<DirtyBytes>)
        requires
            old(self).wf(),
        ensures
            final(self).wf(),
            final(self)@ == old(self)@.undone(),
            dirty is Some <==> old(self)@.history.can_undo(old(self)@.data.len()),
            dirty matches Some(d) ==> d is ChangeLength,
    {
        match self.history.undo(&self.data, self.selection.clone()) {
            Some((undo_delta, old_selection)) => {
                proof {
                    lemma_apply_len(undo_delta@.pieces, self.data@);
                }
                match self.data.apply_delta(&undo_delta) {
                    Ok(data) => {
                        self.data = data;
                    },
                    Err(_) => {},
                }
                self.selection = old_selection;
                let len = self.data.len();
                self.selection.clamp_to(len);
                self.dirty = true;
                Some(DirtyBytes::ChangeLength)
            },
            None => None,
        }
    }

    /// Does again the step that was undone last. `None` where there is none.
    pub fn perform_redo(&mut self) -> (dirty: Option<DirtyBytes>)
        requires
            old(self).wf(),
        ensures
            final(self).wf(),
            final(self)@ == old(self)@.redone(),
            dirty is Some <==> old(self)@.history.can_redo(old(self)@.data.len()),
            dirty matches Some(d) ==> d is ChangeLength,
    {
        match self.history.redo(&self.data, self.selection.clone()) {
            Some((redo_delta, old_selection)) => {
                proof {
                    lemma_apply_len(redo_delta@.pieces, self.data@);
                }
                match self.data.apply_delta(&redo_delta) {
                    Ok(data) => {
                        self.data = data;
                    },
                    Err(_) => {},
                }
                self.selection = old_selection;
                let len = self.data.len();
                self.selection.clamp_to(len);
                self.dirty = true;
                Some(DirtyBytes::ChangeLength)
            },
            None => None,
        }
    }

    /// Drops the region at `index`, counted round the selection, unless it
    /// is the only one.
    pub fn remove_selection(&mut self, index: usize) -> (dirty: DirtyBytes)
        requires
            old(self).wf(),
        ensures
            final(self).wf(),
            final(self)@ == old(self)@.with_selection(
                old(self)@.selection.removed(
                    index as int % old(self)@.selection.regions.len() as int,
                ),
            ),
            dirty matches DirtyBytes::ChangeInPlace(ranges) && ranges@ == drawn_ranges(
                old(self)@.selection,
            ),
    {
        let ranges = self.selection_ranges();
        let at = index % self.selection.len();
        self.selection.remove(at);
        proof {
            let before = old(self)@.selection;
            let after = self.selection@;
            assert forall|i: int| 0 <= i < after.regions.len() implies (
            #[trigger] after.regions[i]).in_bounds(self.data@.len() as int) by {
                if before.regions.len() > 1 {
                    if i < at {
                        assert(after.regions[i] == before.regions[i]);
                    } else {
                        assert(after.regions[i] == before.regions[i + 1]);
                    }
                }
            }
        }
        DirtyBytes::ChangeInPlace(ranges)
    }

    /// Keeps only the region at `index`, counted round the selection.
    pub fn retain_selection(&mut self, index: usize) -> (dirty: DirtyBytes)
        requires
            old(self).wf(),
        ensures
            final(self).wf(),
            final(self)@ == old(self)@.with_selection(
                old(self)@.selection.retained(
                    index as int % old(self)@.selection.regions.len() as int,
                ),
            ),
            dirty matches DirtyBytes::ChangeInPlace(ranges) && ranges@ == drawn_ranges(
                old(self)@.selection,
            ),
    {
        let ranges = self.selection_ranges();
        let at = index % self.selection.len();
        proof {
            assert(self.selection@.regions[at as int].in_bounds(self.data@.len() as int));
        }
        self.selection.retain(at);
        DirtyBytes::ChangeInPlace(ranges)
    }

    /// Makes the region `count` places further on the main one.
    pub fn select_next(&mut self, count: usize) -> (dirty: DirtyBytes)
        requires
            old(self).wf(),
        ensures
            final(self).wf(),
            final(self)@ == old(self)@.with_selection(old(self)@.selection.rotated(count as int)),
            main_changed(old(self)@.selection, final(self)@.selection, dirty),
    {
        let before = self.selection.main().to_range();
        self.selection.select_next(count);
        let after = self.selection.main().to_range();
        let mut ranges: Vec<ByteRange> = Vec::new();
        ranges.push(before);
        ranges.push(after);
        assert(ranges@ =~= seq![before, after]);
        DirtyBytes::ChangeInPlace(ranges)
    }

    /// Makes the region `count` places before the main one the main one.
    pub fn select_prev(&mut self, count: usize) -> (dirty: DirtyBytes)
        requires
            old(self).wf(),
        ensures
            final(self).wf(),
            final(self)@ == old(self)@.with_selection(old(self)@.selection.rotated(-count)),
            main_changed(old(self)@.selection, final(self)@.selection, dirty),
    {
        let before = self.selection.main().to_range();
        self.selection.select_prev(count);
        let after = self.selection.main().to_range();
        let mut ranges: Vec<ByteRange> = Vec::new();
        ranges.push(before);
        ranges.push(after);
        assert(ranges@ =~= seq![before, after]);
        DirtyBytes::ChangeInPlace(ranges)
    }

    /// Selects all the bytes of the buffer.
    pub fn select_all(&mut self) -> (dirty: DirtyBytes)
        requires
            old(self).wf(),
        ensures
            final(self).wf(),
            final(self)@ == old(self)@.with_selection(
                SelectionView::all(old(self)@.data.len() as usize),
            ),
            dirty matches DirtyBytes::ChangeInPlace(ranges) && ranges@ == seq![
                ByteRange { start: 0, end: old(self)@.data.len() as usize },
            ],
    {
        let len = self.data.len();
        self.selection.select_all(len);
        let mut ranges: Vec<ByteRange> = Vec::new();
        ranges.push(ByteRange { start: 0, end: len });
        assert(ranges@ =~= seq![ByteRange { start: 0, end: len }]);
        DirtyBytes::ChangeInPlace(ranges)
    }

    /// Puts the bytes of each region into the register `reg`, one entry for
    /// each region.
    pub fn yank_selections(&mut self, reg: char)
        ensures
            final(self)@ == old(self)@.with_yank(reg as u32),
    {
        broadcast use group_hash_axioms;

        let len = self.data.len();
        let ranges = selected_ranges(&self.selection, len);
        let mut entry: Vec<Vec<u8>> = Vec::new();
        let mut i: usize = 0;
        while i < ranges.len()
            invariant
                i <= ranges@.len(),
                len == self.data@.len(),
                ranges@.len() == self.selection@.regions.len(),
                forall|k: int| 0 <= k < ranges@.len() ==> #[trigger] ranges@[k] == region_range(
                    self.selection@.regions[k],
                    len,
                ),
                entry@.len() == i,
                forall|k: int| 0 <= k < i ==> (#[trigger] entry@[k])@ == self.data@.subrange(
                    ranges@[k].start as int,
                    ranges@[k].end as int,
                ),
            decreases ranges@.len() - i,
        {
            let range = ranges[i];
            let bytes = match self.data.slice(range.start, range.end) {
                Ok(bytes) => bytes,
                Err(_) => Vec::new(),
            };
            entry.push(bytes);
            i += 1;
        }
        proof {
            assert(chunk_views(entry@) =~= yanked(self.data@, self.selection@));
        }
        self.registers.insert(reg as u32, entry);
        proof {
            assert(self@.registers =~= old(self)@.with_yank(reg as u32).registers);
        }
    }

    /// The delta that pastes the register `reg` at each region, `count`
    /// times: behind the region if `after` is set, before it otherwise. A
    /// register into which nothing was put holds one empty entry.
    pub fn paste_delta(&self, reg: char, after: bool, count: usize) -> (delta: Option<RopeDelta>)
        ensures
            ({
                let len = self@.data.len() as usize;
                let points = paste_points(
                    self@.selection,
                    self@.register(reg as u32),
                    after,
                    count,
                    len,
                );
                &&& delta is Some <==> len + total_inserted(points) <= usize::MAX
                &&& delta matches Some(d) ==> {
                    &&& d@ == (DeltaView {
                        pieces: insertion_pieces(points, len as int),
                        base_len: len as nat,
                    })
                    &&& self@.accepts(d@)
                    &&& d@.apply(self@.data) == with_insertions(self@.data, in_order(points))
                }
            }),
    {
        broadcast use group_hash_axioms;

        let key = reg as u32;
        match self.registers.get(&key) {
            Some(contents) => paste(&self.data, &self.selection, contents, after, count),
            None => {
                let mut contents: Vec<Vec<u8>> = Vec::new();
                contents.push(Vec::new());
                assert(chunk_views(contents@) =~= seq![Seq::<u8>::empty()]);
                paste(&self.data, &self.selection, &contents, after, count)
            },
        }
    }

    /// Which ends of the last region stand behind the last byte.
    pub fn overflow_sel_style(&self) -> (style: Option<OverflowSelectionStyle>)
        requires
            self.wf(),
        ensures
            ({
                let last = self@.selection.regions.last();
                let len = self@.data.len();
                style == if last.caret == len && last.tail == len {
                    Some(OverflowSelectionStyle::CursorTail)
                } else if last.caret == len {
                    Some(OverflowSelectionStyle::Cursor)
                } else if last.tail == len {
                    Some(OverflowSelectionStyle::Tail)
                } else {
                    None
                }
            }),
    {
        let last_sel = self.selection.regions[self.selection.regions.len() - 1];
        let len = self.data.len();
        if last_sel.caret == len && last_sel.tail == len {
            Some(OverflowSelectionStyle::CursorTail)
        } else if last_sel.caret == len {
            Some(OverflowSelectionStyle::Cursor)
        } else if last_sel.tail == len {
            Some(OverflowSelectionStyle::Tail)
        } else {
            None
        }
    }
}


impl BufferView {
    /// Whether the buffer shows the bytes of `file` from its start offset on.
    pub open spec fn shows(self, file: Seq<u8>) -> bool {
        &&& self.data_start_offset + self.data.len() <= file.len()
        &&& self.data == file.subrange(
            self.data_start_offset as int,
            (self.data_start_offset + self.data.len()) as int,
        )
    }

    /// Whether `chunk` can be added behind the bytes of the buffer.
    pub open spec fn takes_bottom(self, chunk: Seq<u8>) -> bool {
        chunk.len() > 0 && self.data.len() + chunk.len() <= usize::MAX
    }

    /// The buffer with `chunk` behind its bytes.
    pub open spec fn with_chunk_bottom(self, chunk: Seq<u8>) -> BufferView {
        BufferView { data: self.data + chunk, ..self }
    }

    /// Whether `chunk` can be added before the bytes of the buffer.
    pub open spec fn takes_top(self, chunk: Seq<u8>) -> bool {
        &&& chunk.len() > 0
        &&& chunk.len() <= self.data_start_offset
        &&& self.data.len() + chunk.len() <= usize::MAX
    }

    /// The buffer with `chunk` before its bytes. The regions stay on their bytes.
    pub open spec fn with_chunk_top(self, chunk: Seq<u8>) -> BufferView {
        BufferView {
            data: chunk + self.data,
            data_start_offset: (self.data_start_offset - chunk.len()) as nat,
            selection: self.selection.shifted(chunk.len() as int),
            ..self
        }
    }

    /// Whether the last `n` bytes can be dropped: more than `2 * n` bytes are
    /// there, and no region reaches into the bytes to drop.
    pub open spec fn trims_bottom(self, n: usize) -> bool {
        &&& n > 0
        &&& self.data.len() > 2 * n
        &&& self.selection.within(0, self.data.len() - n)
    }

    /// The buffer without its last `n` bytes.
    pub open spec fn trimmed_bottom(self, n: usize) -> BufferView {
        BufferView { data: self.data.subrange(0, self.data.len() - n), ..self }
    }

    /// Whether the first `n` bytes can be dropped: more than `2 * n` bytes
    /// are there, no region reaches into the bytes to drop, and the start
    /// offset can grow by `n`.
    pub open spec fn trims_top(self, n: usize) -> bool {
        &&& n > 0
        &&& self.data.len() > 2 * n
        &&& self.selection.within(n as int, usize::MAX as int)
        &&& self.data_start_offset + n <= usize::MAX
    }

    /// The buffer without its first `n` bytes. The regions stay on their bytes.
    pub open spec fn trimmed_top(self, n: usize) -> BufferView {
        BufferView {
            data: self.data.subrange(n as int, self.data.len() as int),
            data_start_offset: (self.data_start_offset + n) as nat,
            selection: self.selection.shifted(-n),
            ..self
        }
    }
}

impl CurrentBuffer {
    /// Where in the file a chunk of at most `n` bytes that ends at the start
    /// of the buffer begins.
    pub fn chunk_top_start(&self, n: usize) -> (start: usize)
        ensures
            start == if self@.data_start_offset >= n {
                self@.data_start_offset - n
            } else {
                0
            },
    {
        self.data_start_offset.saturating_sub(n)
    }

    /// Where in the file the bytes behind the buffer begin, if that is an offset.
    pub fn chunk_bottom_start(&self) -> (start: Option<usize>)
        ensures
            start == if self@.data_start_offset + self@.data.len() <= usize::MAX {
                Some((self@.data_start_offset + self@.data.len()) as usize)
            } else {
                None
            },
    {
        self.data_start_offset.checked_add(self.data.len())
    }

    /// Adds a chunk that was read behind the bytes of the buffer. Nothing
    /// happens where the chunk is empty or the buffer would grow too long.
    pub fn add_chunk_bottom(&mut self, chunk: Vec<u8>) -> (added: bool)
        requires
            old(self).wf(),
        ensures
            final(self).wf(),
            added == old(self)@.takes_bottom(chunk@),
            final(self)@ == if added {
                old(self)@.with_chunk_bottom(chunk@)
            } else {
                old(self)@
            },
    {
        let len = self.data.len();
        if chunk.len() == 0 || chunk.len() > usize::MAX - len {
            return false;
        }
        let ghost bytes = chunk@;
        let delta = RopeDelta::simple_edit(len, len, chunk, len);
        match self.data.apply_delta(&delta) {
            Ok(data) => {
                proof {
                    assert(self.data@.subrange(0, len as int) + bytes + self.data@.subrange(
                        len as int,
                        len as int,
                    ) =~= self.data@ + bytes);
                }
                self.data = data;
                true
            },
            Err(_) => false,
        }
    }

    /// Takes in the chunk of the file that follows the bytes of the buffer.
    /// It tells whether the buffer has grown: it has not at the end of the
    /// file, where the chunk is empty.
    pub fn load_next_chunk(&mut self, next_chunk: Vec<u8>) -> (loaded: bool)
        requires
            old(self).wf(),
        ensures
            final(self).wf(),
            loaded == old(self)@.takes_bottom(next_chunk@),
            final(self)@ == if loaded {
                old(self)@.with_chunk_bottom(next_chunk@)
            } else {
                old(self)@
            },
    {
        self.add_chunk_bottom(next_chunk)
    }

    /// Adds a chunk that was read before the bytes of the buffer. Nothing
    /// happens where the chunk is empty, is longer than what lies before the
    /// buffer, or the buffer would grow too long.
    pub fn add_chunk_top(&mut self, chunk: Vec<u8>) -> (added: bool)
        requires
            old(self).wf(),
        ensures
            final(self).wf(),
            added == old(self)@.takes_top(chunk@),
            final(self)@ == if added {
                old(self)@.with_chunk_top(chunk@)
            } else {
                old(self)@
            },
    {
        let len = self.data.len();
        let size = chunk.len();
        if size == 0 || size > self.data_start_offset || size > usize::MAX - len {
            return false;
        }
        let ghost bytes = chunk@;
        let delta = RopeDelta::simple_edit(0, 0, chunk, len);
        match self.data.apply_delta(&delta) {
            Ok(data) => {
                proof {
                    assert(self.data@.subrange(0, 0) + bytes + self.data@.subrange(0, len as int)
                        =~= bytes + self.data@);
                    assert forall|i: int| 0 <= i < self.selection@.regions.len() implies (
                    #[trigger] self.selection@.regions[i]).caret + size <= usize::MAX
                        && self.selection@.regions[i].tail + size <= usize::MAX by {
                        assert(self.selection@.regions[i].in_bounds(len as int));
                    }
                }
                self.data = data;
                self.data_start_offset = self.data_start_offset - size;
                self.selection.shift_up(size);
                proof {
                    assert forall|i: int| 0 <= i < self.selection@.regions.len() implies (
                    #[trigger] self.selection@.regions[i]).in_bounds(self.data@.len() as int) by {
                        assert(old(self)@.selection.regions[i].in_bounds(len as int));
                    }
                }
                true
            },
            Err(_) => false,
        }
    }

    /// Drops the last `n` bytes of the buffer, by building the rope anew from
    /// the bytes to keep. Nothing happens where no more than `2 * n` bytes
    /// are there, or a region reaches into the bytes to drop.
    pub fn trim_bottom(&mut self, n: usize) -> (trimmed: bool)
        requires
            old(self).wf(),
        ensures
            final(self).wf(),
            trimmed == old(self)@.trims_bottom(n),
            final(self)@ == if trimmed {
                old(self)@.trimmed_bottom(n)
            } else {
                old(self)@
            },
    {
        let len = self.data.len();
        if n == 0 || n > len / 2 || len - n <= n {
            return false;
        }
        let keep = len - n;
        if !self.selection.is_within(0, keep) {
            return false;
        }
        match self.data.slice(0, keep) {
            Ok(bytes) => {
                let mut builder = RopeBuilder::new();
                builder.push_leaf(Bytes(bytes));
                self.data = builder.build();
                proof {
                    assert(Seq::<u8>::empty() + old(self)@.data.subrange(0, keep as int)
                        =~= old(self)@.data.subrange(0, keep as int));
                    assert forall|i: int| 0 <= i < self.selection@.regions.len() implies (
                    #[trigger] self.selection@.regions[i]).in_bounds(self.data@.len() as int) by {}
                }
                true
            },
            Err(_) => false,
        }
    }

    /// Drops the first `n` bytes of the buffer, by building the rope anew
    /// from the bytes to keep, and moves the start offset behind them.
    /// Nothing happens where no more than `2 * n` bytes are there, or a
    /// region reaches into the bytes to drop.
    pub fn trim_top(&mut self, n: usize) -> (trimmed: bool)
        requires
            old(self).wf(),
        ensures
            final(self).wf(),
            trimmed == old(self)@.trims_top(n),
            final(self)@ == if trimmed {
                old(self)@.trimmed_top(n)
            } else {
                old(self)@
            },
    {
        let len = self.data.len();
        if n == 0 || n > len / 2 || len - n <= n {
            return false;
        }
        if !self.selection.is_within(n, usize::MAX) || n > usize::MAX - self.data_start_offset {
            return false;
        }
        match self.data.slice(n, len) {
            Ok(bytes) => {
                let mut builder = RopeBuilder::new();
                builder.push_leaf(Bytes(bytes));
                self.data = builder.build();
                self.data_start_offset = self.data_start_offset + n;
                self.selection.shift_down(n);
                proof {
                    assert(Seq::<u8>::empty() + old(self)@.data.subrange(n as int, len as int)
                        =~= old(self)@.data.subrange(n as int, len as int));
                    assert forall|i: int| 0 <= i < self.selection@.regions.len() implies (
                    #[trigger] self.selection@.regions[i]).in_bounds(self.data@.len() as int) by {
                        assert(old(self)@.selection.regions[i].in_bounds(len as int));
                    }
                }
                true
            },
            Err(_) => false,
        }
    }
}

/// The buffers that are open, one of which is the current one. There is
/// always at least one.
pub struct BuffrCollection {
    pub list: Vec<CurrentBuffer>,
    pub cur_buf_index: usize,
}

impl Default for BuffrCollection {
    fn default() -> (buffers: BuffrCollection)
        ensures
            buffers.wf(),
            buffers.list@.len() == 1,
    {
        BuffrCollection::new()
    }
}

impl BuffrCollection {
    /// There is a buffer, the current one is one of them, and each is well formed.
    pub open spec fn wf(&self) -> bool {
        &&& self.list@.len() >= 1
        &&& self.cur_buf_index < self.list@.len()
        &&& forall|i: int| 0 <= i < self.list@.len() ==> (#[trigger] self.list@[i]).wf()
    }

    /// The current buffer.
    pub open spec fn spec_current(&self) -> CurrentBuffer {
        self.list@[self.cur_buf_index as int]
    }

    /// One empty scratch buffer.
    pub fn new() -> (buffers: BuffrCollection)
        ensures
            buffers.wf(),
            buffers.list@.len() == 1,
            buffers.cur_buf_index == 0,
            buffers.spec_current()@.path is None,
            buffers.spec_current()@.data == Seq::<u8>::empty(),
            !buffers.spec_current()@.dirty,
    {
        BuffrCollection::with_current_buffer(CurrentBuffer::default())
    }

    /// The one buffer `buf`.
    pub fn with_current_buffer(buf: CurrentBuffer) -> (buffers: BuffrCollection)
        requires
            buf.wf(),
        ensures
            buffers.wf(),
            buffers.list@ == seq![buf],
            buffers.cur_buf_index == 0,
    {
        let mut list: Vec<CurrentBuffer> = Vec::new();
        list.push(buf);
        assert(list@ =~= seq![buf]);
        BuffrCollection { cur_buf_index: 0, list }
    }

    /// The current buffer.
    pub fn current(&self) -> (buffer: &CurrentBuffer)
        requires
            self.wf(),
        ensures
            *buffer == self.spec_current(),
            buffer.wf(),
    {
        &self.list[self.cur_buf_index]
    }

    /// The current buffer, to be changed in its place.
    pub fn current_mut(&mut self) -> (buffer: &mut CurrentBuffer)
        requires
            old(self).wf(),
        ensures
            *buffer == old(self).spec_current(),
            final(self).cur_buf_index == old(self).cur_buf_index,
            final(self).list@ == old(self).list@.update(
                old(self).cur_buf_index as int,
                *final(buffer),
            ),
    {
        &mut self.list[self.cur_buf_index]
    }

    /// All the buffers in their order.
    pub fn iter(&self) -> (buffers: &Vec<CurrentBuffer>)
        ensures
            buffers@ == self.list@,
    {
        &self.list
    }

    /// All the buffers in their order, each to be changed in its place.
    pub fn iter_mut(&mut self) -> (buffers: &mut [CurrentBuffer])
        ensures
            buffers@ == old(self).list@,
            final(self).list@ == final(buffers)@,
            final(self).cur_buf_index == old(self).cur_buf_index,
    {
        self.list.as_mut_slice()
    }

    /// Makes the buffer at `index` the current one.
    pub fn switch_to(&mut self, index: usize) -> (switched: bool)
        requires
            old(self).wf(),
        ensures
            final(self).wf(),
            switched == (index < old(self).list@.len()),
            final(self).list@ == old(self).list@,
            final(self).cur_buf_index == if switched { index } else { old(self).cur_buf_index },
    {
        if index < self.list.len() {
            self.cur_buf_index = index;
            true
        } else {
            false
        }
    }

    /// Opens a buffer behind the others and makes it the current one.
    pub fn open(&mut self, buf: CurrentBuffer)
        requires
            old(self).wf(),
            buf.wf(),
        ensures
            final(self).wf(),
            final(self).list@ == old(self).list@.push(buf),
            final(self).cur_buf_index == old(self).list@.len(),
    {
        self.cur_buf_index = self.list.len();
        self.list.push(buf);
    }

    /// Closes the current buffer. The buffer before it becomes the current
    /// one. Where it was the only one, an empty scratch buffer takes its place.
    pub fn delete_current(&mut self)
        requires
            old(self).wf(),
        ensures
            final(self).wf(),
            final(self).cur_buf_index == if old(self).cur_buf_index == 0 {
                0
            } else {
                (old(self).cur_buf_index - 1) as usize
            },
            old(self).list@.len() > 1 ==> final(self).list@ == old(self).list@.remove(
                old(self).cur_buf_index as int,
            ),
            old(self).list@.len() == 1 ==> {
                &&& final(self).list@.len() == 1
                &&& final(self).list@[0]@.path is None
                &&& final(self).list@[0]@.data == Seq::<u8>::empty()
                &&& !final(self).list@[0]@.dirty
            },
    {
        self.list.remove(self.cur_buf_index);
        self.cur_buf_index = self.cur_buf_index.saturating_sub(1);
        if self.list.len() == 0 {
            self.list.push(CurrentBuffer::default());
        }
    }
}


/// Where among `paths` the path `target` stands first.
pub open spec fn first_with_path(paths: Seq<Option<String>>, target: Seq<char>, upto: int) -> Option<usize>
    decreases upto,
{
    if upto <= 0 {
        None
    } else {
        match first_with_path(paths, target, upto - 1) {
            Some(i) => Some(i),
            None => match paths[upto - 1] {
                Some(path) => if path@ == target {
                    Some((upto - 1) as usize)
                } else {
                    None
                },
                None => None,
            },
        }
    }
}

/// Where among `paths` the path `target` stands first. The view hands in
/// the paths of the buffers in the form in which the file system knows them.
pub fn position_of_path(paths: &Vec<Option<String>>, target: &String) -> (found: Option<usize>)
    ensures
        found == first_with_path(paths@, target@, paths@.len() as int),
        found matches Some(i) ==> i < paths@.len(),
{
    let mut i: usize = 0;
    while i < paths.len()
        invariant
            i <= paths@.len(),
            first_with_path(paths@, target@, i as int) is None,
        decreases paths@.len() - i,
    {
        match &paths[i] {
            Some(path) => {
                if *path == *target {
                    proof {
                        lemma_first_with_path_stays(paths@, target@, i + 1, paths@.len() as int);
                    }
                    return Some(i);
                }
            },
            None => {},
        }
        i += 1;
    }
    None
}

/// The place at which a path was found first stays the first.
pub proof fn lemma_first_with_path_stays(paths: Seq<Option<String>>, target: Seq<char>, found: int, upto: int)
    requires
        found <= upto,
        first_with_path(paths, target, found) is Some,
    ensures
        first_with_path(paths, target, upto) == first_with_path(paths, target, found),
    decreases upto - found,
{
    if found < upto {
        lemma_first_with_path_stays(paths, target, found, upto - 1);
    }
}

impl BuffrCollection {
    /// The path of each buffer, in the order of the buffers.
    pub fn paths(&self) -> (paths: Vec<Option<String>>)
        ensures
            paths@.len() == self.list@.len(),
            forall|i: int| 0 <= i < paths@.len() ==> #[trigger] paths@[i] == self.list@[i].path,
    {
        let mut paths: Vec<Option<String>> = Vec::new();
        let mut i: usize = 0;
        while i < self.list.len()
            invariant
                i <= self.list@.len(),
                paths@.len() == i,
                forall|k: int| 0 <= k < i ==> #[trigger] paths@[k] == self.list@[k].path,
            decreases self.list@.len() - i,
        {
            paths.push(self.list[i].path.clone());
            i += 1;
        }
        paths
    }

    /// The bytes of the buffer at `index`, to be written to its path.
    pub fn bytes_to_write(&self, index: usize) -> (bytes: Option<Vec<u8>>)
        ensures
            bytes is Some <==> index < self.list@.len() && self.list@[index as int]@.path is Some,
            bytes matches Some(b) ==> b@ == self.list@[index as int]@.data,
    {
        if index < self.list.len() && self.list[index].path.is_some() {
            Some(self.list[index].data.to_vec())
        } else {
            None
        }
    }

    /// Takes note that the buffer at `index` was written to its path.
    pub fn mark_written(&mut self, index: usize)
        requires
            old(self).wf(),
        ensures
            final(self).wf(),
            final(self).cur_buf_index == old(self).cur_buf_index,
            final(self).list@.len() == old(self).list@.len(),
            forall|i: int|
                0 <= i < old(self).list@.len() && i != index ==> #[trigger] final(self).list@[i]
                    == old(self).list@[i],
            index < old(self).list@.len() ==> final(self).list@[index as int]@ == (BufferView {
                dirty: false,
                ..old(self).list@[index as int]@
            }),
    {
        if index < self.list.len() {
            let buffer = &mut self.list[index];
            buffer.dirty = false;
        }
    }

    /// Makes the buffer of a file the current one: the buffer at `found` if
    /// the file is open there, a new buffer of `data` with the path
    /// `filename` behind the others if `found` names no buffer.
    pub fn switch_current_buffer(&mut self, found: Option<usize>, filename: String, data: Vec<u8>)
        requires
            old(self).wf(),
        ensures
            final(self).wf(),
            match found {
                Some(index) if index < old(self).list@.len() => final(self).list@ == old(
                    self,
                ).list@ && final(self).cur_buf_index == index,
                _ => {
                    &&& final(self).list@.len() == old(self).list@.len() + 1
                    &&& final(self).list@.subrange(0, old(self).list@.len() as int) == old(
                        self,
                    ).list@
                    &&& final(self).cur_buf_index == old(self).list@.len()
                    &&& final(self).list@.last()@.data == data@
                    &&& final(self).list@.last()@.path == Some(filename@)
                    &&& !final(self).list@.last()@.dirty
                    &&& final(self).list@.last()@.data_start_offset == 0
                },
            },
    {
        let known = match found {
            Some(index) => if index < self.list.len() { Some(index) } else { None },
            None => None,
        };
        match known {
            Some(index) => {
                self.cur_buf_index = index;
            },
            None => {
                let buffer = CurrentBuffer::from_data_and_path(data, Some(filename));
                let ghost before = self.list@;
                self.open(buffer);
                assert(self.list@.subrange(0, before.len() as int) =~= before);
            },
        }
    }
}


impl CurrentBuffer {
    /// Whether the buffer is well formed.
    pub fn is_wf(&self) -> (ok: bool)
        ensures
            ok == self.wf(),
    {
        let len = self.data.len();
        self.selection.is_wf() && self.selection.is_in_bounds(len) && self.history.is_wf()
    }
}

impl BuffrCollection {
    /// Whether the buffers are well formed.
    pub fn is_wf(&self) -> (ok: bool)
        ensures
            ok == self.wf(),
    {
        if self.list.len() == 0 || self.cur_buf_index >= self.list.len() {
            return false;
        }
        let mut i: usize = 0;
        while i < self.list.len()
            invariant
                i <= self.list@.len(),
                forall|k: int| 0 <= k < i ==> (#[trigger] self.list@[k]).wf(),
            decreases self.list@.len() - i,
        {
            if !self.list[i].is_wf() {
                return false;
            }
            i += 1;
        }
        true
    }
}

} // verus!

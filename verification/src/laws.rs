//! What holds of the editor whatever is done with it.

use vstd::prelude::*;
use crate::byte_rope::concat_chunks;
use crate::current_buffer::{yanked, BufferView};
use crate::delta::{lemma_apply_len, DeltaView};
use crate::history::{step_of, ActionView, HistoryView};
use crate::modes::search::{all_matches, lemma_wildcards_match_everywhere, PatternPiece};
use crate::operations::{
    in_order, lemma_one_insertion, paste_points, region_range, repeated, with_insertions,
    InsertionView,
};
use crate::selection::{RegionOp, SelRegion, SelectionView};

verus! {

/// A selection that is in bounds stays as it is when it is kept in bounds.
pub proof fn lemma_clamped_in_bounds(selection: SelectionView, max_len: usize)
    requires
        selection.in_bounds(max_len as int),
    ensures
        selection.clamped(max_len) == selection,
{
    assert(selection.clamped(max_len).regions =~= selection.regions) by {
        assert forall|i: int| 0 <= i < selection.regions.len() implies selection.clamped(
            max_len,
        ).regions[i] == selection.regions[i] by {
            assert(selection.regions[i].in_bounds(max_len as int));
        }
    }
}

/// After an edit the selection still has a region and a main region, and no
/// region reaches out of the edited bytes: the buffer is well formed.
pub proof fn law_edit_keeps_selection(buffer: BufferView, delta: DeltaView, complete: bool, caret_offset: int, tail_offset: int)
    requires
        buffer.wf(),
        buffer.accepts(delta),
    ensures
        buffer.applied(delta, complete, caret_offset, tail_offset).wf(),
        buffer.applied(delta, complete, caret_offset, tail_offset).data.len() == delta.new_len(),
{
    let after = buffer.applied(delta, complete, caret_offset, tail_offset);
    lemma_apply_len(delta.pieces, buffer.data);
    let step = step_of(delta, buffer.data, buffer.selection);
    if complete {
        let steps = buffer.history.committed().undo;
        assert forall|i: int| 0 <= i < after.history.undo.len() implies (
        #[trigger] after.history.undo[i]).selection.wf() by {
            if i < steps.len() {
                assert(after.history.undo[i] == steps[i]);
                if buffer.history.partial is Some && i == buffer.history.undo.len() {
                } else {
                    assert(steps[i] == buffer.history.undo[i]);
                }
            }
        }
    }
}

/// After a step was undone, and after it was done again, the buffer is well
/// formed.
pub proof fn law_history_keeps_selection(buffer: BufferView)
    requires
        buffer.wf(),
    ensures
        buffer.undone().wf(),
        buffer.redone().wf(),
{
    let base = buffer.history.committed();
    assert(base.wf()) by {
        assert forall|i: int| 0 <= i < base.undo.len() implies (
        #[trigger] base.undo[i]).selection.wf() by {
            if i < buffer.history.undo.len() {
                assert(base.undo[i] == buffer.history.undo[i]);
            }
        }
    }
    if buffer.history.can_undo(buffer.data.len()) {
        let step = base.undo.last();
        let after = buffer.undone();
        lemma_apply_len(step.inverse.pieces, buffer.data);
        assert(base.undo[base.undo.len() - 1].selection.wf());
        assert forall|i: int| 0 <= i < after.history.undo.len() implies (
        #[trigger] after.history.undo[i]).selection.wf() by {
            assert(after.history.undo[i] == base.undo[i]);
        }
        assert forall|i: int| 0 <= i < after.history.redo.len() implies (
        #[trigger] after.history.redo[i]).selection.wf() by {
            if i < base.redo.len() {
                assert(after.history.redo[i] == base.redo[i]);
            }
        }
    }
    if buffer.history.can_redo(buffer.data.len()) {
        let step = base.redo.last();
        let after = buffer.redone();
        lemma_apply_len(step.forward.pieces, buffer.data);
        assert(base.redo[base.redo.len() - 1].selection.wf());
        assert forall|i: int| 0 <= i < after.history.redo.len() implies (
        #[trigger] after.history.redo[i]).selection.wf() by {
            assert(after.history.redo[i] == base.redo[i]);
        }
        assert forall|i: int| 0 <= i < after.history.undo.len() implies (
        #[trigger] after.history.undo[i]).selection.wf() by {
            if i < base.undo.len() {
                assert(after.history.undo[i] == base.undo[i]);
            }
        }
    }
}

/// After a change that is made to every region alike, the buffer is well
/// formed.
pub proof fn law_move_keeps_selection(buffer: BufferView, op: RegionOp, bytes_per_line: usize)
    requires
        buffer.wf(),
    ensures
        buffer.with_regions(op, bytes_per_line).wf(),
{
}

/// Undoing an edit gives back the bytes and the selection as they were
/// before the edit, where the edit is a step of its own or the first part
/// of a pending step.
pub proof fn law_undo_inverse(buffer: BufferView, delta: DeltaView, complete: bool, caret_offset: int, tail_offset: int)
    requires
        buffer.wf(),
        buffer.accepts(delta),
        complete || buffer.history.partial is None,
    ensures
        ({
            let edited = buffer.applied(delta, complete, caret_offset, tail_offset);
            &&& edited.history.can_undo(edited.data.len())
            &&& edited.undone().data == buffer.data
            &&& edited.undone().selection == buffer.selection
        }),
{
    let edited = buffer.applied(delta, complete, caret_offset, tail_offset);
    delta.lemma_invert_undoes(buffer.data);
    lemma_apply_len(delta.pieces, buffer.data);
    lemma_clamped_in_bounds(buffer.selection, buffer.data.len() as usize);
    let steps = edited.history.committed().undo;
    assert(steps.last() == step_of(delta, buffer.data, buffer.selection));
}

/// Undoing a pending step of two edits gives back the bytes and the
/// selection as they were before the first of them.
pub proof fn law_undo_takes_back_pending_edits(buffer: BufferView, first: DeltaView, second: DeltaView, caret_offset: int, tail_offset: int)
    requires
        buffer.wf(),
        buffer.history.partial is None,
        buffer.accepts(first),
        buffer.applied(first, false, caret_offset, tail_offset).accepts(second),
    ensures
        ({
            let edited = buffer.applied(first, false, caret_offset, tail_offset).applied(
                second,
                false,
                caret_offset,
                tail_offset,
            );
            &&& edited.history.can_undo(edited.data.len())
            &&& edited.undone().data == buffer.data
            &&& edited.undone().selection == buffer.selection
        }),
{
    let middle = buffer.applied(first, false, caret_offset, tail_offset);
    let edited = middle.applied(second, false, caret_offset, tail_offset);
    first.lemma_invert_undoes(buffer.data);
    second.lemma_invert_undoes(middle.data);
    lemma_apply_len(first.pieces, buffer.data);
    lemma_apply_len(second.pieces, middle.data);
    let back_second = second.invert(middle.data);
    let back_first = first.invert(buffer.data);
    back_second.lemma_compose_applies(back_first, edited.data);
    lemma_clamped_in_bounds(buffer.selection, buffer.data.len() as usize);
    let steps = edited.history.committed().undo;
    assert(steps.last().inverse == back_second.compose(back_first));
    assert(steps.last().selection == buffer.selection);
}

/// Doing again an edit that was undone gives back the bytes and the
/// selection as they were after the edit.
pub proof fn law_redo_inverse(buffer: BufferView, delta: DeltaView, caret_offset: int, tail_offset: int)
    requires
        buffer.wf(),
        buffer.accepts(delta),
    ensures
        ({
            let edited = buffer.applied(delta, true, caret_offset, tail_offset);
            let undone = edited.undone();
            &&& undone.history.can_redo(undone.data.len())
            &&& undone.redone().data == edited.data
            &&& undone.redone().selection == edited.selection
        }),
{
    let edited = buffer.applied(delta, true, caret_offset, tail_offset);
    let undone = edited.undone();
    law_undo_inverse(buffer, delta, true, caret_offset, tail_offset);
    law_edit_keeps_selection(buffer, delta, true, caret_offset, tail_offset);
    delta.lemma_invert_undoes(buffer.data);
    lemma_apply_len(delta.pieces, buffer.data);
    lemma_clamped_in_bounds(edited.selection, delta.new_len() as usize);
    let steps = edited.history.committed().undo;
    assert(steps.last() == step_of(delta, buffer.data, buffer.selection));
    let kept = ActionView {
        forward: steps.last().forward,
        inverse: steps.last().inverse,
        selection: edited.selection,
    };
    assert(undone.history.redo.last() == kept);
}

/// An offset of the old bytes, carried along by an edit, is an offset of
/// the edited bytes or their end.
pub proof fn law_delta_transport(delta: DeltaView, base: Seq<u8>, offset: int, after: bool)
    requires
        delta.fits(base.len()),
    ensures
        0 <= delta.transform(offset, after) <= delta.apply(base).len(),
{
    delta.lemma_transform_bound(offset, after);
    lemma_apply_len(delta.pieces, base);
}

/// A window that shows the bytes of a file still shows them when the bytes
/// that follow it in the file are added behind it.
pub proof fn law_window_grows_down(buffer: BufferView, file: Seq<u8>, chunk: Seq<u8>)
    requires
        buffer.shows(file),
        buffer.data_start_offset + buffer.data.len() + chunk.len() <= file.len(),
        chunk == file.subrange(
            (buffer.data_start_offset + buffer.data.len()) as int,
            (buffer.data_start_offset + buffer.data.len() + chunk.len()) as int,
        ),
    ensures
        buffer.with_chunk_bottom(chunk).shows(file),
{
    let start = buffer.data_start_offset as int;
    assert(buffer.data + chunk =~= file.subrange(
        start,
        start + buffer.data.len() + chunk.len(),
    ));
}

/// A window that shows the bytes of a file still shows them when the bytes
/// that stand before it in the file are added before it.
pub proof fn law_window_grows_up(buffer: BufferView, file: Seq<u8>, chunk: Seq<u8>)
    requires
        buffer.shows(file),
        chunk.len() <= buffer.data_start_offset,
        chunk == file.subrange(
            buffer.data_start_offset - chunk.len(),
            buffer.data_start_offset as int,
        ),
    ensures
        buffer.with_chunk_top(chunk).shows(file),
{
    let start = buffer.data_start_offset - chunk.len();
    assert(chunk + buffer.data =~= file.subrange(start, start + chunk.len() + buffer.data.len()));
}

/// A window that shows the bytes of a file still shows them when bytes are
/// dropped at its end or at its start.
pub proof fn law_window_shrinks(buffer: BufferView, file: Seq<u8>, n: usize)
    requires
        buffer.shows(file),
        n <= buffer.data.len(),
    ensures
        buffer.trimmed_bottom(n).shows(file),
        buffer.trimmed_top(n).shows(file),
{
    let start = buffer.data_start_offset as int;
    let len = buffer.data.len() as int;
    assert(buffer.data.subrange(0, len - n) =~= file.subrange(start, start + len - n));
    assert(buffer.data.subrange(n as int, len) =~= file.subrange(start + n, start + len));
}

/// The bytes of a range of a rope, copied as one, are the chunks of that
/// range one after the other.
pub proof fn law_slice_round_trip(rope: Seq<u8>, start: int, end: int, sliced: Seq<u8>, chunks: Seq<Seq<u8>>)
    requires
        sliced == rope.subrange(start, end),
        concat_chunks(chunks) == rope.subrange(start, end),
    ensures
        sliced == concat_chunks(chunks),
        concat_chunks(chunks) == chunks.flatten(),
{
    lemma_concat_is_flatten(chunks);
}

/// Chunks one after the other are the flattened sequence of the chunks.
pub proof fn lemma_concat_is_flatten(chunks: Seq<Seq<u8>>)
    ensures
        concat_chunks(chunks) == chunks.flatten(),
    decreases chunks.len(),
{
    chunks.lemma_flatten_and_flatten_alt_are_equivalent();
    lemma_concat_is_flatten_alt(chunks);
}

proof fn lemma_concat_is_flatten_alt(chunks: Seq<Seq<u8>>)
    ensures
        concat_chunks(chunks) == chunks.flatten_alt(),
    decreases chunks.len(),
{
    if chunks.len() > 0 {
        lemma_concat_is_flatten_alt(chunks.drop_last());
    }
}

/// Pasting once behind the regions what was yanked from them inserts, for
/// each region, the bytes of that region behind its last byte.
pub proof fn law_yank_paste_points(buffer: BufferView, key: u32)
    requires
        buffer.wf(),
    ensures
        ({
            let len = buffer.data.len() as usize;
            let yanked_buffer = buffer.with_yank(key);
            let points = paste_points(
                yanked_buffer.selection,
                yanked_buffer.register(key),
                true,
                1,
                len,
            );
            &&& points.len() == buffer.selection.regions.len()
            &&& forall|i: int|
                0 <= i < points.len() ==> (#[trigger] points[i]).at == region_range(
                    buffer.selection.regions[i],
                    len,
                ).end && points[i].bytes == buffer.data.subrange(
                    region_range(buffer.selection.regions[i], len).start as int,
                    region_range(buffer.selection.regions[i], len).end as int,
                )
        }),
{
    let len = buffer.data.len() as usize;
    let yanked_buffer = buffer.with_yank(key);
    let contents = yanked(buffer.data, buffer.selection);
    assert(yanked_buffer.register(key) == contents);
    let points = paste_points(yanked_buffer.selection, contents, true, 1, len);
    let n = contents.len() as int;
    assert forall|i: int| 0 <= i < points.len() implies (#[trigger] points[i]).at == region_range(
        buffer.selection.regions[i],
        len,
    ).end && points[i].bytes == buffer.data.subrange(
        region_range(buffer.selection.regions[i], len).start as int,
        region_range(buffer.selection.regions[i], len).end as int,
    ) by {
        assert(i % n == i) by (nonlinear_arith)
            requires
                0 <= i < n,
        ;
        assert(repeated(contents[i], 1) =~= contents[i]) by {
            assert(repeated(contents[i], 0) =~= Seq::<u8>::empty());
        }
    }
}

/// With one region, pasting once behind it what was yanked from it makes
/// the bytes up to the end of the region, the bytes of the region once
/// more, and the bytes behind the region.
pub proof fn law_yank_paste_identity(buffer: BufferView, key: u32)
    requires
        buffer.wf(),
        buffer.selection.regions.len() == 1,
    ensures
        ({
            let len = buffer.data.len() as usize;
            let range = region_range(buffer.selection.regions[0], len);
            let yanked_buffer = buffer.with_yank(key);
            let points = paste_points(
                yanked_buffer.selection,
                yanked_buffer.register(key),
                true,
                1,
                len,
            );
            with_insertions(buffer.data, in_order(points)) == buffer.data.subrange(
                0,
                range.end as int,
            ) + buffer.data.subrange(range.start as int, range.end as int) + buffer.data.subrange(
                range.end as int,
                len as int,
            )
        }),
{
    let len = buffer.data.len() as usize;
    let yanked_buffer = buffer.with_yank(key);
    let points = paste_points(yanked_buffer.selection, yanked_buffer.register(key), true, 1, len);
    law_yank_paste_points(buffer, key);
    assert(buffer.selection.regions[0].in_bounds(len as int));
    assert(points =~= seq![points[0]]);
    lemma_one_insertion(buffer.data, points[0]);
}

/// Collapsing a region twice is collapsing it once.
pub proof fn law_collapse_idempotent(region: SelRegion)
    ensures
        region.spec_collapse().spec_collapse() == region.spec_collapse(),
{
}

/// A pattern of wildcards is found once at every offset that leaves room
/// for it, and nowhere else.
pub proof fn law_wildcards_match_every_window(data: Seq<u8>, pieces: Seq<PatternPiece>)
    requires
        0 < pieces.len() <= data.len(),
        data.len() <= usize::MAX,
        forall|i: int| 0 <= i < pieces.len() ==> #[trigger] pieces[i] == PatternPiece::Wildcard,
    ensures
        all_matches(data, pieces) == Seq::new(
            (data.len() - pieces.len() + 1) as nat,
            |p: int| p as usize,
        ),
{
    lemma_wildcards_match_everywhere(data, pieces, data.len() - pieces.len() + 1);
}

} // verus!

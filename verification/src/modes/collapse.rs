//! Search that makes each region the matches in it.

use vstd::prelude::*;
use crate::byte_range::ByteRange;
use crate::current_buffer::{changes_between, BuffrCollection};
use crate::keymap::Event;
use crate::modes::mode::{
    current_became, is_normal, to_normal, to_normal_with_info, ModeTransition,
};
use crate::modes::search::{region_matches, Pattern, PatternPiece};
use crate::selection::{SelRegion, SelectionView};

verus! {

/// The acceptor that makes each region the matches of the pattern in it.
#[derive(Debug, PartialEq, Eq, Clone, Copy, Structural)]
pub struct Collapse {}

/// The region of the bytes of `range`, turned the way `from` is turned.
pub open spec fn region_of(range: ByteRange, from: SelRegion) -> SelRegion {
    let last = if range.end == 0 { 0 } else { (range.end - 1) as usize };
    let low = if range.start <= last { range.start } else { last };
    let high = if range.start <= last { last } else { range.start };
    if from.is_forward() {
        SelRegion { caret: high, tail: low }
    } else {
        SelRegion { caret: low, tail: high }
    }
}

/// The regions of the bytes of `ranges`, turned the way `from` is turned.
pub open spec fn regions_of(ranges: Seq<ByteRange>, from: SelRegion) -> Seq<SelRegion> {
    Seq::new(ranges.len(), |i: int| region_of(ranges[i], from))
}

/// For each region of the selection the regions of the matches in it.
pub open spec fn collapse_lists(data: Seq<u8>, pieces: Seq<PatternPiece>, selection: SelectionView) -> Seq<Seq<SelRegion>> {
    Seq::new(
        selection.regions.len(),
        |i: int| regions_of(region_matches(data, pieces, selection.regions[i]), selection.regions[i]),
    )
}

/// Whether the pattern is found in none of the regions.
pub open spec fn no_match(data: Seq<u8>, pieces: Seq<PatternPiece>, selection: SelectionView) -> bool {
    forall|i: int|
        0 <= i < selection.regions.len() ==> (#[trigger] region_matches(
            data,
            pieces,
            selection.regions[i],
        )).len() == 0
}

/// The regions of the bytes of `ranges`, turned the way `from` is turned.
pub fn ranges_to_regions(ranges: &Vec<ByteRange>, from: &SelRegion) -> (regions: Vec<SelRegion>)
    ensures
        regions@ == regions_of(ranges@, *from),
{
    let mut regions: Vec<SelRegion> = Vec::new();
    let mut i: usize = 0;
    while i < ranges.len()
        invariant
            i <= ranges@.len(),
            regions@.len() == i,
            forall|k: int| 0 <= k < i ==> #[trigger] regions@[k] == region_of(ranges@[k], *from),
        decreases ranges@.len() - i,
    {
        let range = ranges[i];
        let last = if range.end == 0 { 0 } else { range.end - 1 };
        regions.push(SelRegion::new(range.start, last).inherit_direction(from));
        i += 1;
    }
    assert(regions@ =~= regions_of(ranges@, *from));
    regions
}

impl Collapse {
    /// What the search makes of the buffers. Without a pattern nothing
    /// happens. Where the pattern is found in no region the selection stays
    /// and a message says so. Otherwise each region of the current buffer
    /// is replaced by the matches in it, turned as the region was; a region
    /// without a match keeps the whole selection as it was. Normal mode takes
    /// over in each case.
    pub open spec fn searched(pieces: Seq<PatternPiece>, before: BuffrCollection, after: BuffrCollection, result: ModeTransition) -> bool {
        let buffer = before.spec_current()@;
        if pieces.len() == 0 {
            after == before && to_normal(result)
        } else if no_match(buffer.data, pieces, buffer.selection) {
            after == before && to_normal_with_info(result, "no matches"@)
        } else {
            &&& current_became(
                before,
                after,
                buffer.with_selection(
                    buffer.selection.replaced(
                        collapse_lists(buffer.data, pieces, buffer.selection),
                    ).clamped(buffer.data.len() as usize),
                ),
            )
            &&& result matches ModeTransition::ModeAndDirtyBytes(mode, dirty)
            &&& is_normal(mode)
            &&& changes_between(buffer.selection, after.spec_current()@.selection, dirty)
        }
    }

    /// Makes each region of the current buffer the matches of `pattern` in it.
    pub fn apply_search(&self, pattern: &Pattern, buffr_collection: &mut BuffrCollection, _bytes_per_line: usize) -> (result: ModeTransition)
        requires
            old(buffr_collection).wf(),
        ensures
            final(buffr_collection).wf(),
            Collapse::searched(
                pattern.pieces@,
                *old(buffr_collection),
                *final(buffr_collection),
                result,
            ),
    {
        if pattern.pieces.len() == 0 {
            return ModeTransition::normal();
        }
        let matched = pattern.map_selections_to_matches(buffr_collection.current());
        let mut any = false;
        let mut lists: Vec<Vec<SelRegion>> = Vec::new();
        let mut i: usize = 0;
        let ghost buffer = buffr_collection.spec_current()@;
        while i < matched.len()
            invariant
                i <= matched@.len(),
                *buffr_collection == *old(buffr_collection),
                buffr_collection.wf(),
                buffer == buffr_collection.spec_current()@,
                matched@.len() == buffer.selection.regions.len(),
                forall|k: int|
                    0 <= k < matched@.len() ==> (#[trigger] matched@[k])@ == region_matches(
                        buffer.data,
                        pattern.pieces@,
                        buffer.selection.regions[k],
                    ),
                lists@.len() == i,
                forall|k: int|
                    0 <= k < i ==> (#[trigger] lists@[k])@ == regions_of(
                        region_matches(buffer.data, pattern.pieces@, buffer.selection.regions[k]),
                        buffer.selection.regions[k],
                    ),
                any <==> exists|k: int|
                    0 <= k < i && (#[trigger] region_matches(
                        buffer.data,
                        pattern.pieces@,
                        buffer.selection.regions[k],
                    )).len() > 0,
            decreases matched@.len() - i,
        {
            let region = buffr_collection.current().selection.regions[i];
            if matched[i].len() > 0 {
                any = true;
            }
            lists.push(ranges_to_regions(&matched[i], &region));
            i += 1;
        }
        if !any {
            return ModeTransition::normal_with_info("no matches".to_owned());
        }
        proof {
            assert(crate::selection::region_lists(lists@) =~= collapse_lists(
                buffer.data,
                pattern.pieces@,
                buffer.selection,
            ));
        }
        let current_buffer = buffr_collection.current_mut();
        let dirty = current_buffer.replace_selections(&lists);
        ModeTransition::normal_and_dirty(dirty)
    }

    pub fn name(&self) -> (name: String)
        ensures
            name@ == "COLLAPSE"@,
    {
        "COLLAPSE".to_owned()
    }

    /// As a mode of its own the acceptor leaves every event to the view.
    pub fn transition(&self, _event: &Event, _buffr_collection: &mut BuffrCollection, _bytes_per_line: usize) -> (result: Option<ModeTransition>)
        ensures
            *final(_buffr_collection) == *old(_buffr_collection),
            result is None,
    {
        None
    }
}

} // verus!

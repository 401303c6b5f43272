//! Search that makes each region what lies between the matches in it, and
//! the mode that chooses how to search.

use vstd::prelude::*;
use crate::byte_range::{covered, gaps, normalize, ranges_sorted, ByteRange};
use crate::current_buffer::{changes_between, BuffrCollection};
use crate::keymap::{Chord, Event, KeyCode};
use crate::modes::collapse::{ranges_to_regions, regions_of};
use crate::modes::mode::{current_became, is_normal, to_normal, Mode, ModeTransition};
use crate::modes::search::{region_matches, Acceptor, Pattern, PatternPiece, Search, SearchView};
use crate::operations::region_range;
use crate::selection::{region_lists, SelRegion, SelectionView};

verus! {

/// The mode that waits for the kind of search to split by, and the acceptor
/// that makes each region what lies between the matches in it.
#[derive(Debug, PartialEq, Eq, Clone, Copy, Structural)]
pub struct Split {}

/// Whether `list` holds, in order, the regions of the runs of bytes of
/// `region` in which the pattern is not found, turned as the region is.
pub open spec fn is_split_of(list: Seq<SelRegion>, data: Seq<u8>, pieces: Seq<PatternPiece>, region: SelRegion) -> bool {
    let range = region_range(region, data.len() as usize);
    exists|free: Seq<ByteRange>|
        {
            &&& ranges_sorted(free)
            &&& forall|x: int|
                #[trigger] covered(free, x) <==> range.start <= x < range.end && !covered(
                    region_matches(data, pieces, region),
                    x,
                )
            &&& list == regions_of(free, region)
        }
}

/// Whether the lists are the splits of the regions of the selection.
pub open spec fn are_splits(lists: Seq<Seq<SelRegion>>, data: Seq<u8>, pieces: Seq<PatternPiece>, selection: SelectionView) -> bool {
    &&& lists.len() == selection.regions.len()
    &&& forall|i: int|
        0 <= i < lists.len() ==> is_split_of(
            #[trigger] lists[i],
            data,
            pieces,
            selection.regions[i],
        )
}

/// The kind of search that a key chooses.
pub open spec fn search_for(chord: Chord) -> Option<bool> {
    match chord {
        Chord::Plain(KeyCode::Char(c)) => if c == '/' || c == 's' {
            Some(false)
        } else if c == '?' || c == 'S' {
            Some(true)
        } else {
            None
        },
        _ => None,
    }
}

impl Split {
    /// What the search makes of the buffers. Without a pattern nothing
    /// happens. Otherwise each region of the current buffer is replaced by
    /// the runs of its bytes in which the pattern is not found; a region of
    /// which nothing is left keeps the whole selection as it was. Normal mode
    /// takes over in each case.
    pub open spec fn searched(pieces: Seq<PatternPiece>, before: BuffrCollection, after: BuffrCollection, result: ModeTransition) -> bool {
        let buffer = before.spec_current()@;
        if pieces.len() == 0 {
            after == before && to_normal(result)
        } else {
            exists|lists: Seq<Seq<SelRegion>>|
                {
                    &&& are_splits(lists, buffer.data, pieces, buffer.selection)
                    &&& current_became(
                        before,
                        after,
                        buffer.with_selection(
                            buffer.selection.replaced(lists).clamped(buffer.data.len() as usize),
                        ),
                    )
                    &&& result matches ModeTransition::ModeAndDirtyBytes(mode, dirty)
                    &&& is_normal(mode)
                    &&& changes_between(buffer.selection, after.spec_current()@.selection, dirty)
                }
        }
    }

    /// `/` and `s` start a search in text, `?` and `S` a search in hex; any
    /// other key lets normal mode take over; what is no key is left to the
    /// view.
    pub open spec fn transitioned(self, event: Event, before: BuffrCollection, after: BuffrCollection, result: Option<ModeTransition>) -> bool {
        &&& after == before
        &&& match event {
            Event::Key(key) => match search_for(key.chord()) {
                Some(hex) => (result matches Some(ModeTransition::NewMode(Mode::Search(search)))
                    && search@ == (SearchView {
                    acceptor: Acceptor::Split,
                    hex,
                    pieces: Seq::empty(),
                    cursor: 0,
                    hex_half: None,
                })),
                None => (result matches Some(t) && to_normal(t)),
            },
            _ => result is None,
        }
    }

    /// The mode, which keeps nothing.
    pub fn new() -> (split: Split)
        ensures
            split == (Split {  }),
    {
        Split {  }
    }

    /// Makes each region of the current buffer what lies between the matches of
    /// `pattern` in it.
    pub fn apply_search(&self, pattern: &Pattern, buffr_collection: &mut BuffrCollection, _bytes_per_line: usize) -> (result: ModeTransition)
        requires
            old(buffr_collection).wf(),
        ensures
            final(buffr_collection).wf(),
            Split::searched(
                pattern.pieces@,
                *old(buffr_collection),
                *final(buffr_collection),
                result,
            ),
    {
        if pattern.pieces.len() == 0 {
            return ModeTransition::normal();
        }
        let matched = pattern.map_selections_to_matches(buffr_collection.current());
        let len = buffr_collection.current().data.len();
        let mut lists: Vec<Vec<SelRegion>> = Vec::new();
        let mut i: usize = 0;
        let ghost buffer = buffr_collection.spec_current()@;
        while i < matched.len()
            invariant
                i <= matched@.len(),
                *buffr_collection == *old(buffr_collection),
                buffr_collection.wf(),
                buffer == buffr_collection.spec_current()@,
                len == buffer.data.len(),
                matched@.len() == buffer.selection.regions.len(),
                forall|k: int|
                    0 <= k < matched@.len() ==> (#[trigger] matched@[k])@ == region_matches(
                        buffer.data,
                        pattern.pieces@,
                        buffer.selection.regions[k],
                    ),
                lists@.len() == i,
                forall|k: int|
                    0 <= k < i ==> is_split_of(
                        (#[trigger] lists@[k])@,
                        buffer.data,
                        pattern.pieces@,
                        buffer.selection.regions[k],
                    ),
            decreases matched@.len() - i,
        {
            let region = buffr_collection.current().selection.regions[i];
            let low = if region.min() < len { region.min() } else { len };
            let high = if region.max() < len { region.max() + 1 } else { len };
            let merged = normalize(&matched[i]);
            let free = gaps(&merged, low, high);
            let list = ranges_to_regions(&free, &region);
            proof {
                assert(region_range(region, len).start == low);
                assert(region_range(region, len).end == high);
                assert forall|x: int| #[trigger] covered(free@, x) <==> low <= x < high && !covered(
                    region_matches(buffer.data, pattern.pieces@, region),
                    x,
                ) by {
                    assert(covered(merged@, x) <==> covered(matched@[i as int]@, x));
                }
            }
            lists.push(list);
            i += 1;
        }
        proof {
            assert(are_splits(
                region_lists(lists@),
                buffer.data,
                pattern.pieces@,
                buffer.selection,
            )) by {
                assert forall|k: int| 0 <= k < lists@.len() implies is_split_of(
                    #[trigger] region_lists(lists@)[k],
                    buffer.data,
                    pattern.pieces@,
                    buffer.selection.regions[k],
                ) by {
                    assert(region_lists(lists@)[k] == lists@[k]@);
                }
            }
        }
        let current_buffer = buffr_collection.current_mut();
        let dirty = current_buffer.replace_selections(&lists);
        ModeTransition::normal_and_dirty(dirty)
    }

    pub fn name(&self) -> (name: String)
        ensures
            name@ == "SPLIT"@,
    {
        "SPLIT".to_owned()
    }

    /// Chooses the kind of search to split by.
    pub fn transition(&self, event: &Event, _buffr_collection: &mut BuffrCollection, _bytes_per_line: usize) -> (result: Option<ModeTransition>)
        ensures
            self.transitioned(
                *event,
                *old(_buffr_collection),
                *final(_buffr_collection),
                result,
            ),
    {
        match event {
            Event::Key(key) => match key.chord() {
                Chord::Plain(KeyCode::Char('/')) | Chord::Plain(KeyCode::Char('s')) => Some(
                    ModeTransition::NewMode(Mode::Search(Search::new(Acceptor::Split, false))),
                ),
                Chord::Plain(KeyCode::Char('?')) | Chord::Plain(KeyCode::Char('S')) => Some(
                    ModeTransition::NewMode(Mode::Search(Search::new(Acceptor::Split, true))),
                ),
                _ => Some(ModeTransition::normal()),
            },
            _ => None,
        }
    }
}

} // verus!

//! The mode in which the editor ends.

use vstd::prelude::*;
use crate::current_buffer::BuffrCollection;
use crate::keymap::Event;
use crate::modes::mode::ModeTransition;

verus! {

/// The editor is about to end: no event is taken any more.
#[derive(Clone, Copy, Debug, PartialEq, Eq, Structural)]
pub struct Quitting {}

impl Quitting {
    pub fn name(&self) -> (name: String)
        ensures
            name@ == "QUITTING"@,
    {
        "QUITTING".to_owned()
    }

    /// Leaves every event to the view.
    pub fn transition(&self, _event: &Event, _buffr_collection: &mut BuffrCollection, _bytes_per_line: usize) -> (result: Option<ModeTransition>)
        ensures
            *final(_buffr_collection) == *old(_buffr_collection),
            result is None,
    {
        None
    }
}

} // verus!

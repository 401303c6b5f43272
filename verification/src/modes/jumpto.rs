//! The mode that takes one direction and sends every region to the
//! boundary that lies there.

use vstd::prelude::*;
use crate::current_buffer::BuffrCollection;
use crate::current_buffer::changes_between;
use crate::keymap::{Chord, Event, KeyCode};
use crate::modes::mode::{current_became, is_normal, to_normal, ModeTransition};
use crate::selection::{Direction, RegionOp};

verus! {

/// Waiting for a direction. With `extend` only the carets go.
#[derive(Debug, PartialEq, Eq, Clone, Copy, Structural)]
pub struct JumpTo {
    pub extend: bool,
}

/// The direction that a key stands for.
pub open spec fn direction_for(chord: Chord) -> Option<Direction> {
    match chord {
        Chord::Plain(KeyCode::Left) => Some(Direction::Left),
        Chord::Plain(KeyCode::Down) => Some(Direction::Down),
        Chord::Plain(KeyCode::Up) => Some(Direction::Up),
        Chord::Plain(KeyCode::Right) => Some(Direction::Right),
        Chord::Plain(KeyCode::Char(c)) => if c == 'h' {
            Some(Direction::Left)
        } else if c == 'j' {
            Some(Direction::Down)
        } else if c == 'k' {
            Some(Direction::Up)
        } else if c == 'l' {
            Some(Direction::Right)
        } else {
            None
        },
        _ => None,
    }
}

/// The direction that a key stands for.
pub fn default_maps(chord: Chord) -> (direction: Option<Direction>)
    ensures
        direction == direction_for(chord),
{
    match chord {
        Chord::Plain(KeyCode::Left) => Some(Direction::Left),
        Chord::Plain(KeyCode::Down) => Some(Direction::Down),
        Chord::Plain(KeyCode::Up) => Some(Direction::Up),
        Chord::Plain(KeyCode::Right) => Some(Direction::Right),
        Chord::Plain(KeyCode::Char('h')) => Some(Direction::Left),
        Chord::Plain(KeyCode::Char('j')) => Some(Direction::Down),
        Chord::Plain(KeyCode::Char('k')) => Some(Direction::Up),
        Chord::Plain(KeyCode::Char('l')) => Some(Direction::Right),
        _ => None,
    }
}

impl JumpTo {
    pub open spec fn spec_name(self) -> Seq<char> {
        if self.extend {
            "EXTEND"@
        } else {
            "JUMP"@
        }
    }

    /// The change that a direction asks for.
    pub open spec fn op(self, direction: Direction) -> RegionOp {
        if self.extend {
            RegionOp::ExtendToBoundary(direction)
        } else {
            RegionOp::JumpToBoundary(direction)
        }
    }

    /// A direction sends every region of the current buffer to its boundary
    /// and normal mode takes over; any other key only lets normal mode take
    /// over; what is no key is left to the view.
    pub open spec fn transitioned(self, event: Event, before: BuffrCollection, after: BuffrCollection, result: Option<ModeTransition>, bytes_per_line: usize) -> bool {
        match event {
            Event::Key(key) => match direction_for(key.chord()) {
                Some(direction) => {
                    &&& current_became(
                        before,
                        after,
                        before.spec_current()@.with_regions(self.op(direction), bytes_per_line),
                    )
                    &&& result matches Some(ModeTransition::ModeAndDirtyBytes(mode, dirty))
                    &&& is_normal(mode)
                    &&& changes_between(
                        before.spec_current()@.selection,
                        after.spec_current()@.selection,
                        dirty,
                    )
                },
                None => after == before && (result matches Some(t) && to_normal(t)),
            },
            _ => after == before && result is None,
        }
    }

    pub fn name(&self) -> (name: String)
        ensures
            name@ == self.spec_name(),
    {
        if self.extend {
            "EXTEND".to_owned()
        } else {
            "JUMP".to_owned()
        }
    }

    /// What the mode makes of an event.
    pub fn transition(&self, evt: &Event, buffr_collection: &mut BuffrCollection, bytes_per_line: usize) -> (result: Option<ModeTransition>)
        requires
            old(buffr_collection).wf(),
        ensures
            final(buffr_collection).wf(),
            self.transitioned(
                *evt,
                *old(buffr_collection),
                *final(buffr_collection),
                result,
                bytes_per_line,
            ),
    {
        match evt {
            Event::Key(key) => match default_maps(key.chord()) {
                Some(direction) => {
                    let op = if self.extend {
                        RegionOp::ExtendToBoundary(direction)
                    } else {
                        RegionOp::JumpToBoundary(direction)
                    };
                    let current_buffer = buffr_collection.current_mut();
                    let dirty = current_buffer.map_regions(op, bytes_per_line);
                    Some(ModeTransition::normal_and_dirty(dirty))
                },
                None => Some(ModeTransition::normal()),
            },
            _ => None,
        }
    }
}

} // verus!

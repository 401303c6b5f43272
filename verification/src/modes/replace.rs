//! The mode that takes one byte and writes it over the byte under each caret.

use vstd::prelude::*;
use crate::current_buffer::BuffrCollection;
use crate::delta::DeltaView;
use crate::keymap::{Chord, Event, KeyCode};
use crate::modes::insert::byte_of_digits;
use crate::modes::mode::{current_became, to_normal, to_normal_redrawn, Mode, ModeTransition};
use crate::modes::search::{byte_of, typed_byte};
use crate::operations::{is_rewrite, replace, under_carets};
use crate::text::{hex_digit, hex_value};

verus! {

/// Waiting for the byte to write: one character, or in hex two digits, of
/// which `hex_half` holds the first while the second is still to come.
#[derive(Debug, PartialEq, Eq, Clone, Copy, Structural)]
pub struct Replace {
    pub hex: bool,
    pub hex_half: Option<u8>,
}

/// What a character makes of the mode.
pub enum Typed {
    /// The byte to write is complete.
    Byte(u8),
    /// The first digit of the byte.
    Half(u8),
    /// Nothing that can be written.
    Nothing,
}

impl Replace {
    pub open spec fn spec_name(self) -> Seq<char> {
        if self.hex {
            "REPLACE (hex)"@
        } else {
            "REPLACE"@
        }
    }

    /// What the character `c` makes of the mode.
    pub open spec fn typing(self, c: char) -> Typed {
        if !self.hex {
            match typed_byte(c) {
                Some(byte) => Typed::Byte(byte),
                None => Typed::Nothing,
            }
        } else {
            match hex_value(c) {
                Some(digit) => match self.hex_half {
                    None => Typed::Half(digit),
                    Some(high) => Typed::Byte(byte_of_digits(high, digit)),
                },
                None => Typed::Nothing,
            }
        }
    }

    /// A character that completes a byte has it written over the byte
    /// under each caret of the current buffer, as a step of the history, and
    /// normal mode takes over. The first of two digits is kept. Any other
    /// key lets normal mode take over. What is no key is left to the view.
    pub open spec fn transitioned(self, event: Event, before: BuffrCollection, after: BuffrCollection, result: Option<ModeTransition>) -> bool {
        let buffer = before.spec_current()@;
        let len = buffer.data.len() as usize;
        match event {
            Event::Key(key) => match key.chord() {
                Chord::Plain(KeyCode::Char(c)) => match self.typing(c) {
                    Typed::Byte(byte) => {
                        &&& result matches Some(t)
                        &&& to_normal_redrawn(t)
                        &&& exists|delta: DeltaView|
                            is_rewrite(
                                delta,
                                under_carets(buffer.selection, len),
                                Some(byte),
                                len as nat,
                            ) && current_became(
                                before,
                                after,
                                #[trigger] buffer.applied(delta, true, 0, 0),
                            )
                    },
                    Typed::Half(digit) => {
                        &&& after == before
                        &&& result matches Some(ModeTransition::NewMode(Mode::Replace(mode)))
                        &&& mode == (Replace { hex: self.hex, hex_half: Some(digit) })
                    },
                    Typed::Nothing => after == before && (result matches Some(t) && to_normal(t)),
                },
                _ => after == before && (result matches Some(t) && to_normal(t)),
            },
            _ => after == before && result is None,
        }
    }

    pub fn name(&self) -> (name: String)
        ensures
            name@ == self.spec_name(),
    {
        if self.hex {
            "REPLACE (hex)".to_owned()
        } else {
            "REPLACE".to_owned()
        }
    }

    /// Writes `byte` over the byte under each caret of the current buffer.
    fn write(buffr_collection: &mut BuffrCollection, byte: u8) -> (transition: ModeTransition)
        requires
            old(buffr_collection).wf(),
        ensures
            final(buffr_collection).wf(),
            to_normal_redrawn(transition),
            exists|delta: DeltaView|
                is_rewrite(
                    delta,
                    under_carets(
                        old(buffr_collection).spec_current()@.selection,
                        old(buffr_collection).spec_current()@.data.len() as usize,
                    ),
                    Some(byte),
                    old(buffr_collection).spec_current()@.data.len(),
                ) && current_became(
                    *old(buffr_collection),
                    *final(buffr_collection),
                    #[trigger] old(buffr_collection).spec_current()@.applied(delta, true, 0, 0),
                ),
    {
        let current_buffer = buffr_collection.current_mut();
        let ghost before = current_buffer@;
        let delta = replace(&current_buffer.data, &current_buffer.selection, byte);
        let ghost view = delta@;
        match current_buffer.apply_delta(delta) {
            Ok(dirty) => {
                assert(current_buffer@ == before.applied(view, true, 0, 0));
                ModeTransition::normal_and_dirty(dirty)
            },
            Err(_) => ModeTransition::normal_and_dirty(
                crate::modes::mode::DirtyBytes::ChangeLength,
            ),
        }
    }

    /// What the mode makes of an event.
    pub fn transition(&self, event: &Event, buffr_collection: &mut BuffrCollection, _bytes_per_line: usize) -> (result: Option<ModeTransition>)
        requires
            old(buffr_collection).wf(),
        ensures
            final(buffr_collection).wf(),
            self.transitioned(*event, *old(buffr_collection), *final(buffr_collection), result),
    {
        let key = match event {
            Event::Key(key) => key,
            _ => {
                return None;
            },
        };
        match key.chord() {
            Chord::Plain(KeyCode::Char(c)) => {
                if !self.hex {
                    match byte_of(c) {
                        Some(byte) => Some(Replace::write(buffr_collection, byte)),
                        None => Some(ModeTransition::normal()),
                    }
                } else {
                    match hex_digit(c) {
                        Some(digit) => match self.hex_half {
                            None => Some(
                                ModeTransition::NewMode(
                                    Mode::Replace(Replace { hex: self.hex, hex_half: Some(digit) }),
                                ),
                            ),
                            Some(high) => Some(
                                Replace::write(buffr_collection, high % 16 * 16 + digit % 16),
                            ),
                        },
                        None => Some(ModeTransition::normal()),
                    }
                }
            },
            _ => Some(ModeTransition::normal()),
        }
    }
}

} // verus!

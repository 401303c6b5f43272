//! The modes in which bytes are typed into the buffer.

use vstd::prelude::*;
use crate::current_buffer::{changes_between, BufferView, BuffrCollection};
use crate::delta::DeltaView;
use crate::keymap::{Chord, Event, KeyCode};
use crate::modes::mode::{current_became, to_normal, DirtyBytes, Mode, ModeTransition};
use crate::modes::search::{byte_of, typed_byte};
use crate::operations::{
    backspace, before_carets, caret_at_end, insert, insert_points, insertion_pieces, is_overwrite,
    is_rewrite, overwrite, total_inserted,
};
use crate::selection::{Direction, RegionOp};
use crate::text::{hex_digit, hex_value};

verus! {

/// Where typed bytes go.
#[derive(Debug, PartialEq, Eq, Clone, Copy, Structural)]
pub enum InsertionMode {
    /// Before each region.
    Insert,
    /// Behind each region.
    Append,
    /// Over the byte under each caret.
    Overwrite,
}

/// The mode in which bytes are typed: as characters, or in hex as two
/// digits each. While the second digit of a byte is still to come,
/// `hex_half` holds the first one, for all the carets alike.
#[derive(Debug, PartialEq, Eq, Clone, Copy, Structural)]
pub struct Insert {
    pub hex: bool,
    pub mode: InsertionMode,
    pub hex_half: Option<u8>,
}

/// The byte that two hex digits make.
pub open spec fn byte_of_digits(high: u8, low: u8) -> u8 {
    (high % 16 * 16 + low % 16) as u8
}

/// What typing one byte does to a buffer and by how much the regions follow.
pub enum Typing {
    /// The byte is inserted at each caret.
    Inserted(u8, int),
    /// The byte is written over the byte under each caret.
    Written(u8, int),
}

impl Insert {
    pub open spec fn spec_name(self) -> Seq<char> {
        match self.mode {
            InsertionMode::Insert => if self.hex {
                "INSERT (hex)"@
            } else {
                "INSERT"@
            },
            InsertionMode::Append => if self.hex {
                "APPEND (hex)"@
            } else {
                "APPEND"@
            },
            InsertionMode::Overwrite => if self.hex {
                "OVERWRITE (hex)"@
            } else {
                "OVERWRITE"@
            },
        }
    }

    /// What the character `c` types, and the half byte that is pending after
    /// it. `None` where the character types nothing.
    pub open spec fn typing(self, c: char) -> Option<(Typing, Option<u8>)> {
        if !self.hex {
            match typed_byte(c) {
                Some(byte) => Some(
                    (
                        if self.mode is Overwrite {
                            Typing::Written(byte, 1)
                        } else {
                            Typing::Inserted(byte, 1)
                        },
                        None,
                    ),
                ),
                None => None,
            }
        } else {
            match hex_value(c) {
                Some(digit) => match self.hex_half {
                    None => Some(
                        (
                            if self.mode is Overwrite {
                                Typing::Written(byte_of_digits(digit, 0), 0)
                            } else {
                                Typing::Inserted(byte_of_digits(digit, 0), 0)
                            },
                            Some(digit),
                        ),
                    ),
                    Some(half) => Some((Typing::Written(byte_of_digits(half, digit), 1), None)),
                },
                None => None,
            }
        }
    }

    /// Whether `after` is `before` with the typing made as a part of the
    /// pending step of the history, or `before` itself where the buffer
    /// cannot grow any more.
    pub open spec fn typed(typing: Typing, before: BufferView, after: BufferView, done: bool) -> bool {
        let len = before.data.len() as usize;
        match typing {
            Typing::Inserted(byte, shift) => {
                let points = insert_points(before.selection, seq![byte], len);
                if len + total_inserted(points) <= usize::MAX {
                    done && after == before.applied(
                        DeltaView {
                            pieces: insertion_pieces(points, len as int),
                            base_len: len as nat,
                        },
                        false,
                        shift,
                        shift,
                    )
                } else {
                    !done && after == before
                }
            },
            Typing::Written(byte, shift) => {
                if caret_at_end(before.selection, len) && len == usize::MAX {
                    !done && after == before
                } else {
                    done && exists|delta: DeltaView|
                        is_overwrite(delta, before.selection, byte, len) && after
                            == #[trigger] before.applied(delta, false, shift, shift)
                }
            },
        }
    }

    /// Escape and enter make the pending step a step of the history and
    /// let normal mode take over. Backspace forgets a pending half byte;
    /// without one it removes the byte before each caret, or, when
    /// overwriting, steps back. A character types its byte. Anything else is
    /// left to the view.
    pub open spec fn transitioned(self, event: Event, before: BuffrCollection, after: BuffrCollection, result: Option<ModeTransition>) -> bool {
        let buffer = before.spec_current()@;
        let len = buffer.data.len() as usize;
        match event {
            Event::Key(key) => match key.chord() {
                Chord::Plain(KeyCode::Esc) | Chord::Plain(KeyCode::Enter) => {
                    &&& current_became(before, after, buffer.committed())
                    &&& result matches Some(t)
                    &&& to_normal(t)
                },
                Chord::Plain(KeyCode::Backspace) => if self.hex_half is Some {
                    &&& after == before
                    &&& result matches Some(ModeTransition::NewMode(Mode::Insert(mode)))
                    &&& mode == (Insert { hex_half: None, ..self })
                } else if self.mode is Overwrite {
                    &&& current_became(
                        before,
                        after,
                        buffer.with_regions(RegionOp::Move(Direction::Left, 1), 1),
                    )
                    &&& result matches Some(ModeTransition::DirtyBytes(dirty))
                    &&& changes_between(buffer.selection, after.spec_current()@.selection, dirty)
                } else {
                    &&& result matches Some(ModeTransition::DirtyBytes(dirty))
                    &&& dirty is ChangeLength
                    &&& exists|delta: DeltaView|
                        is_rewrite(delta, before_carets(buffer.selection, len), None, len as nat)
                            && current_became(
                            before,
                            after,
                            #[trigger] buffer.applied(delta, false, 0, 0),
                        )
                },
                Chord::Plain(KeyCode::Char(c)) => match self.typing(c) {
                    Some((typing, half)) => {
                        &&& current_became(before, after, after.spec_current()@)
                        &&& exists|done: bool|
                            {
                                &&& #[trigger] Insert::typed(
                                    typing,
                                    buffer,
                                    after.spec_current()@,
                                    done,
                                )
                                &&& if !done {
                                    result matches Some(ModeTransition::Unchanged)
                                } else if self.hex {
                                    result matches Some(
                                        ModeTransition::ModeAndDirtyBytes(Mode::Insert(mode), dirty),
                                    ) && mode == (Insert { hex_half: half, ..self })
                                        && dirty is ChangeLength
                                } else {
                                    result matches Some(ModeTransition::DirtyBytes(dirty))
                                        && dirty is ChangeLength
                                }
                            }
                    },
                    None => after == before && (result matches Some(ModeTransition::Unchanged)),
                },
                _ => after == before && result is None,
            },
            _ => after == before && result is None,
        }
    }

    pub fn name(&self) -> (name: String)
        ensures
            name@ == self.spec_name(),
    {
        match self.mode {
            InsertionMode::Insert => if self.hex {
                "INSERT (hex)".to_owned()
            } else {
                "INSERT".to_owned()
            },
            InsertionMode::Append => if self.hex {
                "APPEND (hex)".to_owned()
            } else {
                "APPEND".to_owned()
            },
            InsertionMode::Overwrite => if self.hex {
                "OVERWRITE (hex)".to_owned()
            } else {
                "OVERWRITE".to_owned()
            },
        }
    }

    /// Types `byte` into the current buffer: over the byte under each caret
    /// if `write_over` is set, before it otherwise. The regions follow by
    /// `shift`.
    fn type_byte(buffr_collection: &mut BuffrCollection, byte: u8, write_over: bool, shift: isize) -> (dirty: Option<DirtyBytes>)
        requires
            old(buffr_collection).wf(),
        ensures
            final(buffr_collection).wf(),
            current_became(
                *old(buffr_collection),
                *final(buffr_collection),
                final(buffr_collection).spec_current()@,
            ),
            Insert::typed(
                if write_over {
                    Typing::Written(byte, shift as int)
                } else {
                    Typing::Inserted(byte, shift as int)
                },
                old(buffr_collection).spec_current()@,
                final(buffr_collection).spec_current()@,
                dirty is Some,
            ),
            dirty matches Some(d) ==> d is ChangeLength,
    {
        let current_buffer = buffr_collection.current_mut();
        let ghost before = current_buffer@;
        let delta = if write_over {
            overwrite(&current_buffer.data, &current_buffer.selection, byte)
        } else {
            let mut bytes: Vec<u8> = Vec::new();
            bytes.push(byte);
            assert(bytes@ =~= seq![byte]);
            insert(&current_buffer.data, &current_buffer.selection, &bytes)
        };
        match delta {
            Some(delta) => {
                let ghost view = delta@;
                match current_buffer.apply_incomplete_delta_offset_carets(delta, shift, shift) {
                    Ok(dirty) => {
                        assert(current_buffer@ == before.applied(
                            view,
                            false,
                            shift as int,
                            shift as int,
                        ));
                        Some(dirty)
                    },
                    Err(_) => None,
                }
            },
            None => None,
        }
    }

    /// What the mode makes of an event.
    pub fn transition(&self, event: &Event, buffr_collection: &mut BuffrCollection, _bytes_per_line: usize) -> (result: Option<ModeTransition>)
        requires
            old(buffr_collection).wf(),
        ensures
            final(buffr_collection).wf(),
            self.transitioned(*event, *old(buffr_collection), *final(buffr_collection), result),
    {
        let key = match event {
            Event::Key(key) => key,
            _ => {
                return None;
            },
        };
        match key.chord() {
            Chord::Plain(KeyCode::Esc) | Chord::Plain(KeyCode::Enter) => {
                let current_buffer = buffr_collection.current_mut();
                current_buffer.commit_delta();
                Some(ModeTransition::normal())
            },
            Chord::Plain(KeyCode::Backspace) => {
                if self.hex_half.is_some() {
                    Some(
                        ModeTransition::NewMode(
                            Mode::Insert(Insert { hex: self.hex, mode: self.mode, hex_half: None }),
                        ),
                    )
                } else {
                    let current_buffer = buffr_collection.current_mut();
                    let ghost before = current_buffer@;
                    match self.mode {
                        InsertionMode::Overwrite => Some(
                            ModeTransition::DirtyBytes(
                                current_buffer.map_regions(RegionOp::Move(Direction::Left, 1), 1),
                            ),
                        ),
                        _ => {
                            let delta = backspace(&current_buffer.data, &current_buffer.selection);
                            let ghost view = delta@;
                            match current_buffer.apply_incomplete_delta(delta) {
                                Ok(dirty) => {
                                    assert(current_buffer@ == before.applied(view, false, 0, 0));
                                    Some(ModeTransition::DirtyBytes(dirty))
                                },
                                Err(_) => Some(ModeTransition::Unchanged),
                            }
                        },
                    }
                }
            },
            Chord::Plain(KeyCode::Char(c)) => {
                let write_over = match self.mode {
                    InsertionMode::Overwrite => true,
                    _ => false,
                };
                if !self.hex {
                    match byte_of(c) {
                        Some(byte) => match Insert::type_byte(
                            buffr_collection,
                            byte,
                            write_over,
                            1,
                        ) {
                            Some(dirty) => Some(ModeTransition::DirtyBytes(dirty)),
                            None => Some(ModeTransition::Unchanged),
                        },
                        None => Some(ModeTransition::Unchanged),
                    }
                } else {
                    match hex_digit(c) {
                        Some(digit) => {
                            let (byte, over, shift, half) = match self.hex_half {
                                None => (digit % 16 * 16, write_over, 0isize, Some(digit)),
                                Some(high) => (high % 16 * 16 + digit % 16, true, 1isize, None),
                            };
                            match Insert::type_byte(buffr_collection, byte, over, shift) {
                                Some(dirty) => Some(
                                    ModeTransition::ModeAndDirtyBytes(
                                        Mode::Insert(
                                            Insert { hex: self.hex, mode: self.mode, hex_half: half },
                                        ),
                                        dirty,
                                    ),
                                ),
                                None => Some(ModeTransition::Unchanged),
                            }
                        },
                        None => Some(ModeTransition::Unchanged),
                    }
                }
            },
            _ => None,
        }
    }
}

} // verus!

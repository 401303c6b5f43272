//! The modes as one type, and what a mode hands back to the view after an
//! event.

use vstd::prelude::*;
use vstd::string::StringExecFns;
use crate::byte_range::ByteRange;
use crate::cmd_count::State;
use crate::current_buffer::{BufferView, BuffrCollection};
use crate::keymap::Event;
use crate::modes::collapse::Collapse;
use crate::modes::command::Command;
use crate::modes::insert::Insert;
use crate::modes::jumpto::JumpTo;
use crate::modes::normal::Normal;
use crate::modes::quitting::Quitting;
use crate::modes::replace::Replace;
use crate::modes::search::Search;
use crate::modes::split::Split;

verus! {

/// The bytes that have to be drawn again.
#[derive(Debug)]
pub enum DirtyBytes {
    /// Only the bytes in these ranges.
    ChangeInPlace(Vec<ByteRange>),
    /// All of them: the buffer may have another length.
    ChangeLength,
}

/// Work on files that a command asks of the view. When the work is done the
/// view calls the function of the command module that takes its outcome.
#[derive(Debug)]
pub enum CommandRequest {
    /// Write the bytes of the current buffer to this path.
    Write(String),
    /// Write the bytes of every buffer that has a path to its path.
    WriteAll,
    /// The same, and quit if all went well.
    WriteQuit,
    /// Make the buffer of this file the current one, and open it if it is
    /// not open yet.
    Edit(String),
}

/// One of the modes, with what it keeps.
#[derive(Debug)]
pub enum Mode {
    Normal(Normal),
    JumpTo(JumpTo),
    Split(Split),
    Collapse(Collapse),
    Search(Search),
    Insert(Insert),
    Replace(Replace),
    Command(Command),
    Quitting(Quitting),
}

/// What a mode has made of an event.
#[derive(Debug)]
pub enum ModeTransition {
    /// Nothing has changed.
    Unchanged,
    /// Another mode takes over.
    NewMode(Mode),
    /// The buffer has changed.
    DirtyBytes(DirtyBytes),
    /// Another mode takes over and the buffer has changed.
    ModeAndDirtyBytes(Mode, DirtyBytes),
    /// Another mode takes over and the status line shows a message.
    ModeAndInfo(Mode, String),
    /// The view has work to do on files.
    Request(CommandRequest),
}

/// Normal mode with no count typed.
pub open spec fn is_normal(mode: Mode) -> bool {
    mode == Mode::Normal(Normal { count_state: State::Idle })
}

/// Normal mode takes over and nothing else happens.
pub open spec fn to_normal(transition: ModeTransition) -> bool {
    transition matches ModeTransition::NewMode(mode) && is_normal(mode)
}

/// Normal mode takes over and the status line shows `text`.
pub open spec fn to_normal_with_info(transition: ModeTransition, text: Seq<char>) -> bool {
    transition matches ModeTransition::ModeAndInfo(mode, info) && is_normal(mode) && info@ == text
}

/// Normal mode takes over and all the bytes are drawn again.
pub open spec fn to_normal_redrawn(transition: ModeTransition) -> bool {
    transition matches ModeTransition::ModeAndDirtyBytes(mode, dirty) && is_normal(mode)
        && dirty is ChangeLength
}

/// Whether only the current buffer differs in `after`, and is as `view` says.
pub open spec fn current_became(before: BuffrCollection, after: BuffrCollection, view: BufferView) -> bool {
    &&& after.cur_buf_index == before.cur_buf_index
    &&& after.list@.len() == before.list@.len()
    &&& forall|i: int|
        0 <= i < before.list@.len() && i != before.cur_buf_index ==> #[trigger] after.list@[i]
            == before.list@[i]
    &&& after.list@[after.cur_buf_index as int]@ == view
}

impl ModeTransition {
    /// Another mode takes over.
    pub fn new_mode(mode: Mode) -> (transition: ModeTransition)
        ensures
            transition == ModeTransition::NewMode(mode),
    {
        ModeTransition::NewMode(mode)
    }

    /// Another mode takes over and the buffer has changed.
    pub fn new_mode_and_dirty(mode: Mode, dirty: DirtyBytes) -> (transition: ModeTransition)
        ensures
            transition == ModeTransition::ModeAndDirtyBytes(mode, dirty),
    {
        ModeTransition::ModeAndDirtyBytes(mode, dirty)
    }

    /// Another mode takes over and the status line shows a message.
    pub fn new_mode_and_info(mode: Mode, info: String) -> (transition: ModeTransition)
        ensures
            transition == ModeTransition::ModeAndInfo(mode, info),
    {
        ModeTransition::ModeAndInfo(mode, info)
    }

    /// Normal mode takes over.
    pub fn normal() -> (transition: ModeTransition)
        ensures
            to_normal(transition),
    {
        ModeTransition::NewMode(Mode::Normal(Normal::new()))
    }

    /// Normal mode takes over with a message.
    pub fn normal_with_info(info: String) -> (transition: ModeTransition)
        ensures
            to_normal_with_info(transition, info@),
    {
        ModeTransition::ModeAndInfo(Mode::Normal(Normal::new()), info)
    }

    /// Normal mode takes over and the buffer has changed.
    pub fn normal_and_dirty(dirty: DirtyBytes) -> (transition: ModeTransition)
        ensures
            transition matches ModeTransition::ModeAndDirtyBytes(mode, d) && is_normal(mode) && d
                == dirty,
    {
        ModeTransition::ModeAndDirtyBytes(Mode::Normal(Normal::new()), dirty)
    }
}

impl Mode {
    /// What the mode requires of the buffers and makes of them, by the mode
    /// that it is.
    pub open spec fn transitioned(self, event: Event, before: BuffrCollection, after: BuffrCollection, result: Option<ModeTransition>, bytes_per_line: usize) -> bool {
        match self {
            Mode::Normal(mode) => mode.transitioned(event, before, after, result, bytes_per_line),
            Mode::JumpTo(mode) => mode.transitioned(event, before, after, result, bytes_per_line),
            Mode::Split(mode) => mode.transitioned(event, before, after, result),
            Mode::Collapse(mode) => after == before && result is None,
            Mode::Search(mode) => mode.transitioned(event, before, after, result),
            Mode::Insert(mode) => mode.transitioned(event, before, after, result),
            Mode::Replace(mode) => mode.transitioned(event, before, after, result),
            Mode::Command(mode) => mode.transitioned(event, before, after, result),
            Mode::Quitting(mode) => after == before && result is None,
        }
    }

    /// The name that the status line shows.
    pub open spec fn spec_name(self) -> Seq<char> {
        match self {
            Mode::Normal(mode) => mode.spec_name(),
            Mode::JumpTo(mode) => mode.spec_name(),
            Mode::Split(mode) => "SPLIT"@,
            Mode::Collapse(mode) => "COLLAPSE"@,
            Mode::Search(mode) => mode.spec_name(),
            Mode::Insert(mode) => mode.spec_name(),
            Mode::Replace(mode) => mode.spec_name(),
            Mode::Command(mode) => "COMMAND"@,
            Mode::Quitting(mode) => "QUITTING"@,
        }
    }

    /// The name that the status line shows.
    pub fn name(&self) -> (name: String)
        ensures
            name@ == self.spec_name(),
    {
        match self {
            Mode::Normal(mode) => mode.name(),
            Mode::JumpTo(mode) => mode.name(),
            Mode::Split(mode) => mode.name(),
            Mode::Collapse(mode) => mode.name(),
            Mode::Search(mode) => mode.name(),
            Mode::Insert(mode) => mode.name(),
            Mode::Replace(mode) => mode.name(),
            Mode::Command(mode) => mode.name(),
            Mode::Quitting(mode) => mode.name(),
        }
    }

    /// What the mode makes of `event`. `None` where it makes nothing of it
    /// and leaves it to the view.
    pub fn transition(&self, event: &Event, buffr_collection: &mut BuffrCollection, bytes_per_line: usize) -> (result: Option<ModeTransition>)
        requires
            old(buffr_collection).wf(),
        ensures
            final(buffr_collection).wf(),
            self.transitioned(
                *event,
                *old(buffr_collection),
                *final(buffr_collection),
                result,
                bytes_per_line,
            ),
    {
        match self {
            Mode::Normal(mode) => mode.transition(event, buffr_collection, bytes_per_line),
            Mode::JumpTo(mode) => mode.transition(event, buffr_collection, bytes_per_line),
            Mode::Split(mode) => mode.transition(event, buffr_collection, bytes_per_line),
            Mode::Collapse(mode) => mode.transition(event, buffr_collection, bytes_per_line),
            Mode::Search(mode) => mode.transition(event, buffr_collection, bytes_per_line),
            Mode::Insert(mode) => mode.transition(event, buffr_collection, bytes_per_line),
            Mode::Replace(mode) => mode.transition(event, buffr_collection, bytes_per_line),
            Mode::Command(mode) => mode.transition(event, buffr_collection, bytes_per_line),
            Mode::Quitting(mode) => mode.transition(event, buffr_collection, bytes_per_line),
        }
    }

    /// Whether the mode goes on taking events. Only quitting does not.
    pub fn takes_input(&self) -> (takes: bool)
        ensures
            takes == !(*self is Quitting),
    {
        match self {
            Mode::Quitting(_) => false,
            _ => true,
        }
    }

    /// Whether half of a byte has been typed, so that the caret stands on
    /// the second half.
    pub fn has_half_cursor(&self) -> (half: bool)
        ensures
            half == match *self {
                Mode::Insert(mode) => mode.hex_half is Some,
                Mode::Replace(mode) => mode.hex_half is Some,
                _ => false,
            },
    {
        match self {
            Mode::Insert(mode) => mode.hex_half.is_some(),
            Mode::Replace(mode) => mode.hex_half.is_some(),
            _ => false,
        }
    }

    /// Whether the mode shows what is typed on the prompt line.
    pub fn is_prompt(&self) -> (prompt: bool)
        ensures
            prompt == (*self is Search || *self is Command),
    {
        match self {
            Mode::Search(_) => true,
            Mode::Command(_) => true,
            _ => false,
        }
    }
}

} // verus!

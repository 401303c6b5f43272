//! The mode in which keys are commands.

use vstd::prelude::*;
use vstd::string::StringExecFns;
use crate::byte_range::ByteRange;
use crate::cmd_count::{State, Transition};
use crate::current_buffer::{
    changes_between, drawn_ranges, main_changed, BufferView, BuffrCollection,
};
use crate::delta::DeltaView;
use crate::keymap::{Chord, Event, KeyCode};
use crate::modes::command::Command;
use crate::modes::insert::{Insert, InsertionMode};
use crate::modes::jumpto::JumpTo;
use crate::modes::mode::{
    current_became, is_normal, to_normal_redrawn, to_normal_with_info, DirtyBytes, Mode,
    ModeTransition,
};
use crate::modes::replace::Replace;
use crate::modes::search::{Acceptor, Search, SearchView};
use crate::modes::split::Split;
use crate::operations::{
    deletion, insertion_pieces, is_rewrite, paste, paste_points, selected, total_inserted,
};
use crate::selection::{Direction, RegionOp, SelectionView};
use crate::text::{digits, push_number};

verus! {

/// The mode in which keys are commands, with the count typed before the
/// next command.
#[derive(Debug, PartialEq, Eq, Clone, Copy, Structural)]
pub struct Normal {
    pub count_state: State,
}

/// What a key asks for in normal mode.
#[derive(Debug, PartialEq, Eq, Clone, Copy, Structural)]
pub enum Action {
    Move(Direction),
    Extend(Direction),
    SplitMode,
    JumpToMode,
    ExtendToMode,
    CollapseMode { hex: bool },
    CommandMode,
    SwapCaret,
    CollapseSelection,
    Delete { register: char },
    Yank { register: char },
    Paste { after: bool, register: char },
    Change { hex: bool, register: char },
    Insert { hex: bool },
    Append { hex: bool },
    Overwrite { hex: bool },
    RemoveMain,
    RetainMain,
    SelectPrev,
    SelectNext,
    SelectAll,
    ReplaceMode { hex: bool },
    Measure,
    Undo,
    Redo,
}

/// What a key asks for in normal mode.
pub open spec fn action_for(chord: Chord) -> Option<Action> {
    match chord {
        Chord::Plain(KeyCode::Left) => Some(Action::Move(Direction::Left)),
        Chord::Plain(KeyCode::Down) => Some(Action::Move(Direction::Down)),
        Chord::Plain(KeyCode::Up) => Some(Action::Move(Direction::Up)),
        Chord::Plain(KeyCode::Right) => Some(Action::Move(Direction::Right)),
        Chord::Plain(KeyCode::Char('h')) => Some(Action::Move(Direction::Left)),
        Chord::Plain(KeyCode::Char('j')) => Some(Action::Move(Direction::Down)),
        Chord::Plain(KeyCode::Char('k')) => Some(Action::Move(Direction::Up)),
        Chord::Plain(KeyCode::Char('l')) => Some(Action::Move(Direction::Right)),
        Chord::Plain(KeyCode::Char('H')) => Some(Action::Extend(Direction::Left)),
        Chord::Plain(KeyCode::Char('J')) => Some(Action::Extend(Direction::Down)),
        Chord::Plain(KeyCode::Char('K')) => Some(Action::Extend(Direction::Up)),
        Chord::Plain(KeyCode::Char('L')) => Some(Action::Extend(Direction::Right)),
        Chord::Plain(KeyCode::Char('g')) => Some(Action::JumpToMode),
        Chord::Plain(KeyCode::Char('G')) => Some(Action::ExtendToMode),
        Chord::Alt(KeyCode::Char('s')) => Some(Action::SplitMode),
        Chord::Plain(KeyCode::Char(':')) => Some(Action::CommandMode),
        Chord::Plain(KeyCode::Char(';')) => Some(Action::CollapseSelection),
        Chord::Alt(KeyCode::Char(';')) => Some(Action::SwapCaret),
        Chord::Plain(KeyCode::Char('%')) => Some(Action::SelectAll),
        Chord::Plain(KeyCode::Char(' ')) => Some(Action::RetainMain),
        Chord::Alt(KeyCode::Char(' ')) => Some(Action::RemoveMain),
        Chord::Plain(KeyCode::Char('(')) => Some(Action::SelectPrev),
        Chord::Plain(KeyCode::Char(')')) => Some(Action::SelectNext),
        Chord::Plain(KeyCode::Char('M')) => Some(Action::Measure),
        Chord::Plain(KeyCode::Char('u')) => Some(Action::Undo),
        Chord::Plain(KeyCode::Char('U')) => Some(Action::Redo),
        Chord::Plain(KeyCode::Char('p')) => Some(Action::Paste { after: true, register: '"' }),
        Chord::Plain(KeyCode::Char('P')) => Some(Action::Paste { after: false, register: '"' }),
        Chord::Plain(KeyCode::Char('d')) => Some(Action::Delete { register: '"' }),
        Chord::Plain(KeyCode::Char('y')) => Some(Action::Yank { register: '"' }),
        Chord::Plain(KeyCode::Char('c')) => Some(Action::Change { hex: false, register: '"' }),
        Chord::Plain(KeyCode::Char('C')) => Some(Action::Change { hex: true, register: '"' }),
        Chord::Plain(KeyCode::Char('i')) => Some(Action::Insert { hex: false }),
        Chord::Plain(KeyCode::Char('I')) => Some(Action::Insert { hex: true }),
        Chord::Plain(KeyCode::Char('a')) => Some(Action::Append { hex: false }),
        Chord::Plain(KeyCode::Char('A')) => Some(Action::Append { hex: true }),
        Chord::Plain(KeyCode::Char('r')) => Some(Action::ReplaceMode { hex: false }),
        Chord::Plain(KeyCode::Char('R')) => Some(Action::ReplaceMode { hex: true }),
        Chord::Plain(KeyCode::Char('o')) => Some(Action::Overwrite { hex: false }),
        Chord::Plain(KeyCode::Char('O')) => Some(Action::Overwrite { hex: true }),
        Chord::Plain(KeyCode::Char('s')) => Some(Action::CollapseMode { hex: false }),
        Chord::Plain(KeyCode::Char('S')) => Some(Action::CollapseMode { hex: true }),
        _ => None,
    }
}

/// What a key asks for in normal mode.
pub fn default_maps(chord: Chord) -> (action: Option<Action>)
    ensures
        action == action_for(chord),
{
    match chord {
        Chord::Plain(KeyCode::Left) => Some(Action::Move(Direction::Left)),
        Chord::Plain(KeyCode::Down) => Some(Action::Move(Direction::Down)),
        Chord::Plain(KeyCode::Up) => Some(Action::Move(Direction::Up)),
        Chord::Plain(KeyCode::Right) => Some(Action::Move(Direction::Right)),
        Chord::Plain(KeyCode::Char('h')) => Some(Action::Move(Direction::Left)),
        Chord::Plain(KeyCode::Char('j')) => Some(Action::Move(Direction::Down)),
        Chord::Plain(KeyCode::Char('k')) => Some(Action::Move(Direction::Up)),
        Chord::Plain(KeyCode::Char('l')) => Some(Action::Move(Direction::Right)),
        Chord::Plain(KeyCode::Char('H')) => Some(Action::Extend(Direction::Left)),
        Chord::Plain(KeyCode::Char('J')) => Some(Action::Extend(Direction::Down)),
        Chord::Plain(KeyCode::Char('K')) => Some(Action::Extend(Direction::Up)),
        Chord::Plain(KeyCode::Char('L')) => Some(Action::Extend(Direction::Right)),
        Chord::Plain(KeyCode::Char('g')) => Some(Action::JumpToMode),
        Chord::Plain(KeyCode::Char('G')) => Some(Action::ExtendToMode),
        Chord::Alt(KeyCode::Char('s')) => Some(Action::SplitMode),
        Chord::Plain(KeyCode::Char(':')) => Some(Action::CommandMode),
        Chord::Plain(KeyCode::Char(';')) => Some(Action::CollapseSelection),
        Chord::Alt(KeyCode::Char(';')) => Some(Action::SwapCaret),
        Chord::Plain(KeyCode::Char('%')) => Some(Action::SelectAll),
        Chord::Plain(KeyCode::Char(' ')) => Some(Action::RetainMain),
        Chord::Alt(KeyCode::Char(' ')) => Some(Action::RemoveMain),
        Chord::Plain(KeyCode::Char('(')) => Some(Action::SelectPrev),
        Chord::Plain(KeyCode::Char(')')) => Some(Action::SelectNext),
        Chord::Plain(KeyCode::Char('M')) => Some(Action::Measure),
        Chord::Plain(KeyCode::Char('u')) => Some(Action::Undo),
        Chord::Plain(KeyCode::Char('U')) => Some(Action::Redo),
        Chord::Plain(KeyCode::Char('p')) => Some(Action::Paste { after: true, register: '"' }),
        Chord::Plain(KeyCode::Char('P')) => Some(Action::Paste { after: false, register: '"' }),
        Chord::Plain(KeyCode::Char('d')) => Some(Action::Delete { register: '"' }),
        Chord::Plain(KeyCode::Char('y')) => Some(Action::Yank { register: '"' }),
        Chord::Plain(KeyCode::Char('c')) => Some(Action::Change { hex: false, register: '"' }),
        Chord::Plain(KeyCode::Char('C')) => Some(Action::Change { hex: true, register: '"' }),
        Chord::Plain(KeyCode::Char('i')) => Some(Action::Insert { hex: false }),
        Chord::Plain(KeyCode::Char('I')) => Some(Action::Insert { hex: true }),
        Chord::Plain(KeyCode::Char('a')) => Some(Action::Append { hex: false }),
        Chord::Plain(KeyCode::Char('A')) => Some(Action::Append { hex: true }),
        Chord::Plain(KeyCode::Char('r')) => Some(Action::ReplaceMode { hex: false }),
        Chord::Plain(KeyCode::Char('R')) => Some(Action::ReplaceMode { hex: true }),
        Chord::Plain(KeyCode::Char('o')) => Some(Action::Overwrite { hex: false }),
        Chord::Plain(KeyCode::Char('O')) => Some(Action::Overwrite { hex: true }),
        Chord::Plain(KeyCode::Char('s')) => Some(Action::CollapseMode { hex: false }),
        Chord::Plain(KeyCode::Char('S')) => Some(Action::CollapseMode { hex: true }),
        _ => None,
    }
}

/// The message that tells the length `n` of a region.
pub open spec fn measure_text(n: usize) -> Seq<char> {
    digits(n as nat, 10) + " = 0x"@ + digits(n as nat, 16) + " bytes"@
}

/// Where in the buffer the offset `offset` of the file lies: at the start of
/// the buffer if it lies before it.
pub open spec fn local_offset(buffer: BufferView, offset: usize) -> usize {
    if offset >= buffer.data_start_offset {
        (offset - buffer.data_start_offset) as usize
    } else {
        0
    }
}

/// Whether the regions of `before` were changed by `op` to give `after`,
/// and `transition` says what is to be drawn again, with normal mode taking
/// over if `reset` is set.
pub open spec fn regions_moved(before: BufferView, after: BufferView, transition: ModeTransition, op: RegionOp, bytes_per_line: usize, reset: bool) -> bool {
    &&& after == before.with_regions(op, bytes_per_line)
    &&& if reset {
        transition matches ModeTransition::ModeAndDirtyBytes(mode, dirty) && is_normal(mode)
            && changes_between(before.selection, after.selection, dirty)
    } else {
        transition matches ModeTransition::DirtyBytes(dirty) && changes_between(
            before.selection,
            after.selection,
            dirty,
        )
    }
}

/// Whether `transition` says that the regions of `before` are to be drawn
/// again, with normal mode taking over if `reset` is set.
pub open spec fn region_dropped(reset: bool, before: BufferView, transition: ModeTransition) -> bool {
    if reset {
        &&& transition matches ModeTransition::ModeAndDirtyBytes(mode, dirty)
        &&& is_normal(mode)
        &&& dirty matches DirtyBytes::ChangeInPlace(ranges)
        &&& ranges@ == drawn_ranges(before.selection)
    } else {
        &&& transition matches ModeTransition::DirtyBytes(dirty)
        &&& dirty matches DirtyBytes::ChangeInPlace(ranges)
        &&& ranges@ == drawn_ranges(before.selection)
    }
}

/// Whether `transition` hands over to insert mode as `mode` says, with all
/// the bytes to be drawn again if `redraw` is set.
pub open spec fn to_insert(transition: ModeTransition, mode: Insert, redraw: bool) -> bool {
    if redraw {
        transition matches ModeTransition::ModeAndDirtyBytes(Mode::Insert(m), dirty) && m == mode
            && dirty is ChangeLength
    } else {
        transition matches ModeTransition::NewMode(Mode::Insert(m)) && m == mode
    }
}

impl Normal {
    pub open spec fn spec_new() -> Normal {
        Normal { count_state: State::Idle }
    }

    pub open spec fn spec_name(self) -> Seq<char> {
        "NORMAL"@ + self.count_state.shown()
    }

    /// The place of the region that a command on one region is about: the
    /// one before the count, the main one where the count is nought or
    /// was not typed.
    pub open spec fn chosen(self, selection: SelectionView) -> int {
        match self.count_state {
            State::Counting { count } => if count > 0 {
                (count - 1) % (selection.regions.len() as int)
            } else {
                selection.main_selection % (selection.regions.len() as int)
            },
            State::Idle => selection.main_selection % (selection.regions.len() as int),
        }
    }

    /// Whether a count was typed that names a region.
    pub open spec fn counted(self) -> bool {
        self.count_state matches State::Counting { count } && count > 0
    }

    /// What `action` makes of the current buffer, and what it hands back.
    pub open spec fn performed(self, action: Action, before: BufferView, after: BufferView, transition: ModeTransition, bytes_per_line: usize) -> bool {
        let count = self.count_state.to_count();
        let len = before.data.len() as usize;
        match action {
            Action::Move(direction) => regions_moved(
                before,
                after,
                transition,
                RegionOp::Move(direction, count),
                bytes_per_line,
                true,
            ),
            Action::Extend(direction) => regions_moved(
                before,
                after,
                transition,
                RegionOp::Extend(direction, count),
                bytes_per_line,
                true,
            ),
            Action::SwapCaret => regions_moved(
                before,
                after,
                transition,
                RegionOp::SwapCaret,
                bytes_per_line,
                false,
            ),
            Action::CollapseSelection => regions_moved(
                before,
                after,
                transition,
                RegionOp::Collapse,
                bytes_per_line,
                false,
            ),
            Action::JumpToMode => match self.count_state {
                State::Idle => after == before && (transition matches ModeTransition::NewMode(
                    Mode::JumpTo(mode),
                ) && !mode.extend),
                State::Counting { count: offset } => regions_moved(
                    before,
                    after,
                    transition,
                    RegionOp::JumpTo(local_offset(before, offset)),
                    bytes_per_line,
                    true,
                ),
            },
            Action::ExtendToMode => match self.count_state {
                State::Idle => after == before && (transition matches ModeTransition::NewMode(
                    Mode::JumpTo(mode),
                ) && mode.extend),
                State::Counting { count: offset } => regions_moved(
                    before,
                    after,
                    transition,
                    RegionOp::ExtendTo(local_offset(before, offset)),
                    bytes_per_line,
                    true,
                ),
            },
            Action::SplitMode => after == before && (transition matches ModeTransition::NewMode(
                Mode::Split(mode),
            )),
            Action::Insert { hex } => {
                &&& after == before.with_regions(RegionOp::ToBackward, bytes_per_line)
                &&& transition matches ModeTransition::ModeAndDirtyBytes(Mode::Insert(mode), dirty)
                &&& mode == (Insert { hex, mode: InsertionMode::Insert, hex_half: None })
                &&& changes_between(before.selection, after.selection, dirty)
            },
            Action::Append { hex } => {
                &&& after == before.with_regions(RegionOp::Append, bytes_per_line)
                &&& transition matches ModeTransition::ModeAndDirtyBytes(Mode::Insert(mode), dirty)
                &&& mode == (Insert { hex, mode: InsertionMode::Append, hex_half: None })
                &&& changes_between(before.selection, after.selection, dirty)
            },
            Action::Overwrite { hex } => after == before && to_insert(
                transition,
                Insert { hex, mode: InsertionMode::Overwrite, hex_half: None },
                false,
            ),
            Action::ReplaceMode { hex } => after == before && (
            transition matches ModeTransition::NewMode(Mode::Replace(mode)) && mode == (
            Replace { hex, hex_half: None })),
            Action::CollapseMode { hex } => after == before && (
            transition matches ModeTransition::NewMode(Mode::Search(search)) && search@ == (
            SearchView {
                acceptor: Acceptor::Collapse,
                hex,
                pieces: Seq::empty(),
                cursor: 0,
                hex_half: None,
            })),
            Action::CommandMode => after == before && (transition matches ModeTransition::NewMode(
                Mode::Command(command),
            ) && command.command@ == Seq::<char>::empty() && command.cursor == 0),
            Action::Delete { register } => {
                let yanked = before.with_yank(register as u32);
                if len > 0 {
                    &&& transition matches ModeTransition::DirtyBytes(dirty)
                    &&& dirty is ChangeLength
                    &&& exists|delta: DeltaView|
                        is_rewrite(delta, selected(before.selection, len), None, len as nat)
                            && after == #[trigger] yanked.applied(delta, true, 0, 0)
                } else {
                    after == yanked && transition is Unchanged
                }
            },
            Action::Change { hex, register } => {
                let yanked = before.with_yank(register as u32);
                let mode = Insert { hex, mode: InsertionMode::Insert, hex_half: None };
                if len > 0 {
                    &&& to_insert(transition, mode, true)
                    &&& exists|delta: DeltaView|
                        is_rewrite(delta, selected(before.selection, len), None, len as nat)
                            && after == #[trigger] yanked.applied(delta, true, 0, 0)
                } else {
                    after == yanked && to_insert(transition, mode, false)
                }
            },
            Action::Yank { register } => after == before.with_yank(register as u32)
                && transition is Unchanged,
            Action::Paste { after: behind, register } => {
                let points = paste_points(
                    before.selection,
                    before.register(register as u32),
                    behind,
                    count,
                    len,
                );
                if len + total_inserted(points) <= usize::MAX {
                    &&& after == before.applied(
                        DeltaView {
                            pieces: insertion_pieces(points, len as int),
                            base_len: len as nat,
                        },
                        true,
                        0,
                        0,
                    )
                    &&& transition matches ModeTransition::DirtyBytes(dirty)
                    &&& dirty is ChangeLength
                } else {
                    after == before && transition is Unchanged
                }
            },
            Action::RemoveMain => {
                &&& after == before.with_selection(
                    before.selection.removed(self.chosen(before.selection)),
                )
                &&& region_dropped(self.counted(), before, transition)
            },
            Action::RetainMain => {
                &&& after == before.with_selection(
                    before.selection.retained(self.chosen(before.selection)),
                )
                &&& region_dropped(self.counted(), before, transition)
            },
            Action::SelectNext => {
                &&& after == before.with_selection(before.selection.rotated(count as int))
                &&& transition matches ModeTransition::ModeAndDirtyBytes(mode, dirty)
                &&& is_normal(mode)
                &&& main_changed(before.selection, after.selection, dirty)
            },
            Action::SelectPrev => {
                &&& after == before.with_selection(before.selection.rotated(-count))
                &&& transition matches ModeTransition::ModeAndDirtyBytes(mode, dirty)
                &&& is_normal(mode)
                &&& main_changed(before.selection, after.selection, dirty)
            },
            Action::SelectAll => {
                &&& after == before.with_selection(SelectionView::all(len))
                &&& transition matches ModeTransition::DirtyBytes(dirty)
                &&& dirty matches DirtyBytes::ChangeInPlace(ranges)
                &&& ranges@ == seq![ByteRange { start: 0, end: len }]
            },
            Action::Measure => {
                let main = before.selection.regions[before.selection.main_selection];
                let span = main.max() - main.min();
                &&& after == before
                &&& to_normal_with_info(
                    transition,
                    measure_text(if span == usize::MAX { usize::MAX } else { (span + 1) as usize }),
                )
            },
            Action::Undo => {
                &&& after == before.undone()
                &&& if before.history.can_undo(before.data.len()) {
                    to_normal_redrawn(transition)
                } else {
                    to_normal_with_info(transition, "nothing left to undo"@)
                }
            },
            Action::Redo => {
                &&& after == before.redone()
                &&& if before.history.can_redo(before.data.len()) {
                    to_normal_redrawn(transition)
                } else {
                    to_normal_with_info(transition, "nothing left to redo"@)
                }
            },
        }
    }

    /// What is handed back when a command has used up the count: where the
    /// command itself names no mode, normal mode takes over without a count.
    pub open spec fn consumed(self, transition: ModeTransition) -> ModeTransition {
        if self.count_state is Idle {
            transition
        } else {
            match transition {
                ModeTransition::Unchanged => ModeTransition::NewMode(
                    Mode::Normal(Normal::spec_new()),
                ),
                ModeTransition::DirtyBytes(dirty) => ModeTransition::ModeAndDirtyBytes(
                    Mode::Normal(Normal::spec_new()),
                    dirty,
                ),
                other => other,
            }
        }
    }

    /// A digit goes on with the count. A key that stands for a command has
    /// it performed on the current buffer, which uses up the count. Anything
    /// else is left to the view.
    pub open spec fn transitioned(self, event: Event, before: BuffrCollection, after: BuffrCollection, result: Option<ModeTransition>, bytes_per_line: usize) -> bool {
        match self.count_state.spec_transition(event) {
            Transition::Update(state) => after == before && (result matches Some(
                ModeTransition::NewMode(Mode::Normal(mode)),
            ) && mode.count_state == state),
            Transition::Pass => match event {
                Event::Key(key) => match action_for(key.chord()) {
                    Some(action) => {
                        &&& result matches Some(handed)
                        &&& current_became(before, after, after.spec_current()@)
                        &&& exists|transition: ModeTransition|
                            {
                                &&& #[trigger] self.performed(
                                    action,
                                    before.spec_current()@,
                                    after.spec_current()@,
                                    transition,
                                    bytes_per_line,
                                )
                                &&& handed == self.consumed(transition)
                            }
                    },
                    None => after == before && result is None,
                },
                _ => after == before && result is None,
            },
        }
    }

    /// Normal mode with no count typed.
    #[verifier::when_used_as_spec(spec_new)]
    pub fn new() -> (normal: Normal)
        ensures
            normal == Normal::spec_new(),
    {
        Normal { count_state: State::Idle }
    }

    pub fn name(&self) -> (name: String)
        ensures
            name@ == self.spec_name(),
    {
        let mut name = "NORMAL".to_owned();
        self.count_state.show(&mut name);
        name
    }

    /// Has an action performed that moves or turns the regions.
    fn perform_on_regions(&self, action: Action, buffr_collection: &mut BuffrCollection, bytes_per_line: usize) -> (transition: ModeTransition)
        requires
            old(buffr_collection).wf(),
            action is Move || action is Extend || action is SwapCaret || action is CollapseSelection
                || action is JumpToMode || action is ExtendToMode || action is Insert
                || action is Append,
        ensures
            final(buffr_collection).wf(),
            current_became(
                *old(buffr_collection),
                *final(buffr_collection),
                final(buffr_collection).spec_current()@,
            ),
            self.performed(
                action,
                old(buffr_collection).spec_current()@,
                final(buffr_collection).spec_current()@,
                transition,
                bytes_per_line,
            ),
    {
        let count = self.count_state.to_count();
        let current_buffer = buffr_collection.current_mut();
        match action {
            Action::Move(direction) => ModeTransition::normal_and_dirty(
                current_buffer.map_regions(RegionOp::Move(direction, count), bytes_per_line),
            ),
            Action::Extend(direction) => ModeTransition::normal_and_dirty(
                current_buffer.map_regions(RegionOp::Extend(direction, count), bytes_per_line),
            ),
            Action::SwapCaret => ModeTransition::DirtyBytes(
                current_buffer.map_regions(RegionOp::SwapCaret, bytes_per_line),
            ),
            Action::CollapseSelection => ModeTransition::DirtyBytes(
                current_buffer.map_regions(RegionOp::Collapse, bytes_per_line),
            ),
            Action::JumpToMode => match self.count_state {
                State::Idle => ModeTransition::NewMode(Mode::JumpTo(JumpTo { extend: false })),
                State::Counting { count: offset } => {
                    let local = offset.saturating_sub(current_buffer.data_start_offset);
                    ModeTransition::normal_and_dirty(
                        current_buffer.map_regions(RegionOp::JumpTo(local), bytes_per_line),
                    )
                },
            },
            Action::ExtendToMode => match self.count_state {
                State::Idle => ModeTransition::NewMode(Mode::JumpTo(JumpTo { extend: true })),
                State::Counting { count: offset } => {
                    let local = offset.saturating_sub(current_buffer.data_start_offset);
                    ModeTransition::normal_and_dirty(
                        current_buffer.map_regions(RegionOp::ExtendTo(local), bytes_per_line),
                    )
                },
            },
            Action::Insert { hex } => {
                let dirty = current_buffer.map_regions(RegionOp::ToBackward, bytes_per_line);
                ModeTransition::ModeAndDirtyBytes(
                    Mode::Insert(Insert { hex, mode: InsertionMode::Insert, hex_half: None }),
                    dirty,
                )
            },
            _ => {
                let hex = match action {
                    Action::Append { hex } => hex,
                    _ => false,
                };
                let dirty = current_buffer.map_regions(RegionOp::Append, bytes_per_line);
                ModeTransition::ModeAndDirtyBytes(
                    Mode::Insert(Insert { hex, mode: InsertionMode::Append, hex_half: None }),
                    dirty,
                )
            },
        }
    }

    /// Has an action performed that only lets another mode take over.
    fn perform_mode_switch(&self, action: Action, buffer: Ghost<BufferView>, bytes_per_line: usize) -> (transition: ModeTransition)
        requires
            action is SplitMode || action is Overwrite || action is ReplaceMode
                || action is CollapseMode || action is CommandMode,
        ensures
            self.performed(action, buffer@, buffer@, transition, bytes_per_line),
    {
        match action {
            Action::SplitMode => ModeTransition::NewMode(Mode::Split(Split::new())),
            Action::Overwrite { hex } => ModeTransition::NewMode(
                Mode::Insert(Insert { hex, mode: InsertionMode::Overwrite, hex_half: None }),
            ),
            Action::ReplaceMode { hex } => ModeTransition::NewMode(
                Mode::Replace(Replace { hex, hex_half: None }),
            ),
            Action::CollapseMode { hex } => ModeTransition::NewMode(
                Mode::Search(Search::new(Acceptor::Collapse, hex)),
            ),
            _ => ModeTransition::NewMode(Mode::Command(Command::new())),
        }
    }

    /// Has an action performed that yanks, deletes or pastes.
    fn perform_edit(&self, action: Action, buffr_collection: &mut BuffrCollection, bytes_per_line: usize) -> (transition: ModeTransition)
        requires
            old(buffr_collection).wf(),
            action is Delete || action is Change || action is Yank || action is Paste,
        ensures
            final(buffr_collection).wf(),
            current_became(
                *old(buffr_collection),
                *final(buffr_collection),
                final(buffr_collection).spec_current()@,
            ),
            self.performed(
                action,
                old(buffr_collection).spec_current()@,
                final(buffr_collection).spec_current()@,
                transition,
                bytes_per_line,
            ),
    {
        let count = self.count_state.to_count();
        let current_buffer = buffr_collection.current_mut();
        let ghost before = current_buffer@;
        match action {
            Action::Delete { register } => {
                current_buffer.yank_selections(register);
                if !current_buffer.data.is_empty() {
                    let delta = deletion(&current_buffer.data, &current_buffer.selection);
                    let ghost view = delta@;
                    match current_buffer.apply_delta(delta) {
                        Ok(dirty) => {
                            assert(current_buffer@ == before.with_yank(register as u32).applied(
                                view,
                                true,
                                0,
                                0,
                            ));
                            ModeTransition::DirtyBytes(dirty)
                        },
                        Err(_) => ModeTransition::Unchanged,
                    }
                } else {
                    ModeTransition::Unchanged
                }
            },
            Action::Change { hex, register } => {
                current_buffer.yank_selections(register);
                let mode = Mode::Insert(
                    Insert { hex, mode: InsertionMode::Insert, hex_half: None },
                );
                if !current_buffer.data.is_empty() {
                    let delta = deletion(&current_buffer.data, &current_buffer.selection);
                    let ghost view = delta@;
                    match current_buffer.apply_delta(delta) {
                        Ok(dirty) => {
                            assert(current_buffer@ == before.with_yank(register as u32).applied(
                                view,
                                true,
                                0,
                                0,
                            ));
                            ModeTransition::ModeAndDirtyBytes(mode, dirty)
                        },
                        Err(_) => ModeTransition::NewMode(mode),
                    }
                } else {
                    ModeTransition::NewMode(mode)
                }
            },
            Action::Yank { register } => {
                current_buffer.yank_selections(register);
                ModeTransition::Unchanged
            },
            Action::Paste { register, after } => {
                let delta = current_buffer.paste_delta(register, after, count);
                match delta {
                    Some(delta) => match current_buffer.apply_delta(delta) {
                        Ok(dirty) => ModeTransition::DirtyBytes(dirty),
                        Err(_) => ModeTransition::Unchanged,
                    },
                    None => ModeTransition::Unchanged,
                }
            },
            _ => ModeTransition::Unchanged,
        }
    }

    /// Has an action performed that chooses among the regions.
    fn perform_choice(&self, action: Action, buffr_collection: &mut BuffrCollection, bytes_per_line: usize) -> (transition: ModeTransition)
        requires
            old(buffr_collection).wf(),
            action is RemoveMain || action is RetainMain || action is SelectNext
                || action is SelectPrev || action is SelectAll,
        ensures
            final(buffr_collection).wf(),
            current_became(
                *old(buffr_collection),
                *final(buffr_collection),
                final(buffr_collection).spec_current()@,
            ),
            self.performed(
                action,
                old(buffr_collection).spec_current()@,
                final(buffr_collection).spec_current()@,
                transition,
                bytes_per_line,
            ),
    {
        let count = self.count_state.to_count();
        let current_buffer = buffr_collection.current_mut();
        let main = current_buffer.selection.main_selection;
        let (index, reset) = match self.count_state {
            State::Counting { count } => if count > 0 {
                (count - 1, true)
            } else {
                (main, false)
            },
            State::Idle => (main, false),
        };
        match action {
            Action::RemoveMain => {
                let dirty = current_buffer.remove_selection(index);
                if reset {
                    ModeTransition::normal_and_dirty(dirty)
                } else {
                    ModeTransition::DirtyBytes(dirty)
                }
            },
            Action::RetainMain => {
                let dirty = current_buffer.retain_selection(index);
                if reset {
                    ModeTransition::normal_and_dirty(dirty)
                } else {
                    ModeTransition::DirtyBytes(dirty)
                }
            },
            Action::SelectNext => ModeTransition::normal_and_dirty(
                current_buffer.select_next(count),
            ),
            Action::SelectPrev => ModeTransition::normal_and_dirty(
                current_buffer.select_prev(count),
            ),
            _ => ModeTransition::DirtyBytes(current_buffer.select_all()),
        }
    }

    /// Has an action performed that measures, undoes or does again.
    fn perform_other(&self, action: Action, buffr_collection: &mut BuffrCollection, bytes_per_line: usize) -> (transition: ModeTransition)
        requires
            old(buffr_collection).wf(),
            action is Measure || action is Undo || action is Redo,
        ensures
            final(buffr_collection).wf(),
            current_became(
                *old(buffr_collection),
                *final(buffr_collection),
                final(buffr_collection).spec_current()@,
            ),
            self.performed(
                action,
                old(buffr_collection).spec_current()@,
                final(buffr_collection).spec_current()@,
                transition,
                bytes_per_line,
            ),
    {
        let current_buffer = buffr_collection.current_mut();
        match action {
            Action::Measure => {
                let size = current_buffer.selection.main().len();
                let mut info = String::new();
                push_number(&mut info, size, 10);
                info.append(" = 0x");
                push_number(&mut info, size, 16);
                info.append(" bytes");
                assert(info@ =~= measure_text(size));
                ModeTransition::normal_with_info(info)
            },
            Action::Undo => match current_buffer.perform_undo() {
                Some(dirty) => ModeTransition::normal_and_dirty(dirty),
                None => ModeTransition::normal_with_info("nothing left to undo".to_owned()),
            },
            _ => match current_buffer.perform_redo() {
                Some(dirty) => ModeTransition::normal_and_dirty(dirty),
                None => ModeTransition::normal_with_info("nothing left to redo".to_owned()),
            },
        }
    }

    /// Has `action` performed on the current buffer.
    pub fn perform(&self, action: Action, buffr_collection: &mut BuffrCollection, bytes_per_line: usize) -> (transition: ModeTransition)
        requires
            old(buffr_collection).wf(),
        ensures
            final(buffr_collection).wf(),
            current_became(
                *old(buffr_collection),
                *final(buffr_collection),
                final(buffr_collection).spec_current()@,
            ),
            self.performed(
                action,
                old(buffr_collection).spec_current()@,
                final(buffr_collection).spec_current()@,
                transition,
                bytes_per_line,
            ),
    {
        match action {
            Action::Move(_) | Action::Extend(_) | Action::SwapCaret | Action::CollapseSelection
            | Action::JumpToMode | Action::ExtendToMode | Action::Insert { .. } | Action::Append {
                ..
            } => self.perform_on_regions(action, buffr_collection, bytes_per_line),
            Action::SplitMode | Action::Overwrite { .. } | Action::ReplaceMode { .. }
            | Action::CollapseMode { .. } | Action::CommandMode => self.perform_mode_switch(
                action,
                Ghost(buffr_collection.spec_current()@),
                bytes_per_line,
            ),
            Action::Delete { .. } | Action::Change { .. } | Action::Yank { .. } | Action::Paste {
                ..
            } => self.perform_edit(action, buffr_collection, bytes_per_line),
            Action::RemoveMain | Action::RetainMain | Action::SelectNext | Action::SelectPrev
            | Action::SelectAll => self.perform_choice(action, buffr_collection, bytes_per_line),
            Action::Measure | Action::Undo | Action::Redo => self.perform_other(
                action,
                buffr_collection,
                bytes_per_line,
            ),
        }
    }

    /// Uses up the count.
    fn consume(&self, transition: ModeTransition) -> (handed: ModeTransition)
        ensures
            handed == self.consumed(transition),
    {
        match self.count_state {
            State::Idle => transition,
            State::Counting { .. } => match transition {
                ModeTransition::Unchanged => ModeTransition::NewMode(Mode::Normal(Normal::new())),
                ModeTransition::DirtyBytes(dirty) => ModeTransition::ModeAndDirtyBytes(
                    Mode::Normal(Normal::new()),
                    dirty,
                ),
                other => other,
            },
        }
    }

    /// What the mode makes of an event.
    pub fn transition(&self, event: &Event, buffr_collection: &mut BuffrCollection, bytes_per_line: usize) -> (result: Option<ModeTransition>)
        requires
            old(buffr_collection).wf(),
        ensures
            final(buffr_collection).wf(),
            self.transitioned(
                *event,
                *old(buffr_collection),
                *final(buffr_collection),
                result,
                bytes_per_line,
            ),
    {
        match self.count_state.transition(event) {
            Transition::Update(new_state) => Some(
                ModeTransition::NewMode(Mode::Normal(Normal { count_state: new_state })),
            ),
            Transition::Pass => match event {
                Event::Key(key) => match default_maps(key.chord()) {
                    Some(action) => {
                        let transition = self.perform(action, buffr_collection, bytes_per_line);
                        Some(self.consume(transition))
                    },
                    None => None,
                },
                _ => None,
            },
        }
    }
}

} // verus!

//! The state of the view and the decisions it takes. Drawing and reading
//! are left to the program around it.

use vstd::prelude::*;
use crate::byte_range::ByteRange;
use crate::current_buffer::{BufferView, BuffrCollection};
use crate::keymap::{Chord, Event, KeyCode};
use crate::modes::mode::{CommandRequest, DirtyBytes, Mode, ModeTransition};
use crate::modes::normal::Normal;
use crate::selection::{Direction, RegionOp};

verus! {

/// An offset that is not on the screen.
#[derive(Clone, Copy, Debug, PartialEq, Eq, Structural)]
pub struct OffScreen;

/// A part of the file that the view wants read, to widen the window.
#[derive(Clone, Copy, Debug, PartialEq, Eq, Structural)]
pub enum PagerRequest {
    /// `size` bytes from `from` on, to go behind the window.
    Bottom { from: usize, size: usize },
    /// `size` bytes from `from` on, to go before the window.
    Top { from: usize, size: usize },
}

/// What has to be drawn after the view has scrolled.
#[derive(Clone, Copy, Debug, PartialEq, Eq, Structural)]
pub enum Scrolled {
    /// Nothing: the view stays where it is.
    Stay,
    /// The lines move by `lines` and the rows that come in are drawn.
    Lines { lines: usize },
    /// Everything.
    All,
}

/// What the view does with an event that the mode has left to it.
#[derive(Clone, Copy, Debug, PartialEq, Eq, Structural)]
pub enum DefaultAction {
    /// Nothing.
    Ignore,
    /// The terminal has a new size: everything is drawn again.
    Resized,
    /// The regions went a line down: the view scrolls a line down.
    LineDown,
    /// The regions went a line up: the view scrolls a line up.
    LineUp,
}

/// What remains to be done after a transition was taken in.
#[derive(Debug)]
pub enum Followup {
    /// Nothing.
    Done,
    /// These bytes are to be drawn again.
    Redraw(DirtyBytes),
    /// This work on files is to be done.
    Work(CommandRequest),
}

/// The view of the buffers: the mode, the size of the terminal, and the
/// offset in the current buffer of the first byte on the screen.
pub struct HexView {
    pub buffr_collection: BuffrCollection,
    /// Columns and rows of the terminal.
    pub size: (u16, u16),
    pub bytes_per_line: usize,
    pub start_offset: usize,
    pub last_visible_rows: usize,
    pub last_visible_prompt_col: usize,
    pub mode: Mode,
    pub info: Option<String>,
}

/// `a * b`, the greatest `usize` where that is no `usize`.
pub open spec fn capped_product(a: int, b: int) -> int {
    if a * b > usize::MAX {
        usize::MAX as int
    } else {
        a * b
    }
}

/// `a + b`, the greatest `usize` where that is no `usize`.
pub open spec fn capped_sum(a: int, b: int) -> int {
    if a + b > usize::MAX {
        usize::MAX as int
    } else {
        a + b
    }
}

impl HexView {
    pub open spec fn wf(&self) -> bool {
        self.buffr_collection.wf()
    }

    /// The rows of the grid: all but the status line and the prompt line.
    pub open spec fn spec_visible_rows(&self) -> int {
        if self.size.1 < 2 {
            0
        } else {
            self.size.1 - 2
        }
    }

    /// The bytes that fit on the grid.
    pub open spec fn spec_chunk_size(&self) -> int {
        capped_product(self.spec_visible_rows(), self.bytes_per_line as int)
    }

    /// The length of the current buffer.
    pub open spec fn len(&self) -> int {
        self.buffr_collection.spec_current()@.data.len() as int
    }

    /// The offset behind the last byte that is on the screen.
    pub open spec fn spec_view_end(&self) -> int {
        capped_sum(self.start_offset as int, self.spec_chunk_size())
    }

    /// The view of `buffr_collection` in normal mode, from the start of the
    /// current buffer, on a terminal of `size` columns and rows.
    pub fn with_buffr_collection(buffr_collection: BuffrCollection, size: (u16, u16)) -> (view: HexView)
        requires
            buffr_collection.wf(),
        ensures
            view.wf(),
            view.buffr_collection == buffr_collection,
            view.size == size,
            view.bytes_per_line == 16,
            view.start_offset == 0,
            view.mode == Mode::Normal(Normal::new()),
            view.info is None,
    {
        HexView {
            buffr_collection,
            bytes_per_line: 0x10,
            start_offset: 0,
            size,
            last_visible_rows: 0,
            last_visible_prompt_col: 0,
            mode: Mode::Normal(Normal::new()),
            info: None,
        }
    }

    /// Sets the number of bytes on a row.
    pub fn set_bytes_per_line(&mut self, bpl: usize)
        ensures
            final(self).bytes_per_line == bpl,
            final(self).buffr_collection == old(self).buffr_collection,
            final(self).size == old(self).size,
            final(self).start_offset == old(self).start_offset,
            final(self).mode == old(self).mode,
            final(self).info == old(self).info,
    {
        self.bytes_per_line = bpl;
    }

    /// The rows of the grid.
    pub fn visible_rows(&self) -> (rows: usize)
        ensures
            rows == self.spec_visible_rows(),
    {
        if self.size.1 < 2 {
            0
        } else {
            (self.size.1 - 2) as usize
        }
    }

    /// The unit in which the window grows and shrinks.
    pub fn chunk_size(&self) -> (chunk: usize)
        ensures
            chunk == self.spec_chunk_size(),
    {
        match self.visible_rows().checked_mul(self.bytes_per_line) {
            Some(chunk) => chunk,
            None => usize::MAX,
        }
    }

    fn view_end(&self) -> (end: usize)
        ensures
            end == self.spec_view_end(),
    {
        self.start_offset.saturating_add(self.chunk_size())
    }

    /// Whether the buffer holds more than three chunks.
    pub fn should_trim_buffer(&self) -> (trim: bool)
        requires
            self.wf(),
        ensures
            trim == (self.len() > capped_product(3, self.spec_chunk_size())),
    {
        let chunk = self.chunk_size();
        let limit = match chunk.checked_mul(3) {
            Some(limit) => limit,
            None => usize::MAX,
        };
        self.buffr_collection.current().data.len() > limit
    }

    /// Whether the end of the screen is closer to the end of the buffer
    /// than a tenth of its length.
    pub fn is_near_bottom(&self) -> (near: bool)
        requires
            self.wf(),
        ensures
            near == (self.len() - self.spec_view_end() < self.len() / 10),
    {
        let total = self.buffr_collection.current().data.len();
        let end = self.view_end();
        end > total || total - end < total / 10
    }

    /// Whether the start of the screen is closer to the start of the buffer
    /// than a tenth of its length.
    pub fn is_near_top(&self) -> (near: bool)
        requires
            self.wf(),
        ensures
            near == (self.start_offset < self.len() / 10),
    {
        self.start_offset < self.buffr_collection.current().data.len() / 10
    }

    /// What the view wants read of the file of the current buffer, if
    /// anything: a chunk behind the window where the screen is near its end,
    /// else a chunk before the window where the screen is near its start and
    /// the window does not start at the start of the file.
    pub open spec fn wanted(&self) -> Option<PagerRequest> {
        let buffer = self.buffr_collection.spec_current()@;
        let chunk = self.spec_chunk_size();
        let behind = buffer.data_start_offset + buffer.data.len();
        if buffer.path is None || chunk == 0 {
            None
        } else if self.len() - self.spec_view_end() < self.len() / 10 && behind <= usize::MAX {
            Some(PagerRequest::Bottom { from: behind as usize, size: chunk as usize })
        } else if self.start_offset < self.len() / 10 && buffer.data_start_offset > 0 {
            Some(
                PagerRequest::Top {
                    from: if buffer.data_start_offset >= chunk {
                        (buffer.data_start_offset - chunk) as usize
                    } else {
                        0
                    },
                    size: if buffer.data_start_offset >= chunk {
                        chunk as usize
                    } else {
                        buffer.data_start_offset as usize
                    },
                },
            )
        } else {
            None
        }
    }

    /// What the view wants read of the file of the current buffer.
    pub fn manage_buffer(&self) -> (request: Option<PagerRequest>)
        requires
            self.wf(),
        ensures
            request == self.wanted(),
    {
        let chunk = self.chunk_size();
        let buffer = self.buffr_collection.current();
        if buffer.path.is_none() || chunk == 0 {
            return None;
        }
        if self.is_near_bottom() {
            match buffer.chunk_bottom_start() {
                Some(from) => {
                    return Some(PagerRequest::Bottom { from, size: chunk });
                },
                None => {},
            }
        }
        if self.is_near_top() && buffer.data_start_offset > 0 {
            let from = buffer.chunk_top_start(chunk);
            Some(PagerRequest::Top { from, size: buffer.data_start_offset - from })
        } else {
            None
        }
    }

    /// Takes in a chunk that was read behind the window. Where the buffer
    /// then holds more than three chunks, a chunk is dropped at its start,
    /// unless the screen or a region reaches into it.
    pub fn add_chunk_to_bottom(&mut self, chunk: Vec<u8>) -> (added: bool)
        requires
            old(self).wf(),
        ensures
            final(self).wf(),
            ({
                let before = old(self).buffr_collection.spec_current()@;
                let after = final(self).buffr_collection.spec_current()@;
                let grown = before.with_chunk_bottom(chunk@);
                let n = old(self).spec_chunk_size() as usize;
                let trim = grown.data.len() > capped_product(3, n as int) && old(self).start_offset
                    >= n && grown.trims_top(n);
                &&& added == before.takes_bottom(chunk@)
                &&& crate::modes::mode::current_became(
                    old(self).buffr_collection,
                    final(self).buffr_collection,
                    after,
                )
                &&& !added ==> after == before && final(self).start_offset == old(self).start_offset
                &&& added && !trim ==> after == grown && final(self).start_offset
                    == old(self).start_offset
                &&& added && trim ==> after == grown.trimmed_top(n) && final(self).start_offset
                    == old(self).start_offset - n
            }),
            final(self).size == old(self).size,
            final(self).bytes_per_line == old(self).bytes_per_line,
    {
        let n = self.chunk_size();
        let limit = match n.checked_mul(3) {
            Some(limit) => limit,
            None => usize::MAX,
        };
        let start = self.start_offset;
        let buffer = self.buffr_collection.current_mut();
        let added = buffer.load_next_chunk(chunk);
        let mut trimmed = false;
        if added && buffer.data.len() > limit && start >= n {
            trimmed = buffer.trim_top(n);
        }
        if trimmed {
            self.start_offset = start - n;
        }
        added
    }

    /// Takes in a chunk that was read before the window; the screen stays on
    /// its bytes. Where the buffer then holds more than three chunks, a chunk
    /// is dropped at its end, unless the screen or a region reaches into it.
    pub fn add_chunk_to_top(&mut self, chunk: Vec<u8>) -> (added: bool)
        requires
            old(self).wf(),
        ensures
            final(self).wf(),
            ({
                let before = old(self).buffr_collection.spec_current()@;
                let after = final(self).buffr_collection.spec_current()@;
                let grown = before.with_chunk_top(chunk@);
                let n = old(self).spec_chunk_size() as usize;
                let start = capped_sum(old(self).start_offset as int, chunk@.len() as int);
                let trim = grown.data.len() > capped_product(3, n as int) && capped_sum(
                    start,
                    n as int,
                ) <= grown.data.len() - n && grown.trims_bottom(n);
                &&& added == before.takes_top(chunk@)
                &&& crate::modes::mode::current_became(
                    old(self).buffr_collection,
                    final(self).buffr_collection,
                    after,
                )
                &&& !added ==> after == before && final(self).start_offset == old(self).start_offset
                &&& added ==> final(self).start_offset == start
                &&& added && !trim ==> after == grown
                &&& added && trim ==> after == grown.trimmed_bottom(n)
            }),
            final(self).size == old(self).size,
            final(self).bytes_per_line == old(self).bytes_per_line,
    {
        let n = self.chunk_size();
        let limit = match n.checked_mul(3) {
            Some(limit) => limit,
            None => usize::MAX,
        };
        let size = chunk.len();
        let start = self.start_offset.saturating_add(size);
        let end = start.saturating_add(n);
        let buffer = self.buffr_collection.current_mut();
        let added = buffer.add_chunk_top(chunk);
        if added {
            let len = buffer.data.len();
            if len > limit && n <= len && end <= len - n {
                buffer.trim_bottom(n);
            }
            self.start_offset = start;
        }
        added
    }

    /// The row on which the byte at `offset` stands.
    pub fn offset_to_row(&self, offset: usize) -> (row: Result<u16, OffScreen>)
        ensures
            row is Ok <==> self.bytes_per_line > 0 && offset >= self.start_offset && (offset
                - self.start_offset) / (self.bytes_per_line as int) < self.size.1,
            row matches Ok(r) ==> r == (offset - self.start_offset) / (self.bytes_per_line as int),
    {
        if self.bytes_per_line == 0 || offset < self.start_offset {
            return Err(OffScreen);
        }
        let row = (offset - self.start_offset) / self.bytes_per_line;
        if row >= self.size.1 as usize {
            return Err(OffScreen);
        }
        Ok(row as u16)
    }

    /// Whether the buffer holds a byte at `offset`.
    pub fn is_valid_offset(&self, offset: usize) -> (valid: bool)
        requires
            self.wf(),
        ensures
            valid == (offset < self.len()),
    {
        offset < self.buffr_collection.current().data.len()
    }

    /// The offsets that are on the screen: from the start of the screen to
    /// its end, or to the place behind the last byte of the buffer.
    pub fn visible_bytes(&self) -> (visible: ByteRange)
        requires
            self.wf(),
        ensures
            visible.start == self.start_offset,
            visible.end == if capped_sum(self.len(), 1) <= self.spec_view_end() {
                capped_sum(self.len(), 1)
            } else {
                self.spec_view_end()
            },
    {
        let behind = self.buffr_collection.current().data.len().saturating_add(1);
        let end = self.view_end();
        ByteRange { start: self.start_offset, end: if behind <= end { behind } else { end } }
    }

    /// Takes note of the rows that hold bytes of the buffer, or the place
    /// behind its last byte: as many as the bytes on the screen fill.
    pub fn note_visible_rows(&mut self)
        requires
            old(self).wf(),
        ensures
            final(self).buffr_collection == old(self).buffr_collection,
            final(self).size == old(self).size,
            final(self).bytes_per_line == old(self).bytes_per_line,
            final(self).start_offset == old(self).start_offset,
            final(self).mode == old(self).mode,
            final(self).info == old(self).info,
            ({
                let end = if capped_sum(old(self).len(), 1) <= old(self).spec_view_end() {
                    capped_sum(old(self).len(), 1)
                } else {
                    old(self).spec_view_end()
                };
                let w = old(self).bytes_per_line as int;
                final(self).last_visible_rows == if w == 0 || end <= old(self).start_offset {
                    0
                } else {
                    (end - old(self).start_offset - 1) / w + 1
                }
            }),
    {
        let visible = self.visible_bytes();
        self.last_visible_rows = if self.bytes_per_line == 0 || visible.end <= visible.start {
            0
        } else {
            (visible.end - visible.start - 1) / self.bytes_per_line + 1
        };
    }

    /// The screen goes `line_count` lines down, unless it would start behind
    /// the last byte.
    pub fn scroll_down(&mut self, line_count: usize) -> (scrolled: Scrolled)
        requires
            old(self).wf(),
        ensures
            final(self).wf(),
            final(self).buffr_collection == old(self).buffr_collection,
            final(self).size == old(self).size,
            final(self).bytes_per_line == old(self).bytes_per_line,
            final(self).mode == old(self).mode,
            final(self).info == old(self).info,
            ({
                let next = old(self).start_offset + line_count * old(self).bytes_per_line;
                if next >= old(self).len() {
                    scrolled == Scrolled::Stay && final(self).start_offset
                        == old(self).start_offset
                } else {
                    &&& final(self).start_offset == next
                    &&& scrolled == if line_count > old(self).spec_visible_rows() {
                        Scrolled::All
                    } else {
                        Scrolled::Lines { lines: line_count }
                    }
                }
            }),
    {
        let len = self.buffr_collection.current().data.len();
        let next = match line_count.checked_mul(self.bytes_per_line) {
            Some(step) => self.start_offset.checked_add(step),
            None => None,
        };
        match next {
            Some(next) => {
                if next >= len {
                    Scrolled::Stay
                } else {
                    self.start_offset = next;
                    if line_count > self.visible_rows() {
                        Scrolled::All
                    } else {
                        Scrolled::Lines { lines: line_count }
                    }
                }
            },
            None => Scrolled::Stay,
        }
    }

    /// The screen goes `line_count` lines up, unless it would start before
    /// the first byte.
    pub fn scroll_up(&mut self, line_count: usize) -> (scrolled: Scrolled)
        ensures
            final(self).buffr_collection == old(self).buffr_collection,
            final(self).size == old(self).size,
            final(self).bytes_per_line == old(self).bytes_per_line,
            final(self).mode == old(self).mode,
            final(self).info == old(self).info,
            ({
                let step = line_count * old(self).bytes_per_line;
                if old(self).start_offset < step {
                    scrolled == Scrolled::Stay && final(self).start_offset
                        == old(self).start_offset
                } else {
                    &&& final(self).start_offset == old(self).start_offset - step
                    &&& scrolled == if line_count > old(self).spec_visible_rows() {
                        Scrolled::All
                    } else {
                        Scrolled::Lines { lines: line_count }
                    }
                }
            }),
    {
        match line_count.checked_mul(self.bytes_per_line) {
            Some(step) => {
                if self.start_offset < step {
                    Scrolled::Stay
                } else {
                    self.start_offset = self.start_offset - step;
                    if line_count > self.visible_rows() {
                        Scrolled::All
                    } else {
                        Scrolled::Lines { lines: line_count }
                    }
                }
            },
            None => Scrolled::Stay,
        }
    }

    /// Takes in what a mode has made of an event: the new mode becomes the
    /// mode, the message the message. What is left is to draw or to work.
    pub fn transition(&mut self, transition: ModeTransition) -> (followup: Followup)
        ensures
            final(self).buffr_collection == old(self).buffr_collection,
            final(self).size == old(self).size,
            final(self).bytes_per_line == old(self).bytes_per_line,
            final(self).start_offset == old(self).start_offset,
            final(self).last_visible_rows == old(self).last_visible_rows,
            final(self).last_visible_prompt_col == old(self).last_visible_prompt_col,
            match transition {
                ModeTransition::Unchanged => final(self).mode == old(self).mode && final(self).info is None && followup is Done,
                ModeTransition::NewMode(mode) => final(self).mode == mode && final(self).info is None && followup is Done,
                ModeTransition::DirtyBytes(dirty) => final(self).mode == old(self).mode && final(self).info is None && followup == Followup::Redraw(dirty),
                ModeTransition::ModeAndDirtyBytes(mode, dirty) => final(self).mode == mode && final(self).info is None && followup == Followup::Redraw(dirty),
                ModeTransition::ModeAndInfo(mode, info) => final(self).mode == mode && final(self).info == Some(info) && followup is Done,
                ModeTransition::Request(request) => final(self).mode == old(self).mode && final(self).info is None && followup == Followup::Work(request),
            },
    {
        self.info = None;
        match transition {
            ModeTransition::Unchanged => Followup::Done,
            ModeTransition::DirtyBytes(dirty_bytes) => Followup::Redraw(dirty_bytes),
            ModeTransition::NewMode(mode) => {
                self.mode = mode;
                Followup::Done
            },
            ModeTransition::ModeAndDirtyBytes(mode, dirty_bytes) => {
                self.mode = mode;
                Followup::Redraw(dirty_bytes)
            },
            ModeTransition::ModeAndInfo(mode, info) => {
                self.mode = mode;
                self.info = Some(info);
                Followup::Done
            },
            ModeTransition::Request(request) => Followup::Work(request),
        }
    }

    /// What the view does with an event that the mode has left to it.
    pub open spec fn default_for(event: Event) -> DefaultAction {
        match event {
            Event::Resize(columns, rows) => DefaultAction::Resized,
            Event::Key(key) => match key.chord() {
                Chord::Control(KeyCode::Char('e')) => DefaultAction::LineDown,
                Chord::Control(KeyCode::Char('y')) => DefaultAction::LineUp,
                _ => DefaultAction::Ignore,
            },
            _ => DefaultAction::Ignore,
        }
    }

    /// Handles an event that the mode has left to the view: a resize sets
    /// the size; control-e and control-y move the regions of the current
    /// buffer a line down or up and scroll the screen with them.
    pub fn handle_event_default(&mut self, event: Event) -> (action: DefaultAction)
        requires
            old(self).wf(),
        ensures
            final(self).wf(),
            action == HexView::default_for(event),
            final(self).bytes_per_line == old(self).bytes_per_line,
            final(self).mode == old(self).mode,
            final(self).info == old(self).info,
            match event {
                Event::Resize(columns, rows) => final(self).size == (columns, rows) && final(self).buffr_collection == old(self).buffr_collection && final(self).start_offset
                    == old(self).start_offset,
                _ => final(self).size == old(self).size,
            },
            action is Ignore ==> final(self).buffr_collection == old(self).buffr_collection
                && final(self).start_offset == old(self).start_offset,
            action is LineDown ==> final(self).start_offset == if old(self).start_offset + old(self).bytes_per_line < old(self).len() {
                old(self).start_offset + old(self).bytes_per_line
            } else {
                old(self).start_offset as int
            },
            action is LineUp ==> final(self).start_offset == if old(self).start_offset < old(self).bytes_per_line {
                old(self).start_offset as int
            } else {
                old(self).start_offset - old(self).bytes_per_line
            },
            action is LineDown ==> crate::modes::mode::current_became(
                old(self).buffr_collection,
                final(self).buffr_collection,
                old(self).buffr_collection.spec_current()@.with_regions(
                    RegionOp::Move(Direction::Down, 1),
                    old(self).bytes_per_line,
                ),
            ),
            action is LineUp ==> crate::modes::mode::current_became(
                old(self).buffr_collection,
                final(self).buffr_collection,
                old(self).buffr_collection.spec_current()@.with_regions(
                    RegionOp::Move(Direction::Up, 1),
                    old(self).bytes_per_line,
                ),
            ),
    {
        match event {
            Event::Resize(columns, rows) => {
                self.size = (columns, rows);
                DefaultAction::Resized
            },
            Event::Key(key) => match key.chord() {
                Chord::Control(KeyCode::Char('e')) => {
                    let bytes_per_line = self.bytes_per_line;
                    let current_buffer = self.buffr_collection.current_mut();
                    current_buffer.map_regions(RegionOp::Move(Direction::Down, 1), bytes_per_line);
                    self.scroll_down(1);
                    DefaultAction::LineDown
                },
                Chord::Control(KeyCode::Char('y')) => {
                    let bytes_per_line = self.bytes_per_line;
                    let current_buffer = self.buffr_collection.current_mut();
                    current_buffer.map_regions(RegionOp::Move(Direction::Up, 1), bytes_per_line);
                    self.scroll_up(1);
                    DefaultAction::LineUp
                },
                _ => DefaultAction::Ignore,
            },
            _ => DefaultAction::Ignore,
        }
    }

    /// Where the screen has to start for the caret of the main region to be
    /// on it: where it starts now if the caret is on it; at the line of the
    /// caret if that lies before the screen; so that the line of the caret is
    /// the last line if it lies behind it.
    pub open spec fn following(&self) -> int {
        let buffer = self.buffr_collection.spec_current()@;
        let caret = buffer.selection.regions[buffer.selection.main_selection].caret as int;
        let w = self.bytes_per_line as int;
        let end = if capped_sum(self.len(), 1) <= self.spec_view_end() {
            capped_sum(self.len(), 1)
        } else {
            self.spec_view_end()
        };
        if w == 0 {
            self.start_offset as int
        } else if caret < self.start_offset {
            caret - caret % w
        } else if caret >= end {
            let line_end = capped_sum(caret - caret % w, w);
            if line_end >= self.spec_chunk_size() {
                line_end - self.spec_chunk_size()
            } else {
                0
            }
        } else {
            self.start_offset as int
        }
    }

    /// Moves the screen so that the caret of the main region is on it.
    pub fn maybe_update_offset(&mut self)
        requires
            old(self).wf(),
        ensures
            final(self).start_offset == old(self).following(),
            final(self).buffr_collection == old(self).buffr_collection,
            final(self).size == old(self).size,
            final(self).bytes_per_line == old(self).bytes_per_line,
    {
        if self.bytes_per_line == 0 {
            return ;
        }
        let caret = self.buffr_collection.current().selection.main_cursor_offset();
        let visible = self.visible_bytes();
        let line = crate::selection::line_start_offset(caret, self.bytes_per_line);
        if caret < visible.start {
            self.start_offset = line;
        } else if caret >= visible.end {
            let line_end = line.saturating_add(self.bytes_per_line);
            self.start_offset = line_end.saturating_sub(self.chunk_size());
        }
    }

    /// The row of the byte at `offset`, for an offset on or behind the
    /// start of the screen.
    pub open spec fn row_of(&self, offset: int) -> int {
        (offset - self.start_offset) / (self.bytes_per_line as int)
    }

    /// The rows on which bytes of `range` stand that are on the screen, from
    /// the first to the last; none where no such byte is on the screen.
    pub fn rows_of_range(&self, range: ByteRange) -> (rows: Option<(usize, usize)>)
        requires
            self.wf(),
        ensures
            ({
                let visible = ByteRange {
                    start: self.start_offset,
                    end: if capped_sum(self.len(), 1) <= self.spec_view_end() {
                        capped_sum(self.len(), 1) as usize
                    } else {
                        self.spec_view_end() as usize
                    },
                };
                let both = visible.intersect(range);
                if self.bytes_per_line == 0 || both.start >= both.end {
                    rows is None
                } else {
                    rows == Some(
                        (
                            self.row_of(both.start as int) as usize,
                            self.row_of(both.end - 1) as usize,
                        ),
                    )
                }
            }),
    {
        let visible = self.visible_bytes();
        let both = visible.intersect(range);
        if self.bytes_per_line == 0 || both.start >= both.end {
            None
        } else {
            Some(
                (
                    (both.start - self.start_offset) / self.bytes_per_line,
                    (both.end - 1 - self.start_offset) / self.bytes_per_line,
                ),
            )
        }
    }
}

} // verus!

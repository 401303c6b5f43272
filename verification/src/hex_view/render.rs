//! What is shown of the bytes and of the state: the look of each byte, the
//! text of a row, of the status line and of the prompt line, and the numbers
//! that the bytes under the caret stand for.

use vstd::prelude::*;
use vstd::string::StringExecFns;
use crate::byte_range::ByteRange;
use crate::current_buffer::{BufferView, OverflowSelectionStyle};
use crate::hex_view::view::HexView;
use crate::modes::command::Command;
use crate::modes::search::{PatternPiece, Search};
use crate::selection::{SelRegion, Selection, SelectionView};
use vstd::string::StrSliceExecFns;
use crate::text::{digit_char, digits, push_digit, push_number, string_of};

verus! {

/// How a byte is drawn.
#[derive(Clone, Copy, Debug, PartialEq, Eq, Structural)]
pub enum Look {
    /// Not selected.
    Default,
    /// In the main region.
    ActiveSelection,
    /// In another region.
    InactiveSelection,
    /// Under the caret of the main region.
    ActiveCaret,
    /// Under the caret of another region.
    InactiveCaret,
    /// Under a caret that stands behind the last byte.
    EmptyCaret,
}

/// Whether a caret of a region other than the main one stands at `offset`.
pub open spec fn other_caret_at(selection: SelectionView, offset: int) -> bool {
    exists|i: int|
        0 <= i < selection.regions.len() && i != selection.main_selection && (
        #[trigger] selection.regions[i]).caret == offset
}

/// Whether a region other than the main one holds the byte at `offset`.
pub open spec fn other_region_at(selection: SelectionView, offset: int) -> bool {
    exists|i: int|
        0 <= i < selection.regions.len() && i != selection.main_selection && (
        #[trigger] selection.regions[i]).min() <= offset <= selection.regions[i].max()
}

/// How the byte at `offset` is drawn: a caret goes before a region, and the
/// main region before the others.
pub open spec fn look_at(selection: SelectionView, offset: int) -> Look {
    let main = selection.regions[selection.main_selection];
    if main.caret == offset {
        Look::ActiveCaret
    } else if other_caret_at(selection, offset) {
        Look::InactiveCaret
    } else if main.min() <= offset <= main.max() {
        Look::ActiveSelection
    } else if other_region_at(selection, offset) {
        Look::InactiveSelection
    } else {
        Look::Default
    }
}

/// How the byte at `offset` is drawn.
pub fn look_of(selection: &Selection, offset: usize) -> (look: Look)
    requires
        selection.wf(),
    ensures
        look == look_at(selection@, offset as int),
{
    let main = selection.regions[selection.main_selection];
    if main.caret == offset {
        return Look::ActiveCaret;
    }
    let mut caret = false;
    let mut inside = false;
    let mut i: usize = 0;
    while i < selection.regions.len()
        invariant
            i <= selection.regions@.len(),
            caret <==> exists|k: int|
                0 <= k < i && k != selection.main_selection && (
                #[trigger] selection.regions@[k]).caret == offset,
            inside <==> exists|k: int|
                0 <= k < i && k != selection.main_selection && (
                #[trigger] selection.regions@[k]).min() <= offset <= selection.regions@[k].max(),
        decreases selection.regions@.len() - i,
    {
        let region = selection.regions[i];
        if i != selection.main_selection {
            if region.caret == offset {
                caret = true;
            }
            if region.min() <= offset && offset <= region.max() {
                inside = true;
            }
        }
        i += 1;
    }
    if caret {
        Look::InactiveCaret
    } else if main.min() <= offset && offset <= main.max() {
        Look::ActiveSelection
    } else if inside {
        Look::InactiveSelection
    } else {
        Look::Default
    }
}

/// The two hex digits of a byte.
pub fn hex_pair(byte: u8) -> (pair: (char, char))
    ensures
        pair.0 == digit_char(byte as int / 16),
        pair.1 == digit_char(byte as int % 16),
{
    (hex_char(byte / 16), hex_char(byte % 16))
}

fn hex_char(d: u8) -> (c: char)
    requires
        d < 16,
    ensures
        c == digit_char(d as int),
{
    match d {
        0 => '0',
        1 => '1',
        2 => '2',
        3 => '3',
        4 => '4',
        5 => '5',
        6 => '6',
        7 => '7',
        8 => '8',
        9 => '9',
        10 => 'a',
        11 => 'b',
        12 => 'c',
        13 => 'd',
        14 => 'e',
        _ => 'f',
    }
}

/// The character that stands for a byte in the text pane: the character
/// itself for a space and for what can be seen, a dot for the rest.
pub open spec fn text_char(byte: u8) -> char {
    if 0x20 <= byte <= 0x7e {
        byte as char
    } else {
        '.'
    }
}

/// The character that stands for a byte in the text pane.
pub fn ascii_repr(byte: u8) -> (c: char)
    ensures
        c == text_char(byte),
{
    if 0x20 <= byte && byte <= 0x7e {
        byte as char
    } else {
        '.'
    }
}

/// The columns that are left empty behind a row of `count` bytes, for each
/// byte that is missing `per_byte` columns.
pub open spec fn padding(count: int, bytes_per_line: int, per_byte: int) -> int {
    if count >= bytes_per_line {
        0
    } else {
        (bytes_per_line - count) * per_byte
    }
}

/// The columns that are left empty behind a row of `count` bytes.
pub fn row_padding(count: usize, bytes_per_line: usize, per_byte: usize) -> (columns: usize)
    ensures
        columns == if padding(count as int, bytes_per_line as int, per_byte as int) > usize::MAX {
            usize::MAX as int
        } else {
            padding(count as int, bytes_per_line as int, per_byte as int)
        },
{
    if count >= bytes_per_line {
        0
    } else {
        match (bytes_per_line - count).checked_mul(per_byte) {
            Some(columns) => columns,
            None => usize::MAX,
        }
    }
}

/// The numbers that up to four bytes stand for.
#[derive(Clone, Copy, Debug, PartialEq, Eq, Structural)]
pub struct ByteProperties {
    pub unsigned_8: Option<u8>,
    pub signed_8: Option<i8>,
    pub unsigned_16_le: Option<u16>,
    pub unsigned_16_be: Option<u16>,
    pub signed_16_le: Option<i16>,
    pub signed_16_be: Option<i16>,
    pub unsigned_32_le: Option<u32>,
    pub unsigned_32_be: Option<u32>,
    pub signed_32_le: Option<i32>,
    pub signed_32_be: Option<i32>,
}

/// The number that `bytes` stand for, the first byte counting most.
pub open spec fn big_endian(bytes: Seq<u8>) -> int
    decreases bytes.len(),
{
    if bytes.len() == 0 {
        0
    } else {
        big_endian(bytes.drop_last()) * 256 + bytes.last()
    }
}

/// The number that `bytes` stand for, the first byte counting least.
pub open spec fn little_endian(bytes: Seq<u8>) -> int
    decreases bytes.len(),
{
    if bytes.len() == 0 {
        0
    } else {
        bytes[0] + 256 * little_endian(bytes.drop_first())
    }
}

/// The number that `value` stands for when its highest of `bits` bits is
/// the sign.
pub open spec fn signed(value: int, bits: int) -> int {
    if bits == 8 {
        if value >= 0x80 { value - 0x100 } else { value }
    } else if bits == 16 {
        if value >= 0x8000 { value - 0x1_0000 } else { value }
    } else {
        if value >= 0x8000_0000 { value - 0x1_0000_0000 } else { value }
    }
}

fn signed_8(value: u8) -> (number: i8)
    ensures
        number == signed(value as int, 8),
{
    if value >= 0x80 {
        (value as i16 - 0x100) as i8
    } else {
        value as i8
    }
}

fn signed_16(value: u16) -> (number: i16)
    ensures
        number == signed(value as int, 16),
{
    if value >= 0x8000 {
        (value as i32 - 0x1_0000) as i16
    } else {
        value as i16
    }
}

fn signed_32(value: u32) -> (number: i32)
    ensures
        number == signed(value as int, 32),
{
    if value >= 0x8000_0000 {
        (value as i64 - 0x1_0000_0000) as i32
    } else {
        value as i32
    }
}

/// The numbers that the first bytes of `bytes` stand for: of one byte, of
/// two and of four, in both byte orders, with and without sign. A number is
/// missing where the bytes do not suffice.
pub fn byte_properties(bytes: &Vec<u8>) -> (properties: ByteProperties)
    ensures
        properties.unsigned_8 == if bytes@.len() >= 1 { Some(bytes@[0]) } else { None },
        properties.signed_8 matches Some(n) ==> n == signed(bytes@[0] as int, 8),
        properties.signed_8 is Some <==> bytes@.len() >= 1,
        properties.unsigned_16_le is Some <==> bytes@.len() >= 2,
        properties.unsigned_16_le matches Some(n) ==> n == little_endian(bytes@.subrange(0, 2)),
        properties.unsigned_16_be is Some <==> bytes@.len() >= 2,
        properties.unsigned_16_be matches Some(n) ==> n == big_endian(bytes@.subrange(0, 2)),
        properties.signed_16_le is Some <==> bytes@.len() >= 2,
        properties.signed_16_le matches Some(n) ==> n == signed(
            little_endian(bytes@.subrange(0, 2)),
            16,
        ),
        properties.signed_16_be is Some <==> bytes@.len() >= 2,
        properties.signed_16_be matches Some(n) ==> n == signed(
            big_endian(bytes@.subrange(0, 2)),
            16,
        ),
        properties.unsigned_32_le is Some <==> bytes@.len() >= 4,
        properties.unsigned_32_le matches Some(n) ==> n == little_endian(bytes@.subrange(0, 4)),
        properties.unsigned_32_be is Some <==> bytes@.len() >= 4,
        properties.unsigned_32_be matches Some(n) ==> n == big_endian(bytes@.subrange(0, 4)),
        properties.signed_32_le is Some <==> bytes@.len() >= 4,
        properties.signed_32_le matches Some(n) ==> n == signed(
            little_endian(bytes@.subrange(0, 4)),
            32,
        ),
        properties.signed_32_be is Some <==> bytes@.len() >= 4,
        properties.signed_32_be matches Some(n) ==> n == signed(
            big_endian(bytes@.subrange(0, 4)),
            32,
        ),
{
    let mut properties = ByteProperties {
        unsigned_8: None,
        signed_8: None,
        unsigned_16_le: None,
        unsigned_16_be: None,
        signed_16_le: None,
        signed_16_be: None,
        unsigned_32_le: None,
        unsigned_32_be: None,
        signed_32_le: None,
        signed_32_be: None,
    };
    if bytes.len() >= 1 {
        properties.unsigned_8 = Some(bytes[0]);
        properties.signed_8 = Some(signed_8(bytes[0]));
    }
    if bytes.len() >= 2 {
        let le: u16 = bytes[0] as u16 + 256 * (bytes[1] as u16);
        let be: u16 = bytes[0] as u16 * 256 + bytes[1] as u16;
        proof {
            let two = bytes@.subrange(0, 2);
            reveal_with_fuel(little_endian, 3);
            reveal_with_fuel(big_endian, 3);
            assert(two.drop_first().drop_first() =~= Seq::<u8>::empty());
            assert(two.drop_last().drop_last() =~= Seq::<u8>::empty());
            assert(two.drop_first()[0] == bytes@[1]);
            assert(two.drop_last().last() == bytes@[0]);
            assert(le == little_endian(two));
            assert(be == big_endian(two));
        }
        properties.unsigned_16_le = Some(le);
        properties.unsigned_16_be = Some(be);
        properties.signed_16_le = Some(signed_16(le));
        properties.signed_16_be = Some(signed_16(be));
    }
    if bytes.len() >= 4 {
        let b0 = bytes[0] as u32;
        let b1 = bytes[1] as u32;
        let b2 = bytes[2] as u32;
        let b3 = bytes[3] as u32;
        let le: u32 = b0 + 256 * (b1 + 256 * (b2 + 256 * b3));
        let be: u32 = ((b0 * 256 + b1) * 256 + b2) * 256 + b3;
        proof {
            let four = bytes@.subrange(0, 4);
            reveal_with_fuel(little_endian, 5);
            reveal_with_fuel(big_endian, 5);
            let f1 = four.drop_first();
            let f2 = f1.drop_first();
            let f3 = f2.drop_first();
            assert(f3.drop_first() =~= Seq::<u8>::empty());
            assert(f1[0] == bytes@[1] && f2[0] == bytes@[2] && f3[0] == bytes@[3]);
            let l1 = four.drop_last();
            let l2 = l1.drop_last();
            let l3 = l2.drop_last();
            assert(l3.drop_last() =~= Seq::<u8>::empty());
            assert(l1.last() == bytes@[2] && l2.last() == bytes@[1] && l3.last() == bytes@[0]);
            assert(le == little_endian(four));
            assert(be == big_endian(four));
        }
        properties.unsigned_32_le = Some(le);
        properties.unsigned_32_be = Some(be);
        properties.signed_32_le = Some(signed_32(le));
        properties.signed_32_be = Some(signed_32(be));
    }
    properties
}

/// The parts of the status line, from left to right.
#[derive(Debug)]
pub struct Statusline {
    /// The name of the buffer, with a mark if it holds changes.
    pub name: String,
    /// The name of the mode.
    pub mode: String,
    /// The number of regions and the place of the main one.
    pub selections: String,
    /// The offset of the main caret in the file and the offset of the last
    /// byte of the window, in hex; `empty` for an empty buffer.
    pub position: String,
}

/// The text of the part of the status line that names the buffer.
pub open spec fn name_part(buffer: BufferView) -> Seq<char> {
    " "@ + (match buffer.path {
        Some(path) => path,
        None => "*scratch*"@,
    }) + (if buffer.dirty {
        "[+]"@
    } else {
        Seq::<char>::empty()
    }) + " "@
}

/// The text of the part of the status line that counts the regions.
pub open spec fn selections_part(selection: SelectionView) -> Seq<char> {
    " "@ + digits(selection.regions.len(), 10) + " sels ("@ + digits(
        (selection.main_selection + 1) as nat,
        10,
    ) + ") "@
}

/// `a + b`, the greatest `usize` where that is no `usize`.
pub open spec fn capped(a: int, b: int) -> nat {
    if a + b > usize::MAX {
        usize::MAX as nat
    } else {
        (a + b) as nat
    }
}

/// The text of the part of the status line that tells where the main caret
/// stands in the file.
pub open spec fn position_part(buffer: BufferView) -> Seq<char> {
    if buffer.data.len() == 0 {
        " empty "@
    } else {
        " "@ + digits(
            capped(
                buffer.data_start_offset as int,
                buffer.selection.regions[buffer.selection.main_selection].caret as int,
            ),
            16,
        ) + "/"@ + digits(capped(buffer.data_start_offset as int, buffer.data.len() - 1), 16)
            + " "@
    }
}

impl HexView {
    /// How each byte on the screen is drawn, from the first on the screen
    /// to the last of `visible`.
    pub fn mark_commands(&self, visible: ByteRange) -> (looks: Vec<Look>)
        requires
            self.wf(),
        ensures
            looks@.len() == if visible.start <= visible.end {
                visible.end - visible.start
            } else {
                0
            },
            forall|i: int|
                0 <= i < looks@.len() ==> #[trigger] looks@[i] == look_at(
                    self.buffr_collection.spec_current()@.selection,
                    visible.start + i,
                ),
    {
        let buffer = self.buffr_collection.current();
        let mut looks: Vec<Look> = Vec::new();
        if visible.end <= visible.start {
            return looks;
        }
        let mut offset: usize = visible.start;
        while offset < visible.end
            invariant
                visible.start <= offset <= visible.end,
                buffer.selection.wf(),
                buffer.selection@ == self.buffr_collection.spec_current()@.selection,
                looks@.len() == offset - visible.start,
                forall|i: int|
                    0 <= i < looks@.len() ==> #[trigger] looks@[i] == look_at(
                        buffer.selection@,
                        visible.start + i,
                    ),
            decreases visible.end - offset,
        {
            looks.push(look_of(&buffer.selection, offset));
            offset += 1;
        }
        looks
    }

    /// How the place behind the last byte is drawn, if an end of the last
    /// region stands there: as an empty caret for a caret, as nothing
    /// special for a tail. The second part tells whether only the second
    /// half of the place is drawn so.
    pub fn overflow_cursor_style(&self) -> (style: Option<(Look, bool)>)
        requires
            self.wf(),
        ensures
            ({
                let buffer = self.buffr_collection.spec_current()@;
                let last = buffer.selection.regions.last();
                let len = buffer.data.len();
                let half = match self.mode {
                    crate::modes::mode::Mode::Insert(mode) => mode.hex_half is Some,
                    crate::modes::mode::Mode::Replace(mode) => mode.hex_half is Some,
                    _ => false,
                };
                style == if last.caret == len {
                    Some((Look::EmptyCaret, half))
                } else if last.tail == len {
                    Some((Look::Default, false))
                } else {
                    None
                }
            }),
    {
        match self.buffr_collection.current().overflow_sel_style() {
            Some(OverflowSelectionStyle::CursorTail) | Some(OverflowSelectionStyle::Cursor) => Some(
                (Look::EmptyCaret, self.mode.has_half_cursor()),
            ),
            Some(OverflowSelectionStyle::Tail) => Some((Look::Default, false)),
            None => None,
        }
    }

    /// The parts of the status line.
    pub fn draw_statusline_here(&self) -> (line: Statusline)
        requires
            self.wf(),
        ensures
            line.name@ == name_part(self.buffr_collection.spec_current()@),
            line.mode@ == " "@ + self.mode.spec_name() + " "@,
            line.selections@ == selections_part(self.buffr_collection.spec_current()@.selection),
            line.position@ == position_part(self.buffr_collection.spec_current()@),
    {
        let buf = self.buffr_collection.current();
        let mut name = " ".to_owned();
        let own = buf.name();
        name.append(own.as_str());
        if buf.dirty {
            name.append("[+]");
        }
        name.append(" ");
        proof {
            assert(name@ =~= name_part(buf@));
        }
        let mut mode = " ".to_owned();
        let mode_name = self.mode.name();
        mode.append(mode_name.as_str());
        mode.append(" ");
        proof {
            assert(mode@ =~= " "@ + self.mode.spec_name() + " "@);
        }
        let mut selections = " ".to_owned();
        push_number(&mut selections, buf.selection.len(), 10);
        selections.append(" sels (");
        push_number(&mut selections, buf.selection.main_selection + 1, 10);
        selections.append(") ");
        proof {
            assert(selections@ =~= selections_part(buf@.selection));
        }
        let position = if !buf.data.is_empty() {
            let mut position = " ".to_owned();
            let caret = buf.data_start_offset.saturating_add(buf.selection.main_cursor_offset());
            let last = buf.data_start_offset.saturating_add(buf.data.len() - 1);
            push_number(&mut position, caret, 16);
            position.append("/");
            push_number(&mut position, last, 16);
            position.append(" ");
            proof {
                assert(position@ =~= position_part(buf@));
            }
            position
        } else {
            " empty ".to_owned()
        };
        Statusline { name, mode, selections, position }
    }
}

/// The columns of the prompt line that show what is typed: from which
/// place on it is shown, and up to which place.
#[derive(Clone, Copy, Debug, PartialEq, Eq, Structural)]
pub struct PromptWindow {
    pub start: usize,
    pub end: usize,
}

/// From which place on a line of `len` places is shown in `width` columns,
/// one place to a column, so that the cursor is on it: from where it was
/// shown last if that is possible, and as near to it as possible otherwise.
pub open spec fn window_start(len: int, cursor: int, width: int, last_start: int) -> int {
    let fitted = if last_start >= len {
        if len == 0 { 0 } else { len - 1 }
    } else {
        last_start
    };
    let before = if cursor < fitted { cursor } else { fitted };
    if cursor - before > width {
        cursor - width
    } else {
        before
    }
}

fn prompt_window(len: usize, cursor: usize, width: usize, last_start: usize) -> (window: PromptWindow)
    requires
        cursor <= len,
    ensures
        window.start == window_start(len as int, cursor as int, width as int, last_start as int),
        window.end == if window.start + width < len { window.start + width } else { len as int },
        window.start <= cursor,
        window.start <= window.end <= len,
{
    let fitted = if last_start >= len {
        if len == 0 { 0 } else { len - 1 }
    } else {
        last_start
    };
    let before = if cursor < fitted { cursor } else { fitted };
    let start = if cursor - before > width { cursor - width } else { before };
    let end = if width < len - start { start + width } else { len };
    PromptWindow { start, end }
}

/// The columns that are left for what is typed: those of the line less
/// those of the label, and less one for the cursor if it stands at the end.
pub open spec fn prompt_width(max_width: int, label: int, at_end: bool) -> int {
    let rest = if max_width >= label { max_width - label } else { 0 };
    if at_end && rest > 0 {
        rest - 1
    } else {
        rest
    }
}

impl Command {
    /// Which part of the command the prompt line shows, behind its colon,
    /// in `max_width` columns, when it showed the command from `last_start_col`
    /// on before.
    pub fn render_with_size(&self, max_width: usize, last_start_col: usize) -> (window: PromptWindow)
        ensures
            ({
                let len = self.command@.len() as int;
                let cursor = if self.cursor > len { len } else { self.cursor as int };
                let width = prompt_width(max_width as int, 1, cursor == len);
                &&& window.start == window_start(len, cursor, width, last_start_col as int)
                &&& window.end == if window.start + width < len { window.start + width } else { len }
                &&& window.start <= cursor
            }),
    {
        let len = self.command.len();
        let cursor = if self.cursor > len { len } else { self.cursor };
        let rest = if max_width >= 1 { max_width - 1 } else { 0 };
        let width = if cursor == len && rest > 0 { rest - 1 } else { rest };
        prompt_window(len, cursor, width, last_start_col)
    }
}

/// The columns that a place of the pattern takes when it is shown as text:
/// one for a wildcard and for a byte that can be seen, four for another
/// byte.
pub open spec fn piece_columns(piece: PatternPiece) -> int {
    match piece {
        PatternPiece::Wildcard => 1,
        PatternPiece::Literal(byte) => if 0x20 <= byte <= 0x7e { 1 } else { 4 },
    }
}

/// The columns that the places from `from` up to `to` take as text.
pub open spec fn text_columns(pieces: Seq<PatternPiece>, from: int, to: int) -> int
    decreases to - from,
{
    if to <= from {
        0
    } else {
        text_columns(pieces, from, to - 1) + piece_columns(pieces[to - 1])
    }
}

/// Leaving out the first place leaves out its columns.
pub proof fn lemma_text_columns_front(pieces: Seq<PatternPiece>, from: int, to: int)
    requires
        from < to,
    ensures
        text_columns(pieces, from, to) == piece_columns(pieces[from]) + text_columns(
            pieces,
            from + 1,
            to,
        ),
    decreases to - from,
{
    if from + 1 < to {
        lemma_text_columns_front(pieces, from, to - 1);
        assert(text_columns(pieces, from + 1, to) == text_columns(pieces, from + 1, to - 1)
            + piece_columns(pieces[to - 1]));
    } else {
        assert(text_columns(pieces, from, to - 1) == 0);
        assert(text_columns(pieces, from + 1, to) == 0);
    }
}

/// How a byte is written where it stands for itself: as its character if
/// that can be seen, as its two hex digits in angle brackets otherwise.
pub open spec fn mixed_text(byte: u8) -> Seq<char> {
    if 0x20 <= byte <= 0x7e {
        seq![byte as char]
    } else {
        seq!['<', digit_char(byte as int / 16), digit_char(byte as int % 16), '>']
    }
}

/// How a byte is written where it stands for itself.
pub fn mixed_repr(byte: u8) -> (text: String)
    ensures
        text@ == mixed_text(byte),
        text@.len() == piece_columns(PatternPiece::Literal(byte)),
{
    if 0x20 <= byte && byte <= 0x7e {
        let mut chars: Vec<char> = Vec::new();
        chars.push(byte as char);
        assert(chars@ =~= seq![byte as char]);
        string_of(&chars)
    } else {
        proof {
            reveal_strlit("<");
            reveal_strlit(">");
        }
        let mut text = "<".to_owned();
        push_digit(&mut text, (byte / 16) as usize);
        push_digit(&mut text, (byte % 16) as usize);
        text.append(">");
        assert(text@ =~= mixed_text(byte));
        text
    }
}

impl HexView {
    /// The columns that the status line takes: those of its parts and one
    /// for the arrow before each.
    pub fn calculate_powerline_length(&self) -> (length: usize)
        requires
            self.wf(),
        ensures
            ({
                let buffer = self.buffr_collection.spec_current()@;
                let columns = 4 + name_part(buffer).len() + (" "@ + self.mode.spec_name()
                    + " "@).len() + selections_part(buffer.selection).len() + position_part(
                    buffer,
                ).len();
                length == if columns > usize::MAX { usize::MAX as int } else { columns as int }
            }),
    {
        let line = self.draw_statusline_here();
        let mut length: usize = 4;
        length = length.saturating_add(line.name.as_str().unicode_len());
        length = length.saturating_add(line.mode.as_str().unicode_len());
        length = length.saturating_add(line.selections.as_str().unicode_len());
        length = length.saturating_add(line.position.as_str().unicode_len());
        length
    }
}

impl Search {
    /// Whether `window` is the part of the pattern that the prompt line
    /// shows as text, behind its label of seven columns: from the place from
    /// which it showed the pattern last if the cursor is on the line then,
    /// else from the first place from which it is; and as many places as fit.
    pub open spec fn shows_as_text(self, max_width: usize, last_start_col: usize, window: PromptWindow) -> bool {
        let pieces = self.pattern.pieces@;
        let len = pieces.len() as int;
        let cursor = if self.cursor > len { len } else { self.cursor as int };
        let width = prompt_width(max_width as int, 7, cursor == len);
        let from = window_start(len, cursor, len, last_start_col as int);
        &&& from <= window.start <= cursor <= window.end <= len
        &&& text_columns(pieces, window.start as int, cursor) <= width
        &&& window.start == from || text_columns(pieces, window.start - 1, cursor) > width
        &&& text_columns(pieces, window.start as int, window.end as int) <= width
        &&& window.end == len || text_columns(pieces, window.start as int, window.end + 1) > width
    }

    /// Which places of the pattern the prompt line shows as text.
    pub fn text_window(&self, max_width: usize, last_start_col: usize) -> (window: PromptWindow)
        ensures
            self.shows_as_text(max_width, last_start_col, window),
    {
        let len = self.pattern.pieces.len();
        let cursor = if self.cursor > len { len } else { self.cursor };
        let rest = if max_width >= 7 { max_width - 7 } else { 0 };
        let width = if cursor == len && rest > 0 { rest - 1 } else { rest };
        let from = prompt_window(len, cursor, len, last_start_col).start;
        let ghost pieces = self.pattern.pieces@;
        // the columns from a place up to the cursor, place by place from the cursor back
        let mut start: usize = cursor;
        let mut used: usize = 0;
        while start > from && Search::piece_width(self.pattern.pieces[start - 1]) <= width - used
            invariant
                from <= start <= cursor <= len,
                pieces == self.pattern.pieces@,
                len == pieces.len(),
                used == text_columns(pieces, start as int, cursor as int),
                used <= width,
            decreases start,
        {
            proof {
                lemma_text_columns_front(pieces, start - 1, cursor as int);
            }
            used = used + Search::piece_width(self.pattern.pieces[start - 1]);
            start = start - 1;
        }
        proof {
            if start > from {
                lemma_text_columns_front(pieces, start - 1, cursor as int);
            }
        }
        let mut end: usize = cursor;
        while end < len && Search::piece_width(self.pattern.pieces[end]) <= width - used
            invariant
                start <= cursor <= end <= len,
                pieces == self.pattern.pieces@,
                len == pieces.len(),
                used == text_columns(pieces, start as int, end as int),
                used <= width,
            decreases len - end,
        {
            used = used + Search::piece_width(self.pattern.pieces[end]);
            end = end + 1;
        }
        PromptWindow { start, end }
    }

    /// Which places of the pattern the prompt line shows: as text what
    /// `text_window` says; in hex, behind the label of seven columns, three
    /// columns to a place.
    pub fn render_with_size(&self, max_width: usize, last_start_col: usize) -> (window: PromptWindow)
        ensures
            !self.hex ==> self.shows_as_text(max_width, last_start_col, window),
            self.hex ==> ({
                let len = self.pattern.pieces@.len() as int;
                let cursor = if self.cursor > len { len } else { self.cursor as int };
                let columns = prompt_width(max_width as int, 7, false);
                let width = if columns / 3 >= 1 { columns / 3 - 1 } else { 0 };
                &&& window.start == window_start(len, cursor, width, last_start_col as int)
                &&& window.end == if window.start + width + 1 < len {
                    window.start + width + 1
                } else {
                    len
                }
                &&& window.start <= cursor
            }),
    {
        if !self.hex {
            return self.text_window(max_width, last_start_col);
        }
        let len = self.pattern.pieces.len();
        let cursor = if self.cursor > len { len } else { self.cursor };
        let columns = if max_width >= 7 { max_width - 7 } else { 0 };
        let places = columns / 3;
        let width = if places >= 1 { places - 1 } else { 0 };
        let window = prompt_window(len, cursor, width, last_start_col);
        PromptWindow {
            start: window.start,
            end: if window.end < len { window.end + 1 } else { window.end },
        }
    }

    /// The columns that a place of the pattern takes when it is shown as
    /// text.
    pub fn piece_width(piece: PatternPiece) -> (columns: usize)
        ensures
            columns == piece_columns(piece),
    {
        match piece {
            PatternPiece::Wildcard => 1,
            PatternPiece::Literal(byte) => if 0x20 <= byte && byte <= 0x7e { 1 } else { 4 },
        }
    }
}

} // verus!

use tofu::hex_view::render::{
    ascii_repr, byte_properties, hex_pair, look_of, mixed_repr, row_padding, Look, PromptWindow,
};
use tofu::hex_view::view::HexView;
use tofu::byte_range::ByteRange;
use tofu::modes::command::Command;
use tofu::modes::insert::{Insert, InsertionMode};
use tofu::modes::mode::Mode;
use tofu::modes::search::{Acceptor, Pattern, PatternPiece, Search};
use tofu::selection::{SelRegion, Selection};
use tofu::text::chars_of;
use tofu::{BuffrCollection, CurrentBuffer};

fn view_of(text: &str) -> HexView {
    let buffer = CurrentBuffer::from_data_and_path(text.as_bytes().to_vec(), None);
    HexView::with_buffr_collection(BuffrCollection::with_current_buffer(buffer), (80, 24))
}

#[test]
fn looks_put_carets_before_regions_and_main_before_others() {
    let selection = Selection {
        regions: vec![SelRegion::new(2, 5), SelRegion::new(8, 4), SelRegion::new(12, 12)],
        main_selection: 1,
    };
    let looks: Vec<Look> = (0..14).map(|offset| look_of(&selection, offset)).collect();
    assert_eq!(
        looks,
        vec![
            Look::Default,
            Look::Default,
            Look::InactiveCaret,
            Look::InactiveSelection,
            Look::ActiveSelection,
            Look::ActiveSelection,
            Look::ActiveSelection,
            Look::ActiveSelection,
            Look::ActiveCaret,
            Look::Default,
            Look::Default,
            Look::Default,
            Look::InactiveCaret,
            Look::Default,
        ]
    );
    let mut view = view_of("0123456789abcdef");
    view.buffr_collection.current_mut().selection = selection;
    assert_eq!(
        view.mark_commands(ByteRange::new(7, 10)),
        vec![Look::ActiveSelection, Look::ActiveCaret, Look::Default]
    );
    assert_eq!(view.mark_commands(ByteRange::new(7, 7)), vec![]);
    assert_eq!(view.mark_commands(ByteRange::new(9, 7)), vec![]);
}

#[test]
fn bytes_are_written_in_hex_and_text() {
    assert_eq!(hex_pair(0x00), ('0', '0'));
    assert_eq!(hex_pair(0x4a), ('4', 'a'));
    assert_eq!(hex_pair(0xff), ('f', 'f'));
    assert_eq!(ascii_repr(b'A'), 'A');
    assert_eq!(ascii_repr(b' '), ' ');
    assert_eq!(ascii_repr(b'~'), '~');
    assert_eq!(ascii_repr(0x7f), '.');
    assert_eq!(ascii_repr(0x1f), '.');
    assert_eq!(ascii_repr(0xe9), '.');
    assert_eq!(mixed_repr(b'A'), "A");
    assert_eq!(mixed_repr(b' '), " ");
    assert_eq!(mixed_repr(0x0a), "<0a>");
    assert_eq!(mixed_repr(0xff), "<ff>");
    assert_eq!(row_padding(16, 16, 3), 0);
    assert_eq!(row_padding(10, 16, 3), 18);
    assert_eq!(row_padding(0, 16, 1), 16);
    assert_eq!(row_padding(20, 16, 3), 0);
    assert_eq!(row_padding(0, usize::MAX, 3), usize::MAX);
}

#[test]
fn byte_properties_decode_in_both_orders() {
    let p = byte_properties(&vec![0x01, 0x02, 0x03, 0xff, 0x99]);
    assert_eq!(p.unsigned_8, Some(1));
    assert_eq!(p.signed_8, Some(1));
    assert_eq!(p.unsigned_16_le, Some(0x0201));
    assert_eq!(p.unsigned_16_be, Some(0x0102));
    assert_eq!(p.signed_16_le, Some(0x0201));
    assert_eq!(p.unsigned_32_le, Some(0xff030201));
    assert_eq!(p.unsigned_32_be, Some(0x010203ff));
    assert_eq!(p.signed_32_le, Some(-16580095));
    assert_eq!(p.signed_32_be, Some(0x010203ff));
    let q = byte_properties(&vec![0x80, 0xff]);
    assert_eq!(q.unsigned_8, Some(128));
    assert_eq!(q.signed_8, Some(-128));
    assert_eq!(q.unsigned_16_le, Some(0xff80));
    assert_eq!(q.signed_16_le, Some(-128));
    assert_eq!(q.signed_16_be, Some(-32513));
    assert_eq!(q.unsigned_32_le, None);
    assert_eq!(q.signed_32_be, None);
    let none = byte_properties(&vec![]);
    assert_eq!(none.unsigned_8, None);
    assert_eq!(none.signed_16_be, None);
    let one = byte_properties(&vec![0xff]);
    assert_eq!(one.signed_8, Some(-1));
    assert_eq!(one.unsigned_16_be, None);
}

#[test]
fn statusline_tells_name_mode_regions_and_position() {
    let mut view = view_of(&"x".repeat(300));
    let line = view.draw_statusline_here();
    assert_eq!(line.name, " *scratch* ");
    assert_eq!(line.mode, " NORMAL ");
    assert_eq!(line.selections, " 1 sels (1) ");
    assert_eq!(line.position, " 0/12b ");
    assert_eq!(view.calculate_powerline_length(), 4 + 11 + 8 + 12 + 7);
    {
        let buffer = view.buffr_collection.current_mut();
        buffer.path = Some("/tmp/f".to_string());
        buffer.dirty = true;
        buffer.data_start_offset = 0x1000;
        buffer.selection = Selection {
            regions: vec![SelRegion::new(1, 1), SelRegion::new(255, 2)],
            main_selection: 1,
        };
    }
    view.mode = Mode::Insert(Insert { hex: true, mode: InsertionMode::Append, hex_half: None });
    let line = view.draw_statusline_here();
    assert_eq!(line.name, " /tmp/f[+] ");
    assert_eq!(line.mode, " APPEND (hex) ");
    assert_eq!(line.selections, " 2 sels (2) ");
    assert_eq!(line.position, " 10ff/112b ");
    let empty = view_of("");
    assert_eq!(empty.draw_statusline_here().position, " empty ");
}

#[test]
fn overflow_caret_is_drawn_behind_the_last_byte() {
    let mut view = view_of("0123");
    assert_eq!(view.overflow_cursor_style(), None);
    view.buffr_collection.current_mut().selection =
        Selection { regions: vec![SelRegion::new(4, 4)], main_selection: 0 };
    assert_eq!(view.overflow_cursor_style(), Some((Look::EmptyCaret, false)));
    view.mode = Mode::Insert(Insert { hex: true, mode: InsertionMode::Insert, hex_half: Some(3) });
    assert_eq!(view.overflow_cursor_style(), Some((Look::EmptyCaret, true)));
    view.buffr_collection.current_mut().selection =
        Selection { regions: vec![SelRegion::new(1, 4)], main_selection: 0 };
    assert_eq!(view.overflow_cursor_style(), Some((Look::Default, false)));
}

#[test]
fn command_prompt_keeps_the_cursor_on_the_line() {
    let command = |text: &str, cursor: usize| Command { command: chars_of(text), cursor };
    let window = |start, end| PromptWindow { start, end };
    assert_eq!(command("", 0).render_with_size(80, 0), window(0, 0));
    assert_eq!(command("write", 5).render_with_size(80, 0), window(0, 5));
    assert_eq!(command("0123456789", 10).render_with_size(6, 0), window(6, 10));
    assert_eq!(command("0123456789", 3).render_with_size(6, 0), window(0, 5));
    assert_eq!(command("0123456789", 3).render_with_size(6, 6), window(3, 8));
    assert_eq!(command("0123456789", 7).render_with_size(6, 1), window(2, 7));
    assert_eq!(command("0123456789", 7).render_with_size(6, 4), window(4, 9));
    assert_eq!(command("abc", 1).render_with_size(80, 9), window(1, 3));
    assert_eq!(command("abc", 9).render_with_size(0, 0), window(3, 3));
}

#[test]
fn search_prompt_counts_columns() {
    let pieces = |text: &[u8]| Pattern {
        pieces: text
            .iter()
            .map(|&b| if b == b'*' { PatternPiece::Wildcard } else { PatternPiece::Literal(b) })
            .collect(),
    };
    let search = |hex: bool, text: &[u8], cursor: usize| Search {
        acceptor: Acceptor::Collapse,
        hex,
        pattern: pieces(text),
        cursor,
        hex_half: None,
    };
    let window = |start, end| PromptWindow { start, end };
    assert_eq!(search(true, b"abcdefgh", 8).render_with_size(7 + 9, 0), window(6, 8));
    assert_eq!(search(true, b"abcdefgh", 2).render_with_size(7 + 9, 0), window(0, 3));
    assert_eq!(search(true, b"abcdefgh", 2).render_with_size(7 + 9, 5), window(2, 5));
    assert_eq!(search(true, b"", 0).render_with_size(80, 3), window(0, 0));
    assert_eq!(search(false, b"abcdefgh", 8).render_with_size(7 + 4, 0), window(5, 8));
    assert_eq!(search(false, b"abcdefgh", 2).render_with_size(7 + 4, 0), window(0, 4));
    assert_eq!(search(false, b"a\x01b\x02c", 5).render_with_size(7 + 7, 0), window(2, 5));
    assert_eq!(search(false, b"a\x01b\x02c", 1).render_with_size(7 + 7, 0), window(0, 3));
    assert_eq!(search(false, b"a\x01b\x02c", 4).render_with_size(7 + 7, 4), window(4, 5));
    assert_eq!(search(false, b"a\x01b\x02c", 4).render_with_size(7 + 7, 9), window(4, 5));
    assert_eq!(search(false, b"a\x01b\x02c", 2).render_with_size(7 + 7, 4), window(2, 5));
    assert_eq!(search(false, b"a\x01b\x02c", 2).render_with_size(7 + 5, 4), window(2, 4));
    assert_eq!(search(false, b"\x01", 0).render_with_size(7 + 3, 0), window(0, 0));
    assert_eq!(Search::piece_width(PatternPiece::Wildcard), 1);
    assert_eq!(Search::piece_width(PatternPiece::Literal(b'a')), 1);
    assert_eq!(Search::piece_width(PatternPiece::Literal(0)), 4);
    assert_eq!(search(false, b"ab", 1).name(), "SEARCH");
}

use tofu::byte_range::ByteRange;
use tofu::hex_view::view::{DefaultAction, HexView, OffScreen, PagerRequest, Scrolled};
use tofu::keymap::{Event, KeyCode, KeyEvent, KeyModifiers};
use tofu::selection::{SelRegion, Selection};
use tofu::text::{chars_of, decimal, decimal_digit, hex_digit, hexadecimal, push_number, string_of};
use tofu::{BuffrCollection, CurrentBuffer};

fn view_of(len: usize, rows: u16) -> HexView {
    let data: Vec<u8> = (0..len).map(|i| (i % 256) as u8).collect();
    let buffer = CurrentBuffer::from_data_and_path(data, None);
    HexView::with_buffr_collection(BuffrCollection::with_current_buffer(buffer), (80, rows))
}

fn control(c: char) -> Event {
    Event::Key(KeyEvent {
        code: KeyCode::Char(c),
        modifiers: KeyModifiers { shift: false, control: true, alt: false },
    })
}

#[test]
fn view_starts_at_the_top_in_normal_mode() {
    let mut view = view_of(1000, 24);
    assert_eq!(view.bytes_per_line, 16);
    assert_eq!(view.start_offset, 0);
    assert_eq!(view.size, (80, 24));
    assert_eq!(view.mode.name(), "NORMAL");
    assert!(view.info.is_none());
    assert_eq!(view.visible_rows(), 22);
    assert_eq!(view.chunk_size(), 352);
    view.set_bytes_per_line(8);
    assert_eq!(view.bytes_per_line, 8);
    assert_eq!(view.chunk_size(), 176);
    assert_eq!(view_of(10, 1).visible_rows(), 0);
    assert_eq!(view_of(10, 0).chunk_size(), 0);
}

#[test]
fn view_rows_of_offsets() {
    let mut view = view_of(1000, 24);
    view.start_offset = 32;
    assert_eq!(view.offset_to_row(48), Ok(1));
    assert_eq!(view.offset_to_row(32), Ok(0));
    assert_eq!(view.offset_to_row(47), Ok(0));
    assert_eq!(view.offset_to_row(416), Err(OffScreen));
    assert_eq!(view.offset_to_row(415), Ok(23));
    assert_eq!(view.offset_to_row(31), Err(OffScreen));
    view.set_bytes_per_line(0);
    assert_eq!(view.offset_to_row(48), Err(OffScreen));
    assert!(view.is_valid_offset(999));
    assert!(!view.is_valid_offset(1000));
}

#[test]
fn view_visible_bytes_end_with_the_screen_or_the_buffer() {
    let mut view = view_of(1000, 24);
    assert_eq!(view.visible_bytes(), ByteRange::new(0, 352));
    view.start_offset = 800;
    assert_eq!(view.visible_bytes(), ByteRange::new(800, 1001));
    assert_eq!(view.rows_of_range(ByteRange::new(0, 10)), None);
    assert_eq!(view.rows_of_range(ByteRange::new(790, 817)), Some((0, 1)));
    assert_eq!(view.rows_of_range(ByteRange::new(1000, 1001)), Some((12, 12)));
    assert_eq!(view.rows_of_range(ByteRange::new(900, 900)), None);
}

#[test]
fn view_scrolls_by_lines() {
    let mut view = view_of(1000, 24);
    assert_eq!(view.scroll_down(2), Scrolled::Lines { lines: 2 });
    assert_eq!(view.start_offset, 32);
    assert_eq!(view.scroll_down(30), Scrolled::All);
    assert_eq!(view.start_offset, 512);
    assert_eq!(view.scroll_down(31), Scrolled::Stay);
    assert_eq!(view.start_offset, 512);
    assert_eq!(view.scroll_down(usize::MAX), Scrolled::Stay);
    assert_eq!(view.scroll_up(33), Scrolled::Stay);
    assert_eq!(view.scroll_up(32), Scrolled::All);
    assert_eq!(view.start_offset, 0);
    assert_eq!(view.scroll_up(0), Scrolled::Lines { lines: 0 });
    assert_eq!(view.scroll_up(1), Scrolled::Stay);
}

#[test]
fn view_follows_the_main_caret() {
    let mut view = view_of(1000, 24);
    view.buffr_collection.current_mut().selection =
        Selection { regions: vec![SelRegion::new(700, 700)], main_selection: 0 };
    view.maybe_update_offset();
    assert_eq!(view.start_offset, 688 + 16 - 352);
    view.maybe_update_offset();
    assert_eq!(view.start_offset, 352);
    view.buffr_collection.current_mut().selection =
        Selection { regions: vec![SelRegion::new(37, 37)], main_selection: 0 };
    view.maybe_update_offset();
    assert_eq!(view.start_offset, 32);
    view.buffr_collection.current_mut().selection =
        Selection { regions: vec![SelRegion::new(40, 40)], main_selection: 0 };
    view.maybe_update_offset();
    assert_eq!(view.start_offset, 32);
}

#[test]
fn view_handles_what_the_mode_leaves() {
    let mut view = view_of(1000, 24);
    assert_eq!(view.handle_event_default(Event::Resize(100, 40)), DefaultAction::Resized);
    assert_eq!(view.size, (100, 40));
    assert_eq!(view.handle_event_default(control('e')), DefaultAction::LineDown);
    assert_eq!(view.start_offset, 16);
    assert_eq!(view.buffr_collection.current().selection.regions, vec![SelRegion::new(16, 16)]);
    assert_eq!(view.handle_event_default(control('y')), DefaultAction::LineUp);
    assert_eq!(view.start_offset, 0);
    assert_eq!(view.buffr_collection.current().selection.regions, vec![SelRegion::new(0, 0)]);
    assert_eq!(view.handle_event_default(control('x')), DefaultAction::Ignore);
    assert_eq!(view.handle_event_default(Event::Mouse), DefaultAction::Ignore);
    assert_eq!(
        view.handle_event_default(Event::Key(KeyEvent::char('e'))),
        DefaultAction::Ignore
    );
}

#[test]
fn view_asks_for_chunks_near_the_ends() {
    let mut view = view_of(2000, 24);
    assert!(!view.is_near_bottom());
    assert!(view.is_near_top());
    assert!(view.should_trim_buffer());
    assert!(!view_of(1056, 24).should_trim_buffer());
    assert!(view_of(1057, 24).should_trim_buffer());
    assert_eq!(view.manage_buffer(), None);
    view.buffr_collection.current_mut().path = Some("f".to_string());
    assert_eq!(view.manage_buffer(), None);
    view.buffr_collection.current_mut().data_start_offset = 100;
    assert_eq!(view.manage_buffer(), Some(PagerRequest::Top { from: 0, size: 100 }));
    view.buffr_collection.current_mut().data_start_offset = 1000;
    assert_eq!(view.manage_buffer(), Some(PagerRequest::Top { from: 648, size: 352 }));
    view.start_offset = 1600;
    assert!(view.is_near_bottom());
    assert!(!view.is_near_top());
    assert_eq!(view.manage_buffer(), Some(PagerRequest::Bottom { from: 3000, size: 352 }));
    view.start_offset = 800;
    assert_eq!(view.manage_buffer(), None);
}

#[test]
fn scrolling_through_a_file_keeps_a_window_on_it() {
    let file: Vec<u8> = (0..60_000usize).map(|i| (i * 31 % 253) as u8).collect();
    let rows = 24u16;
    let first = (rows as usize - 2) * 16;
    let buffer = CurrentBuffer::from_data_and_path(file[..first].to_vec(), Some("f".to_string()));
    let mut view = HexView::with_buffr_collection(
        BuffrCollection::with_current_buffer(buffer),
        (80, rows),
    );
    let chunk = view.chunk_size();
    for _ in 0..400 {
        view.handle_event_default(control('e'));
        if let Some(request) = view.manage_buffer() {
            match request {
                PagerRequest::Bottom { from, size } => {
                    let end = (from + size).min(file.len());
                    view.add_chunk_to_bottom(file[from.min(end)..end].to_vec());
                }
                PagerRequest::Top { from, size } => {
                    view.add_chunk_to_top(file[from..from + size].to_vec());
                }
            }
        }
        let buffer = view.buffr_collection.current();
        let start = buffer.data_start_offset;
        assert_eq!(buffer.data.to_vec(), file[start..start + buffer.data.len()].to_vec());
        assert!(buffer.data.len() <= 3 * chunk + chunk);
    }
    let buffer = view.buffr_collection.current();
    assert!(buffer.data_start_offset > 0);
    assert!(buffer.data.len() <= 3 * chunk);
    let top = buffer.data_start_offset + view.start_offset;
    assert_eq!(top, 400 * 16);
    assert_eq!(
        buffer.data.slice(view.start_offset, view.start_offset + 16).unwrap(),
        file[top..top + 16].to_vec()
    );
    let caret = buffer.selection.main_cursor_offset();
    assert_eq!(buffer.data_start_offset + caret, 400 * 16);
    assert!(!buffer.dirty);
}

#[test]
fn numbers_are_written_in_decimal_and_hex() {
    assert_eq!(decimal(0), "0");
    assert_eq!(decimal(7), "7");
    assert_eq!(decimal(1234567890), "1234567890");
    assert_eq!(hexadecimal(0), "0");
    assert_eq!(hexadecimal(255), "ff");
    assert_eq!(hexadecimal(0xdeadbeef), "deadbeef");
    assert_eq!(decimal(usize::MAX), usize::MAX.to_string());
    let mut text = String::from("n=");
    push_number(&mut text, 5, 2);
    assert_eq!(text, "n=101");
    assert_eq!(hex_digit('a'), Some(10));
    assert_eq!(hex_digit('F'), Some(15));
    assert_eq!(hex_digit('g'), None);
    assert_eq!(decimal_digit('9'), Some(9));
    assert_eq!(decimal_digit('a'), None);
    assert_eq!(string_of(&vec!['h', 'é', 'x']), "héx");
    assert_eq!(string_of(&vec![]), "");
    assert_eq!(chars_of("héx"), vec!['h', 'é', 'x']);
}

#[test]
fn scrolling_up_pages_the_start_of_the_file_back_in() {
    let file: Vec<u8> = (0..40_000usize).map(|i| (i * 17 % 251) as u8).collect();
    let window_start = 20_000;
    let mut buffer = CurrentBuffer::from_data_and_path(
        file[window_start..window_start + 1_000].to_vec(),
        Some("f".to_string()),
    );
    buffer.data_start_offset = window_start;
    buffer.selection = Selection { regions: vec![SelRegion::new(512, 512)], main_selection: 0 };
    let mut view =
        HexView::with_buffr_collection(BuffrCollection::with_current_buffer(buffer), (80, 24));
    view.start_offset = 512;
    let chunk = view.chunk_size();
    let mut tops = 0;
    for _ in 0..1_400 {
        view.handle_event_default(control('y'));
        match view.manage_buffer() {
            Some(PagerRequest::Top { from, size }) => {
                assert!(view.add_chunk_to_top(file[from..from + size].to_vec()));
                tops += 1;
            }
            Some(PagerRequest::Bottom { from, size }) => {
                let end = (from + size).min(file.len());
                view.add_chunk_to_bottom(file[from..end].to_vec());
            }
            None => {}
        }
        let buffer = view.buffr_collection.current();
        let start = buffer.data_start_offset;
        assert_eq!(buffer.data.to_vec(), file[start..start + buffer.data.len()].to_vec());
        assert!(buffer.data.len() <= 4 * chunk);
        let caret = buffer.selection.main_cursor_offset();
        assert_eq!(start + caret, start + view.start_offset);
    }
    assert!(tops > 10);
    let buffer = view.buffr_collection.current();
    assert_eq!(buffer.data_start_offset, 0);
    assert_eq!(view.start_offset, 0);
    assert_eq!(buffer.selection.main_cursor_offset(), 0);
    assert!(!buffer.dirty);
}

#[test]
fn chunks_are_taken_in_through_the_buffer() {
    let mut buffer = CurrentBuffer::from_data_and_path(vec![1, 2, 3], Some("f".to_string()));
    assert!(buffer.load_next_chunk(vec![4, 5]));
    assert!(!buffer.load_next_chunk(vec![]));
    assert_eq!(buffer.data.to_vec(), vec![1, 2, 3, 4, 5]);
    assert!(!buffer.dirty);
    assert!(buffer.is_wf());
    buffer.selection = Selection { regions: vec![SelRegion::new(9, 0)], main_selection: 0 };
    assert!(!buffer.is_wf());
    buffer.selection = Selection { regions: vec![], main_selection: 0 };
    assert!(!buffer.is_wf());
    let mut buffers = BuffrCollection::new();
    assert!(buffers.is_wf());
    buffers.cur_buf_index = 1;
    assert!(!buffers.is_wf());
}

#[test]
fn view_counts_the_rows_in_use() {
    let mut view = view_of(1000, 24);
    view.note_visible_rows();
    assert_eq!(view.last_visible_rows, 22);
    view.start_offset = 960;
    view.note_visible_rows();
    assert_eq!(view.last_visible_rows, 3);
    view.start_offset = 992;
    view.note_visible_rows();
    assert_eq!(view.last_visible_rows, 1);
    view.set_bytes_per_line(0);
    view.note_visible_rows();
    assert_eq!(view.last_visible_rows, 0);
}

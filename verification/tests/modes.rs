use tofu::cmd_count::{State, Transition};
use tofu::hex_view::view::{Followup, HexView};
use tofu::keymap::{Chord, Event, KeyCode, KeyEvent, KeyModifiers};
use tofu::modes::collapse::Collapse;
use tofu::modes::command::{self, Command, Handler};
use tofu::modes::insert::{Insert, InsertionMode};
use tofu::modes::jumpto::JumpTo;
use tofu::modes::mode::{CommandRequest, DirtyBytes, Mode, ModeTransition};
use tofu::modes::normal::{default_maps, Action, Normal};
use tofu::modes::replace::Replace;
use tofu::modes::search::{Acceptor, Pattern, PatternPiece, Search};
use tofu::modes::split::Split;
use tofu::selection::{Direction, SelRegion, Selection};
use tofu::text::chars_of;
use tofu::{BuffrCollection, CurrentBuffer};

fn editor(text: &str) -> HexView {
    let buffer = CurrentBuffer::from_data_and_path(text.as_bytes().to_vec(), None);
    HexView::with_buffr_collection(BuffrCollection::with_current_buffer(buffer), (80, 24))
}

fn key(code: KeyCode) -> Event {
    Event::Key(KeyEvent::plain(code))
}

fn alt(c: char) -> Event {
    Event::Key(KeyEvent {
        code: KeyCode::Char(c),
        modifiers: KeyModifiers { shift: false, control: false, alt: true },
    })
}

/// Hands one event to the mode and takes in what it makes of it.
fn send(view: &mut HexView, event: Event) -> Option<Followup> {
    let transition = view.mode.transition(&event, &mut view.buffr_collection, view.bytes_per_line);
    transition.map(|t| view.transition(t))
}

fn type_keys(view: &mut HexView, keys: &str) {
    for c in keys.chars() {
        send(view, Event::Key(KeyEvent::char(c)));
    }
}

fn text_of(view: &HexView) -> String {
    String::from_utf8(view.buffr_collection.current().data.to_vec()).unwrap()
}

fn regions(view: &HexView) -> Vec<(usize, usize)> {
    view.buffr_collection.current().selection.regions.iter().map(|r| (r.tail, r.caret)).collect()
}

fn set_regions(view: &mut HexView, list: &[(usize, usize)]) {
    view.buffr_collection.current_mut().selection = Selection {
        regions: list.iter().map(|&(tail, caret)| SelRegion::new(caret, tail)).collect(),
        main_selection: 0,
    };
}

fn mode_name(view: &HexView) -> String {
    view.mode.name()
}

#[test]
fn typing_in_insert_mode_puts_bytes_in() {
    let mut view = editor("");
    type_keys(&mut view, "i");
    assert_eq!(mode_name(&view), "INSERT");
    type_keys(&mut view, "abc");
    send(&mut view, key(KeyCode::Esc));
    assert_eq!(mode_name(&view), "NORMAL");
    assert_eq!(text_of(&view), "abc");
    assert_eq!(regions(&view), vec![(3, 3)]);
    assert!(view.buffr_collection.current().dirty);
    type_keys(&mut view, "u");
    assert_eq!(text_of(&view), "");
    assert_eq!(regions(&view), vec![(0, 0)]);
}

#[test]
fn delete_yanks_and_removes() {
    let mut view = editor("hello world");
    set_regions(&mut view, &[(0, 10)]);
    type_keys(&mut view, "d");
    assert_eq!(text_of(&view), "");
    assert_eq!(regions(&view), vec![(0, 0)]);
    assert_eq!(
        view.buffr_collection.current().registers.get(&('"' as u32)),
        Some(&vec![b"hello world".to_vec()])
    );
    let followup = send(&mut view, Event::Key(KeyEvent::char('d')));
    assert!(matches!(followup, Some(Followup::Done)));
    assert_eq!(text_of(&view), "");
}

#[test]
fn collapse_search_selects_the_matches() {
    let mut view = editor("aaabaaa");
    type_keys(&mut view, "%s");
    assert_eq!(mode_name(&view), "SEARCH");
    type_keys(&mut view, "b");
    send(&mut view, key(KeyCode::Enter));
    assert_eq!(mode_name(&view), "NORMAL");
    assert_eq!(regions(&view), vec![(3, 3)]);
    assert!(view.info.is_none());
}

#[test]
fn undo_and_redo_go_back_and_forth() {
    let mut view = editor("ABCDEF");
    set_regions(&mut view, &[(0, 5)]);
    type_keys(&mut view, ";d");
    assert_eq!(text_of(&view), "ABCDE");
    let after = regions(&view);
    type_keys(&mut view, "u");
    assert_eq!(text_of(&view), "ABCDEF");
    assert_eq!(regions(&view), vec![(5, 5)]);
    type_keys(&mut view, "U");
    assert_eq!(text_of(&view), "ABCDE");
    assert_eq!(regions(&view), after);
    type_keys(&mut view, "U");
    assert_eq!(view.info, Some("nothing left to redo".to_string()));
    type_keys(&mut view, "uu");
    assert_eq!(view.info, Some("nothing left to undo".to_string()));
    assert_eq!(text_of(&view), "ABCDEF");
}

#[test]
fn normal_keys_move_and_extend() {
    let mut view = editor(&"x".repeat(100));
    type_keys(&mut view, "l");
    assert_eq!(regions(&view), vec![(1, 1)]);
    type_keys(&mut view, "3j");
    assert_eq!(regions(&view), vec![(49, 49)]);
    type_keys(&mut view, "k");
    assert_eq!(regions(&view), vec![(33, 33)]);
    type_keys(&mut view, "12L");
    assert_eq!(regions(&view), vec![(33, 45)]);
    type_keys(&mut view, "H");
    assert_eq!(regions(&view), vec![(33, 44)]);
    send(&mut view, alt(';'));
    assert_eq!(regions(&view), vec![(44, 33)]);
    type_keys(&mut view, ";");
    assert_eq!(regions(&view), vec![(33, 33)]);
    send(&mut view, key(KeyCode::Right));
    send(&mut view, key(KeyCode::Down));
    assert_eq!(regions(&view), vec![(50, 50)]);
    type_keys(&mut view, "999j");
    assert_eq!(regions(&view), vec![(100, 100)]);
    type_keys(&mut view, "%");
    assert_eq!(regions(&view), vec![(0, 99)]);
}

#[test]
fn count_is_typed_before_a_command() {
    let mut view = editor("0123456789");
    type_keys(&mut view, "1");
    assert_eq!(mode_name(&view), "NORMAL (1)");
    type_keys(&mut view, "2");
    assert_eq!(mode_name(&view), "NORMAL (12)");
    type_keys(&mut view, "l");
    assert_eq!(mode_name(&view), "NORMAL");
    assert_eq!(regions(&view), vec![(10, 10)]);
    type_keys(&mut view, "4g");
    assert_eq!(regions(&view), vec![(4, 4)]);
    type_keys(&mut view, "7G");
    assert_eq!(regions(&view), vec![(4, 7)]);
    type_keys(&mut view, "99g");
    assert_eq!(regions(&view), vec![(10, 10)]);

    assert_eq!(State::Idle.to_count(), 1);
    assert_eq!(State::Counting { count: 0 }.to_count(), 0);
    let digit = Event::Key(KeyEvent::char('7'));
    assert_eq!(State::Idle.transition(&digit), Transition::Update(State::Counting { count: 7 }));
    assert_eq!(
        State::Counting { count: 12 }.transition(&digit),
        Transition::Update(State::Counting { count: 127 })
    );
    assert_eq!(
        State::Counting { count: usize::MAX / 2 }.transition(&digit),
        Transition::Update(State::Counting { count: usize::MAX })
    );
    assert_eq!(State::Idle.transition(&Event::Key(KeyEvent::char('x'))), Transition::Pass);
    assert_eq!(State::Idle.transition(&alt('7')), Transition::Pass);
    assert_eq!(State::Idle.transition(&Event::Resize(1, 1)), Transition::Pass);
}

#[test]
fn jump_mode_goes_to_boundaries() {
    let mut view = editor(&"x".repeat(100));
    type_keys(&mut view, "37g");
    type_keys(&mut view, "g");
    assert_eq!(mode_name(&view), "JUMP");
    type_keys(&mut view, "h");
    assert_eq!(mode_name(&view), "NORMAL");
    assert_eq!(regions(&view), vec![(32, 32)]);
    type_keys(&mut view, "gl");
    assert_eq!(regions(&view), vec![(47, 47)]);
    type_keys(&mut view, "G");
    assert_eq!(mode_name(&view), "EXTEND");
    type_keys(&mut view, "j");
    assert_eq!(regions(&view), vec![(47, 100)]);
    type_keys(&mut view, "Gk");
    assert_eq!(regions(&view), vec![(47, 0)]);
    type_keys(&mut view, "gx");
    assert_eq!(mode_name(&view), "NORMAL");
    assert_eq!(regions(&view), vec![(47, 0)]);
    let mut buffers = BuffrCollection::new();
    assert!(JumpTo { extend: false }.transition(&Event::Mouse, &mut buffers, 16).is_none());
}

#[test]
fn yank_and_paste() {
    let mut view = editor("0123456789");
    set_regions(&mut view, &[(2, 4)]);
    type_keys(&mut view, "yp");
    assert_eq!(text_of(&view), "0123423456789");
    assert_eq!(regions(&view), vec![(2, 4)]);
    type_keys(&mut view, "2P");
    assert_eq!(text_of(&view), "0123423423423456789");
    type_keys(&mut view, "u");
    assert_eq!(text_of(&view), "0123423456789");
    type_keys(&mut view, "uu");
    assert_eq!(text_of(&view), "0123456789");
}

#[test]
fn change_deletes_and_inserts() {
    let mut view = editor("0123456789");
    set_regions(&mut view, &[(2, 4), (7, 7)]);
    type_keys(&mut view, "c");
    assert_eq!(mode_name(&view), "INSERT");
    assert_eq!(text_of(&view), "015689");
    assert_eq!(regions(&view), vec![(2, 2), (4, 4)]);
    type_keys(&mut view, "ab");
    assert_eq!(text_of(&view), "01ab56ab89");
    assert_eq!(regions(&view), vec![(4, 4), (8, 8)]);
    send(&mut view, key(KeyCode::Backspace));
    assert_eq!(text_of(&view), "01a56a89");
    assert_eq!(regions(&view), vec![(3, 3), (6, 6)]);
    send(&mut view, key(KeyCode::Enter));
    assert_eq!(mode_name(&view), "NORMAL");
    type_keys(&mut view, "u");
    assert_eq!(text_of(&view), "015689");
    type_keys(&mut view, "u");
    assert_eq!(text_of(&view), "0123456789");
    assert_eq!(regions(&view), vec![(2, 4), (7, 7)]);
}

#[test]
fn append_and_overwrite() {
    let mut view = editor("0123456789");
    set_regions(&mut view, &[(4, 2)]);
    type_keys(&mut view, "a");
    assert_eq!(mode_name(&view), "APPEND");
    assert_eq!(regions(&view), vec![(2, 5)]);
    type_keys(&mut view, "xy");
    assert_eq!(text_of(&view), "01234xy56789");
    assert_eq!(regions(&view), vec![(4, 7)]);
    send(&mut view, key(KeyCode::Esc));
    set_regions(&mut view, &[(10, 10)]);
    type_keys(&mut view, "o");
    assert_eq!(mode_name(&view), "OVERWRITE");
    type_keys(&mut view, "ABC");
    assert_eq!(text_of(&view), "01234xy567ABC");
    assert_eq!(regions(&view), vec![(13, 13)]);
    send(&mut view, key(KeyCode::Backspace));
    assert_eq!(regions(&view), vec![(12, 12)]);
    assert_eq!(text_of(&view), "01234xy567ABC");
    type_keys(&mut view, "Z");
    assert_eq!(text_of(&view), "01234xy567ABZ");
}

#[test]
fn hex_insert_takes_two_digits_for_a_byte() {
    let mut view = editor("");
    type_keys(&mut view, "I");
    assert_eq!(mode_name(&view), "INSERT (hex)");
    assert!(!view.mode.has_half_cursor());
    type_keys(&mut view, "4");
    assert!(view.mode.has_half_cursor());
    assert_eq!(view.buffr_collection.current().data.to_vec(), vec![0x40]);
    assert_eq!(regions(&view), vec![(0, 0)]);
    type_keys(&mut view, "a");
    assert!(!view.mode.has_half_cursor());
    assert_eq!(view.buffr_collection.current().data.to_vec(), vec![0x4a]);
    assert_eq!(regions(&view), vec![(1, 1)]);
    type_keys(&mut view, "zF");
    assert_eq!(view.buffr_collection.current().data.to_vec(), vec![0x4a, 0xf0]);
    send(&mut view, key(KeyCode::Backspace));
    assert!(!view.mode.has_half_cursor());
    assert_eq!(view.buffr_collection.current().data.to_vec(), vec![0x4a, 0xf0]);
    send(&mut view, key(KeyCode::Esc));
    type_keys(&mut view, "u");
    assert_eq!(view.buffr_collection.current().data.len(), 0);
}

#[test]
fn replace_writes_one_byte() {
    let mut view = editor("0123456789");
    set_regions(&mut view, &[(2, 2), (5, 7)]);
    type_keys(&mut view, "r");
    assert_eq!(mode_name(&view), "REPLACE");
    type_keys(&mut view, "x");
    assert_eq!(mode_name(&view), "NORMAL");
    assert_eq!(text_of(&view), "01x3456x89");
    assert_eq!(regions(&view), vec![(2, 2), (5, 7)]);
    type_keys(&mut view, "R");
    assert_eq!(mode_name(&view), "REPLACE (hex)");
    type_keys(&mut view, "4");
    assert!(view.mode.has_half_cursor());
    assert_eq!(text_of(&view), "01x3456x89");
    type_keys(&mut view, "1");
    assert_eq!(text_of(&view), "01A3456A89");
    type_keys(&mut view, "Rq");
    assert_eq!(mode_name(&view), "NORMAL");
    assert_eq!(text_of(&view), "01A3456A89");
    type_keys(&mut view, "u");
    assert_eq!(text_of(&view), "01x3456x89");
    let mut buffers = BuffrCollection::new();
    let half = Replace { hex: true, hex_half: None };
    assert!(half.transition(&Event::Resize(3, 3), &mut buffers, 16).is_none());
}

#[test]
fn regions_are_chosen_by_count() {
    let mut view = editor("0123456789");
    set_regions(&mut view, &[(1, 1), (3, 3), (5, 5)]);
    type_keys(&mut view, ")");
    assert_eq!(view.buffr_collection.current().selection.main_selection, 1);
    type_keys(&mut view, "2(");
    assert_eq!(view.buffr_collection.current().selection.main_selection, 2);
    send(&mut view, alt(' '));
    assert_eq!(regions(&view), vec![(1, 1), (3, 3)]);
    type_keys(&mut view, "1");
    send(&mut view, alt(' '));
    assert_eq!(regions(&view), vec![(3, 3)]);
    set_regions(&mut view, &[(1, 1), (3, 3), (5, 5)]);
    type_keys(&mut view, "2 ");
    assert_eq!(regions(&view), vec![(3, 3)]);
    set_regions(&mut view, &[(1, 1), (3, 3), (5, 5)]);
    type_keys(&mut view, " ");
    assert_eq!(regions(&view), vec![(1, 1)]);
}

#[test]
fn measure_tells_the_length_of_the_main_region() {
    let mut view = editor(&"x".repeat(300));
    set_regions(&mut view, &[(10, 264)]);
    type_keys(&mut view, "M");
    assert_eq!(view.info, Some("255 = 0xff bytes".to_string()));
    type_keys(&mut view, ";M");
    assert_eq!(view.info, Some("1 = 0x1 bytes".to_string()));
    type_keys(&mut view, "l");
    assert_eq!(view.info, None);
}

#[test]
fn normal_keymap_is_the_table() {
    let plain = |c| default_maps(Chord::Plain(KeyCode::Char(c)));
    assert_eq!(plain('h'), Some(Action::Move(Direction::Left)));
    assert_eq!(plain('J'), Some(Action::Extend(Direction::Down)));
    assert_eq!(plain('d'), Some(Action::Delete { register: '"' }));
    assert_eq!(plain('P'), Some(Action::Paste { after: false, register: '"' }));
    assert_eq!(plain('C'), Some(Action::Change { hex: true, register: '"' }));
    assert_eq!(plain('S'), Some(Action::CollapseMode { hex: true }));
    assert_eq!(plain(':'), Some(Action::CommandMode));
    assert_eq!(plain('z'), None);
    assert_eq!(default_maps(Chord::Alt(KeyCode::Char('s'))), Some(Action::SplitMode));
    assert_eq!(default_maps(Chord::Alt(KeyCode::Char(';'))), Some(Action::SwapCaret));
    assert_eq!(default_maps(Chord::Control(KeyCode::Char('h'))), None);
    assert_eq!(default_maps(Chord::Plain(KeyCode::Up)), Some(Action::Move(Direction::Up)));
    let shifted = KeyEvent {
        code: KeyCode::Char('H'),
        modifiers: KeyModifiers { shift: true, control: false, alt: false },
    };
    assert_eq!(shifted.chord(), Chord::Plain(KeyCode::Char('H')));
    let both = KeyEvent {
        code: KeyCode::Char('x'),
        modifiers: KeyModifiers { shift: false, control: true, alt: true },
    };
    assert_eq!(both.chord(), Chord::ControlAlt(KeyCode::Char('x')));
    assert_eq!(Event::Key(shifted).typed(), Some('H'));
    assert_eq!(Event::Key(both).typed(), None);
    assert_eq!(Normal::new().name(), "NORMAL");
    let mut buffers = BuffrCollection::new();
    assert!(Normal::new().transition(&Event::Key(KeyEvent::char('z')), &mut buffers, 16).is_none());
    assert!(Normal::new().transition(&Event::Mouse, &mut buffers, 16).is_none());
}

fn pattern(text: &str) -> Pattern {
    Pattern {
        pieces: text
            .bytes()
            .map(|b| if b == b'*' { PatternPiece::Wildcard } else { PatternPiece::Literal(b) })
            .collect(),
    }
}

#[test]
fn pattern_matches_literals_and_wildcards() {
    let data = b"abcabxab".to_vec();
    assert_eq!(pattern("ab").find_all(&data), vec![0, 3, 6]);
    assert_eq!(pattern("ab*").find_all(&data), vec![0, 3]);
    assert_eq!(pattern("*b").find_all(&data), vec![0, 3, 6]);
    assert_eq!(pattern("abcabxab").find_all(&data), vec![0]);
    assert_eq!(pattern("abcabxabc").find_all(&data), Vec::<usize>::new());
    assert_eq!(pattern("").find_all(&data), Vec::<usize>::new());
    assert_eq!(pattern("aa").find_all(&b"aaaa".to_vec()), vec![0, 1, 2]);
    assert!(pattern("b*a").matches_here(&data, 1));
    assert!(pattern("b*a").matches_here(&data, 4));
    assert!(!pattern("b*b").matches_here(&data, 1));
    assert!(!pattern("b*a").matches_here(&data, 0));
}

#[test]
fn pattern_of_wildcards_matches_every_window() {
    let data: Vec<u8> = (0..50).collect();
    assert_eq!(pattern("***").find_all(&data), (0..48).collect::<Vec<usize>>());
    assert_eq!(pattern("*").find_all(&data).len(), 50);
    assert_eq!(pattern(&"*".repeat(50)).find_all(&data), vec![0]);
}

#[test]
fn pattern_matches_lie_in_their_regions() {
    let mut buffer = CurrentBuffer::from_data_and_path(b"abababab".to_vec(), None);
    buffer.selection = Selection {
        regions: vec![SelRegion::new(5, 1), SelRegion::new(7, 7), SelRegion::new(0, 20)],
        main_selection: 0,
    };
    let matched = pattern("ab").map_selections_to_matches(&buffer);
    let spans: Vec<Vec<(usize, usize)>> =
        matched.iter().map(|list| list.iter().map(|r| (r.start, r.end)).collect()).collect();
    assert_eq!(
        spans,
        vec![vec![(2, 4), (4, 6)], vec![], vec![(0, 2), (2, 4), (4, 6), (6, 8)]]
    );
}

#[test]
fn collapse_search_with_wildcards_and_many_regions() {
    let mut view = editor("a1b a2b a3c");
    type_keys(&mut view, "%s");
    type_keys(&mut view, "a*b");
    send(&mut view, key(KeyCode::Enter));
    assert_eq!(regions(&view), vec![(0, 2), (4, 6)]);
    type_keys(&mut view, "s");
    type_keys(&mut view, "a");
    send(&mut view, key(KeyCode::Enter));
    assert_eq!(regions(&view), vec![(0, 0), (4, 4)]);
    type_keys(&mut view, "sq");
    send(&mut view, key(KeyCode::Enter));
    assert_eq!(view.info, Some("no matches".to_string()));
    assert_eq!(regions(&view), vec![(0, 0), (4, 4)]);
    type_keys(&mut view, "s");
    send(&mut view, key(KeyCode::Enter));
    assert_eq!(mode_name(&view), "NORMAL");
    assert!(view.info.is_none());
}

#[test]
fn collapse_search_keeps_the_direction() {
    let mut view = editor("xxabxx");
    set_regions(&mut view, &[(5, 0)]);
    let mut buffers = BuffrCollection::with_current_buffer(CurrentBuffer::from_data_and_path(
        b"xxabxx".to_vec(),
        None,
    ));
    buffers.current_mut().selection =
        Selection { regions: vec![SelRegion::new(0, 5)], main_selection: 0 };
    let result = Collapse {}.apply_search(&pattern("ab"), &mut buffers, 16);
    assert!(matches!(result, ModeTransition::ModeAndDirtyBytes(Mode::Normal(_), _)));
    assert_eq!(buffers.current().selection.regions, vec![SelRegion::new(2, 3)]);
    type_keys(&mut view, "sab");
    send(&mut view, key(KeyCode::Enter));
    assert_eq!(regions(&view), vec![(3, 2)]);
}

#[test]
fn hex_search_takes_two_digits_for_a_place() {
    let mut view = editor("\x01\x41\x42\x02\x41\x43");
    type_keys(&mut view, "%S");
    assert_eq!(mode_name(&view), "SEARCH (hex)");
    type_keys(&mut view, "41*");
    match &view.mode {
        Mode::Search(search) => {
            assert_eq!(
                search.pattern.pieces,
                vec![PatternPiece::Literal(0x41), PatternPiece::Wildcard]
            );
            assert_eq!(search.cursor, 2);
            assert_eq!(search.hex_half, None);
        }
        other => panic!("not searching: {:?}", other),
    }
    send(&mut view, key(KeyCode::Enter));
    assert_eq!(regions(&view), vec![(1, 2), (4, 5)]);
}

#[test]
fn search_pattern_is_edited_at_the_cursor() {
    let search = Search::new(Acceptor::Collapse, false);
    let step = |s: &Search, code: KeyCode| s.edit(&key(code));
    let s = step(&search, KeyCode::Char('a')).unwrap();
    let s = step(&s, KeyCode::Char('c')).unwrap();
    let s = step(&s, KeyCode::Left).unwrap();
    let s = step(&s, KeyCode::Char('b')).unwrap();
    assert_eq!(
        s.pattern.pieces,
        vec![PatternPiece::Literal(b'a'), PatternPiece::Literal(b'b'), PatternPiece::Literal(b'c')]
    );
    assert_eq!(s.cursor, 2);
    let s = step(&s, KeyCode::Delete).unwrap();
    assert_eq!(s.pattern.pieces.len(), 2);
    assert!(step(&s, KeyCode::Delete).is_none());
    assert!(step(&s, KeyCode::Right).is_none());
    let s = step(&s, KeyCode::Backspace).unwrap();
    let s = step(&s, KeyCode::Backspace).unwrap();
    assert_eq!(s.pattern.pieces.len(), 0);
    assert!(step(&s, KeyCode::Backspace).is_none());
    assert!(step(&s, KeyCode::Left).is_none());
    assert!(step(&s, KeyCode::Char('\u{20ac}')).is_none());
    let s = step(&s, KeyCode::Char('*')).unwrap();
    assert_eq!(s.pattern.pieces, vec![PatternPiece::Wildcard]);

    let hex = Search::new(Acceptor::Split, true);
    let h = step(&hex, KeyCode::Char('f')).unwrap();
    assert_eq!(h.pattern.pieces, vec![PatternPiece::Literal(0xf0)]);
    assert_eq!((h.cursor, h.hex_half), (0, Some(15)));
    assert!(step(&h, KeyCode::Char('g')).is_none());
    assert!(step(&h, KeyCode::Left).is_none());
    let back = step(&h, KeyCode::Backspace).unwrap();
    assert_eq!(back.pattern.pieces.len(), 0);
    let h = step(&h, KeyCode::Char('3')).unwrap();
    assert_eq!(h.pattern.pieces, vec![PatternPiece::Literal(0xf3)]);
    assert_eq!((h.cursor, h.hex_half), (1, None));
}

#[test]
fn split_search_selects_what_lies_between() {
    let mut view = editor("aa,bb,,cc");
    type_keys(&mut view, "%");
    send(&mut view, alt('s'));
    assert_eq!(mode_name(&view), "SPLIT");
    type_keys(&mut view, "/");
    assert_eq!(mode_name(&view), "SEARCH");
    type_keys(&mut view, ",");
    send(&mut view, key(KeyCode::Enter));
    assert_eq!(mode_name(&view), "NORMAL");
    assert_eq!(regions(&view), vec![(0, 1), (3, 4), (7, 8)]);
    send(&mut view, alt('s'));
    type_keys(&mut view, "x");
    assert_eq!(mode_name(&view), "NORMAL");
    let mut buffers = BuffrCollection::with_current_buffer(CurrentBuffer::from_data_and_path(
        b"aaaa".to_vec(),
        None,
    ));
    buffers.current_mut().selection =
        Selection { regions: vec![SelRegion::new(3, 0)], main_selection: 0 };
    Split::new().apply_search(&pattern("aa"), &mut buffers, 16);
    assert_eq!(buffers.current().selection.regions, vec![SelRegion::new(3, 0)]);
    Split::new().apply_search(&pattern("b"), &mut buffers, 16);
    assert_eq!(buffers.current().selection.regions, vec![SelRegion::new(3, 0)]);
    assert_eq!(Split::new().name(), "SPLIT");
    assert_eq!(Collapse {}.name(), "COLLAPSE");
}

fn command_of(view: &HexView) -> (String, usize) {
    match &view.mode {
        Mode::Command(command) => (command.text(), command.cursor),
        other => panic!("no command is typed: {:?}", other),
    }
}

#[test]
fn command_is_typed_and_edited() {
    let mut view = editor("abc");
    type_keys(&mut view, ":");
    assert_eq!(mode_name(&view), "COMMAND");
    assert!(view.mode.is_prompt());
    type_keys(&mut view, "wx /tmp");
    assert_eq!(command_of(&view), ("wx /tmp".to_string(), 7));
    send(&mut view, key(KeyCode::Left));
    send(&mut view, key(KeyCode::Left));
    send(&mut view, key(KeyCode::Backspace));
    assert_eq!(command_of(&view), ("wx /mp".to_string(), 4));
    send(&mut view, key(KeyCode::Delete));
    assert_eq!(command_of(&view), ("wx /p".to_string(), 4));
    send(&mut view, key(KeyCode::Right));
    send(&mut view, key(KeyCode::Right));
    send(&mut view, key(KeyCode::Delete));
    assert_eq!(command_of(&view), ("wx /p".to_string(), 5));
    for _ in 0..9 {
        send(&mut view, key(KeyCode::Left));
    }
    assert_eq!(command_of(&view), ("wx /p".to_string(), 0));
    assert!(matches!(send(&mut view, key(KeyCode::Backspace)), Some(Followup::Done)));
    assert!(send(&mut view, Event::Key(KeyEvent {
        code: KeyCode::Char('c'),
        modifiers: KeyModifiers { shift: false, control: true, alt: false },
    })).is_none());
    assert!(send(&mut view, key(KeyCode::Tab)).is_none());
    send(&mut view, key(KeyCode::Esc));
    assert_eq!(mode_name(&view), "NORMAL");
}

fn run_command(view: &mut HexView, text: &str) -> Option<Followup> {
    type_keys(view, ":");
    type_keys(view, text);
    send(view, key(KeyCode::Enter))
}

#[test]
fn unknown_command_is_reported() {
    let mut view = editor("abc");
    run_command(&mut view, "frobnicate now");
    assert_eq!(view.info, Some("Unknown command frobnicate".to_string()));
    assert_eq!(mode_name(&view), "NORMAL");
    run_command(&mut view, "");
    assert_eq!(view.info, Some("Unknown command ".to_string()));
    assert_eq!(command::default_commands(&chars_of("wq")), Some(Handler::WriteQuit));
    assert_eq!(command::default_commands(&chars_of("write-all")), Some(Handler::WriteAll));
    assert_eq!(command::default_commands(&chars_of("db!")), Some(Handler::ForceDeleteBuffer));
    assert_eq!(command::default_commands(&chars_of("q ")), None);
    assert!(command::same_text(&chars_of("quit"), "quit"));
    assert!(!command::same_text(&chars_of("quit"), "quiT"));
    assert!(!command::same_text(&chars_of("qui"), "quit"));
}

#[test]
fn quit_is_refused_while_a_file_has_changes() {
    let mut view = editor("abc");
    type_keys(&mut view, "d");
    run_command(&mut view, "q");
    assert_eq!(mode_name(&view), "QUITTING");
    assert!(!view.mode.takes_input());

    let mut view = editor("abc");
    view.buffr_collection.current_mut().path = Some("/tmp/f".to_string());
    run_command(&mut view, "quit");
    assert_eq!(mode_name(&view), "QUITTING");

    let mut view = editor("abc");
    view.buffr_collection.current_mut().path = Some("/tmp/f".to_string());
    type_keys(&mut view, "d");
    run_command(&mut view, "q");
    assert_eq!(mode_name(&view), "NORMAL");
    assert_eq!(view.info, Some("unsaved changes! Run :wq or :q! instead.".to_string()));
    assert!(view.mode.takes_input());
    run_command(&mut view, "q!");
    assert_eq!(mode_name(&view), "QUITTING");
    let mut buffers = BuffrCollection::new();
    assert!(view.mode.transition(&key(KeyCode::Esc), &mut buffers, 16).is_none());
}

#[test]
fn write_asks_for_the_file_to_be_written() {
    let mut view = editor("abc");
    type_keys(&mut view, "d");
    run_command(&mut view, "w");
    assert_eq!(view.info, Some("current_buffer has no path".to_string()));
    let followup = run_command(&mut view, "w /tmp/out file");
    match followup {
        Some(Followup::Work(CommandRequest::Write(path))) => assert_eq!(path, "/tmp/out file"),
        other => panic!("nothing is to be written: {:?}", other),
    }
    assert_eq!(mode_name(&view), "COMMAND");
    let failed = command::write_finished(
        &mut view.buffr_collection,
        "/tmp/out".to_string(),
        Some("disk full".to_string()),
    );
    view.transition(failed);
    assert_eq!(view.info, Some("write failed: disk full".to_string()));
    assert!(view.buffr_collection.current().dirty);
    assert_eq!(view.buffr_collection.current().path, None);
    let done = command::write_finished(&mut view.buffr_collection, "/tmp/out".to_string(), None);
    view.transition(done);
    assert_eq!(mode_name(&view), "NORMAL");
    assert!(!view.buffr_collection.current().dirty);
    assert_eq!(view.buffr_collection.current().path, Some("/tmp/out".to_string()));
    match run_command(&mut view, "write") {
        Some(Followup::Work(CommandRequest::Write(path))) => assert_eq!(path, "/tmp/out"),
        other => panic!("nothing is to be written: {:?}", other),
    }
    assert_eq!(mode_name(&view), "COMMAND");
    let done = command::write_finished(&mut view.buffr_collection, "/tmp/out".to_string(), None);
    view.transition(done);
    run_command(&mut view, "q");
    assert_eq!(mode_name(&view), "QUITTING");
}

#[test]
fn commands_that_work_on_files_hand_out_requests() {
    let mut view = editor("abc");
    assert!(matches!(
        run_command(&mut view, "wa"),
        Some(Followup::Work(CommandRequest::WriteAll))
    ));
    send(&mut view, key(KeyCode::Esc));
    assert!(matches!(
        run_command(&mut view, "wq"),
        Some(Followup::Work(CommandRequest::WriteQuit))
    ));
    send(&mut view, key(KeyCode::Esc));
    match run_command(&mut view, "e some/file") {
        Some(Followup::Work(CommandRequest::Edit(path))) => assert_eq!(path, "some/file"),
        other => panic!("nothing is to be opened: {:?}", other),
    }
    assert!(matches!(
        command::write_all_finished(None, true),
        ModeTransition::NewMode(Mode::Quitting(_))
    ));
    assert!(matches!(
        command::write_all_finished(None, false),
        ModeTransition::NewMode(Mode::Normal(_))
    ));
    match command::write_all_finished(Some("no".to_string()), true) {
        ModeTransition::ModeAndInfo(Mode::Normal(_), info) => assert_eq!(info, "write failed: no"),
        other => panic!("a failure is not reported: {:?}", other),
    }
    match command::edit_finished(Some("not found".to_string())) {
        ModeTransition::ModeAndInfo(Mode::Normal(_), info) => assert_eq!(info, "not found"),
        other => panic!("a failure is not reported: {:?}", other),
    }
    assert!(matches!(
        command::edit_finished(None),
        ModeTransition::ModeAndDirtyBytes(Mode::Normal(_), DirtyBytes::ChangeLength)
    ));
}

#[test]
fn buffers_are_closed_by_command() {
    let mut view = editor("abc");
    view.buffr_collection.current_mut().path = Some("/tmp/f".to_string());
    view.buffr_collection.open(CurrentBuffer::from_data_and_path(b"x".to_vec(), None));
    type_keys(&mut view, "d");
    assert!(matches!(run_command(&mut view, "db"), Some(Followup::Redraw(_))));
    assert_eq!(view.buffr_collection.iter().len(), 1);
    assert_eq!(view.buffr_collection.current().name(), "/tmp/f");
    type_keys(&mut view, "d");
    run_command(&mut view, "db");
    assert_eq!(
        view.info,
        Some("current_buffer is dirty, use :db! if you're sure".to_string())
    );
    assert_eq!(view.buffr_collection.current().name(), "/tmp/f");
    run_command(&mut view, "db!");
    assert_eq!(view.buffr_collection.iter().len(), 1);
    assert_eq!(view.buffr_collection.current().name(), "*scratch*");
}

#[test]
fn mode_transitions_are_built() {
    let normal = || Mode::Normal(Normal::new());
    assert!(matches!(ModeTransition::new_mode(normal()), ModeTransition::NewMode(_)));
    assert!(matches!(
        ModeTransition::new_mode_and_dirty(normal(), DirtyBytes::ChangeLength),
        ModeTransition::ModeAndDirtyBytes(_, DirtyBytes::ChangeLength)
    ));
    assert!(matches!(
        ModeTransition::new_mode_and_info(normal(), "x".to_string()),
        ModeTransition::ModeAndInfo(_, _)
    ));
    assert_eq!(Mode::JumpTo(JumpTo { extend: true }).name(), "EXTEND");
    assert_eq!(
        Mode::Insert(Insert { hex: true, mode: InsertionMode::Overwrite, hex_half: None }).name(),
        "OVERWRITE (hex)"
    );
    assert_eq!(
        Mode::Insert(Insert { hex: false, mode: InsertionMode::Append, hex_half: None }).name(),
        "APPEND"
    );
    assert_eq!(Mode::Command(Command::new()).name(), "COMMAND");
    assert!(!normal().is_prompt());
    assert!(Mode::Search(Search::new(Acceptor::Collapse, false)).is_prompt());
    assert!(Mode::Replace(Replace { hex: true, hex_half: Some(3) }).has_half_cursor());
    let mut buffers = BuffrCollection::new();
    assert!(Mode::Collapse(Collapse {}).transition(&key(KeyCode::Esc), &mut buffers, 16).is_none());
}

#[test]
fn count_is_used_up_by_every_command() {
    let mut view = editor("0123456789");
    set_regions(&mut view, &[(2, 3)]);
    type_keys(&mut view, "y2");
    assert_eq!(mode_name(&view), "NORMAL (2)");
    type_keys(&mut view, "p");
    assert_eq!(mode_name(&view), "NORMAL");
    assert_eq!(text_of(&view), "01232323456789");
    type_keys(&mut view, "p");
    assert_eq!(text_of(&view), "0123232323456789");
    type_keys(&mut view, "3;");
    assert_eq!(mode_name(&view), "NORMAL");
    type_keys(&mut view, "5y");
    assert_eq!(mode_name(&view), "NORMAL");
    type_keys(&mut view, "7");
    send(&mut view, alt(';'));
    assert_eq!(mode_name(&view), "NORMAL");
}

#[test]
fn counted_jump_goes_to_an_offset_of_the_file() {
    let mut view = editor(&"x".repeat(100));
    view.buffr_collection.current_mut().data_start_offset = 1000;
    type_keys(&mut view, "1037g");
    assert_eq!(regions(&view), vec![(37, 37)]);
    type_keys(&mut view, "1050G");
    assert_eq!(regions(&view), vec![(37, 50)]);
    type_keys(&mut view, "12g");
    assert_eq!(regions(&view), vec![(0, 0)]);
    type_keys(&mut view, "5000g");
    assert_eq!(regions(&view), vec![(100, 100)]);
}

use tofu::byte_range::ByteRange;
use tofu::current_buffer::position_of_path;
use tofu::delta::RopeDelta;
use tofu::modes::mode::DirtyBytes;
use tofu::selection::{Direction, RegionOp, SelRegion, Selection};
use tofu::{BuffrCollection, CurrentBuffer, OverflowSelectionStyle};

fn buffer(text: &str) -> CurrentBuffer {
    CurrentBuffer::from_data_and_path(text.as_bytes().to_vec(), None)
}

fn text_of(buffer: &CurrentBuffer) -> String {
    String::from_utf8(buffer.data.to_vec()).unwrap()
}

fn regions(buffer: &CurrentBuffer) -> Vec<(usize, usize)> {
    buffer.selection.regions.iter().map(|r| (r.tail, r.caret)).collect()
}

fn set_regions(buffer: &mut CurrentBuffer, list: &[(usize, usize)]) {
    buffer.selection = Selection {
        regions: list.iter().map(|&(tail, caret)| SelRegion::new(caret, tail)).collect(),
        main_selection: 0,
    };
}

fn ranges_of(dirty: DirtyBytes) -> Vec<ByteRange> {
    match dirty {
        DirtyBytes::ChangeInPlace(ranges) => ranges,
        DirtyBytes::ChangeLength => panic!("only some bytes were to change"),
    }
}

#[test]
fn buffer_starts_clean_with_one_region() {
    let b = CurrentBuffer::from_data_and_path(b"abc".to_vec(), Some("/tmp/file".to_string()));
    assert_eq!(text_of(&b), "abc");
    assert_eq!(b.name(), "/tmp/file");
    assert_eq!(b.path, Some("/tmp/file".to_string()));
    assert!(!b.dirty);
    assert_eq!(b.data_start_offset(), 0);
    assert_eq!(regions(&b), vec![(0, 0)]);
    assert!(b.registers.is_empty());
    let scratch = CurrentBuffer::default();
    assert_eq!(scratch.name(), "*scratch*");
    assert!(scratch.data.is_empty());
    assert!(!scratch.dirty);
}

#[test]
fn buffer_path_is_set_only_when_missing() {
    let mut b = buffer("abc");
    b.update_path_if_missing("/tmp/a".to_string());
    assert_eq!(b.path, Some("/tmp/a".to_string()));
    b.update_path_if_missing("/tmp/b".to_string());
    assert_eq!(b.path, Some("/tmp/a".to_string()));
}

#[test]
fn buffer_apply_delta_edits_and_carries_the_selection() {
    let mut b = buffer("0123456789");
    set_regions(&mut b, &[(3, 4), (8, 9)]);
    let dirty = b.apply_delta(RopeDelta::simple_edit(2, 5, vec![], 10)).unwrap();
    assert!(matches!(dirty, DirtyBytes::ChangeLength));
    assert_eq!(text_of(&b), "0156789");
    assert_eq!(regions(&b), vec![(2, 2), (5, 6)]);
    assert!(b.dirty);
    assert_eq!(b.history.undo.len(), 1);
}

#[test]
fn buffer_refuses_a_delta_made_for_another_length() {
    let mut b = buffer("0123456789");
    assert!(b.apply_delta(RopeDelta::simple_edit(2, 5, vec![], 11)).is_err());
    assert_eq!(text_of(&b), "0123456789");
    assert!(!b.dirty);
    assert_eq!(b.history.undo.len(), 0);
    let unordered = RopeDelta {
        els: vec![tofu::delta::DeltaElement::Copy(5, 10), tofu::delta::DeltaElement::Copy(0, 5)],
        base_len: 10,
    };
    assert!(b.apply_incomplete_delta(unordered).is_err());
    assert_eq!(text_of(&b), "0123456789");
}

#[test]
fn buffer_undo_gives_back_bytes_and_selection() {
    let mut b = buffer("ABCDEF");
    set_regions(&mut b, &[(0, 5)]);
    b.apply_delta(RopeDelta::simple_edit(1, 4, b"xy".to_vec(), 6)).unwrap();
    assert_eq!(text_of(&b), "AxyEF");
    assert_eq!(regions(&b), vec![(0, 4)]);
    assert!(b.perform_undo().is_some());
    assert_eq!(text_of(&b), "ABCDEF");
    assert_eq!(regions(&b), vec![(0, 5)]);
    assert!(b.perform_undo().is_none());
    assert_eq!(text_of(&b), "ABCDEF");
    assert!(b.perform_redo().is_some());
    assert_eq!(text_of(&b), "AxyEF");
    assert_eq!(regions(&b), vec![(0, 4)]);
    assert!(b.perform_redo().is_none());
    assert!(b.perform_undo().is_some());
    assert_eq!(text_of(&b), "ABCDEF");
}

#[test]
fn buffer_new_edit_forgets_what_was_undone() {
    let mut b = buffer("ABCDEF");
    b.apply_delta(RopeDelta::simple_edit(0, 1, vec![], 6)).unwrap();
    b.apply_delta(RopeDelta::simple_edit(0, 1, vec![], 5)).unwrap();
    assert_eq!(text_of(&b), "CDEF");
    b.perform_undo();
    assert_eq!(text_of(&b), "BCDEF");
    b.apply_delta(RopeDelta::simple_edit(4, 5, vec![], 5)).unwrap();
    assert_eq!(text_of(&b), "BCDE");
    assert!(b.perform_redo().is_none());
    b.perform_undo();
    b.perform_undo();
    assert_eq!(text_of(&b), "ABCDEF");
    b.perform_redo();
    b.perform_redo();
    assert_eq!(text_of(&b), "BCDE");
}

#[test]
fn buffer_partial_edits_are_one_step() {
    let mut b = buffer("0123456789");
    set_regions(&mut b, &[(4, 4)]);
    b.apply_incomplete_delta_offset_carets(RopeDelta::simple_edit(4, 4, b"a".to_vec(), 10), 1, 1)
        .unwrap();
    b.apply_incomplete_delta_offset_carets(RopeDelta::simple_edit(5, 5, b"b".to_vec(), 11), 1, 1)
        .unwrap();
    b.apply_incomplete_delta(RopeDelta::simple_edit(0, 2, vec![], 12)).unwrap();
    assert_eq!(text_of(&b), "23ab456789");
    assert_eq!(regions(&b), vec![(4, 4)]);
    assert_eq!(b.history.undo.len(), 0);
    b.commit_delta();
    assert_eq!(b.history.undo.len(), 1);
    assert!(b.perform_undo().is_some());
    assert_eq!(text_of(&b), "0123456789");
    assert_eq!(regions(&b), vec![(4, 4)]);
    assert!(b.perform_redo().is_some());
    assert_eq!(text_of(&b), "23ab456789");
}

#[test]
fn buffer_offsets_follow_typed_bytes() {
    let mut b = buffer("");
    b.apply_delta_offset_carets(RopeDelta::simple_edit(0, 0, b"a".to_vec(), 0), 1, 1).unwrap();
    assert_eq!(regions(&b), vec![(1, 1)]);
    b.apply_delta_offset_carets(RopeDelta::simple_edit(1, 1, b"b".to_vec(), 1), 1, 0).unwrap();
    assert_eq!(regions(&b), vec![(1, 2)]);
    b.apply_delta_offset_carets(RopeDelta::identity(2), 9, -9).unwrap();
    assert_eq!(regions(&b), vec![(0, 2)]);
}

#[test]
fn buffer_yank_keeps_the_bytes_of_each_region() {
    let mut b = buffer("hello world");
    set_regions(&mut b, &[(0, 4), (10, 6), (11, 11)]);
    b.yank_selections('"');
    assert_eq!(
        b.registers.get(&('"' as u32)),
        Some(&vec![b"hello".to_vec(), b"world".to_vec(), vec![]])
    );
    b.yank_selections('a');
    assert_eq!(b.registers.len(), 2);
    let mut empty = buffer("");
    empty.yank_selections('"');
    assert_eq!(empty.registers.get(&('"' as u32)), Some(&vec![vec![]]));
}

#[test]
fn buffer_paste_delta_uses_the_register() {
    let mut b = buffer("0123456789");
    set_regions(&mut b, &[(2, 3)]);
    b.yank_selections('"');
    let delta = b.paste_delta('"', true, 2).unwrap();
    b.apply_delta(delta).unwrap();
    assert_eq!(text_of(&b), "01232323456789");
    let delta = b.paste_delta('x', true, 2).unwrap();
    b.apply_delta(delta).unwrap();
    assert_eq!(text_of(&b), "01232323456789");
}

#[test]
fn buffer_map_selections_clamps_and_reports_ranges() {
    let mut b = buffer("0123456789");
    set_regions(&mut b, &[(1, 2), (7, 7)]);
    let dirty = b.map_selections(|r| vec![r.jump_to(r.caret + 5)]);
    assert_eq!(regions(&b), vec![(7, 7), (10, 10)]);
    assert_eq!(
        ranges_of(dirty),
        vec![ByteRange::new(1, 3), ByteRange::new(7, 8), ByteRange::new(10, 11)]
    );
    let dirty = b.map_selections(|_| vec![]);
    assert_eq!(regions(&b), vec![(7, 7), (10, 10)]);
    assert_eq!(ranges_of(dirty), vec![ByteRange::new(7, 8), ByteRange::new(10, 11)]);
    let dirty = b.map_regions(RegionOp::Move(Direction::Left, 7), 16);
    assert_eq!(regions(&b), vec![(0, 0), (3, 3)]);
    assert_eq!(ranges_of(dirty).len(), 4);
    let lists = vec![vec![SelRegion::new(50, 2)], vec![SelRegion::new(4, 4), SelRegion::new(5, 5)]];
    b.replace_selections(&lists);
    assert_eq!(regions(&b), vec![(2, 10), (4, 4), (5, 5)]);
}

#[test]
fn buffer_selection_commands() {
    let mut b = buffer("0123456789");
    set_regions(&mut b, &[(1, 1), (3, 5), (9, 9)]);
    let dirty = b.select_next(4);
    assert_eq!(b.selection.main_selection, 1);
    assert_eq!(ranges_of(dirty), vec![ByteRange::new(1, 2), ByteRange::new(3, 6)]);
    b.select_prev(2);
    assert_eq!(b.selection.main_selection, 2);
    let dirty = b.remove_selection(4);
    assert_eq!(regions(&b), vec![(1, 1), (9, 9)]);
    assert_eq!(b.selection.main_selection, 1);
    assert_eq!(ranges_of(dirty).len(), 3);
    b.retain_selection(3);
    assert_eq!(regions(&b), vec![(9, 9)]);
    let dirty = b.select_all();
    assert_eq!(regions(&b), vec![(0, 9)]);
    assert_eq!(ranges_of(dirty), vec![ByteRange::new(0, 10)]);
}

#[test]
fn buffer_overflow_style_of_the_last_region() {
    let mut b = buffer("0123");
    set_regions(&mut b, &[(4, 4), (1, 2)]);
    assert_eq!(b.overflow_sel_style(), None);
    set_regions(&mut b, &[(1, 2), (4, 4)]);
    assert_eq!(b.overflow_sel_style(), Some(OverflowSelectionStyle::CursorTail));
    set_regions(&mut b, &[(1, 4)]);
    assert_eq!(b.overflow_sel_style(), Some(OverflowSelectionStyle::Cursor));
    set_regions(&mut b, &[(4, 1)]);
    assert_eq!(b.overflow_sel_style(), Some(OverflowSelectionStyle::Tail));
}

#[test]
fn window_grows_and_shrinks_on_its_bytes() {
    let file: Vec<u8> = (0..200u8).collect();
    let mut b = CurrentBuffer::from_data_and_path(file[50..100].to_vec(), Some("f".to_string()));
    b.data_start_offset = 50;
    set_regions(&mut b, &[(20, 25)]);
    assert_eq!(b.chunk_bottom_start(), Some(100));
    assert_eq!(b.chunk_top_start(30), 20);
    assert_eq!(b.chunk_top_start(80), 0);
    assert!(b.add_chunk_bottom(file[100..130].to_vec()));
    assert!(!b.add_chunk_bottom(vec![]));
    assert_eq!(b.data.to_vec(), file[50..130].to_vec());
    assert_eq!(regions(&b), vec![(20, 25)]);
    assert!(b.add_chunk_top(file[20..50].to_vec()));
    assert_eq!(b.data_start_offset, 20);
    assert_eq!(b.data.to_vec(), file[20..130].to_vec());
    assert_eq!(regions(&b), vec![(50, 55)]);
    assert!(!b.add_chunk_top(file[0..21].to_vec()));
    assert!(!b.add_chunk_top(vec![]));
    assert!(!b.dirty);

    assert!(!b.trim_top(51));
    assert!(!b.trim_top(55));
    assert!(!b.trim_top(0));
    assert!(b.trim_top(40));
    assert_eq!(b.data_start_offset, 60);
    assert_eq!(b.data.to_vec(), file[60..130].to_vec());
    assert_eq!(regions(&b), vec![(10, 15)]);
    assert!(!b.trim_bottom(35));
    assert!(!b.trim_bottom(0));
    assert!(b.trim_bottom(30));
    assert_eq!(b.data.to_vec(), file[60..100].to_vec());
    assert!(!b.trim_bottom(20));
    set_regions(&mut b, &[(10, 40)]);
    assert!(!b.trim_bottom(5));
    set_regions(&mut b, &[(10, 35)]);
    assert!(b.trim_bottom(5));
    assert_eq!(b.data.to_vec(), file[60..95].to_vec());
    assert_eq!(b.data_start_offset, 60);
}

#[test]
fn collection_always_has_a_buffer() {
    let mut buffers = BuffrCollection::new();
    assert_eq!(buffers.iter().len(), 1);
    assert_eq!(buffers.current().name(), "*scratch*");
    buffers.open(CurrentBuffer::from_data_and_path(b"a".to_vec(), Some("a".to_string())));
    buffers.open(CurrentBuffer::from_data_and_path(b"b".to_vec(), Some("b".to_string())));
    assert_eq!(buffers.cur_buf_index, 2);
    assert_eq!(buffers.current().name(), "b");
    assert!(buffers.switch_to(1));
    assert!(!buffers.switch_to(3));
    assert_eq!(buffers.current().name(), "a");
    buffers.current_mut().dirty = true;
    assert!(buffers.iter()[1].dirty);
    buffers.delete_current();
    assert_eq!(buffers.iter().len(), 2);
    assert_eq!(buffers.current().name(), "*scratch*");
    buffers.delete_current();
    assert_eq!(buffers.current().name(), "b");
    buffers.delete_current();
    assert_eq!(buffers.iter().len(), 1);
    assert_eq!(buffers.current().name(), "*scratch*");
    assert_eq!(buffers.cur_buf_index, 0);
    for each in buffers.iter_mut() {
        each.dirty = true;
    }
    assert!(buffers.current().dirty);
    let single = BuffrCollection::with_current_buffer(CurrentBuffer::default());
    assert_eq!(single.iter().len(), 1);
    assert_eq!(BuffrCollection::default().cur_buf_index, 0);
}

#[test]
fn collection_finds_and_opens_files() {
    let mut buffers = BuffrCollection::new();
    buffers.switch_current_buffer(None, "a".to_string(), b"AAA".to_vec());
    buffers.switch_current_buffer(None, "b".to_string(), b"BBB".to_vec());
    assert_eq!(buffers.iter().len(), 3);
    assert_eq!(buffers.cur_buf_index, 2);
    let paths = buffers.paths();
    assert_eq!(paths, vec![None, Some("a".to_string()), Some("b".to_string())]);
    assert_eq!(position_of_path(&paths, &"a".to_string()), Some(1));
    assert_eq!(position_of_path(&paths, &"c".to_string()), None);
    let twice = vec![Some("x".to_string()), None, Some("x".to_string())];
    assert_eq!(position_of_path(&twice, &"x".to_string()), Some(0));
    buffers.switch_current_buffer(Some(1), "a".to_string(), vec![]);
    assert_eq!(buffers.cur_buf_index, 1);
    assert_eq!(buffers.iter().len(), 3);
    buffers.switch_current_buffer(Some(9), "z".to_string(), b"Z".to_vec());
    assert_eq!(buffers.cur_buf_index, 3);
    assert_eq!(buffers.current().data.to_vec(), b"Z".to_vec());
    assert_eq!(buffers.bytes_to_write(1), Some(b"AAA".to_vec()));
    assert_eq!(buffers.bytes_to_write(0), None);
    assert_eq!(buffers.bytes_to_write(7), None);
    buffers.list[1].dirty = true;
    buffers.mark_written(1);
    assert!(!buffers.list[1].dirty);
    buffers.mark_written(9);
}

#[test]
fn buffer_undoes_and_redoes_a_long_row_of_edits() {
    let start: Vec<u8> = (0..2_000usize).map(|i| (i % 251) as u8).collect();
    let mut b = CurrentBuffer::from_data_and_path(start.clone(), None);
    let mut befores = Vec::new();
    let mut seed = 7usize;
    for round in 0..60 {
        seed = seed.wrapping_mul(1103515245).wrapping_add(12345) % 1_000_003;
        let len = b.data.len();
        let from = seed % (len + 1);
        let to = (from + seed % 17).min(len);
        let bytes = vec![round as u8; seed % 9];
        set_regions(&mut b, &[(from, to), (seed % (len + 1), len)]);
        befores.push((b.data.to_vec(), regions(&b)));
        if round % 3 == 0 {
            b.apply_incomplete_delta(RopeDelta::simple_edit(from, to, bytes.clone(), len)).unwrap();
            let len = b.data.len();
            b.apply_incomplete_delta(RopeDelta::simple_edit(0, 0, vec![1, 2], len)).unwrap();
            b.commit_delta();
        } else {
            b.apply_delta(RopeDelta::simple_edit(from, to, bytes, len)).unwrap();
        }
        for region in &b.selection.regions {
            assert!(region.caret <= b.data.len() && region.tail <= b.data.len());
        }
    }
    assert_eq!(b.history.undo.len(), 60);
    let last = (b.data.to_vec(), regions(&b));
    for (bytes, selection) in befores.iter().rev() {
        assert!(b.perform_undo().is_some());
        assert_eq!(&b.data.to_vec(), bytes);
        assert_eq!(&regions(&b), selection);
    }
    assert!(b.perform_undo().is_none());
    assert_eq!(b.data.to_vec(), start);
    for (bytes, selection) in befores.iter().skip(1) {
        assert!(b.perform_redo().is_some());
        assert_eq!(&b.data.to_vec(), bytes);
        assert_eq!(&regions(&b), selection);
    }
    assert!(b.perform_redo().is_some());
    assert_eq!((b.data.to_vec(), regions(&b)), last);
    assert!(b.perform_redo().is_none());
}

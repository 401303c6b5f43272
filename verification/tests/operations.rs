use tofu::byte_rope::Rope;
use tofu::operations::{
    backspace, deletion, insert, insertions_delta, overwrite, paste, repeat_within,
    repeated_byte, replace, rewrite_ranges, selected_ranges, sort_insertions, Insertion,
};
use tofu::byte_range::ByteRange;
use tofu::selection::{SelRegion, Selection};

fn rope(text: &str) -> Rope {
    Rope::from_vec(text.as_bytes().to_vec())
}

fn select(regions: &[(usize, usize)]) -> Selection {
    Selection {
        regions: regions.iter().map(|&(tail, caret)| SelRegion::new(caret, tail)).collect(),
        main_selection: 0,
    }
}

fn text_of(rope: &Rope) -> String {
    String::from_utf8(rope.to_vec()).unwrap()
}

#[test]
fn deletion_removes_every_selected_byte() {
    let base = rope("hello world");
    let delta = deletion(&base, &select(&[(0, 10)]));
    assert_eq!(base.apply_delta(&delta).unwrap().len(), 0);
    let delta = deletion(&base, &select(&[(0, 4)]));
    assert_eq!(text_of(&base.apply_delta(&delta).unwrap()), " world");
    let delta = deletion(&base, &select(&[(6, 6), (0, 0)]));
    assert_eq!(text_of(&base.apply_delta(&delta).unwrap()), "ello orld");
}

#[test]
fn deletion_coalesces_regions_that_overlap() {
    let base = rope("0123456789");
    let delta = deletion(&base, &select(&[(5, 7), (1, 3), (2, 6), (9, 9)]));
    assert!(delta.check_ordered());
    assert_eq!(text_of(&base.apply_delta(&delta).unwrap()), "08");
    let delta = deletion(&base, &select(&[(8, 20), (30, 40)]));
    assert_eq!(text_of(&base.apply_delta(&delta).unwrap()), "01234567");
    let empty = Rope::new();
    let delta = deletion(&empty, &select(&[(0, 0)]));
    assert_eq!(empty.apply_delta(&delta).unwrap().len(), 0);
}

#[test]
fn selected_ranges_are_clipped_to_the_buffer() {
    let ranges = selected_ranges(&select(&[(2, 4), (9, 3), (8, 20), (30, 40)]), 10);
    assert_eq!(
        ranges,
        vec![
            ByteRange::new(2, 5),
            ByteRange::new(3, 10),
            ByteRange::new(8, 10),
            ByteRange::new(10, 10)
        ]
    );
}

#[test]
fn rewrite_ranges_removes_or_fills() {
    let base = rope("0123456789");
    let ranges = vec![ByteRange::new(1, 3), ByteRange::new(6, 7)];
    let removed = rewrite_ranges(&ranges, None, 10);
    assert_eq!(text_of(&base.apply_delta(&removed).unwrap()), "0345789");
    let filled = rewrite_ranges(&ranges, Some(b'x'), 10);
    assert_eq!(text_of(&base.apply_delta(&filled).unwrap()), "0xx345x789");
    assert_eq!(repeated_byte(7, 3), vec![7, 7, 7]);
    assert_eq!(repeated_byte(7, 0), Vec::<u8>::new());
}

#[test]
fn paste_after_puts_the_entry_behind_each_region() {
    let base = rope("0123456789");
    let contents = vec![b"ab".to_vec()];
    let delta = paste(&base, &select(&[(2, 4)]), &contents, true, 1).unwrap();
    assert_eq!(text_of(&base.apply_delta(&delta).unwrap()), "01234ab56789");
    let delta = paste(&base, &select(&[(2, 4)]), &contents, false, 1).unwrap();
    assert_eq!(text_of(&base.apply_delta(&delta).unwrap()), "01ab23456789");
    let delta = paste(&base, &select(&[(4, 2)]), &contents, true, 3).unwrap();
    assert_eq!(text_of(&base.apply_delta(&delta).unwrap()), "01234ababab56789");
    let delta = paste(&base, &select(&[(9, 9)]), &contents, true, 1).unwrap();
    assert_eq!(text_of(&base.apply_delta(&delta).unwrap()), "0123456789ab");
}

#[test]
fn paste_goes_round_the_entries() {
    let base = rope("0123456789");
    let contents = vec![b"A".to_vec(), b"BB".to_vec()];
    let regions = select(&[(8, 8), (0, 0), (4, 5)]);
    let delta = paste(&base, &regions, &contents, true, 1).unwrap();
    assert!(delta.check_ordered());
    assert_eq!(text_of(&base.apply_delta(&delta).unwrap()), "0BB12345A678A9");
    let same_place = select(&[(3, 3), (3, 3)]);
    let delta = paste(&base, &same_place, &contents, false, 1).unwrap();
    assert_eq!(text_of(&base.apply_delta(&delta).unwrap()), "012ABB3456789");
}

#[test]
fn paste_of_nothing_changes_nothing() {
    let base = rope("abc");
    let delta = paste(&base, &select(&[(1, 1)]), &vec![vec![]], true, 5).unwrap();
    assert_eq!(text_of(&base.apply_delta(&delta).unwrap()), "abc");
    let delta = paste(&base, &select(&[(1, 1)]), &vec![], true, 5).unwrap();
    assert_eq!(text_of(&base.apply_delta(&delta).unwrap()), "abc");
    let delta = paste(&base, &select(&[(1, 1)]), &vec![b"x".to_vec()], true, 0).unwrap();
    assert_eq!(text_of(&base.apply_delta(&delta).unwrap()), "abc");
}

#[test]
fn paste_that_cannot_fit_is_refused() {
    let base = rope("abc");
    assert!(paste(&base, &select(&[(1, 1)]), &vec![b"xy".to_vec()], true, usize::MAX).is_none());
    assert!(paste(&base, &select(&[(1, 1)]), &vec![b"x".to_vec()], true, usize::MAX - 2).is_none());
    assert!(repeat_within(&b"xy".to_vec(), usize::MAX, usize::MAX).is_none());
    assert_eq!(repeat_within(&b"xy".to_vec(), 2, 4), Some(b"xyxy".to_vec()));
    assert_eq!(repeat_within(&b"xy".to_vec(), 2, 3), None);
}

#[test]
fn yanked_bytes_pasted_after_follow_each_region() {
    let base = rope("0123456789");
    let regions = select(&[(1, 2), (6, 8)]);
    let yanked: Vec<Vec<u8>> = regions
        .regions
        .iter()
        .map(|r| base.slice(r.min(), r.max() + 1).unwrap())
        .collect();
    let delta = paste(&base, &regions, &yanked, true, 1).unwrap();
    assert_eq!(text_of(&base.apply_delta(&delta).unwrap()), "01212345678678" .to_owned() + "9");
}

#[test]
fn insert_puts_bytes_at_each_caret() {
    let base = rope("0123456789");
    let delta = insert(&base, &select(&[(0, 0), (5, 5)]), &b"a".to_vec()).unwrap();
    assert_eq!(text_of(&base.apply_delta(&delta).unwrap()), "a01234a56789");
    let delta = insert(&base, &select(&[(7, 2), (10, 10), (30, 30)]), &b"xy".to_vec()).unwrap();
    assert_eq!(text_of(&base.apply_delta(&delta).unwrap()), "01xy23456789xyxy");
    let empty = Rope::new();
    let delta = insert(&empty, &select(&[(0, 0)]), &b"a".to_vec()).unwrap();
    assert_eq!(text_of(&empty.apply_delta(&delta).unwrap()), "a");
}

#[test]
fn insertions_are_sorted_by_offset_keeping_their_order() {
    let list = vec![
        Insertion { at: 5, bytes: b"a".to_vec() },
        Insertion { at: 1, bytes: b"b".to_vec() },
        Insertion { at: 5, bytes: b"c".to_vec() },
        Insertion { at: 0, bytes: b"d".to_vec() },
        Insertion { at: 1, bytes: b"e".to_vec() },
    ];
    let sorted = sort_insertions(&list);
    let order: Vec<(usize, Vec<u8>)> = sorted.iter().map(|i| (i.at, i.bytes.clone())).collect();
    assert_eq!(
        order,
        vec![
            (0, b"d".to_vec()),
            (1, b"b".to_vec()),
            (1, b"e".to_vec()),
            (5, b"a".to_vec()),
            (5, b"c".to_vec())
        ]
    );
    let delta = insertions_delta(&list, 6).unwrap();
    assert_eq!(text_of(&rope("012345").apply_delta(&delta).unwrap()), "d0be1234ac5");
}

#[test]
fn backspace_removes_the_byte_before_each_caret() {
    let base = rope("0123456789");
    let delta = backspace(&base, &select(&[(3, 3)]));
    assert_eq!(text_of(&base.apply_delta(&delta).unwrap()), "013456789");
    let delta = backspace(&base, &select(&[(0, 0), (10, 10), (4, 5), (5, 5)]));
    assert_eq!(text_of(&base.apply_delta(&delta).unwrap()), "01235678");
    let delta = backspace(&base, &select(&[(0, 0)]));
    assert_eq!(text_of(&base.apply_delta(&delta).unwrap()), "0123456789");
}

#[test]
fn replace_writes_over_the_byte_under_each_caret() {
    let base = rope("0123456789");
    let delta = replace(&base, &select(&[(2, 2), (9, 5), (10, 10)]), b'x');
    assert_eq!(text_of(&base.apply_delta(&delta).unwrap()), "01x34x6789");
    let delta = replace(&base, &select(&[(10, 10)]), b'x');
    assert_eq!(text_of(&base.apply_delta(&delta).unwrap()), "0123456789");
}

#[test]
fn overwrite_appends_at_the_end() {
    let base = rope("0123456789");
    let delta = overwrite(&base, &select(&[(2, 2), (3, 3)]), b'x').unwrap();
    assert_eq!(text_of(&base.apply_delta(&delta).unwrap()), "01xx456789");
    let delta = overwrite(&base, &select(&[(2, 2), (10, 10), (12, 12)]), b'x').unwrap();
    assert_eq!(text_of(&base.apply_delta(&delta).unwrap()), "01x3456789x");
    let empty = Rope::new();
    let delta = overwrite(&empty, &select(&[(0, 0)]), b'x').unwrap();
    assert_eq!(text_of(&empty.apply_delta(&delta).unwrap()), "x");
}

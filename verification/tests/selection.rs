use tofu::byte_range::{gaps, insert_range, normalize, ByteRange};
use tofu::delta::{Builder, RopeDelta};
use tofu::selection::{
    boundary_offset, move_offset, shift_offset, Direction, RegionOp, SelRegion, Selection,
};

fn region(caret: usize, tail: usize) -> SelRegion {
    SelRegion::new(caret, tail)
}

#[test]
fn region_min_max_len() {
    let r = region(3, 9);
    assert_eq!(r.min(), 3);
    assert_eq!(r.max(), 9);
    assert_eq!(r.len(), 7);
    assert!(!r.is_forward());
    assert!(region(9, 3).is_forward());
    assert!(region(4, 4).is_forward());
    assert_eq!(region(4, 4).len(), 1);
    assert_eq!(r.to_range(), ByteRange { start: 3, end: 10 });
    assert_eq!(region(usize::MAX, 0).len(), usize::MAX);
}

#[test]
fn region_simple_move_translates_and_clamps() {
    let r = region(20, 10);
    assert_eq!(r.simple_move(Direction::Right, 16, 100, 3), region(23, 13));
    assert_eq!(r.simple_move(Direction::Left, 16, 100, 3), region(17, 7));
    assert_eq!(r.simple_move(Direction::Down, 16, 100, 2), region(52, 42));
    assert_eq!(r.simple_move(Direction::Up, 16, 100, 1), region(4, 0));
    assert_eq!(r.simple_move(Direction::Left, 16, 100, 15), region(5, 0));
    assert_eq!(r.simple_move(Direction::Right, 16, 25, 10), region(25, 20));
    assert_eq!(r.simple_move(Direction::Down, 16, 100, usize::MAX), region(100, 100));
    assert_eq!(r.simple_move(Direction::Up, 16, 100, usize::MAX), region(0, 0));
    assert_eq!(r.simple_move(Direction::Right, 16, 100, 0), r);
}

#[test]
fn region_simple_extend_moves_the_caret_only() {
    let r = region(20, 10);
    assert_eq!(r.simple_extend(Direction::Right, 16, 100, 3), region(23, 10));
    assert_eq!(r.simple_extend(Direction::Up, 16, 100, 1), region(4, 10));
    assert_eq!(r.simple_extend(Direction::Down, 16, 30, 1), region(30, 10));
}

#[test]
fn region_jumps_and_boundaries() {
    let r = region(37, 5);
    assert_eq!(r.jump_to(8), region(8, 8));
    assert_eq!(r.extend_to(8), region(8, 5));
    assert_eq!(r.jump_to_boundary(Direction::Left, 16, 100), region(32, 32));
    assert_eq!(r.jump_to_boundary(Direction::Right, 16, 100), region(47, 47));
    assert_eq!(r.jump_to_boundary(Direction::Right, 16, 40), region(40, 40));
    assert_eq!(r.jump_to_boundary(Direction::Up, 16, 100), region(0, 0));
    assert_eq!(r.jump_to_boundary(Direction::Down, 16, 100), region(100, 100));
    assert_eq!(r.extend_to_boundary(Direction::Left, 16, 100), region(32, 5));
    assert_eq!(r.extend_to_boundary(Direction::Down, 16, 100), region(100, 5));
    assert_eq!(r.jump_to_boundary(Direction::Left, 0, 100), region(37, 37));
    assert_eq!(boundary_offset(37, Direction::Right, 0, 100), 37);
}

#[test]
fn region_turns() {
    let r = region(3, 9);
    assert_eq!(r.collapse(), region(3, 3));
    assert_eq!(r.collapse().collapse(), r.collapse());
    assert_eq!(r.swap_caret(), region(9, 3));
    assert_eq!(r.to_forward(), region(9, 3));
    assert_eq!(r.to_backward(), region(3, 9));
    assert_eq!(region(9, 3).to_backward(), region(3, 9));
    assert_eq!(region(1, 2).inherit_direction(&region(9, 3)), region(2, 1));
    assert_eq!(region(2, 1).inherit_direction(&region(3, 9)), region(1, 2));
    assert_eq!(region(50, 70).clamp_to(60), region(50, 60));
}

#[test]
fn offsets_move_and_shift_without_overflow() {
    assert_eq!(move_offset(5, Direction::Right, 16, 10, usize::MAX), 10);
    assert_eq!(move_offset(50, Direction::Left, 16, 10, 1), 10);
    assert_eq!(move_offset(50, Direction::Left, 16, 10, 45), 5);
    assert_eq!(move_offset(0, Direction::Up, usize::MAX, 10, usize::MAX), 0);
    assert_eq!(shift_offset(5, 3, 100), 8);
    assert_eq!(shift_offset(5, -3, 100), 2);
    assert_eq!(shift_offset(5, -9, 100), 0);
    assert_eq!(shift_offset(5, 300, 100), 100);
    assert_eq!(shift_offset(usize::MAX, isize::MAX, 100), 100);
    assert_eq!(shift_offset(0, isize::MIN, 100), 0);
}

#[test]
fn region_ops_are_the_region_functions() {
    let r = region(20, 10);
    assert_eq!(RegionOp::Move(Direction::Down, 2).apply(r, 16, 100), region(52, 42));
    assert_eq!(RegionOp::Extend(Direction::Left, 2).apply(r, 16, 100), region(18, 10));
    assert_eq!(RegionOp::JumpTo(7).apply(r, 16, 100), region(7, 7));
    assert_eq!(RegionOp::ExtendTo(7).apply(r, 16, 100), region(7, 10));
    assert_eq!(RegionOp::JumpToBoundary(Direction::Left).apply(r, 16, 100), region(16, 16));
    assert_eq!(RegionOp::ExtendToBoundary(Direction::Right).apply(r, 16, 100), region(31, 10));
    assert_eq!(RegionOp::Collapse.apply(r, 16, 100), region(20, 20));
    assert_eq!(RegionOp::SwapCaret.apply(r, 16, 100), region(10, 20));
    assert_eq!(RegionOp::ToForward.apply(region(1, 5), 16, 100), region(5, 1));
    assert_eq!(RegionOp::ToBackward.apply(r, 16, 100), region(10, 20));
    assert_eq!(RegionOp::Append.apply(region(1, 5), 16, 100), region(6, 1));
    assert_eq!(RegionOp::Append.apply(region(1, 5), 16, 5), region(5, 1));
}

#[test]
fn selection_starts_with_one_region() {
    let selection = Selection::new();
    assert_eq!(selection.len(), 1);
    assert_eq!(selection.main_selection, 0);
    assert_eq!(selection.main(), region(0, 0));
    assert_eq!(selection.main_cursor_offset(), 0);
    assert_eq!(selection.iter(), &vec![region(0, 0)]);
}

fn three() -> Selection {
    Selection { regions: vec![region(1, 1), region(5, 3), region(9, 9)], main_selection: 1 }
}

#[test]
fn selection_rotates_the_main_region() {
    let mut selection = three();
    selection.select_next(1);
    assert_eq!(selection.main_selection, 2);
    selection.select_next(1);
    assert_eq!(selection.main_selection, 0);
    selection.select_next(7);
    assert_eq!(selection.main_selection, 1);
    selection.select_prev(2);
    assert_eq!(selection.main_selection, 2);
    selection.select_prev(usize::MAX);
    assert_eq!(selection.main_selection, (2 + 3 - usize::MAX % 3) % 3);
    selection.select_next(usize::MAX);
    assert_eq!(selection.main_selection, 2);
    assert_eq!(selection.regions.len(), 3);
}

#[test]
fn selection_remove_keeps_a_main_region() {
    let mut selection = three();
    selection.remove(0);
    assert_eq!(selection.regions, vec![region(5, 3), region(9, 9)]);
    assert_eq!(selection.main_selection, 0);
    selection.remove(0);
    assert_eq!(selection.regions, vec![region(9, 9)]);
    assert_eq!(selection.main_selection, 0);
    selection.remove(0);
    assert_eq!(selection.regions, vec![region(9, 9)]);

    let mut last_main = Selection { regions: vec![region(1, 1), region(2, 2)], main_selection: 1 };
    last_main.remove(1);
    assert_eq!(last_main.regions, vec![region(1, 1)]);
    assert_eq!(last_main.main_selection, 0);

    let mut behind = three();
    behind.remove(2);
    assert_eq!(behind.main_selection, 1);
}

#[test]
fn selection_retain_and_select_all() {
    let mut selection = three();
    selection.retain(2);
    assert_eq!(selection.regions, vec![region(9, 9)]);
    assert_eq!(selection.main_selection, 0);
    selection.select_all(100);
    assert_eq!(selection.regions, vec![region(99, 0)]);
    selection.select_all(0);
    assert_eq!(selection.regions, vec![region(0, 0)]);
    assert_eq!(selection.main_selection, 0);
}

#[test]
fn selection_map_replaces_regions_in_order() {
    let mut selection = three();
    let accepted = selection.map_selections(|r| {
        if r.caret == 5 {
            vec![region(30, 30), region(31, 31)]
        } else {
            vec![r.collapse()]
        }
    });
    assert!(accepted);
    assert_eq!(
        selection.regions,
        vec![region(1, 1), region(30, 30), region(31, 31), region(9, 9)]
    );
    assert_eq!(selection.main_selection, 1);
}

#[test]
fn selection_map_rejects_an_empty_list() {
    let mut selection = three();
    let accepted = selection.map_selections(|r| if r.caret == 9 { vec![] } else { vec![r] });
    assert!(!accepted);
    assert_eq!(selection.regions, three().regions);
    assert_eq!(selection.main_selection, 1);
    let lists = vec![vec![region(0, 0)], vec![], vec![region(2, 2)]];
    assert!(!selection.replace_each(&lists));
    let lists = vec![vec![region(0, 0)], vec![region(7, 7), region(8, 8)], vec![region(2, 2)]];
    assert!(selection.replace_each(&lists));
    assert_eq!(selection.regions.len(), 4);
    assert_eq!(selection.main_selection, 1);
}

#[test]
fn selection_regions_in_range() {
    let selection = three();
    assert_eq!(selection.regions_in_range(0, 2), vec![region(1, 1)]);
    assert_eq!(selection.regions_in_range(2, 4), vec![region(5, 3)]);
    assert_eq!(selection.regions_in_range(5, 10), vec![region(5, 3), region(9, 9)]);
    assert_eq!(selection.regions_in_range(6, 9), vec![]);
    assert_eq!(selection.regions_in_range(0, 100).len(), 3);
    assert_eq!(selection.regions_in_range(4, 4), vec![]);
}

#[test]
fn selection_follows_a_delta() {
    // "0123456789" with [2, 5) removed
    let delta = RopeDelta::simple_edit(2, 5, vec![], 10);
    let mut selection =
        Selection { regions: vec![region(1, 0), region(4, 3), region(9, 6)], main_selection: 2 };
    selection.apply_delta(&delta, 7);
    assert_eq!(selection.regions, vec![region(1, 0), region(2, 2), region(6, 3)]);
    assert_eq!(selection.main_selection, 2);

    let mut builder = Builder::new(10);
    builder.replace(0, 0, vec![b'a']);
    builder.replace(5, 5, vec![b'a']);
    let insert = builder.build();
    let mut carets = Selection { regions: vec![region(0, 0), region(5, 5)], main_selection: 0 };
    carets.apply_delta_offset_carets(&insert, 1, 1, 12);
    assert_eq!(carets.regions, vec![region(1, 1), region(7, 7)]);

    let mut clamped = Selection { regions: vec![region(9, 9)], main_selection: 0 };
    clamped.apply_delta_offset_carets(&RopeDelta::identity(10), 5, -20, 10);
    assert_eq!(clamped.regions, vec![region(10, 0)]);
    assert_eq!(region(4, 3).apply_delta(&delta, 7), region(2, 2));
}

#[test]
fn selection_shifts_and_clamps() {
    let mut selection = three();
    assert!(selection.is_within(1, 9));
    assert!(!selection.is_within(2, 9));
    assert!(!selection.is_within(0, 8));
    selection.shift_up(10);
    assert_eq!(selection.regions, vec![region(11, 11), region(15, 13), region(19, 19)]);
    selection.shift_down(11);
    assert_eq!(selection.regions, vec![region(0, 0), region(4, 2), region(8, 8)]);
    selection.clamp_to(3);
    assert_eq!(selection.regions, vec![region(0, 0), region(3, 2), region(3, 3)]);
    selection.change_each(RegionOp::Move(Direction::Right, 1), 16, 3);
    assert_eq!(selection.regions, vec![region(1, 1), region(3, 3), region(3, 3)]);
    let copy = selection.clone();
    assert_eq!(copy.regions, selection.regions);
    assert_eq!(copy.main_selection, selection.main_selection);
}

fn range(start: usize, end: usize) -> ByteRange {
    ByteRange::new(start, end)
}

#[test]
fn byte_ranges_combine_as_intervals() {
    let r = range(2, 42);
    assert!(!r.contains(1));
    assert!(r.contains(2));
    assert!(r.contains(41));
    assert!(!r.contains(42));
    assert!(!r.is_empty());
    assert!(range(5, 5).is_empty());
    assert!(range(6, 5).is_empty());
    assert_eq!(r.size(), 40);
    assert_eq!(range(6, 5).size(), 0);
    assert_eq!(r.intersect(range(40, 50)), range(40, 42));
    assert_eq!(r.intersect(range(50, 60)), range(50, 50));
    assert_eq!(r.union(range(50, 60)), range(2, 60));
    assert_eq!(r.union(range(7, 7)), r);
    assert_eq!(range(7, 7).union(r), r);
    assert_eq!(ByteRange::inclusive(3, 5), range(3, 6));
    assert_eq!(ByteRange::inclusive(3, usize::MAX), range(3, usize::MAX));
}

#[test]
fn byte_ranges_normalize_to_sorted_and_apart() {
    let merged = normalize(&vec![range(10, 12), range(0, 3), range(3, 5), range(11, 20), range(7, 7)]);
    assert_eq!(merged, vec![range(0, 5), range(10, 20)]);
    assert_eq!(insert_range(&merged, range(5, 10)), vec![range(0, 20)]);
    assert_eq!(insert_range(&merged, range(6, 9)), vec![range(0, 5), range(6, 9), range(10, 20)]);
    assert_eq!(insert_range(&merged, range(30, 31)), vec![range(0, 5), range(10, 20), range(30, 31)]);
    assert_eq!(insert_range(&merged, range(8, 8)), merged);
    assert_eq!(normalize(&vec![]), vec![]);
}

#[test]
fn byte_ranges_gaps_are_what_is_left() {
    let covered = vec![range(2, 4), range(6, 8)];
    assert_eq!(gaps(&covered, 0, 10), vec![range(0, 2), range(4, 6), range(8, 10)]);
    assert_eq!(gaps(&covered, 3, 7), vec![range(4, 6)]);
    assert_eq!(gaps(&covered, 2, 8), vec![range(4, 6)]);
    assert_eq!(gaps(&covered, 2, 4), vec![]);
    assert_eq!(gaps(&vec![], 5, 9), vec![range(5, 9)]);
    assert_eq!(gaps(&covered, 9, 9), vec![]);
    assert_eq!(gaps(&vec![range(0, 100)], 5, 9), vec![]);
}

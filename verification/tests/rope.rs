use tofu::byte_rope::{Bytes, OutOfBounds, Rope, RopeBuilder, MAX_LEAF};
use tofu::delta::{Builder, DeltaElement, RopeDelta};

fn pattern_bytes(n: usize) -> Vec<u8> {
    (0..n).map(|i| (i * 7 % 251) as u8).collect()
}

fn big_rope(n: usize, piece: usize) -> Rope {
    let data = pattern_bytes(n);
    let mut rope = Rope::new();
    for part in data.chunks(piece) {
        rope = Rope::concat(rope, Rope::from_vec(part.to_vec()));
    }
    rope
}

#[test]
fn rope_from_vec_round_trips() {
    let rope = Rope::from_vec(vec![1, 2, 3, 4]);
    assert_eq!(rope.len(), 4);
    assert!(!rope.is_empty());
    assert_eq!(rope.to_vec(), vec![1, 2, 3, 4]);
}

#[test]
fn rope_new_is_empty() {
    let rope = Rope::new();
    assert_eq!(rope.len(), 0);
    assert!(rope.is_empty());
    assert_eq!(rope.to_vec(), Vec::<u8>::new());
    assert_eq!(rope.slice(0, 0), Ok(vec![]));
}

#[test]
fn rope_slice_stops_at_bounds() {
    let rope = Rope::from_vec(b"hello world".to_vec());
    assert_eq!(rope.slice(0, 5), Ok(b"hello".to_vec()));
    assert_eq!(rope.slice(6, 11), Ok(b"world".to_vec()));
    assert_eq!(rope.slice(11, 11), Ok(vec![]));
    assert_eq!(rope.slice(6, 12), Err(OutOfBounds));
    assert_eq!(rope.slice(7, 6), Err(OutOfBounds));
    assert_eq!(rope.byte_at(4), Ok(b'o'));
    assert_eq!(rope.byte_at(11), Err(OutOfBounds));
    assert!(rope.subseq(3, 20).is_err());
    assert!(rope.iter_chunks(12, 12).is_err());
}

#[test]
fn rope_concat_of_small_leaves_merges_them() {
    let joined = Rope::concat(Rope::from_vec(vec![1, 2]), Rope::from_vec(vec![3]));
    assert_eq!(joined.len(), 3);
    assert_eq!(joined.to_vec(), vec![1, 2, 3]);
    let chunks = joined.iter_chunks(0, 3).unwrap();
    assert_eq!(chunks.concat(), vec![1, 2, 3]);
}

#[test]
fn rope_of_many_leaves_keeps_its_bytes() {
    let data = pattern_bytes(40_000);
    let rope = big_rope(40_000, 700);
    assert_eq!(rope.len(), 40_000);
    assert_eq!(rope.to_vec(), data);
    assert_eq!(rope.byte_at(12_345), Ok(data[12_345]));
    assert_eq!(rope.slice(999, 30_001), Ok(data[999..30_001].to_vec()));
}

#[test]
fn rope_chunks_are_the_slice() {
    let data = pattern_bytes(20_000);
    let rope = big_rope(20_000, 900);
    let chunks = rope.iter_chunks(1_234, 17_777).unwrap();
    assert!(chunks.len() > 1);
    assert!(chunks.iter().all(|chunk| !chunk.is_empty()));
    assert_eq!(chunks.concat(), data[1_234..17_777].to_vec());
    assert_eq!(rope.slice(1_234, 17_777).unwrap(), chunks.concat());
    assert_eq!(rope.iter_chunks(5, 5).unwrap().len(), 0);
}

#[test]
fn rope_subseq_and_duplicate_share_bytes() {
    let data = pattern_bytes(10_000);
    let rope = big_rope(10_000, 512);
    let part = rope.subseq(100, 9_000).unwrap();
    assert_eq!(part.len(), 8_900);
    assert_eq!(part.to_vec(), data[100..9_000].to_vec());
    let copy = rope.duplicate();
    assert_eq!(copy.to_vec(), data);
    assert_eq!(rope.subseq(7, 7).unwrap().len(), 0);
}

#[test]
fn rope_builder_appends_in_order() {
    let mut builder = RopeBuilder::new();
    builder.push_leaf(Bytes(vec![1, 2, 3]));
    builder.push(Rope::from_vec(vec![4, 5]));
    builder.push_leaf(Bytes(vec![]));
    builder.push_leaf(Bytes(vec![6]));
    assert_eq!(builder.build().to_vec(), vec![1, 2, 3, 4, 5, 6]);
    assert_eq!(RopeBuilder::new().build().len(), 0);
}

#[test]
fn leaf_append_splits_when_too_long() {
    let mut leaf = Bytes(vec![7; MAX_LEAF - 1]);
    let rest = leaf.append_range(&Bytes(vec![1, 2, 3, 4]), 1, 3);
    let rest = rest.expect("the leaf is split");
    let whole_len = MAX_LEAF + 1;
    assert_eq!(leaf.0.len(), whole_len / 2);
    assert_eq!(rest.0.len(), whole_len - whole_len / 2);
    assert_eq!(rest.0[rest.0.len() - 2..], [2, 3]);

    let mut short = Bytes(vec![1]);
    assert!(short.append_range(&Bytes(vec![9, 8, 7]), 0, 2).is_none());
    assert_eq!(short.0, vec![1, 9, 8]);
    assert!(short.append_range(&Bytes(vec![9, 8, 7]), 2, 5).is_none());
    assert_eq!(short.0, vec![1, 9, 8]);
}

#[test]
fn delta_simple_edit_replaces_a_range() {
    let rope = Rope::from_vec(b"hello world".to_vec());
    let delta = RopeDelta::simple_edit(6, 11, b"there".to_vec(), 11);
    assert!(delta.check_ordered());
    assert!(delta.check_applies_to(11));
    assert!(!delta.check_applies_to(10));
    assert_eq!(rope.apply_delta(&delta).unwrap().to_vec(), b"hello there".to_vec());
    let insert = RopeDelta::simple_edit(5, 5, b",".to_vec(), 11);
    assert_eq!(rope.apply_delta(&insert).unwrap().to_vec(), b"hello, world".to_vec());
    let delete = RopeDelta::simple_edit(0, 6, vec![], 11);
    assert_eq!(rope.apply_delta(&delete).unwrap().to_vec(), b"world".to_vec());
    let same = RopeDelta::identity(11);
    assert_eq!(rope.apply_delta(&same).unwrap().to_vec(), b"hello world".to_vec());
}

#[test]
fn delta_for_another_length_is_refused() {
    let rope = Rope::from_vec(b"abc".to_vec());
    let delta = RopeDelta::simple_edit(0, 1, vec![], 4);
    assert!(rope.apply_delta(&delta).is_err());
    let reaching_out = RopeDelta { els: vec![DeltaElement::Copy(1, 5)], base_len: 3 };
    assert!(rope.apply_delta(&reaching_out).is_err());
    assert!(!reaching_out.check_applies_to(3));
    assert!(!reaching_out.check_ordered());
    let backwards = RopeDelta { els: vec![DeltaElement::Copy(2, 1)], base_len: 3 };
    assert!(rope.apply_delta(&backwards).is_err());
    let unordered = RopeDelta {
        els: vec![DeltaElement::Copy(2, 3), DeltaElement::Copy(0, 1)],
        base_len: 3,
    };
    assert!(!unordered.check_ordered());
    assert_eq!(rope.apply_delta(&unordered).unwrap().to_vec(), b"ca".to_vec());
}

#[test]
fn delta_builder_makes_ordered_pieces() {
    let mut builder = Builder::new(10);
    builder.delete(1, 3);
    builder.replace(5, 6, vec![0xaa, 0xbb]);
    builder.replace(6, 6, vec![]);
    let delta = builder.build();
    assert_eq!(delta.base_len, 10);
    assert_eq!(delta.els.len(), 4);
    assert!(matches!(delta.els[0], DeltaElement::Copy(0, 1)));
    assert!(matches!(delta.els[1], DeltaElement::Copy(3, 5)));
    assert!(matches!(&delta.els[2], DeltaElement::Insert(bytes) if bytes == &vec![0xaa, 0xbb]));
    assert!(matches!(delta.els[3], DeltaElement::Copy(6, 10)));
    let rope = Rope::from_vec((0..10).collect());
    assert_eq!(rope.apply_delta(&delta).unwrap().to_vec(), vec![0, 3, 4, 0xaa, 0xbb, 6, 7, 8, 9]);
}

#[test]
fn delta_transform_carries_offsets() {
    // "0123456789" with [2, 5) removed and "xy" put in at 7
    let mut builder = Builder::new(10);
    builder.delete(2, 5);
    builder.replace(7, 7, b"xy".to_vec());
    let delta = builder.build();
    assert_eq!(delta.transform(0, false), 0);
    assert_eq!(delta.transform(1, false), 1);
    assert_eq!(delta.transform(2, false), 2);
    assert_eq!(delta.transform(3, false), 2);
    assert_eq!(delta.transform(5, false), 2);
    assert_eq!(delta.transform(6, false), 3);
    assert_eq!(delta.transform(7, false), 4);
    assert_eq!(delta.transform(7, true), 6);
    assert_eq!(delta.transform(8, false), 7);
    assert_eq!(delta.transform(10, false), 9);
    assert_eq!(delta.transform(10, true), 9);
    let at_start = RopeDelta::simple_edit(0, 0, b"ab".to_vec(), 3);
    assert_eq!(at_start.transform(0, false), 0);
    assert_eq!(at_start.transform(0, true), 2);
    assert_eq!(at_start.transform(3, false), 5);
}

#[test]
fn delta_invert_gives_back_the_old_bytes() {
    let data = pattern_bytes(5_000);
    let rope = big_rope(5_000, 600);
    let mut builder = Builder::new(5_000);
    builder.delete(0, 10);
    builder.replace(100, 700, vec![1, 2, 3]);
    builder.replace(1_000, 1_000, vec![9; 50]);
    builder.delete(4_990, 5_000);
    let delta = builder.build();
    let edited = rope.apply_delta(&delta).unwrap();
    assert_eq!(edited.len(), 5_000 - 10 - 600 + 3 + 50 - 10);
    let inverse = delta.invert(&rope);
    assert_eq!(inverse.base_len, edited.len());
    assert!(inverse.check_ordered());
    assert_eq!(edited.apply_delta(&inverse).unwrap().to_vec(), data);
    let again = inverse.invert(&edited);
    assert_eq!(rope.apply_delta(&again).unwrap().to_vec(), edited.to_vec());
}

#[test]
fn delta_compose_does_both_edits() {
    let rope = Rope::from_vec(b"0123456789".to_vec());
    let first = RopeDelta::simple_edit(2, 5, b"abcd".to_vec(), 10);
    let middle = rope.apply_delta(&first).unwrap();
    assert_eq!(middle.to_vec(), b"01abcd56789".to_vec());
    let second = RopeDelta::simple_edit(1, 4, b"X".to_vec(), 11);
    let end = middle.apply_delta(&second).unwrap();
    assert_eq!(end.to_vec(), b"0Xcd56789".to_vec());
    let both = first.compose(&second);
    assert_eq!(both.base_len, 10);
    assert_eq!(rope.apply_delta(&both).unwrap().to_vec(), b"0Xcd56789".to_vec());
    let copy = both.duplicate();
    assert_eq!(rope.apply_delta(&copy).unwrap().to_vec(), b"0Xcd56789".to_vec());
}

#[test]
fn delta_transform_stays_in_the_new_bytes() {
    let mut builder = Builder::new(20);
    builder.replace(0, 3, vec![1; 7]);
    builder.delete(5, 9);
    builder.replace(20, 20, vec![2; 4]);
    let delta = builder.build();
    let new_len = 20 - 3 + 7 - 4 + 4;
    let rope = Rope::from_vec(vec![0; 20]);
    assert_eq!(rope.apply_delta(&delta).unwrap().len(), new_len);
    for offset in 0..=20 {
        assert!(delta.transform(offset, false) <= new_len);
        assert!(delta.transform(offset, true) <= new_len);
        assert!(delta.transform(offset, false) <= delta.transform(offset, true));
    }
    assert_eq!(delta.transform(20, true), new_len);
}

#[test]
fn rope_of_one_long_vector_is_cut_into_leaves() {
    let data = pattern_bytes(3 * MAX_LEAF + 17);
    let rope = Rope::from_vec(data.clone());
    assert_eq!(rope.len(), data.len());
    let chunks = rope.iter_chunks(0, data.len()).unwrap();
    assert!(chunks.len() >= 4);
    assert!(chunks.iter().all(|chunk| chunk.len() <= MAX_LEAF));
    assert_eq!(chunks.concat(), data);
    let part = rope.subseq(5, 3 * MAX_LEAF).unwrap();
    assert_eq!(part.to_vec(), data[5..3 * MAX_LEAF].to_vec());
    let delta = RopeDelta::simple_edit(10, 20, pattern_bytes(2 * MAX_LEAF + 1), data.len());
    let edited = rope.apply_delta(&delta).unwrap();
    assert_eq!(edited.len(), data.len() - 10 + 2 * MAX_LEAF + 1);
    assert_eq!(edited.apply_delta(&delta.invert(&rope)).unwrap().to_vec(), data);
    let mut builder = RopeBuilder::new();
    builder.push_leaf(Bytes(data.clone()));
    builder.push_leaf(Bytes(vec![1; MAX_LEAF]));
    let built = builder.build();
    assert_eq!(built.len(), data.len() + MAX_LEAF);
    assert!(built.iter_chunks(0, built.len()).unwrap().iter().all(|c| c.len() <= MAX_LEAF));
    assert_eq!(built.slice(0, data.len()).unwrap(), data);
}

struct Lcg(u64);

impl Lcg {
    fn next(&mut self, bound: usize) -> usize {
        self.0 = self.0.wrapping_mul(6364136223846793005).wrapping_add(1442695040888963407);
        ((self.0 >> 33) as usize) % bound.max(1)
    }
}

#[test]
fn rope_follows_a_vector_through_many_edits() {
    let mut random = Lcg(42);
    let mut model = pattern_bytes(6_000);
    let mut rope = Rope::from_vec(model.clone());
    let mut history = Vec::new();
    for round in 0..300 {
        let len = model.len();
        let start = random.next(len + 1);
        let end = (start + random.next(40)).min(len);
        let size = match round % 7 {
            0 => random.next(3 * MAX_LEAF),
            1 => 0,
            _ => random.next(60),
        };
        let bytes: Vec<u8> = (0..size).map(|i| (i + round) as u8).collect();
        let delta = RopeDelta::simple_edit(start, end, bytes.clone(), len);
        let edited = rope.apply_delta(&delta).unwrap();
        model.splice(start..end, bytes);
        assert_eq!(edited.len(), model.len());
        assert_eq!(edited.to_vec(), model);
        let a = random.next(model.len() + 1);
        let b = (a + random.next(5_000)).min(model.len());
        assert_eq!(edited.slice(a, b).unwrap(), model[a..b].to_vec());
        history.push((delta.invert(&rope), rope));
        rope = edited;
    }
    while let Some((inverse, before)) = history.pop() {
        rope = rope.apply_delta(&inverse).unwrap();
        assert_eq!(rope.len(), before.len());
    }
    assert_eq!(rope.to_vec(), pattern_bytes(6_000));
}

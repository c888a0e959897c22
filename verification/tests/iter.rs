use weave::iter::{
    collect_combine, fold_combine, FillTarget, merge_reduced, reduce_step, ChunksAligned, ParallelSlice, ParallelSliceMut, RangeIter, SliceIter, SliceIterMut,
};

#[test]
fn ranges_split_into_consecutive_halves() {
    let range = RangeIter::new(3..10);
    assert_eq!(range.len(), 7);
    let (left, right) = range.split_at(3);
    assert_eq!(left.range(), 3..6);
    assert_eq!(right.range(), 6..10);
    assert!(RangeIter::new(9..2).is_empty());
    let (l, r) = RangeIter::new(9..2).split_at(0);
    assert_eq!((l.len(), r.len()), (0, 0));
    let (l, r) = RangeIter::new(usize::MAX - 2..usize::MAX).split_at(2);
    assert_eq!(l.range(), usize::MAX - 2..usize::MAX);
    assert!(r.is_empty());
}

#[test]
fn slices_split_without_copying() {
    let data = [1, 2, 3, 4, 5];
    let (left, right) = SliceIter::new(&data).split_at(2);
    assert_eq!(left.as_slice(), &[1, 2]);
    assert_eq!(right.as_slice(), &[3, 4, 5]);
    assert_eq!(data[..].iter_parallel().len(), 5);

    let mut values = vec![1, 2, 3];
    let (a, b) = SliceIterMut::new(&mut values).split_at(1);
    a.into_slice()[0] = 10;
    b.into_slice()[1] = 30;
    assert_eq!(values, vec![10, 2, 30]);
    assert_eq!(values[..].iter_parallel_mut().len(), 3);
}

#[test]
fn chunks_keep_the_tail_and_split_in_chunk_units() {
    let data: Vec<u32> = (0..10).collect();
    let chunks = ChunksAligned::new(&data, 4);
    assert_eq!(chunks.len(), 3);
    let (left, right) = chunks.split_at(2);
    assert_eq!(left.as_slice(), &data[..8]);
    assert_eq!(right.as_slice(), &data[8..]);
    assert_eq!((left.len(), right.len()), (2, 1));
    let (all, none) = ChunksAligned::new(&data, 4).split_at(3);
    assert_eq!((all.len(), none.len()), (3, 0));
    assert_eq!(data[..].chunks_parallel(5).len(), 2);
    assert_eq!(data[..].chunk_aligned(3).chunk_size(), 3);
    assert_eq!(ChunksAligned::new(&data[..0], 2).len(), 0);
}

#[test]
fn reductions_keep_source_order_and_skip_empty_parts() {

    let concat = |a: String, b: String| a + &b;
    let acc = reduce_step(&concat, None, "a".to_string());
    let acc = reduce_step(&concat, acc, "b".to_string());
    assert_eq!(acc.as_deref(), Some("ab"));
    assert_eq!(merge_reduced(&concat, acc.clone(), Some("c".to_string())).as_deref(), Some("abc"));
    assert_eq!(merge_reduced(&concat, None, Some("c".to_string())).as_deref(), Some("c"));
    assert_eq!(merge_reduced(&concat, acc, None).as_deref(), Some("ab"));
    assert_eq!(merge_reduced(&concat, None, None), None);
}

#[test]
fn enumeration_numbers_each_part_from_its_offset() {
    let mut index = weave::iter::EnumerateIndex::new(0);
    assert_eq!(index.take(), 0);
    assert_eq!(index.take(), 1);
    let (left, right) = index.split_at(5);
    assert_eq!((left.next(), right.next()), (2, 7));
}

#[test]
fn chunk_i_covers_its_own_range() {
    let data: Vec<u32> = (0..10).collect();
    let chunks = ChunksAligned::new(&data, 4);
    assert_eq!(chunks.chunk(0), &data[0..4]);
    assert_eq!(chunks.chunk(1), &data[4..8]);
    assert_eq!(chunks.chunk(2), &data[8..10]);
    let whole = ChunksAligned::new(&data, usize::MAX);
    assert_eq!(whole.len(), 1);
    assert_eq!(whole.chunk(0), &data[..]);
    let chunks = ChunksAligned::new(&data, 3);
    let items: Vec<&[u32]> = (0..chunks.len()).map(|i| chunks.chunk(i)).collect();
    let expected: Vec<&[u32]> = data.chunks(3).collect();
    assert_eq!(items, expected);
}

#[test]
fn fill_writes_item_i_at_position_i() {
    let mut out = [0u32; 5];
    {
        let target = FillTarget::new(&mut out);
        let (mut left, mut right) = target.split_at(2);
        left.put(10);
        left.put(11);
        right.put(12);
        assert_eq!((left.index(), right.index(), right.len()), (2, 1, 3));
    }
    assert_eq!(out, [10, 11, 12, 0, 0]);
    assert_eq!(collect_combine(vec![1, 2], vec![3]), vec![1, 2, 3]);
    assert_eq!(fold_combine(&|a: String, b: String| a + &b, "x".to_string(), "y".to_string()), "xy");
}

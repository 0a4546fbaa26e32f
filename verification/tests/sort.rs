use os_sim::block::Block;
use os_sim::sort::{merge_sort, Keyed};

#[test]
fn test_merge_sort_of_numbers() {
    assert_eq!(merge_sort(&Vec::<usize>::new()), Vec::<usize>::new());
    assert_eq!(merge_sort(&vec![7usize]), vec![7]);
    assert_eq!(merge_sort(&vec![2usize, 1]), vec![1, 2]);
    assert_eq!(
        merge_sort(&vec![98usize, 183, 37, 122, 14, 124, 65, 67]),
        vec![14, 37, 65, 67, 98, 122, 124, 183]
    );
    assert_eq!(merge_sort(&vec![3usize, 1, 3, 0, 1, usize::MAX, 0]), vec![0, 0, 1, 1, 3, 3, usize::MAX]);
}

#[test]
fn test_merge_sort_as_the_standard_library_sorts() {
    let mut state: u64 = 12345;
    for len in 0..60usize {
        let mut v: Vec<usize> = Vec::new();
        for _ in 0..len {
            state = state.wrapping_mul(6364136223846793005).wrapping_add(1442695040888963407);
            v.push((state >> 33) as usize % 17);
        }
        let mut expected = v.clone();
        expected.sort();
        assert_eq!(merge_sort(&v), expected);
    }
}

#[test]
fn test_merge_sort_keeps_the_order_of_equal_keys() {
    let blocks = vec![
        Block::new_used(1, 30, 5),
        Block::new_used(2, 10, 5),
        Block::new_used(3, 30, 1),
        Block::new_used(4, 10, 9),
        Block::new_free(0, 2),
        Block::new_used(5, 30, 2),
    ];
    let sorted = merge_sort(&blocks);
    let expected = vec![blocks[4], blocks[1], blocks[3], blocks[0], blocks[2], blocks[5]];
    assert_eq!(sorted, expected);
    let mut by_std = blocks.clone();
    by_std.sort_by(|a, b| a.cmp_start_addr(b));
    assert_eq!(sorted, by_std);
    assert_eq!(blocks[0].sort_key(), 30);
    assert_eq!(7usize.sort_key(), 7);
}

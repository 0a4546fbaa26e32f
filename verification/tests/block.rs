use os_sim::block::{BError, Block, BlockId};
use std::cmp::Ordering;

#[test]
fn test_free_creation() {
    let b1 = Block::new_free(0, 10);
    assert_eq!(b1.id, BlockId::Free);
    assert_eq!(b1.size, 10);
    assert_eq!(b1.start_addr, 0);
    assert_eq!(b1.end_addr, 9);
}

#[test]
fn test_used_creation() {
    let b1 = Block::new_used(0, 0, 10);
    assert_eq!(b1.id, BlockId::Used(0));
    assert_eq!(b1.size, 10);
    assert_eq!(b1.start_addr, 0);
    assert_eq!(b1.end_addr, 9);
}

#[test]
fn test_can_merge() {
    let b1 = Block::new_free(0, 100);
    let b2 = Block::new_free(100, 100);
    let b3 = Block::new_free(250, 100);

    assert_eq!(b1.can_merge(&b2), true);
    assert_eq!(b1.can_merge(&b3), false);
}

#[test]
fn test_merging() {
    let b1 = Block::new_free(0, 100);
    let b2 = Block::new_free(100, 100);
    let b3 = b1.merge(b2);
    assert_eq!(b3.id, BlockId::Free);
    assert_eq!(b3.size, 200);
    assert_eq!(b3.start_addr, 0);
    assert_eq!(b3.end_addr, 199);
}

#[test]
fn test_new_keeps_the_id() {
    let b = Block::new(BlockId::Used(7), 40, 2);
    assert_eq!(b, Block { id: BlockId::Used(7), size: 2, start_addr: 40, end_addr: 41 });
    let one = Block::new(BlockId::Free, u64::MAX, 1);
    assert_eq!(one.start_addr, u64::MAX);
    assert_eq!(one.end_addr, u64::MAX);
}

#[test]
fn test_can_merge_is_symmetric_and_needs_two_free_blocks() {
    let low = Block::new_free(0, 10);
    let high = Block::new_free(10, 5);
    let used = Block::new_used(3, 10, 5);
    assert!(low.can_merge(&high));
    assert!(high.can_merge(&low));
    assert!(!low.can_merge(&used));
    assert!(!used.can_merge(&low));
    assert!(!low.can_merge(&low));
    let top = Block::new_free(u64::MAX - 1, 2);
    assert!(!top.can_merge(&low));
    assert!(!low.can_merge(&top));
}

#[test]
fn test_merge_spans_from_lowest_start_to_highest_end() {
    let high = Block::new_free(10, 5);
    let low = Block::new_free(0, 10);
    assert_eq!(high.merge(low), Block { id: BlockId::Free, size: 15, start_addr: 0, end_addr: 14 });
}

#[test]
fn test_merge_replace() {
    let mut b1 = Block::new_free(0, 100);
    assert_eq!(b1.merge_replace(Block::new_free(100, 50)), Ok(()));
    assert_eq!(b1, Block { id: BlockId::Free, size: 150, start_addr: 0, end_addr: 149 });
    let far = Block::new_free(200, 10);
    assert_eq!(
        b1.merge_replace(far),
        Err(BError::Merge(BlockId::Free, BlockId::Free, 150, 10, 0, 149, 200, 209))
    );
    assert_eq!(b1.size, 150);
}

#[test]
fn test_try_merge() {
    let b1 = Block::new_free(20, 10);
    let b2 = Block::new_free(10, 10);
    assert_eq!(
        b1.try_merge(b2),
        Ok(Block { id: BlockId::Free, size: 20, start_addr: 10, end_addr: 29 })
    );
    let used = Block::new_used(4, 30, 10);
    assert_eq!(
        b1.try_merge(used),
        Err(BError::Merge(BlockId::Free, BlockId::Used(4), 10, 10, 20, 29, 30, 39))
    );
}

#[test]
fn test_take_part_of_a_block() {
    let mut b = Block::new_free(100, 50);
    let taken = b.take(9, 20);
    assert_eq!(
        taken,
        Ok(Block { id: BlockId::Used(9), size: 20, start_addr: 100, end_addr: 119 })
    );
    assert_eq!(b, Block { id: BlockId::Free, size: 30, start_addr: 120, end_addr: 149 });
}

#[test]
fn test_take_the_whole_block_leaves_nothing() {
    let mut b = Block::new_free(100, 50);
    let taken = b.take(9, 50).unwrap();
    assert_eq!(taken.start_addr, 100);
    assert_eq!(taken.end_addr, 149);
    assert_eq!(b.size, 0);
}

#[test]
fn test_take_refused() {
    let mut b = Block::new_free(100, 50);
    assert_eq!(b.take(1, 51), Err(BError::Take(51, BlockId::Free, 50, 100, 149)));
    assert_eq!(b.take(1, 0), Err(BError::Take(0, BlockId::Free, 50, 100, 149)));
    assert_eq!(b.size, 50);
    let mut used = Block::new_used(2, 0, 10);
    assert_eq!(used.take(1, 5), Err(BError::Take(5, BlockId::Used(2), 10, 0, 9)));
}

#[test]
fn test_as_free_and_is_free() {
    let used = Block::new_used(2, 5, 10);
    assert!(!used.is_free());
    let free = used.as_free();
    assert!(free.is_free());
    assert_eq!(free, Block { id: BlockId::Free, size: 10, start_addr: 5, end_addr: 14 });
}

#[test]
fn test_relocate() {
    let mut b = Block::new_used(2, 50, 10);
    b.relocate(0);
    assert_eq!(b, Block { id: BlockId::Used(2), size: 10, start_addr: 0, end_addr: 9 });
}

#[test]
fn test_contains_addr() {
    let b = Block::new_free(10, 5);
    assert!(!b.contains_addr(9));
    assert!(b.contains_addr(10));
    assert!(b.contains_addr(14));
    assert!(!b.contains_addr(15));
}

#[test]
fn test_orderings() {
    let a = Block::new_used(1, 0, 10);
    let b = Block::new_used(2, 10, 5);
    let f = Block::new_free(15, 5);
    assert_eq!(a.cmp_start_addr(&b), Ordering::Less);
    assert_eq!(b.cmp_start_addr(&a), Ordering::Greater);
    assert_eq!(a.cmp_start_addr(&a), Ordering::Equal);
    assert_eq!(a.cmp_end_addr(&b), Ordering::Less);
    assert_eq!(a.cmp_size(&b), Ordering::Greater);
    assert_eq!(b.cmp_size(&f), Ordering::Equal);
    assert_eq!(a.cmp_id(&b), Ordering::Less);
    assert_eq!(b.cmp_id(&a), Ordering::Greater);
    assert_eq!(f.cmp_id(&a), Ordering::Less);
    assert_eq!(a.cmp_id(&f), Ordering::Greater);
    assert_eq!(f.cmp_id(&f), Ordering::Equal);
}

#[test]
fn test_error_constructors() {
    let a = Block::new_free(0, 10);
    let b = Block::new_used(5, 20, 4);
    assert_eq!(
        BError::merge(&a, &b),
        BError::Merge(BlockId::Free, BlockId::Used(5), 10, 4, 0, 9, 20, 23)
    );
    assert_eq!(BError::take(&b, 3), BError::Take(3, BlockId::Used(5), 4, 20, 23));
}

#[test]
fn test_block_ids_are_ordered() {
    assert!(BlockId::Free < BlockId::Used(0));
    assert!(BlockId::Used(0) < BlockId::Used(1));
    assert!(BlockId::Used(9) > BlockId::Free);
    assert_eq!(BlockId::Free.partial_cmp(&BlockId::Free), Some(Ordering::Equal));
    assert_eq!(BlockId::Used(3).partial_cmp(&BlockId::Used(2)), Some(Ordering::Greater));
    assert_eq!(BlockId::Used(3).cmp(&BlockId::Used(3)), Ordering::Equal);
    assert_eq!(BlockId::Free.cmp(&BlockId::Used(u64::MAX)), Ordering::Less);
    let mut ids = vec![BlockId::Used(2), BlockId::Free, BlockId::Used(1)];
    ids.sort();
    assert_eq!(ids, vec![BlockId::Free, BlockId::Used(1), BlockId::Used(2)]);
}

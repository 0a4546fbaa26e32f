use os_sim::algos::{best_fit, first_fit, worst_fit, AlgoResult, AllocationMethod, Size};
use os_sim::block::Block;

fn blocks(sizes: &[u64]) -> Vec<Block> {
    let mut start = 0;
    let mut v = Vec::new();
    for s in sizes {
        v.push(Block::new_free(start, *s));
        start += *s + 1;
    }
    v
}

#[test]
fn test_first_fit_picks_the_first_that_is_large_enough() {
    let b = blocks(&[5, 30, 10, 30]);
    assert_eq!(first_fit(Size(10), &b), AlgoResult::Found(1));
    assert_eq!(first_fit(Size(5), &b), AlgoResult::Found(0));
    assert_eq!(first_fit(Size(30), &b), AlgoResult::Found(1));
    assert_eq!(first_fit(Size(31), &b), AlgoResult::NotFound);
}

#[test]
fn test_best_fit_picks_the_smallest_that_is_large_enough() {
    let b = blocks(&[5, 30, 10, 30, 10]);
    assert_eq!(best_fit(Size(6), &b), AlgoResult::Found(2));
    assert_eq!(best_fit(Size(11), &b), AlgoResult::Found(1));
    assert_eq!(best_fit(Size(1), &b), AlgoResult::Found(0));
    assert_eq!(best_fit(Size(31), &b), AlgoResult::NotFound);
}

#[test]
fn test_worst_fit_picks_the_largest() {
    let b = blocks(&[5, 30, 10, 30, 40, 40]);
    assert_eq!(worst_fit(Size(6), &b), AlgoResult::Found(4));
    assert_eq!(worst_fit(Size(41), &b), AlgoResult::NotFound);
    let c = blocks(&[30, 30]);
    assert_eq!(worst_fit(Size(1), &c), AlgoResult::Found(0));
}

#[test]
fn test_no_block_no_fit() {
    let b: Vec<Block> = Vec::new();
    assert_eq!(first_fit(Size(0), &b), AlgoResult::NotFound);
    assert_eq!(best_fit(Size(0), &b), AlgoResult::NotFound);
    assert_eq!(worst_fit(Size(0), &b), AlgoResult::NotFound);
}

#[test]
fn test_pick_goes_by_the_method() {
    let b = blocks(&[20, 10, 30]);
    assert_eq!(AllocationMethod::FirstFit.pick(Size(10), &b), AlgoResult::Found(0));
    assert_eq!(AllocationMethod::BestFit.pick(Size(10), &b), AlgoResult::Found(1));
    assert_eq!(AllocationMethod::WorstFit.pick(Size(10), &b), AlgoResult::Found(2));
    assert_eq!(AllocationMethod::default(), AllocationMethod::FirstFit);
}

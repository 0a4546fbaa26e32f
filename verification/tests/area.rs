use os_sim::algos::AllocationMethod;
use os_sim::area::{AError, Area};
use os_sim::block::{Block, BlockId};

fn free(start: u64, size: u64) -> Block {
    Block { id: BlockId::Free, size, start_addr: start, end_addr: start + size - 1 }
}

fn used(id: u64, start: u64, size: u64) -> Block {
    Block { id: BlockId::Used(id), size, start_addr: start, end_addr: start + size - 1 }
}

fn fragmentation(area: &Area) -> f64 {
    let (scattered, total) = area.fragmentation().unwrap();
    let largest_block = total - scattered;
    1f64 - (largest_block as f64 / total as f64)
}

fn assert_tiles(area: &Area) {
    let mut blocks: Vec<Block> = area.free_blocks.clone();
    blocks.extend(area.used_blocks.iter().cloned());
    blocks.sort_by_key(|b| b.start_addr);
    let mut next = 0;
    for b in blocks.iter() {
        assert_eq!(b.start_addr, next);
        assert!(b.size >= 1);
        assert_eq!(b.end_addr - b.start_addr + 1, b.size);
        next = b.end_addr + 1;
    }
    assert_eq!(next, area.size);
    let free_total: u64 = area.free_blocks.iter().map(|b| b.size).sum();
    let used_total: u64 = area.used_blocks.iter().map(|b| b.size).sum();
    assert_eq!(free_total + used_total, area.size);
    for a in area.free_blocks.iter() {
        for b in area.free_blocks.iter() {
            assert_ne!(a.end_addr + 1, b.start_addr);
        }
    }
}

#[test]
fn test_alloc_missing_memory() {
    let mut area = Area::new(100);
    area.alloc_first_fit(1, 10).unwrap();
    area.alloc_first_fit(2, 80).unwrap();
    assert_eq!(area.alloc_first_fit(3, 20).is_err(), true);
}

#[test]
fn area_test_alloc() {
    let mut area = Area::new(100);
    area.alloc_first_fit(1, 10).unwrap();
    area.alloc_first_fit(2, 80).unwrap();
    assert_eq!(area.alloc_first_fit(3, 10).is_ok(), true);
}

#[test]
fn test_dealloc() {
    let mut area = Area::new(100);
    area.alloc_first_fit(1, 10).unwrap();
    area.alloc_first_fit(2, 40).unwrap();
    area.dealloc(1).unwrap();
    assert_eq!(area.free_blocks.len(), 2);
    area.alloc_first_fit(3, 40).unwrap();
    area.dealloc(2).unwrap();
    assert_eq!(area.free_blocks.len(), 2);
    assert_eq!(area.used_blocks.len(), 1);
}

#[test]
fn test_alloc_memory_addresses() {
    let mut area = Area::new(100);
    area.alloc_first_fit(1, 10).unwrap();
    area.alloc_first_fit(2, 80).unwrap();
    area.alloc_first_fit(3, 10).unwrap();
    assert_eq!(area.used_blocks[0].start_addr, 0);
    assert_eq!(area.used_blocks[0].end_addr, 9);
    assert_eq!(area.used_blocks[1].start_addr, 10);
    assert_eq!(area.used_blocks[1].end_addr, 89);
    assert_eq!(area.used_blocks[2].start_addr, 90);
    assert_eq!(area.used_blocks[2].end_addr, 99);
}

#[test]
fn test_compact() {
    let mut area = Area::new(100);
    area.alloc_first_fit(1, 10).unwrap();
    area.alloc_first_fit(2, 30).unwrap();
    area.alloc_first_fit(3, 20).unwrap();
    area.alloc_first_fit(4, 40).unwrap();

    area.dealloc(1).unwrap();
    area.dealloc(3).unwrap();

    area.compact().unwrap();

    assert_eq!(area.free_blocks.len(), 1);
    assert_eq!(area.used_blocks.len(), 2);
    assert_eq!(area.free_blocks[0].size, 30);
    assert_eq!(area.used_blocks[0].size, 30);
    assert_eq!(area.used_blocks[1].size, 40);
}

#[test]
fn test_byte_array() {
    let mut area = Area::new(100);
    area.alloc_first_fit(1, 10).unwrap();
    area.alloc_first_fit(2, 30).unwrap();
    area.alloc_first_fit(3, 20).unwrap();
    area.alloc_first_fit(4, 40).unwrap();

    area.dealloc(1).unwrap();
    area.dealloc(3).unwrap();

    let bytes = area.as_byte_array();
    assert_eq!(bytes[0], 0);
    assert_eq!(bytes[9], 0);
    assert_eq!(bytes[10], 1);
    assert_eq!(bytes[39], 1);
    assert_eq!(bytes[40], 0);
    assert_eq!(bytes[59], 0);
    assert_eq!(bytes[60], 1);
    assert_eq!(bytes[99], 1);
}

#[test]
fn test_example_scenario() {
    let mut area = Area::new(1000);
    area.alloc_first_fit(0, 100).unwrap();
    area.alloc_first_fit(1, 100).unwrap();
    area.alloc_first_fit(2, 500).unwrap();
    area.dealloc(1).unwrap();
    area.alloc_first_fit(3, 200).unwrap();
    area.dealloc(2).unwrap();
    assert_eq!(fragmentation(&area), 0.1428571428571429);
    assert_eq!(area.free_blocks.len(), 2);
    assert_eq!(area.used_blocks.len(), 2);
}

#[test]
fn test_example_scenario_addresses() {
    let mut area = Area::new(1000);
    area.alloc_first_fit(0, 100).unwrap();
    area.alloc_first_fit(1, 100).unwrap();
    area.alloc_first_fit(2, 500).unwrap();
    area.dealloc(1).unwrap();
    area.alloc_first_fit(3, 200).unwrap();
    area.dealloc(2).unwrap();
    assert_eq!(area.used_blocks, vec![used(0, 0, 100), used(3, 700, 200)]);
    assert_eq!(area.free_blocks, vec![free(100, 600), free(900, 100)]);
    assert_eq!(area.fragmentation(), Some((100, 700)));
    let f = fragmentation(&area);
    assert!(0.0 < f && f < 1.0);
    assert_tiles(&area);
}

#[test]
fn test_new_is_one_free_block() {
    let area = Area::new(64);
    assert_eq!(area.size, 64);
    assert_eq!(area.free_blocks, vec![free(0, 64)]);
    assert!(area.used_blocks.is_empty());
    assert_eq!(area.fragmentation(), Some((0, 64)));
    assert_tiles(&area);
}

#[test]
fn test_new_of_no_address_has_no_block() {
    let mut area = Area::new(0);
    assert!(area.free_blocks.is_empty());
    assert!(area.used_blocks.is_empty());
    assert_eq!(area.fragmentation(), None);
    assert_eq!(area.alloc_first_fit(1, 1), Err(AError::Alloc(1, 1, 0)));
    assert_eq!(area.compact(), Err(AError::Compact));
    assert_eq!(area.as_byte_array(), Vec::<u8>::new());
}

#[test]
fn test_alloc_error_reports_request_and_free_total() {
    let mut area = Area::new(100);
    area.alloc_first_fit(1, 10).unwrap();
    area.alloc_first_fit(2, 80).unwrap();
    let before = area.clone();
    assert_eq!(area.alloc_first_fit(3, 20), Err(AError::Alloc(20, 3, 10)));
    assert_eq!(area.free_blocks, before.free_blocks);
    assert_eq!(area.used_blocks, before.used_blocks);
}

#[test]
fn test_alloc_error_counts_scattered_free_blocks() {
    let mut area = Area::new(100);
    area.alloc_first_fit(1, 30).unwrap();
    area.alloc_first_fit(2, 40).unwrap();
    area.dealloc(1).unwrap();
    assert_eq!(area.calc_free_memory(), 60);
    assert_eq!(area.largest_free(), 30);
    assert_eq!(area.alloc_best_fit(3, 31), Err(AError::Alloc(31, 3, 60)));
}

#[test]
fn test_alloc_of_an_id_in_use_is_refused() {
    let mut area = Area::new(100);
    area.alloc_first_fit(1, 10).unwrap();
    let before = area.clone();
    assert_eq!(area.alloc_first_fit(1, 10), Err(AError::InUse(1)));
    assert_eq!(area.alloc_worst_fit(1, 1000), Err(AError::InUse(1)));
    assert_eq!(area.free_blocks, before.free_blocks);
    assert_eq!(area.used_blocks, before.used_blocks);
    area.dealloc(1).unwrap();
    assert_eq!(area.alloc_first_fit(1, 10), Ok(()));
}

#[test]
fn test_alloc_of_no_address_is_refused() {
    let mut area = Area::new(100);
    assert_eq!(area.alloc_first_fit(1, 0), Err(AError::ZeroSize(1)));
    assert_eq!(area.free_blocks, vec![free(0, 100)]);
    assert!(area.used_blocks.is_empty());
}

#[test]
fn test_alloc_of_a_whole_block_leaves_no_remainder() {
    let mut area = Area::new(100);
    assert_eq!(area.alloc_first_fit(1, 100), Ok(()));
    assert!(area.free_blocks.is_empty());
    assert_eq!(area.used_blocks, vec![used(1, 0, 100)]);
    assert_eq!(area.fragmentation(), None);
    assert_eq!(area.compact(), Err(AError::Compact));
    assert_tiles(&area);
}

#[test]
fn test_remainder_joins_the_end_of_the_free_list() {
    let mut area = Area::new(100);
    area.alloc_first_fit(1, 20).unwrap();
    area.alloc_first_fit(2, 20).unwrap();
    area.alloc_first_fit(3, 20).unwrap();
    area.dealloc(1).unwrap();
    assert_eq!(area.free_blocks, vec![free(60, 40), free(0, 20)]);
    area.alloc_first_fit(4, 5).unwrap();
    assert_eq!(area.free_blocks, vec![free(0, 20), free(65, 35)]);
    assert_eq!(area.used_blocks[2], used(4, 60, 5));
    assert_tiles(&area);
}

fn three_holes() -> Area {
    // free list, in order: [90, 99] of 10, [0, 19] of 20, [40, 54] of 15
    let mut area = Area::new(100);
    area.alloc_first_fit(1, 20).unwrap();
    area.alloc_first_fit(2, 20).unwrap();
    area.alloc_first_fit(3, 15).unwrap();
    area.alloc_first_fit(4, 35).unwrap();
    area.dealloc(1).unwrap();
    area.dealloc(3).unwrap();
    assert_eq!(area.free_blocks, vec![free(90, 10), free(0, 20), free(40, 15)]);
    area
}

#[test]
fn test_first_fit_takes_the_first_block_of_the_list() {
    let mut area = three_holes();
    area.allocate(9, 12, AllocationMethod::FirstFit).unwrap();
    assert_eq!(area.used_blocks.last(), Some(&used(9, 0, 12)));
    assert_eq!(area.free_blocks, vec![free(90, 10), free(40, 15), free(12, 8)]);
    assert_tiles(&area);
}

#[test]
fn test_best_fit_takes_the_smallest_block_that_fits() {
    let mut area = three_holes();
    area.allocate(9, 12, AllocationMethod::BestFit).unwrap();
    assert_eq!(area.used_blocks.last(), Some(&used(9, 40, 12)));
    assert_eq!(area.free_blocks, vec![free(90, 10), free(0, 20), free(52, 3)]);
    assert_tiles(&area);
}

#[test]
fn test_worst_fit_takes_the_largest_block() {
    let mut area = three_holes();
    area.allocate(9, 5, AllocationMethod::WorstFit).unwrap();
    assert_eq!(area.used_blocks.last(), Some(&used(9, 0, 5)));
    assert_eq!(area.free_blocks, vec![free(90, 10), free(40, 15), free(5, 15)]);
    assert_tiles(&area);
}

#[test]
fn test_dealloc_of_an_unknown_id() {
    let mut area = Area::new(100);
    area.alloc_first_fit(1, 10).unwrap();
    let before = area.clone();
    assert_eq!(area.dealloc(2), Err(AError::Dealloc(BlockId::Used(2))));
    assert_eq!(area.free_blocks, before.free_blocks);
    assert_eq!(area.used_blocks, before.used_blocks);
}

#[test]
fn test_dealloc_merges_with_both_neighbours() {
    let mut area = Area::new(100);
    area.alloc_first_fit(1, 10).unwrap();
    area.alloc_first_fit(2, 30).unwrap();
    area.alloc_first_fit(3, 20).unwrap();
    area.alloc_first_fit(4, 40).unwrap();
    area.dealloc(1).unwrap();
    area.dealloc(3).unwrap();
    assert_eq!(area.free_blocks, vec![free(0, 10), free(40, 20)]);
    area.dealloc(2).unwrap();
    assert_eq!(area.free_blocks, vec![free(0, 60)]);
    assert_eq!(area.used_blocks, vec![used(4, 60, 40)]);
    assert_eq!(area.fragmentation(), Some((0, 60)));
    assert_tiles(&area);
}

#[test]
fn test_dealloc_merge_stays_at_the_first_neighbour_in_list_order() {
    let mut area = Area::new(100);
    area.alloc_first_fit(1, 10).unwrap();
    area.alloc_first_fit(2, 30).unwrap();
    area.alloc_first_fit(3, 20).unwrap();
    area.alloc_first_fit(4, 30).unwrap();
    area.dealloc(3).unwrap();
    area.dealloc(1).unwrap();
    assert_eq!(area.free_blocks, vec![free(90, 10), free(40, 20), free(0, 10)]);
    area.dealloc(2).unwrap();
    assert_eq!(area.free_blocks, vec![free(90, 10), free(0, 60)]);
    area.dealloc(4).unwrap();
    assert_eq!(area.free_blocks, vec![free(0, 100)]);
    assert!(area.used_blocks.is_empty());
    assert_tiles(&area);
}

#[test]
fn test_compact_scenario_layout() {
    let mut area = Area::new(100);
    area.alloc_first_fit(1, 10).unwrap();
    area.alloc_first_fit(2, 30).unwrap();
    area.alloc_first_fit(3, 20).unwrap();
    area.alloc_first_fit(4, 40).unwrap();
    area.dealloc(1).unwrap();
    area.dealloc(3).unwrap();
    assert_eq!(area.compact(), Ok(()));
    assert_eq!(area.used_blocks, vec![used(2, 0, 30), used(4, 30, 40)]);
    assert_eq!(area.free_blocks, vec![free(70, 30)]);
    assert_tiles(&area);
}

#[test]
fn test_compact_orders_the_used_blocks_by_address() {
    let mut area = Area::new(100);
    area.alloc_first_fit(1, 10).unwrap();
    area.alloc_first_fit(2, 30).unwrap();
    area.alloc_first_fit(3, 20).unwrap();
    area.dealloc(1).unwrap();
    area.alloc_best_fit(4, 5).unwrap();
    assert_eq!(area.used_blocks, vec![used(2, 10, 30), used(3, 40, 20), used(4, 0, 5)]);
    assert_eq!(area.compact(), Ok(()));
    assert_eq!(area.used_blocks, vec![used(4, 0, 5), used(2, 5, 30), used(3, 35, 20)]);
    assert_eq!(area.free_blocks, vec![free(55, 45)]);
    assert_tiles(&area);
}

#[test]
fn test_compact_twice_is_compact_once() {
    let mut area = three_holes();
    area.compact().unwrap();
    let once = area.clone();
    assert_eq!(area.compact(), Ok(()));
    assert_eq!(area.used_blocks, once.used_blocks);
    assert_eq!(area.free_blocks, once.free_blocks);
    assert_eq!(area.used_blocks, vec![used(2, 0, 20), used(4, 20, 35)]);
    assert_eq!(area.free_blocks, vec![free(55, 45)]);
}

#[test]
fn test_fragmentation_bounds() {
    let area = three_holes();
    assert_eq!(area.calc_free_memory(), 45);
    assert_eq!(area.largest_free(), 20);
    assert_eq!(area.fragmentation(), Some((25, 45)));
    let f = fragmentation(&area);
    assert!(0.0 <= f && f < 1.0);
}

#[test]
fn test_every_step_keeps_the_tiling() {
    let mut area = Area::new(50);
    assert_tiles(&area);
    for (id, size) in [(1u64, 5u64), (2, 10), (3, 7), (4, 20), (5, 8)] {
        area.alloc_worst_fit(id, size).unwrap();
        assert_tiles(&area);
    }
    for id in [2u64, 4, 3, 1] {
        area.dealloc(id).unwrap();
        assert_tiles(&area);
    }
    area.alloc_best_fit(6, 3).unwrap();
    assert_tiles(&area);
    area.compact().unwrap();
    assert_tiles(&area);
}

#[test]
fn test_byte_array_marks_used_addresses() {
    let mut area = Area::new(8);
    area.alloc_first_fit(1, 2).unwrap();
    area.alloc_first_fit(2, 3).unwrap();
    area.dealloc(1).unwrap();
    assert_eq!(area.as_byte_array(), vec![0, 0, 1, 1, 1, 0, 0, 0]);
}

#[test]
fn test_long_runs_keep_the_tiling_under_each_strategy() {
    for method in [AllocationMethod::FirstFit, AllocationMethod::BestFit, AllocationMethod::WorstFit] {
        let mut area = Area::new(257);
        let mut state: u64 = 99;
        let mut in_use: Vec<u64> = Vec::new();
        for step in 0..600u64 {
            state = state.wrapping_mul(6364136223846793005).wrapping_add(1442695040888963407);
            let pick = (state >> 33) % 10;
            let before = area.clone();
            if pick < 5 {
                let size = (state >> 40) % 40;
                let id = step % 50;
                let free_total = area.calc_free_memory();
                let fits = area.free_blocks.iter().any(|b| b.size >= size);
                let r = area.allocate(id, size, method);
                if size == 0 {
                    assert_eq!(r, Err(AError::ZeroSize(id)));
                } else if in_use.contains(&id) {
                    assert_eq!(r, Err(AError::InUse(id)));
                } else if !fits {
                    assert_eq!(r, Err(AError::Alloc(size, id, free_total)));
                } else {
                    assert_eq!(r, Ok(()));
                    in_use.push(id);
                    assert_eq!(area.calc_free_memory(), free_total - size);
                    assert_eq!(area.used_blocks.last().unwrap().id, BlockId::Used(id));
                    assert_eq!(area.used_blocks.last().unwrap().size, size);
                }
                if r.is_err() {
                    assert_eq!(area.free_blocks, before.free_blocks);
                    assert_eq!(area.used_blocks, before.used_blocks);
                }
            } else if pick < 9 {
                let id = (state >> 40) % 50;
                let r = area.dealloc(id);
                if let Some(at) = in_use.iter().position(|x| *x == id) {
                    assert_eq!(r, Ok(()));
                    in_use.remove(at);
                    assert_eq!(area.used_blocks.len(), before.used_blocks.len() - 1);
                } else {
                    assert_eq!(r, Err(AError::Dealloc(BlockId::Used(id))));
                    assert_eq!(area.free_blocks, before.free_blocks);
                    assert_eq!(area.used_blocks, before.used_blocks);
                }
            } else {
                let r = area.compact();
                if before.free_blocks.is_empty() {
                    assert_eq!(r, Err(AError::Compact));
                    assert_eq!(area.used_blocks, before.used_blocks);
                } else {
                    assert_eq!(r, Ok(()));
                    assert_eq!(area.free_blocks.len(), 1);
                    let mut expected = before.used_blocks.clone();
                    expected.sort_by_key(|b| b.start_addr);
                    let mut next = 0;
                    for (new, old) in area.used_blocks.iter().zip(expected.iter()) {
                        assert_eq!((new.id, new.size, new.start_addr), (old.id, old.size, next));
                        next += old.size;
                    }
                    assert_eq!(area.free_blocks[0], free(next, 257 - next));
                }
            }
            assert_tiles(&area);
            assert_eq!(area.used_blocks.len(), in_use.len());
            match area.fragmentation() {
                None => assert!(area.free_blocks.is_empty()),
                Some((scattered, total)) => {
                    assert!(scattered < total);
                    assert_eq!(scattered == 0, area.free_blocks.len() == 1);
                }
            }
        }
    }
}

//! Placement strategies: which free block serves a request.

use crate::block::Block;
use vstd::prelude::*;

verus! {

/// A requested number of addresses.
#[derive(Debug, Clone, Copy, PartialEq, Eq, PartialOrd, Ord, Structural)]
pub struct Size(pub u64);

/// The index of the block a strategy picked, if any block can serve.
#[derive(Debug, Clone, Copy, PartialEq, Eq, Structural)]
pub enum AlgoResult {
    Found(usize),
    NotFound,
}

/// The policy by which a free block is picked for a request.
#[derive(Debug, Clone, Copy, PartialEq, Eq, Structural)]
pub enum AllocationMethod {
    FirstFit,
    BestFit,
    WorstFit,
}

impl Default for AllocationMethod {
    fn default() -> (m: Self)
        ensures
            m == AllocationMethod::FirstFit,
    {
        AllocationMethod::FirstFit
    }
}

/// Block `i` is large enough for a request of `size`.
pub open spec fn fits(blocks: Seq<Block>, size: u64, i: int) -> bool {
    0 <= i < blocks.len() && blocks[i].size >= size
}

/// No block is large enough for a request of `size`.
pub open spec fn no_fit(blocks: Seq<Block>, size: u64) -> bool {
    forall|i: int| 0 <= i < blocks.len() ==> (#[trigger] blocks[i]).size < size
}

/// Block `i` is the first, in the order of the list, that is large enough.
pub open spec fn is_first_fit(blocks: Seq<Block>, size: u64, i: int) -> bool {
    &&& fits(blocks, size, i)
    &&& forall|j: int| 0 <= j < i ==> (#[trigger] blocks[j]).size < size
}

/// Block `i` is the smallest that is large enough, and the first of that
/// size in the order of the list.
pub open spec fn is_best_fit(blocks: Seq<Block>, size: u64, i: int) -> bool {
    &&& fits(blocks, size, i)
    &&& forall|j: int|
        0 <= j < blocks.len() && (#[trigger] blocks[j]).size >= size ==> blocks[i].size
            < blocks[j].size || (blocks[i].size == blocks[j].size && i <= j)
}

/// Block `i` is the largest that is large enough, and the first of that size
/// in the order of the list.
pub open spec fn is_worst_fit(blocks: Seq<Block>, size: u64, i: int) -> bool {
    &&& fits(blocks, size, i)
    &&& forall|j: int|
        0 <= j < blocks.len() && (#[trigger] blocks[j]).size >= size ==> blocks[i].size
            > blocks[j].size || (blocks[i].size == blocks[j].size && i <= j)
}

/// Block `i` is the one that `method` picks for a request of `size`.
pub open spec fn picks(method: AllocationMethod, blocks: Seq<Block>, size: u64, i: int) -> bool {
    match method {
        AllocationMethod::FirstFit => is_first_fit(blocks, size, i),
        AllocationMethod::BestFit => is_best_fit(blocks, size, i),
        AllocationMethod::WorstFit => is_worst_fit(blocks, size, i),
    }
}

/// The index that `method` picks; meaningful where some block fits.
pub open spec fn choice(method: AllocationMethod, blocks: Seq<Block>, size: u64) -> int {
    choose|i: int| picks(method, blocks, size, i)
}

/// A strategy picks at most one block: two picks for one request are the
/// same index.
pub proof fn lemma_pick_unique(
    method: AllocationMethod,
    blocks: Seq<Block>,
    size: u64,
    i: int,
    j: int,
)
    requires
        picks(method, blocks, size, i),
        picks(method, blocks, size, j),
    ensures
        i == j,
{
    assert(blocks[i].size >= size && blocks[j].size >= size);
}

/// A pick is the chosen index, and it rules out that nothing fits.
pub proof fn lemma_pick_is_choice(method: AllocationMethod, blocks: Seq<Block>, size: u64, i: int)
    requires
        picks(method, blocks, size, i),
    ensures
        choice(method, blocks, size) == i,
        !no_fit(blocks, size),
{
    lemma_pick_unique(method, blocks, size, i, choice(method, blocks, size));
    assert(blocks[i].size >= size);
}

/// Where some block fits, each strategy picks one: the index returned is a
/// pick of `method`.
pub proof fn lemma_pick_exists(method: AllocationMethod, blocks: Seq<Block>, size: u64) -> (i: int)
    requires
        !no_fit(blocks, size),
    ensures
        picks(method, blocks, size, i),
        choice(method, blocks, size) == i,
    decreases blocks.len(),
{
    let n = blocks.len() - 1;
    let front = blocks.drop_last();
    let w = choose|w: int| 0 <= w < blocks.len() && !((#[trigger] blocks[w]).size < size);
    let i = if no_fit(front, size) {
        assert forall|j: int| 0 <= j < n implies (#[trigger] blocks[j]).size < size by {
            assert(front[j].size < size);
        }
        n
    } else {
        let f = lemma_pick_exists(method, front, size);
        assert(blocks[f] == front[f]);
        assert forall|j: int| 0 <= j < n implies #[trigger] blocks[j] == front[j] by {}
        match method {
            AllocationMethod::FirstFit => f,
            AllocationMethod::BestFit => if blocks[n].size >= size && blocks[n].size
                < blocks[f].size {
                n
            } else {
                f
            },
            AllocationMethod::WorstFit => if blocks[n].size >= size && blocks[n].size
                > blocks[f].size {
                n
            } else {
                f
            },
        }
    };
    assert(picks(method, blocks, size, i)) by {
        match method {
            AllocationMethod::FirstFit => {
                assert forall|j: int| 0 <= j < i implies (#[trigger] blocks[j]).size < size by {
                    if j < n {
                        assert(blocks[j] == front[j]);
                    }
                }
            },
            AllocationMethod::BestFit => {
                assert forall|j: int|
                    0 <= j < blocks.len() && (#[trigger] blocks[j]).size >= size implies blocks[i].size
                    < blocks[j].size || (blocks[i].size == blocks[j].size && i <= j) by {
                    if j < n {
                        assert(blocks[j] == front[j]);
                    }
                }
            },
            AllocationMethod::WorstFit => {
                assert forall|j: int|
                    0 <= j < blocks.len() && (#[trigger] blocks[j]).size >= size implies blocks[i].size
                    > blocks[j].size || (blocks[i].size == blocks[j].size && i <= j) by {
                    if j < n {
                        assert(blocks[j] == front[j]);
                    }
                }
            },
        }
    }
    lemma_pick_is_choice(method, blocks, size, i);
    i
}

/// First-fit: the first block of the list that is large enough.
pub fn first_fit(size: Size, blocks: &Vec<Block>) -> (r: AlgoResult)
    ensures
        match r {
            AlgoResult::Found(i) => is_first_fit(blocks@, size.0, i as int),
            AlgoResult::NotFound => no_fit(blocks@, size.0),
        },
{
    let mut i: usize = 0;
    while i < blocks.len()
        invariant
            i <= blocks.len(),
            forall|j: int| 0 <= j < i ==> (#[trigger] blocks@[j]).size < size.0,
        decreases blocks.len() - i,
    {
        if blocks[i].size >= size.0 {
            return AlgoResult::Found(i);
        }
        i += 1;
    }
    AlgoResult::NotFound
}

/// Best-fit: the smallest block that is large enough; among equals, the
/// first of the list.
pub fn best_fit(size: Size, blocks: &Vec<Block>) -> (r: AlgoResult)
    ensures
        match r {
            AlgoResult::Found(i) => is_best_fit(blocks@, size.0, i as int),
            AlgoResult::NotFound => no_fit(blocks@, size.0),
        },
{
    let mut best_block = AlgoResult::NotFound;
    let mut i: usize = 0;
    while i < blocks.len()
        invariant
            i <= blocks.len(),
            match best_block {
                AlgoResult::Found(b) => b < i && is_best_fit(blocks@.take(i as int), size.0, b as int),
                AlgoResult::NotFound => no_fit(blocks@.take(i as int), size.0),
            },
        decreases blocks.len() - i,
    {
        if blocks[i].size >= size.0 {
            match best_block {
                AlgoResult::Found(best) => {
                    if blocks[i].size < blocks[best].size {
                        best_block = AlgoResult::Found(i);
                    }
                },
                AlgoResult::NotFound => {
                    best_block = AlgoResult::Found(i);
                },
            }
        }
        i += 1;
    }
    assert(blocks@.take(i as int) =~= blocks@);
    best_block
}

/// Worst-fit: the largest block that is large enough; among equals, the
/// first of the list.
pub fn worst_fit(size: Size, blocks: &Vec<Block>) -> (r: AlgoResult)
    ensures
        match r {
            AlgoResult::Found(i) => is_worst_fit(blocks@, size.0, i as int),
            AlgoResult::NotFound => no_fit(blocks@, size.0),
        },
{
    let mut worst_block = AlgoResult::NotFound;
    let mut i: usize = 0;
    while i < blocks.len()
        invariant
            i <= blocks.len(),
            match worst_block {
                AlgoResult::Found(w) => w < i && is_worst_fit(blocks@.take(i as int), size.0, w as int),
                AlgoResult::NotFound => no_fit(blocks@.take(i as int), size.0),
            },
        decreases blocks.len() - i,
    {
        if blocks[i].size >= size.0 {
            match worst_block {
                AlgoResult::Found(worst) => {
                    if blocks[i].size > blocks[worst].size {
                        worst_block = AlgoResult::Found(i);
                    }
                },
                AlgoResult::NotFound => {
                    worst_block = AlgoResult::Found(i);
                },
            }
        }
        i += 1;
    }
    assert(blocks@.take(i as int) =~= blocks@);
    worst_block
}

impl AllocationMethod {
    /// Applies the strategy to a request of `size` over `blocks`.
    pub fn pick(&self, size: Size, blocks: &Vec<Block>) -> (r: AlgoResult)
        ensures
            match r {
                AlgoResult::Found(i) => picks(*self, blocks@, size.0, i as int),
                AlgoResult::NotFound => no_fit(blocks@, size.0),
            },
    {
        match self {
            AllocationMethod::FirstFit => first_fit(size, blocks),
            AllocationMethod::BestFit => best_fit(size, blocks),
            AllocationMethod::WorstFit => worst_fit(size, blocks),
        }
    }
}

} // verus!

//! The address space: one range `[0, size)` tiled by free and used blocks.

use crate::algos::{choice, lemma_pick_is_choice, no_fit, AlgoResult, AllocationMethod, Size};
use crate::block::{BError, Block, BlockId};
use crate::layout::{
    blocks_within, by_size, has_id, in_use, index_of_id, lemma_max_size, lemma_sum_take_next,
    lemma_total_size_bounds, max_size, partition, total_size,
};
use crate::steps::{
    ascending, by_address, carve, coalesce, compacted, first_mergeable, lemma_carve_keeps_partition,
    lemma_coalesce_keeps_partition, lemma_pack_keeps_partition, packed,
};
use crate::sort::{merge_sort, Keyed};
use vstd::prelude::*;

verus! {

/// Why an operation on an address space was refused.
#[derive(Debug, Clone, Copy, PartialEq, Eq, Structural)]
pub enum AError {
    /// No free block holds the request: requested size, id, and the sum of
    /// the sizes of all free blocks.
    Alloc(u64, u64, u64),
    /// No used block carries the id.
    Dealloc(BlockId),
    /// There is no free block, so nothing can be gained.
    Compact,
    /// A block refused its part of the operation.
    BlockError(BError),
    /// The id is that of a block in use.
    InUse(u64),
    /// A request for no address at all, under the id given.
    ZeroSize(u64),
}

/// What an operation on an address space hands back.
pub type AResult<T> = Result<T, AError>;

/// An address space of `size` addresses and the blocks that tile it. The
/// order of `free_blocks` is the order in which first-fit looks at them.
#[derive(Debug, Clone)]
pub struct Area {
    pub free_blocks: Vec<Block>,
    pub used_blocks: Vec<Block>,
    pub size: u64,
}

/// The state of an address space as plain lists: the model that the
/// contracts of `Area` speak of.
pub struct Layout {
    pub free: Seq<Block>,
    pub used: Seq<Block>,
    pub size: u64,
}

impl Layout {
    /// See `partition`.
    pub open spec fn wf(self) -> bool {
        partition(self.free, self.used, self.size)
    }

    /// The space of `size` addresses with nothing in use: one free block over
    /// the whole range, or no block where the range is empty.
    pub open spec fn fresh(size: u64) -> Layout {
        Layout {
            free: if size == 0 {
                Seq::empty()
            } else {
                seq![Block::at(BlockId::Free, 0, size as int)]
            },
            used: Seq::empty(),
            size,
        }
    }

    /// How a request for `n` addresses under `id` ends.
    pub open spec fn alloc_result(self, id: u64, n: u64, method: AllocationMethod) -> AResult<()> {
        if n == 0 {
            Err(AError::ZeroSize(id))
        } else if has_id(self.used, id) {
            Err(AError::InUse(id))
        } else if no_fit(self.free, n) {
            Err(AError::Alloc(n, id, total_size(self.free) as u64))
        } else {
            Ok(())
        }
    }

    /// The state after a request for `n` addresses under `id`: unchanged
    /// where the request is refused; else the block that `method` picks
    /// gives its first `n` addresses to a new used block at the end of the
    /// used list.
    pub open spec fn allocate(self, id: u64, n: u64, method: AllocationMethod) -> Layout {
        if self.alloc_result(id, n, method).is_err() {
            self
        } else {
            let i = choice(method, self.free, n);
            Layout {
                free: carve(self.free, i, n),
                used: self.used.push(
                    Block::at(BlockId::Used(id), self.free[i].start_addr as int, n as int),
                ),
                size: self.size,
            }
        }
    }

    /// How giving back the block used under `id` ends.
    pub open spec fn dealloc_result(self, id: u64) -> AResult<()> {
        if has_id(self.used, id) {
            Ok(())
        } else {
            Err(AError::Dealloc(BlockId::Used(id)))
        }
    }

    /// The state after the block used under `id` was given back: unchanged
    /// where there is none; else the block leaves the used list and joins
    /// the free list, merged with the free blocks next to it.
    pub open spec fn dealloc(self, id: u64) -> Layout {
        if !has_id(self.used, id) {
            self
        } else {
            let i = index_of_id(self.used, id);
            Layout {
                free: coalesce(self.free, (Block { id: BlockId::Free, ..self.used[i] })),
                used: self.used.remove(i),
                size: self.size,
            }
        }
    }

    /// How compaction ends: it is refused where there is no free block.
    pub open spec fn compact_result(self) -> AResult<()> {
        if self.free.len() == 0 {
            Err(AError::Compact)
        } else {
            Ok(())
        }
    }

    /// The state after compaction: unchanged where it is refused; else the
    /// used blocks stand end to end from address 0 in ascending order of
    /// the addresses they had, and one free block covers the rest.
    pub open spec fn compact(self) -> Layout {
        if self.free.len() == 0 {
            self
        } else {
            Layout {
                free: seq![Block::at(BlockId::Free, total_size(self.used), total_size(self.free))],
                used: packed(by_address(self.used)),
                size: self.size,
            }
        }
    }
}

impl View for Area {
    type V = Layout;

    open spec fn view(&self) -> Layout {
        Layout { free: self.free_blocks@, used: self.used_blocks@, size: self.size }
    }
}

impl Area {
    /// The invariant that every operation keeps; see `partition`.
    pub open spec fn wf(&self) -> bool {
        partition(self.free_blocks@, self.used_blocks@, self.size)
    }

    /// The space of `size` addresses with nothing in use.
    pub fn new(size: u64) -> (a: Self)
        ensures
            a.wf(),
            a@ == Layout::fresh(size),
    {
        let mut free_blocks: Vec<Block> = Vec::new();
        if size > 0 {
            free_blocks.push(Block::new_free(0, size));
            assert(free_blocks@.drop_last() =~= Seq::<Block>::empty());
        }
        Self { size, free_blocks, used_blocks: Vec::new() }
    }

    /// The sum of the sizes of the free blocks.
    pub fn calc_free_memory(&self) -> (total: u64)
        requires
            self.wf(),
        ensures
            total == total_size(self.free_blocks@),
    {
        let mut total: u64 = 0;
        let mut i: usize = 0;
        proof {
            lemma_total_size_bounds(self.used_blocks@, 0);
        }
        while i < self.free_blocks.len()
            invariant
                i <= self.free_blocks.len(),
                total == total_size(self.free_blocks@.take(i as int)),
                total_size(self.free_blocks@) <= u64::MAX,
            decreases self.free_blocks.len() - i,
        {
            proof {
                lemma_total_size_bounds(self.free_blocks@, i as int);
                lemma_sum_take_next(self.free_blocks@, i as int, by_size());
            }
            total = total + self.free_blocks[i].size;
            i += 1;
        }
        assert(self.free_blocks@.take(i as int) =~= self.free_blocks@);
        total
    }

    /// The index of the block used under `block_id`, if there is one.
    fn find_used(&self, block_id: u64) -> (r: Option<usize>)
        ensures
            match r {
                Some(i) => i < self.used_blocks.len() && self.used_blocks@[i as int].id
                    == BlockId::Used(block_id) && forall|j: int|
                    0 <= j < i ==> (#[trigger] self.used_blocks@[j]).id != BlockId::Used(block_id),
                None => !has_id(self.used_blocks@, block_id),
            },
    {
        let mut i: usize = 0;
        while i < self.used_blocks.len()
            invariant
                i <= self.used_blocks.len(),
                forall|j: int|
                    0 <= j < i ==> (#[trigger] self.used_blocks@[j]).id != BlockId::Used(block_id),
            decreases self.used_blocks.len() - i,
        {
            if self.used_blocks[i].id == BlockId::Used(block_id) {
                return Some(i);
            }
            i += 1;
        }
        None
    }

    /// Moves what `allocate` decided into the lists: free block `idx` leaves
    /// the free list, `taken` joins the used list, and `rest`, unless empty,
    /// joins the end of the free list.
    fn take_from_free(&mut self, idx: usize, taken: Block, rest: Block)
        requires
            idx < old(self).free_blocks.len(),
        ensures
            final(self).size == old(self).size,
            final(self).used_blocks@ == old(self).used_blocks@.push(taken),
            rest.size > 0 ==> final(self).free_blocks@ == old(self).free_blocks@.remove(
                idx as int,
            ).push(rest),
            rest.size == 0 ==> final(self).free_blocks@ == old(self).free_blocks@.remove(
                idx as int,
            ),
    {
        self.free_blocks.remove(idx);
        self.used_blocks.push(taken);
        if rest.size > 0 {
            self.free_blocks.push(rest);
        }
    }

    /// Serves a request for `size` addresses under `block_id` from the free
    /// block that `method` picks.
    pub fn allocate(&mut self, block_id: u64, size: u64, method: AllocationMethod) -> (r: AResult<
        (),
    >)
        requires
            old(self).wf(),
        ensures
            final(self).wf(),
            r == old(self)@.alloc_result(block_id, size, method),
            final(self)@ == old(self)@.allocate(block_id, size, method),
    {
        if size == 0 {
            return Err(AError::ZeroSize(block_id));
        }
        if self.find_used(block_id).is_some() {
            return Err(AError::InUse(block_id));
        }
        match method.pick(Size(size), &self.free_blocks) {
            AlgoResult::NotFound => Err(AError::Alloc(size, block_id, self.calc_free_memory())),
            AlgoResult::Found(i) => {
                let mut rest = self.free_blocks[i];
                proof {
                    lemma_pick_is_choice(method, self.free_blocks@, size, i as int);
                    lemma_carve_keeps_partition(
                        self.free_blocks@,
                        self.used_blocks@,
                        self.size,
                        i as int,
                        block_id,
                        size,
                    );
                    assert(rest.wf() && rest.end_addr < self.size);
                }
                match rest.take(block_id, size) {
                    Ok(taken) => {
                        self.take_from_free(i, taken, rest);
                        Ok(())
                    },
                    Err(e) => Err(AError::BlockError(e)),
                }
            },
        }
    }

    /// `allocate` by first-fit.
    pub fn alloc_first_fit(&mut self, block_id: u64, size: u64) -> (r: AResult<()>)
        requires
            old(self).wf(),
        ensures
            final(self).wf(),
            r == old(self)@.alloc_result(block_id, size, AllocationMethod::FirstFit),
            final(self)@ == old(self)@.allocate(block_id, size, AllocationMethod::FirstFit),
    {
        self.allocate(block_id, size, AllocationMethod::FirstFit)
    }

    /// `allocate` by best-fit.
    pub fn alloc_best_fit(&mut self, block_id: u64, size: u64) -> (r: AResult<()>)
        requires
            old(self).wf(),
        ensures
            final(self).wf(),
            r == old(self)@.alloc_result(block_id, size, AllocationMethod::BestFit),
            final(self)@ == old(self)@.allocate(block_id, size, AllocationMethod::BestFit),
    {
        self.allocate(block_id, size, AllocationMethod::BestFit)
    }

    /// `allocate` by worst-fit.
    pub fn alloc_worst_fit(&mut self, block_id: u64, size: u64) -> (r: AResult<()>)
        requires
            old(self).wf(),
        ensures
            final(self).wf(),
            r == old(self)@.alloc_result(block_id, size, AllocationMethod::WorstFit),
            final(self)@ == old(self)@.allocate(block_id, size, AllocationMethod::WorstFit),
    {
        self.allocate(block_id, size, AllocationMethod::WorstFit)
    }

    /// The first index from `from` on whose free block merges with `block`.
    fn find_mergeable(&self, block: &Block, from: usize) -> (r: Option<usize>)
        requires
            from <= self.free_blocks.len(),
        ensures
            match r {
                Some(j) => j < self.free_blocks.len() && j == first_mergeable(
                    self.free_blocks@,
                    *block,
                    from as int,
                ),
                None => first_mergeable(self.free_blocks@, *block, from as int)
                    == self.free_blocks.len(),
            },
    {
        let mut j: usize = from;
        while j < self.free_blocks.len()
            invariant
                from <= j <= self.free_blocks.len(),
                first_mergeable(self.free_blocks@, *block, from as int) == first_mergeable(
                    self.free_blocks@,
                    *block,
                    j as int,
                ),
            decreases self.free_blocks.len() - j,
        {
            if self.free_blocks[j].can_merge(block) {
                return Some(j);
            }
            j += 1;
        }
        None
    }

    /// Gives back the block used under `block_id` and merges it with every
    /// free block next to it.
    pub fn dealloc(&mut self, block_id: u64) -> (r: AResult<()>)
        requires
            old(self).wf(),
        ensures
            final(self).wf(),
            r == old(self)@.dealloc_result(block_id),
            final(self)@ == old(self)@.dealloc(block_id),
    {
        match self.find_used(block_id) {
            None => Err(AError::Dealloc(BlockId::Used(block_id))),
            Some(i) => {
                proof {
                    let c = index_of_id(self.used_blocks@, block_id);
                    assert(self.used_blocks@[i as int].id == BlockId::Used(block_id));
                    assert(c == i) by {
                        if c < i {
                            assert(self.used_blocks@[c].id != self.used_blocks@[i as int].id);
                        } else if i < c {
                            assert(self.used_blocks@[i as int].id != self.used_blocks@[c].id);
                        }
                    }
                    lemma_coalesce_keeps_partition(
                        self.free_blocks@,
                        self.used_blocks@,
                        self.size,
                        i as int,
                    );
                    assert(self.used_blocks@[i as int].wf());
                }
                let block = self.used_blocks.remove(i);
                let freed = block.as_free();
                match self.find_mergeable(&freed, 0) {
                    None => {
                        self.free_blocks.push(freed);
                        Ok(())
                    },
                    Some(j) => {
                        let second = self.find_mergeable(&freed, j + 1);
                        assert(self.free_blocks@[j as int].wf());
                        assert(self.free_blocks@[j as int].end_addr < self.size);
                        let merged = self.free_blocks[j].merge(freed);
                        match second {
                            None => {
                                self.free_blocks.set(j, merged);
                            },
                            Some(k) => {
                                assert(self.free_blocks@[k as int].wf());
                                assert(self.free_blocks@[k as int].end_addr < self.size);
                                let merged = merged.merge(self.free_blocks[k]);
                                self.free_blocks.set(j, merged);
                                self.free_blocks.remove(k);
                            },
                        }
                        Ok(())
                    },
                }
            },
        }
    }

    /// Packs the used blocks to the low end of the space, in the order of
    /// their addresses, and leaves one free block behind them.
    pub fn compact(&mut self) -> (r: AResult<()>)
        requires
            old(self).wf(),
        ensures
            final(self).wf(),
            r == old(self)@.compact_result(),
            final(self)@ == old(self)@.compact(),
            r.is_ok() ==> compacted(old(self).used_blocks@, final(self).used_blocks@),
    {
        if self.free_blocks.len() == 0 {
            return Err(AError::Compact);
        }
        self.used_blocks = merge_sort(&self.used_blocks);
        proof {
            assert(ascending(self.used_blocks@)) by {
                assert forall|i: int, j: int| 0 <= i < j < self.used_blocks@.len() implies (
                #[trigger] self.used_blocks@[i]).start_addr <= (
                #[trigger] self.used_blocks@[j]).start_addr by {
                    assert(self.used_blocks@[i].key() <= self.used_blocks@[j].key());
                }
            }
            lemma_pack_keeps_partition(
                old(self).free_blocks@,
                old(self).used_blocks@,
                self.size,
                self.used_blocks@,
            );
        }
        let ghost sorted = self.used_blocks@;
        let mut new_used_blocks: Vec<Block> = Vec::new();
        let mut offset: u64 = 0;
        let mut k: usize = 0;
        while k < self.used_blocks.len()
            invariant
                k <= sorted.len(),
                self.used_blocks@ == sorted,
                total_size(sorted) < self.size,
                blocks_within(sorted, self.size, false),
                offset == total_size(sorted.take(k as int)),
                new_used_blocks@ == packed(sorted).take(k as int),
            decreases sorted.len() - k,
        {
            proof {
                lemma_total_size_bounds(sorted, k as int);
                lemma_sum_take_next(sorted, k as int, by_size());
            }
            let block = &self.used_blocks[k];
            new_used_blocks.push(Block::new(block.id, offset, block.size));
            offset = offset + block.size;
            k += 1;
            assert(new_used_blocks@ =~= packed(sorted).take(k as int));
        }
        assert(packed(sorted).take(k as int) =~= packed(sorted));
        assert(sorted.take(k as int) =~= sorted);
        let mut new_free_blocks: Vec<Block> = Vec::new();
        new_free_blocks.push(Block::new_free(offset, self.size - offset));
        assert(new_free_blocks@ =~= seq![
            Block::at(
                BlockId::Free,
                total_size(old(self).used_blocks@),
                total_size(old(self).free_blocks@),
            ),
        ]);
        self.used_blocks = new_used_blocks;
        self.free_blocks = new_free_blocks;
        Ok(())
    }

    /// The size of the largest free block; 0 where there is none.
    pub fn largest_free(&self) -> (largest: u64)
        ensures
            largest == max_size(self.free_blocks@),
    {
        let mut largest: u64 = 0;
        let mut i: usize = 0;
        while i < self.free_blocks.len()
            invariant
                i <= self.free_blocks.len(),
                largest == max_size(self.free_blocks@.take(i as int)),
            decreases self.free_blocks.len() - i,
        {
            assert(self.free_blocks@.take(i + 1).drop_last() =~= self.free_blocks@.take(i as int));
            if self.free_blocks[i].size > largest {
                largest = self.free_blocks[i].size;
            }
            i += 1;
        }
        assert(self.free_blocks@.take(i as int) =~= self.free_blocks@);
        largest
    }

    /// The external fragmentation as an exact fraction, numerator first: the
    /// part of the free addresses that lies outside the largest free block.
    /// There is no such fraction where nothing is free. It is below 1, and
    /// it is 0 just where the free addresses form one block.
    pub fn fragmentation(&self) -> (r: Option<(u64, u64)>)
        requires
            self.wf(),
        ensures
            self.free_blocks@.len() == 0 <==> r.is_none(),
            r.is_some() ==> {
                let (scattered, total) = r.unwrap();
                &&& total == total_size(self.free_blocks@)
                &&& scattered == total_size(self.free_blocks@) - max_size(self.free_blocks@)
                &&& 0 <= scattered < total
                &&& scattered == 0 <==> self.free_blocks@.len() == 1
            },
    {
        if self.free_blocks.len() == 0 {
            return None;
        }
        proof {
            lemma_max_size(self.free_blocks@);
        }
        let largest = self.largest_free();
        let total = self.calc_free_memory();
        Some((total - largest, total))
    }

    /// One byte for each address of the space: 1 where the address lies in
    /// a used block, 0 where it is free.
    pub fn as_byte_array(&self) -> (bytes: Vec<u8>)
        requires
            self.wf(),
            self.size <= usize::MAX,
        ensures
            bytes@.len() == self.size,
            forall|a: int|
                0 <= a < self.size ==> (#[trigger] bytes@[a]) == (if in_use(
                    self.used_blocks@,
                    a,
                ) {
                    1u8
                } else {
                    0u8
                }),
    {
        let size = self.size as usize;
        let mut bytes: Vec<u8> = Vec::new();
        let mut n: usize = 0;
        while n < size
            invariant
                n <= size,
                bytes@.len() == n,
                forall|a: int| 0 <= a < n ==> (#[trigger] bytes@[a]) == 0u8,
            decreases size - n,
        {
            bytes.push(0u8);
            n += 1;
        }
        let mut k: usize = 0;
        while k < self.used_blocks.len()
            invariant
                k <= self.used_blocks.len(),
                self.wf(),
                size == self.size,
                bytes@.len() == size,
                forall|a: int|
                    0 <= a < size ==> (#[trigger] bytes@[a]) == (if in_use(
                        self.used_blocks@.take(k as int),
                        a,
                    ) {
                        1u8
                    } else {
                        0u8
                    }),
            decreases self.used_blocks.len() - k,
        {
            let block = &self.used_blocks[k];
            let ghost before = bytes@;
            let mut addr: u64 = block.start_addr;
            assert(block.wf() && block.end_addr < size);
            while addr <= block.end_addr
                invariant
                    block.start_addr <= addr <= block.end_addr + 1,
                    block.end_addr < size,
                    size <= usize::MAX,
                    bytes@.len() == size,
                    forall|a: int|
                        0 <= a < size ==> (#[trigger] bytes@[a]) == (if block.start_addr <= a
                            < addr {
                            1u8
                        } else {
                            before[a]
                        }),
                decreases block.end_addr + 1 - addr,
            {
                bytes.set(addr as usize, 1u8);
                addr = addr + 1;
            }
            proof {
                let prefix = self.used_blocks@.take(k as int);
                let next = self.used_blocks@.take(k + 1);
                assert forall|a: int| 0 <= a < size implies in_use(next, a) == (in_use(prefix, a)
                    || block.contains(a)) by {
                    if in_use(prefix, a) {
                        let x = choose|x: int|
                            0 <= x < prefix.len() && (#[trigger] prefix[x]).contains(a);
                        assert(next[x].contains(a));
                    }
                    if block.contains(a) {
                        assert(next[k as int].contains(a));
                    }
                    if in_use(next, a) {
                        let x = choose|x: int|
                            0 <= x < next.len() && (#[trigger] next[x]).contains(a);
                        if x < k {
                            assert(prefix[x].contains(a));
                        }
                    }
                }
            }
            k += 1;
        }
        assert(self.used_blocks@.take(k as int) =~= self.used_blocks@);
        bytes
    }
}

} // verus!

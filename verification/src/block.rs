//! Blocks: contiguous, inclusive address ranges tagged free or used.

use crate::sort::Keyed;
use std::cmp::Ordering;
use vstd::prelude::*;

verus! {

/// The tag of a block: free, or used under a caller-chosen identifier.
/// `Free` comes before every used id, and used ids are ordered by their
/// number.
#[derive(Debug, Clone, Copy, PartialEq, Eq, Ord, Hash, Structural)]
pub enum BlockId {
    Free,
    Used(u64),
}

/// One contiguous range `[start_addr, end_addr]` of `size` addresses.
#[derive(Debug, Clone, Copy, PartialEq, Eq, Structural)]
pub struct Block {
    pub id: BlockId,
    pub size: u64,
    pub start_addr: u64,
    pub end_addr: u64,
}

/// Why a block operation was refused. The fields repeat the blocks involved.
#[derive(Debug, Clone, Copy, PartialEq, Eq, Structural)]
pub enum BError {
    /// Ids, sizes, and the address pairs of the two blocks that do not merge.
    Merge(BlockId, BlockId, u64, u64, u64, u64, u64, u64),
    /// Requested size, then id, size, start and end of the block asked.
    Take(u64, BlockId, u64, u64, u64),
}

/// What an operation on a block hands back.
pub type BResult<T> = Result<T, BError>;

/// How `a` stands to `b` in the usual order of numbers.
pub open spec fn order_u64(a: u64, b: u64) -> Ordering {
    if a < b {
        Ordering::Less
    } else if a == b {
        Ordering::Equal
    } else {
        Ordering::Greater
    }
}

/// How tag `a` stands to tag `b`: `Free` comes before every used id, and used
/// ids are ordered by their number.
pub open spec fn order_id(a: BlockId, b: BlockId) -> Ordering {
    match (a, b) {
        (BlockId::Free, BlockId::Free) => Ordering::Equal,
        (BlockId::Free, BlockId::Used(_)) => Ordering::Less,
        (BlockId::Used(_), BlockId::Free) => Ordering::Greater,
        (BlockId::Used(x), BlockId::Used(y)) => order_u64(x, y),
    }
}

fn compare_id(a: BlockId, b: BlockId) -> (r: Ordering)
    ensures
        r == order_id(a, b),
{
    match (a, b) {
        (BlockId::Free, BlockId::Free) => Ordering::Equal,
        (BlockId::Free, BlockId::Used(_)) => Ordering::Less,
        (BlockId::Used(_), BlockId::Free) => Ordering::Greater,
        (BlockId::Used(x), BlockId::Used(y)) => compare_u64(x, y),
    }
}

impl PartialOrd for BlockId {
    fn partial_cmp(&self, other: &Self) -> (r: Option<Ordering>) {
        Some(compare_id(*self, *other))
    }
}

impl vstd::std_specs::cmp::PartialOrdSpecImpl for BlockId {
    open spec fn obeys_partial_cmp_spec() -> bool {
        true
    }

    open spec fn partial_cmp_spec(&self, other: &Self) -> Option<Ordering> {
        Some(order_id(*self, *other))
    }
}

fn compare_u64(a: u64, b: u64) -> (r: Ordering)
    ensures
        r == order_u64(a, b),
{
    if a < b {
        Ordering::Less
    } else if a == b {
        Ordering::Equal
    } else {
        Ordering::Greater
    }
}

impl BError {
    /// The error for two blocks that do not merge.
    pub fn merge(b1: &Block, b2: &Block) -> (e: Self)
        ensures
            e == BError::Merge(
                b1.id,
                b2.id,
                b1.size,
                b2.size,
                b1.start_addr,
                b1.end_addr,
                b2.start_addr,
                b2.end_addr,
            ),
    {
        BError::Merge(
            b1.id,
            b2.id,
            b1.size,
            b2.size,
            b1.start_addr,
            b1.end_addr,
            b2.start_addr,
            b2.end_addr,
        )
    }

    /// The error for a block that cannot give `size` addresses.
    pub fn take(b1: &Block, size: u64) -> (e: Self)
        ensures
            e == BError::Take(size, b1.id, b1.size, b1.start_addr, b1.end_addr),
    {
        BError::Take(size, b1.id, b1.size, b1.start_addr, b1.end_addr)
    }
}

impl Block {
    /// The block tagged `id` that covers `size` addresses from `start`.
    pub open spec fn at(id: BlockId, start: int, size: int) -> Block {
        Block {
            id,
            size: size as u64,
            start_addr: start as u64,
            end_addr: (start + size - 1) as u64,
        }
    }

    /// A block holds at least one address, and its size is the count of the
    /// addresses from `start_addr` to `end_addr`, both included.
    pub open spec fn wf(&self) -> bool {
        &&& self.size >= 1
        &&& self.end_addr - self.start_addr + 1 == self.size
    }

    /// The block is tagged free.
    pub open spec fn free(&self) -> bool {
        self.id == BlockId::Free
    }

    /// The block is tagged with an id.
    pub open spec fn used(&self) -> bool {
        self.id != BlockId::Free
    }

    /// `addr` lies in the block's range.
    pub open spec fn contains(&self, addr: int) -> bool {
        self.start_addr <= addr <= self.end_addr
    }

    /// The two ranges share an address.
    pub open spec fn overlaps(&self, other: Block) -> bool {
        self.start_addr <= other.end_addr && other.start_addr <= self.end_addr
    }

    /// `other` begins at the address right after this block's last one.
    pub open spec fn precedes(&self, other: Block) -> bool {
        self.end_addr + 1 == other.start_addr
    }

    /// The ranges touch, in either direction, without regard to the tags.
    pub open spec fn adjacent(&self, other: Block) -> bool {
        self.precedes(other) || other.precedes(*self)
    }

    /// Both blocks are free and their ranges touch.
    pub open spec fn mergeable(&self, other: Block) -> bool {
        self.free() && other.free() && self.adjacent(other)
    }

    /// The lower of the two starts.
    pub open spec fn span_start(&self, other: Block) -> u64 {
        if self.start_addr <= other.start_addr {
            self.start_addr
        } else {
            other.start_addr
        }
    }

    /// The higher of the two ends.
    pub open spec fn span_end(&self, other: Block) -> u64 {
        if self.end_addr >= other.end_addr {
            self.end_addr
        } else {
            other.end_addr
        }
    }

    /// The free block from the lower of the two starts to the higher of the
    /// two ends.
    pub open spec fn span(&self, other: Block) -> Block {
        Block::at(
            BlockId::Free,
            self.span_start(other) as int,
            self.span_end(other) - self.span_start(other) + 1,
        )
    }

    /// Whether a request for `size` addresses can be carved from this block.
    pub open spec fn can_take(&self, size: u64) -> bool {
        self.free() && 1 <= size <= self.size
    }

    /// The block tagged `id` of `size` addresses from `start_addr`.
    pub fn new(id: BlockId, start_addr: u64, size: u64) -> (b: Self)
        requires
            size >= 1,
            start_addr + size - 1 <= u64::MAX,
        ensures
            b == Block::at(id, start_addr as int, size as int),
            b.wf(),
    {
        Self { id, size, start_addr, end_addr: start_addr + (size - 1) }
    }

    /// The block used under `id`, of `size` addresses from `start_addr`.
    pub fn new_used(id: u64, start_addr: u64, size: u64) -> (b: Self)
        requires
            size >= 1,
            start_addr + size - 1 <= u64::MAX,
        ensures
            b == Block::at(BlockId::Used(id), start_addr as int, size as int),
            b.wf(),
    {
        Self { id: BlockId::Used(id), size, start_addr, end_addr: start_addr + (size - 1) }
    }

    /// The free block of `size` addresses from `start_addr`.
    pub fn new_free(start_addr: u64, size: u64) -> (b: Self)
        requires
            size >= 1,
            start_addr + size - 1 <= u64::MAX,
        ensures
            b == Block::at(BlockId::Free, start_addr as int, size as int),
            b.wf(),
    {
        Self { id: BlockId::Free, size, start_addr, end_addr: start_addr + (size - 1) }
    }

    /// Whether the block is tagged free.
    pub fn is_free(&self) -> (r: bool)
        ensures
            r == self.free(),
    {
        match self.id {
            BlockId::Free => true,
            BlockId::Used(_) => false,
        }
    }

    /// Two blocks merge when both are free and one ends right before the
    /// other begins.
    pub fn can_merge(&self, other: &Block) -> (r: bool)
        ensures
            r == self.mergeable(*other),
    {
        self.is_free() && other.is_free() && ((self.end_addr < other.start_addr
            && other.start_addr - self.end_addr == 1) || (other.end_addr < self.start_addr
            && self.start_addr - other.end_addr == 1))
    }

    /// The free block that spans both ranges.
    pub fn merge(&self, other: Block) -> (b: Block)
        requires
            self.wf(),
            other.wf(),
            self.span_end(other) - self.span_start(other) < u64::MAX,
        ensures
            b == self.span(other),
            b.wf(),
    {
        let start_addr = if self.start_addr <= other.start_addr {
            self.start_addr
        } else {
            other.start_addr
        };
        let end_addr = if self.end_addr >= other.end_addr {
            self.end_addr
        } else {
            other.end_addr
        };
        let size = end_addr - start_addr + 1;
        Block::new_free(start_addr, size)
    }

    /// Replaces this block by its merge with `other`, or reports why not.
    pub fn merge_replace(&mut self, other: Block) -> (r: BResult<()>)
        requires
            old(self).wf(),
            other.wf(),
            old(self).span_end(other) - old(self).span_start(other) < u64::MAX,
        ensures
            old(self).mergeable(other) ==> r.is_ok() && *final(self) == old(self).span(other),
            !old(self).mergeable(other) ==> *final(self) == *old(self) && r == Err::<(), BError>(
                BError::Merge(
                    old(self).id,
                    other.id,
                    old(self).size,
                    other.size,
                    old(self).start_addr,
                    old(self).end_addr,
                    other.start_addr,
                    other.end_addr,
                ),
            ),
    {
        if self.can_merge(&other) {
            *self = self.merge(other);
            Ok(())
        } else {
            Err(BError::merge(self, &other))
        }
    }

    /// The merge of this block with `other`, or why they do not merge.
    pub fn try_merge(&self, other: Block) -> (r: BResult<Block>)
        requires
            self.wf(),
            other.wf(),
            self.span_end(other) - self.span_start(other) < u64::MAX,
        ensures
            self.mergeable(other) ==> r == Ok::<Block, BError>(self.span(other)),
            !self.mergeable(other) ==> r == Err::<Block, BError>(
                BError::Merge(
                    self.id,
                    other.id,
                    self.size,
                    other.size,
                    self.start_addr,
                    self.end_addr,
                    other.start_addr,
                    other.end_addr,
                ),
            ),
    {
        if self.can_merge(&other) {
            Ok(self.merge(other))
        } else {
            Err(BError::merge(self, &other))
        }
    }

    /// Carves a used block of `size` addresses from the start of this free
    /// block. What is left keeps the end address; after a request for the
    /// whole block nothing is left, and the receiver has size 0.
    pub fn take(&mut self, id: u64, size: u64) -> (r: BResult<Block>)
        requires
            old(self).wf(),
            old(self).can_take(size) ==> old(self).start_addr + size <= u64::MAX,
        ensures
            old(self).can_take(size) ==> r == Ok::<Block, BError>(
                Block::at(BlockId::Used(id), old(self).start_addr as int, size as int),
            ) && *final(self) == (Block {
                start_addr: (old(self).start_addr + size) as u64,
                size: (old(self).size - size) as u64,
                ..*old(self)
            }),
            !old(self).can_take(size) ==> *final(self) == *old(self) && r == Err::<Block, BError>(
                BError::Take(
                    size,
                    old(self).id,
                    old(self).size,
                    old(self).start_addr,
                    old(self).end_addr,
                ),
            ),
            size < old(self).size ==> final(self).wf(),
    {
        if !(self.is_free() && 1 <= size && size <= self.size) {
            return Err(BError::take(self, size));
        }
        let new_block = Block::new_used(id, self.start_addr, size);
        self.start_addr = self.start_addr + size;
        self.size = self.size - size;
        Ok(new_block)
    }

    /// The same range, tagged free.
    pub fn as_free(&self) -> (b: Block)
        requires
            self.wf(),
        ensures
            b == (Block { id: BlockId::Free, ..*self }),
            b.wf(),
    {
        Block::new_free(self.start_addr, self.size)
    }

    /// Moves the block so that it begins at `new_start_addr`.
    pub fn relocate(&mut self, new_start_addr: u64)
        requires
            old(self).size >= 1,
            new_start_addr + old(self).size - 1 <= u64::MAX,
        ensures
            *final(self) == Block::at(old(self).id, new_start_addr as int, old(self).size as int),
            final(self).wf(),
    {
        self.start_addr = new_start_addr;
        self.end_addr = new_start_addr + (self.size - 1);
    }

    /// Whether `addr` lies in the block.
    pub fn contains_addr(&self, addr: u64) -> (r: bool)
        ensures
            r == self.contains(addr as int),
    {
        self.start_addr <= addr && addr <= self.end_addr
    }

    /// How this block stands to `other` by the address it starts at.
    pub fn cmp_start_addr(&self, other: &Block) -> (r: Ordering)
        ensures
            r == order_u64(self.start_addr, other.start_addr),
    {
        compare_u64(self.start_addr, other.start_addr)
    }

    /// How this block stands to `other` by the address it ends at.
    pub fn cmp_end_addr(&self, other: &Block) -> (r: Ordering)
        ensures
            r == order_u64(self.end_addr, other.end_addr),
    {
        compare_u64(self.end_addr, other.end_addr)
    }

    /// How this block stands to `other` by size.
    pub fn cmp_size(&self, other: &Block) -> (r: Ordering)
        ensures
            r == order_u64(self.size, other.size),
    {
        compare_u64(self.size, other.size)
    }

    /// How this block stands to `other` by tag.
    pub fn cmp_id(&self, other: &Block) -> (r: Ordering)
        ensures
            r == order_id(self.id, other.id),
    {
        compare_id(self.id, other.id)
    }
}

/// Blocks are put in order by the address they start at.
impl Keyed for Block {
    open spec fn key(&self) -> int {
        self.start_addr as int
    }

    fn sort_key(&self) -> (k: u64) {
        self.start_addr
    }
}

/// A list of blocks that owns its vector.
#[derive(Debug, Clone, PartialEq, Eq)]
pub struct BlockVec(Vec<Block>);

impl View for BlockVec {
    type V = Seq<Block>;

    closed spec fn view(&self) -> Seq<Block> {
        self.0@
    }
}

impl BlockVec {
    /// The empty list.
    pub fn new() -> (v: BlockVec)
        ensures
            v@ == Seq::<Block>::empty(),
    {
        BlockVec(Vec::new())
    }

    /// Empties the list.
    pub fn clear(&mut self)
        ensures
            final(self)@ == Seq::<Block>::empty(),
    {
        self.0.clear()
    }

    /// Puts `block` at the end of the list.
    pub fn add(&mut self, block: Block)
        ensures
            final(self)@ == old(self)@.push(block),
    {
        self.0.push(block)
    }

    /// Takes the block at place `i` out of the list; the blocks behind it
    /// move up by one place.
    pub fn pop(&mut self, i: usize) -> (block: Block)
        requires
            i < old(self)@.len(),
        ensures
            block == old(self)@[i as int],
            final(self)@ == old(self)@.remove(i as int),
    {
        self.0.remove(i)
    }

    /// The block at place `i`.
    pub fn get(&self, i: usize) -> (block: &Block)
        requires
            i < self@.len(),
        ensures
            *block == self@[i as int],
    {
        &self.0[i]
    }

    /// The number of blocks.
    pub fn len(&self) -> (n: usize)
        ensures
            n == self@.len(),
    {
        self.0.len()
    }

    /// The blocks as a vector.
    pub fn as_vec(&self) -> (v: &Vec<Block>)
        ensures
            v@ == self@,
    {
        &self.0
    }

    /// The blocks, in their order.
    pub fn iter(&self) -> (it: std::slice::Iter<'_, Block>)
        ensures
            vstd::std_specs::slice::into_iter_elts(it) == self@,
    {
        self.0.iter()
    }
}

} // verus!

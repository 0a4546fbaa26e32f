//! The moves of an address space as functions on lists of blocks, each with
//! the proof that it keeps the invariant.

use crate::block::{Block, BlockId};
use crate::layout::{
    apart, blocks_within, by_size, count_below, disjoint, distinct_ids, has_id,
    lemma_sum_permutation, lemma_sum_push, lemma_sum_remove, lemma_sum_same, lemma_sum_update,
    lemma_total_size_bounds, no_neighbours, one_below, partition, size_below, size_if_below,
    sum_by, total_size,
};
use vstd::prelude::*;

verus! {

/// The free list after `n` addresses were taken from the start of block
/// `i`: the block leaves its place, and what is left of it, if anything,
/// joins the end of the list.
pub open spec fn carve(free: Seq<Block>, i: int, n: u64) -> Seq<Block> {
    if n < free[i].size {
        free.remove(i).push(Block::at(BlockId::Free, free[i].start_addr + n, free[i].size - n))
    } else {
        free.remove(i)
    }
}

/// The first index from `from` on whose block merges with `f`; the length
/// of the list if there is none.
pub open spec fn first_mergeable(free: Seq<Block>, f: Block, from: int) -> int
    decreases free.len() - from,
{
    if from < 0 || from >= free.len() {
        free.len() as int
    } else if free[from].mergeable(f) {
        from
    } else {
        first_mergeable(free, f, from + 1)
    }
}

/// The free list after the free block `f` was given back. With no block
/// next to it, `f` joins the end of the list. Else the first block next to
/// it grows, in its place, to span `f` as well, and also the second such
/// block, which then leaves the list.
pub open spec fn coalesce(free: Seq<Block>, f: Block) -> Seq<Block> {
    let j = first_mergeable(free, f, 0);
    if j >= free.len() {
        free.push(f)
    } else {
        let k = first_mergeable(free, f, j + 1);
        if k >= free.len() {
            free.update(j, free[j].span(f))
        } else {
            free.update(j, free[j].span(f).span(free[k])).remove(k)
        }
    }
}

/// The starts of the blocks of `s` ascend along the list.
pub open spec fn ascending(s: Seq<Block>) -> bool {
    forall|i: int, j: int|
        0 <= i < j < s.len() ==> (#[trigger] s[i]).start_addr <= (#[trigger] s[j]).start_addr
}

/// The list `t` with `b` put in after the last block that does not start
/// above it.
pub open spec fn insert_by_start(t: Seq<Block>, b: Block) -> Seq<Block>
    decreases t.len(),
{
    if t.len() == 0 || t.last().start_addr <= b.start_addr {
        t.push(b)
    } else {
        insert_by_start(t.drop_last(), b).push(t.last())
    }
}

/// The blocks of `s` in ascending order of their start address; blocks that
/// start at the same address keep the order they have in `s`.
pub open spec fn by_address(s: Seq<Block>) -> Seq<Block>
    decreases s.len(),
{
    if s.len() == 0 {
        s
    } else {
        insert_by_start(by_address(s.drop_last()), s.last())
    }
}

/// The blocks of `s`, each with its id and size, laid end to end from
/// address 0 in the order of the list.
pub open spec fn packed(s: Seq<Block>) -> Seq<Block> {
    Seq::new(s.len(), |k: int| Block::at(s[k].id, total_size(s.take(k)), s[k].size as int))
}

/// `out` is the used list `used` after compaction: each block keeps its id
/// and size and moves down to the address that is the sum of the sizes of
/// the used blocks below it, and the list is ordered by address.
pub open spec fn compacted(used: Seq<Block>, out: Seq<Block>) -> bool {
    &&& out.len() == used.len()
    &&& forall|j: int|
        0 <= j < used.len() ==> {
            let b = #[trigger] used[j];
            let k = count_below(used, b.start_addr as int);
            &&& 0 <= k < out.len()
            &&& out[k] == Block::at(b.id, size_below(used, b.start_addr as int), b.size as int)
        }
}

/// `first_mergeable` is the least index from `from` on whose block merges
/// with `f`.
pub proof fn lemma_first_mergeable(free: Seq<Block>, f: Block, from: int)
    requires
        0 <= from <= free.len(),
    ensures
        from <= first_mergeable(free, f, from) <= free.len(),
        first_mergeable(free, f, from) < free.len() ==> free[first_mergeable(
            free,
            f,
            from,
        )].mergeable(f),
        forall|k: int|
            from <= k < first_mergeable(free, f, from) ==> !(#[trigger] free[k]).mergeable(f),
    decreases free.len() - from,
{
    if from < free.len() && !free[from].mergeable(f) {
        lemma_first_mergeable(free, f, from + 1);
    }
}

/// Taking `n` addresses for a new id from free block `i` keeps the
/// invariant.
pub proof fn lemma_carve_keeps_partition(
    free: Seq<Block>,
    used: Seq<Block>,
    size: u64,
    i: int,
    id: u64,
    n: u64,
)
    requires
        partition(free, used, size),
        0 <= i < free.len(),
        1 <= n <= free[i].size,
        !has_id(used, id),
    ensures
        partition(
            carve(free, i, n),
            used.push(Block::at(BlockId::Used(id), free[i].start_addr as int, n as int)),
            size,
        ),
{
    let b = free[i];
    let taken = Block::at(BlockId::Used(id), b.start_addr as int, n as int);
    let rest = Block::at(BlockId::Free, b.start_addr + n, b.size - n);
    let free1 = free.remove(i);
    let free2 = carve(free, i, n);
    let used2 = used.push(taken);
    assert forall|k: int| 0 <= k < free1.len() implies #[trigger] free1[k] == free[if k < i {
        k
    } else {
        k + 1
    }] by {}
    lemma_sum_remove(free, i, by_size());
    lemma_sum_push(free1, rest, by_size());
    lemma_sum_push(used, taken, by_size());
    assert(distinct_ids(used2)) by {
        assert forall|x: int, y: int| 0 <= x < y < used2.len() implies (#[trigger] used2[x]).id != (
        #[trigger] used2[y]).id by {
            if y == used.len() {
                assert(used[x].id != BlockId::Used(id));
            }
        }
    }
    assert(blocks_within(used2, size, false));
    assert(disjoint(used2));
    if n < b.size {
        assert(blocks_within(free2, size, true));
        assert(disjoint(free2));
        assert(apart(free2, used2));
        assert(no_neighbours(free2));
    } else {
        assert(blocks_within(free2, size, true));
        assert(disjoint(free2));
        assert(apart(free2, used2));
        assert(no_neighbours(free2));
    }
}

/// What the lemmas on giving a block back suppose: the invariant, but for the
/// free block `f`, which overlaps no block of either list, lies below `size`
/// and is counted in no sum.
pub open spec fn partition_without(free: Seq<Block>, used: Seq<Block>, size: u64, f: Block) -> bool {
    &&& blocks_within(free, size, true)
    &&& blocks_within(used, size, false)
    &&& distinct_ids(used)
    &&& disjoint(free)
    &&& disjoint(used)
    &&& apart(free, used)
    &&& no_neighbours(free)
    &&& total_size(free) + total_size(used) + f.size == size
    &&& f.wf()
    &&& f.free()
    &&& f.end_addr < size
    &&& forall|x: int| 0 <= x < free.len() ==> !(#[trigger] free[x]).overlaps(f)
    &&& forall|x: int| 0 <= x < used.len() ==> !(#[trigger] used[x]).overlaps(f)
}

proof fn lemma_coalesce_none(free: Seq<Block>, used: Seq<Block>, size: u64, f: Block)
    requires
        partition_without(free, used, size, f),
        forall|x: int| 0 <= x < free.len() ==> !(#[trigger] free[x]).mergeable(f),
    ensures
        partition(free.push(f), used, size),
{
    let free2 = free.push(f);
    lemma_sum_push(free, f, by_size());
    assert(blocks_within(free2, size, true));
    assert(disjoint(free2));
    assert(apart(free2, used));
    assert forall|x: int, y: int| 0 <= x < free2.len() && 0 <= y < free2.len() implies !(
    #[trigger] free2[x]).precedes(#[trigger] free2[y]) by {
        if x < free.len() && y < free.len() {
            assert(!free[x].precedes(free[y]));
        } else if x < free.len() {
            assert(!free[x].mergeable(f));
        } else if y < free.len() {
            assert(!free[y].mergeable(f));
        }
    }
}

proof fn lemma_coalesce_one(free: Seq<Block>, used: Seq<Block>, size: u64, f: Block, j: int)
    requires
        partition_without(free, used, size, f),
        0 <= j < free.len(),
        free[j].mergeable(f),
        forall|x: int| 0 <= x < free.len() && x != j ==> !(#[trigger] free[x]).mergeable(f),
    ensures
        partition(free.update(j, free[j].span(f)), used, size),
{
    let m = free[j].span(f);
    let free2 = free.update(j, m);
    assert(!free[j].overlaps(f));
    assert(m.wf() && m.size == free[j].size + f.size && m.end_addr < size);
    lemma_sum_update(free, j, m, by_size());
    assert(blocks_within(free2, size, true));
    assert forall|x: int, y: int| 0 <= x < y < free2.len() implies !(#[trigger] free2[x]).overlaps(
        #[trigger] free2[y],
    ) by {
        assert(!free[x].overlaps(free[y]));
        assert(!free[x].overlaps(f));
        assert(!free[y].overlaps(f));
    }
    assert forall|x: int, y: int| 0 <= x < free2.len() && 0 <= y < used.len() implies !(
    #[trigger] free2[x]).overlaps(#[trigger] used[y]) by {
        assert(!free[x].overlaps(used[y]));
        assert(!used[y].overlaps(f));
    }
    assert forall|x: int, y: int| 0 <= x < free2.len() && 0 <= y < free2.len() implies !(
    #[trigger] free2[x]).precedes(#[trigger] free2[y]) by {
        assert(!free[x].precedes(free[y]));
        if x != j {
            assert(!free[x].mergeable(f));
        }
        if y != j {
            assert(!free[y].mergeable(f));
        }
    }
}

proof fn lemma_coalesce_two(
    free: Seq<Block>,
    used: Seq<Block>,
    size: u64,
    f: Block,
    j: int,
    k: int,
)
    requires
        partition_without(free, used, size, f),
        0 <= j < k < free.len(),
        free[j].mergeable(f),
        free[k].mergeable(f),
    ensures
        partition(free.update(j, free[j].span(f).span(free[k])).remove(k), used, size),
{
    let m = free[j].span(f).span(free[k]);
    let free1 = free.update(j, m);
    let free2 = free1.remove(k);
    assert(!free[j].overlaps(f));
    assert(!free[k].overlaps(f));
    assert(!free[j].overlaps(free[k]));
    assert(m.wf() && m.size == free[j].size + f.size + free[k].size && m.end_addr < size);
    assert(m.start_addr == free[j].start_addr || m.start_addr == free[k].start_addr);
    assert(m.end_addr == free[j].end_addr || m.end_addr == free[k].end_addr);
    lemma_sum_update(free, j, m, by_size());
    lemma_sum_remove(free1, k, by_size());
    assert forall|x: int| 0 <= x < free2.len() implies #[trigger] free2[x] == free1[if x < k {
        x
    } else {
        x + 1
    }] by {}
    assert(blocks_within(free2, size, true));
    assert forall|x: int, y: int| 0 <= x < y < free2.len() implies !(#[trigger] free2[x]).overlaps(
        #[trigger] free2[y],
    ) by {
        let x1 = if x < k {
            x
        } else {
            x + 1
        };
        let y1 = if y < k {
            y
        } else {
            y + 1
        };
        assert(!free[x1].overlaps(free[y1]));
        assert(!free[x1].overlaps(f));
        assert(!free[y1].overlaps(f));
        assert(!free[x1].overlaps(free[k]) && !free[k].overlaps(free[x1]));
        assert(!free[y1].overlaps(free[k]) && !free[k].overlaps(free[y1]));
    }
    assert forall|x: int, y: int| 0 <= x < free2.len() && 0 <= y < used.len() implies !(
    #[trigger] free2[x]).overlaps(#[trigger] used[y]) by {
        let x1 = if x < k {
            x
        } else {
            x + 1
        };
        assert(!free[x1].overlaps(used[y]));
        assert(!free[k].overlaps(used[y]));
        assert(!used[y].overlaps(f));
    }
    assert forall|x: int, y: int| 0 <= x < free2.len() && 0 <= y < free2.len() implies !(
    #[trigger] free2[x]).precedes(#[trigger] free2[y]) by {
        let x1 = if x < k {
            x
        } else {
            x + 1
        };
        let y1 = if y < k {
            y
        } else {
            y + 1
        };
        assert(!free[x1].precedes(free[y1]));
        assert(!free[x1].precedes(free[k]) && !free[k].precedes(free[x1]));
        assert(!free[y1].precedes(free[k]) && !free[k].precedes(free[y1]));
        assert(!free[x1].precedes(free[j]) && !free[j].precedes(free[x1]));
        assert(!free[y1].precedes(free[j]) && !free[j].precedes(free[y1]));
    }
}

/// Giving used block `i` back, merged with the free blocks next to it, keeps
/// the invariant.
pub proof fn lemma_coalesce_keeps_partition(
    free: Seq<Block>,
    used: Seq<Block>,
    size: u64,
    i: int,
)
    requires
        partition(free, used, size),
        0 <= i < used.len(),
    ensures
        partition(coalesce(free, (Block { id: BlockId::Free, ..used[i] })), used.remove(i), size),
{
    let f = Block { id: BlockId::Free, ..used[i] };
    let used2 = used.remove(i);
    assert(partition_without(free, used2, size, f)) by {
        assert forall|k: int| 0 <= k < used2.len() implies #[trigger] used2[k] == used[if k < i {
            k
        } else {
            k + 1
        }] by {}
        lemma_sum_remove(used, i, by_size());
        assert(blocks_within(used2, size, false));
        assert(distinct_ids(used2));
        assert(disjoint(used2));
        assert(apart(free, used2));
        assert(used[i].wf());
        assert forall|x: int| 0 <= x < free.len() implies !(#[trigger] free[x]).overlaps(f) by {
            assert(!free[x].overlaps(used[i]));
        }
        assert forall|x: int| 0 <= x < used2.len() implies !(#[trigger] used2[x]).overlaps(f) by {
            let x1 = if x < i {
                x
            } else {
                x + 1
            };
            if x1 < i {
                assert(!used[x1].overlaps(used[i]));
            } else {
                assert(!used[i].overlaps(used[x1]));
            }
        }
    }
    lemma_first_mergeable(free, f, 0);
    let j = first_mergeable(free, f, 0);
    if j >= free.len() {
        lemma_coalesce_none(free, used2, size, f);
    } else {
        lemma_first_mergeable(free, f, j + 1);
        let k = first_mergeable(free, f, j + 1);
        if k >= free.len() {
            lemma_coalesce_one(free, used2, size, f, j);
        } else {
            lemma_coalesce_two(free, used2, size, f, j, k);
        }
    }
}

/// A rearrangement of distinct, disjoint used blocks is again a list of
/// distinct, disjoint used blocks, and holds each of them.
pub proof fn lemma_rearranged(used: Seq<Block>, sorted: Seq<Block>, size: u64)
    requires
        blocks_within(used, size, false),
        distinct_ids(used),
        disjoint(used),
        sorted.to_multiset() == used.to_multiset(),
    ensures
        sorted.len() == used.len(),
        blocks_within(sorted, size, false),
        distinct_ids(sorted),
        disjoint(sorted),
        forall|j: int| 0 <= j < used.len() ==> sorted.contains(#[trigger] used[j]),
{
    broadcast use vstd::seq_lib::group_to_multiset_ensures;

    assert(used.no_duplicates()) by {
        assert forall|i: int, j: int| 0 <= i < used.len() && 0 <= j < used.len() && i != j implies used[i]
            != used[j] by {
            if i < j {
                assert(used[i].id != used[j].id);
            } else {
                assert(used[j].id != used[i].id);
            }
        }
    }
    used.lemma_multiset_has_no_duplicates();
    sorted.lemma_multiset_has_no_duplicates_conv();
    assert(sorted.to_multiset().len() == sorted.len());
    assert(used.to_multiset().len() == used.len());
    assert forall|k: int| 0 <= k < sorted.len() implies used.contains(#[trigger] sorted[k]) by {
        assert(sorted.contains(sorted[k]));
        assert(sorted.to_multiset().count(sorted[k]) > 0);
    }
    assert forall|j: int| 0 <= j < used.len() implies sorted.contains(#[trigger] used[j]) by {
        assert(used.contains(used[j]));
        assert(used.to_multiset().count(used[j]) > 0);
    }
    assert forall|x: int, y: int| 0 <= x < y < sorted.len() implies (#[trigger] sorted[x]).id != (
    #[trigger] sorted[y]).id && !sorted[x].overlaps(sorted[y]) by {
        assert(used.contains(sorted[x]));
        assert(used.contains(sorted[y]));
        let jx = used.index_of(sorted[x]);
        let jy = used.index_of(sorted[y]);
        assert(sorted[x] != sorted[y]);
        if jx < jy {
            assert(used[jx].id != used[jy].id && !used[jx].overlaps(used[jy]));
        } else {
            assert(used[jy].id != used[jx].id && !used[jy].overlaps(used[jx]));
        }
    }
    assert forall|k: int| 0 <= k < sorted.len() implies (#[trigger] sorted[k]).wf()
        && sorted[k].free() == false && sorted[k].end_addr < size by {
        assert(used.contains(sorted[k]));
        let j = used.index_of(sorted[k]);
        assert(used[j].wf());
    }
}

/// Where every block of `s` starts below `addr`, all of them count.
pub proof fn lemma_below_all(s: Seq<Block>, addr: int)
    requires
        forall|i: int| 0 <= i < s.len() ==> (#[trigger] s[i]).start_addr < addr,
    ensures
        count_below(s, addr) == s.len(),
        size_below(s, addr) == total_size(s),
    decreases s.len(),
{
    if s.len() > 0 {
        assert(s[s.len() - 1].start_addr < addr);
        assert forall|i: int|
            0 <= i < s.drop_last().len() implies (#[trigger] s.drop_last()[i]).start_addr
            < addr by {
            assert(s[i].start_addr < addr);
        }
        lemma_below_all(s.drop_last(), addr);
    }
}

/// In a list whose blocks ascend without overlap, the blocks that start
/// below block `k` are the `k` blocks before it.
pub proof fn lemma_below_sorted(s: Seq<Block>, k: int)
    requires
        forall|i: int, j: int|
            0 <= i < j < s.len() ==> (#[trigger] s[i]).start_addr < (#[trigger] s[j]).start_addr,
        0 <= k < s.len(),
    ensures
        count_below(s, s[k].start_addr as int) == k,
        size_below(s, s[k].start_addr as int) == total_size(s.take(k)),
    decreases s.len(),
{
    let addr = s[k].start_addr as int;
    let front = s.drop_last();
    if k == s.len() - 1 {
        assert forall|i: int| 0 <= i < front.len() implies (#[trigger] front[i]).start_addr
            < addr by {
            assert(s[i].start_addr < s[k].start_addr);
        }
        lemma_below_all(front, addr);
        assert(s.take(k) =~= front);
    } else {
        assert(s[k].start_addr < s[s.len() - 1].start_addr);
        assert forall|i: int, j: int| 0 <= i < j < front.len() implies (#[trigger] front[i]).start_addr
            < (#[trigger] front[j]).start_addr by {
            assert(s[i].start_addr < s[j].start_addr);
        }
        lemma_below_sorted(front, k);
        assert(front.take(k) =~= s.take(k));
    }
}

/// Compaction keeps the invariant and moves each used block as `compacted`
/// says: `sorted` is the used list in ascending order of address, and the
/// new lists are those blocks laid end to end from address 0, then one free
/// block up to the end of the space.
#[verifier::rlimit(50)]
pub proof fn lemma_pack_keeps_partition(
    free: Seq<Block>,
    used: Seq<Block>,
    size: u64,
    sorted: Seq<Block>,
)
    requires
        partition(free, used, size),
        free.len() > 0,
        sorted.to_multiset() == used.to_multiset(),
        ascending(sorted),
    ensures
        1 <= total_size(free) <= size,
        total_size(sorted) == total_size(used),
        blocks_within(sorted, size, false),
        sorted == by_address(used),
        compacted(used, packed(sorted)),
        partition(
            seq![Block::at(BlockId::Free, total_size(used), total_size(free))],
            packed(sorted),
            size,
        ),
{
    let out = packed(sorted);
    let rest = Block::at(BlockId::Free, total_size(used), total_size(free));
    let free2 = seq![rest];
    lemma_rearranged(used, sorted, size);
    lemma_by_address(used);
    lemma_ascending_unique(used, size, sorted, by_address(used));
    lemma_sum_permutation(sorted, used, by_size());
    lemma_total_size_bounds(free, 0);
    lemma_total_size_bounds(used, 0);
    assert(free[0].wf());
    lemma_strictly_ascending(sorted);
    assert forall|k: int| 0 <= k < sorted.len() implies 0 <= total_size(sorted.take(k))
        && total_size(sorted.take(k)) + (#[trigger] sorted[k]).size <= total_size(sorted) by {
        lemma_total_size_bounds(sorted, k);
    }
    assert forall|x: int, y: int| 0 <= x < y < sorted.len() implies total_size(sorted.take(x))
        + (#[trigger] sorted[x]).size <= total_size(#[trigger] sorted.take(y)) by {
        lemma_total_size_bounds(sorted.take(y), x);
        assert(sorted.take(y).take(x) =~= sorted.take(x));
    }
    assert(compacted(used, out)) by {
        assert forall|j: int| 0 <= j < used.len() implies ({
            let b = #[trigger] used[j];
            let k = count_below(used, b.start_addr as int);
            &&& 0 <= k < out.len()
            &&& out[k] == Block::at(
                b.id,
                size_below(used, b.start_addr as int),
                b.size as int,
            )
        }) by {
            let b = used[j];
            assert(sorted.contains(b));
            let k = sorted.index_of(b);
            lemma_below_sorted(sorted, k);
            lemma_sum_permutation(sorted, used, one_below(b.start_addr as int));
            lemma_sum_permutation(sorted, used, size_if_below(b.start_addr as int));
        }
    }
    assert(total_size(out) == total_size(sorted)) by {
        lemma_sum_same(out, sorted, by_size());
    }
    assert(total_size(free2) == rest.size) by {
        assert(free2.drop_last() =~= Seq::<Block>::empty());
        assert(sum_by(free2.drop_last(), by_size()) == 0);
    }
    assert(blocks_within(out, size, false));
    assert(distinct_ids(out)) by {
        assert forall|x: int, y: int| 0 <= x < y < out.len() implies (#[trigger] out[x]).id != (
        #[trigger] out[y]).id by {
            assert(sorted[x].id != sorted[y].id);
        }
    }
    assert(disjoint(out)) by {
        assert forall|x: int, y: int| 0 <= x < y < out.len() implies !(#[trigger] out[x]).overlaps(
            #[trigger] out[y],
        ) by {
            assert(total_size(sorted.take(x)) + sorted[x].size <= total_size(sorted.take(y)));
        }
    }
    assert(apart(free2, out));
    assert(blocks_within(free2, size, true));
    assert(disjoint(free2));
    assert(no_neighbours(free2));
}

/// Putting a block into an ascending list keeps the list ascending and
/// adds just that block.
pub proof fn lemma_insert_by_start(t: Seq<Block>, b: Block)
    requires
        ascending(t),
    ensures
        ascending(insert_by_start(t, b)),
        insert_by_start(t, b).to_multiset() == t.to_multiset().insert(b),
        insert_by_start(t, b).len() == t.len() + 1,
        forall|i: int|
            0 <= i < t.len() + 1 ==> (#[trigger] insert_by_start(t, b)[i]) == b || t.contains(
                insert_by_start(t, b)[i],
            ),
    decreases t.len(),
{
    broadcast use vstd::seq_lib::group_to_multiset_ensures;

    let r = insert_by_start(t, b);
    if t.len() == 0 || t.last().start_addr <= b.start_addr {
        assert forall|i: int, j: int| 0 <= i < j < r.len() implies (#[trigger] r[i]).start_addr <= (
        #[trigger] r[j]).start_addr by {
            if j == t.len() {
                if i < t.len() - 1 {
                    assert(t[i].start_addr <= t[t.len() - 1].start_addr);
                }
            } else {
                assert(t[i].start_addr <= t[j].start_addr);
            }
        }
        assert forall|i: int| 0 <= i < t.len() + 1 implies (#[trigger] r[i]) == b || t.contains(
            r[i],
        ) by {
            if i < t.len() {
                assert(t[i] == r[i]);
            }
        }
    } else {
        let front = t.drop_last();
        assert(ascending(front)) by {
            assert forall|i: int, j: int| 0 <= i < j < front.len() implies (
            #[trigger] front[i]).start_addr <= (#[trigger] front[j]).start_addr by {
                assert(t[i].start_addr <= t[j].start_addr);
            }
        }
        lemma_insert_by_start(front, b);
        let inner = insert_by_start(front, b);
        assert(front.push(t.last()) =~= t);
        assert(r.to_multiset() =~= t.to_multiset().insert(b));
        assert forall|i: int| 0 <= i < t.len() + 1 implies (#[trigger] r[i]) == b || t.contains(
            r[i],
        ) by {
            if i < inner.len() {
                assert(r[i] == inner[i]);
                if inner[i] != b {
                    assert(front.contains(inner[i]));
                    let x = front.index_of(inner[i]);
                    assert(t[x] == inner[i]);
                }
            } else {
                assert(r[i] == t[t.len() - 1]);
            }
        }
        assert forall|i: int, j: int| 0 <= i < j < r.len() implies (#[trigger] r[i]).start_addr <= (
        #[trigger] r[j]).start_addr by {
            if j == inner.len() {
                assert(r[i] == inner[i]);
                if inner[i] != b {
                    assert(front.contains(inner[i]));
                    let x = front.index_of(inner[i]);
                    assert(t[x].start_addr <= t[t.len() - 1].start_addr);
                }
            } else {
                assert(inner[i].start_addr <= inner[j].start_addr);
            }
        }
    }
}

/// `by_address` rearranges its list into ascending order.
pub proof fn lemma_by_address(s: Seq<Block>)
    ensures
        ascending(by_address(s)),
        by_address(s).to_multiset() == s.to_multiset(),
    decreases s.len(),
{
    broadcast use vstd::seq_lib::group_to_multiset_ensures;

    if s.len() > 0 {
        lemma_by_address(s.drop_last());
        lemma_insert_by_start(by_address(s.drop_last()), s.last());
        assert(s.drop_last().push(s.last()) =~= s);
    }
}

/// Blocks that do not overlap stand in ascending order in one way only.
pub proof fn lemma_ascending_unique(used: Seq<Block>, size: u64, s: Seq<Block>, t: Seq<Block>)
    requires
        blocks_within(used, size, false),
        distinct_ids(used),
        disjoint(used),
        s.to_multiset() == used.to_multiset(),
        t.to_multiset() == used.to_multiset(),
        ascending(s),
        ascending(t),
    ensures
        s == t,
{
    lemma_rearranged(used, s, size);
    lemma_rearranged(used, t, size);
    lemma_strictly_ascending(s);
    lemma_strictly_ascending(t);
    assert forall|k: int| 0 <= k < s.len() implies s[k] == t[k] by {
        let b = s[k];
        assert(used.contains(b)) by {
            broadcast use vstd::seq_lib::group_to_multiset_ensures;

            assert(s.contains(b));
            assert(s.to_multiset().count(b) > 0);
        }
        let j = used.index_of(b);
        assert(t.contains(used[j]));
        let k2 = t.index_of(b);
        lemma_below_sorted(s, k);
        lemma_below_sorted(t, k2);
        lemma_sum_permutation(s, used, one_below(b.start_addr as int));
        lemma_sum_permutation(t, used, one_below(b.start_addr as int));
    }
    assert(s =~= t);
}

/// Well-formed blocks that ascend without overlap start at addresses that
/// strictly ascend.
pub proof fn lemma_strictly_ascending(s: Seq<Block>)
    requires
        ascending(s),
        disjoint(s),
        forall|i: int| 0 <= i < s.len() ==> (#[trigger] s[i]).wf(),
    ensures
        forall|i: int, j: int|
            0 <= i < j < s.len() ==> (#[trigger] s[i]).start_addr < (#[trigger] s[j]).start_addr,
{
    assert forall|i: int, j: int| 0 <= i < j < s.len() implies (#[trigger] s[i]).start_addr < (
    #[trigger] s[j]).start_addr by {
        assert(!s[i].overlaps(s[j]));
        assert(s[i].wf() && s[j].wf());
        assert(s[i].start_addr <= s[j].start_addr);
    }
}

/// The sizes before block `x` and its own size add up to no more than the
/// sizes before any later place `y`, and never fall below 0.
pub proof fn lemma_total_prefix(s: Seq<Block>, x: int, y: int)
    requires
        0 <= x < y <= s.len(),
    ensures
        0 <= total_size(s.take(x)),
        total_size(s.take(x)) + s[x].size <= total_size(s.take(y)),
{
    lemma_total_size_bounds(s.take(y), x);
    assert(s.take(y).take(x) =~= s.take(x));
}

} // verus!

//! Lists of blocks as a tiling of an address space: sums of sizes,
//! disjointness, and the invariant that an address space keeps.

use crate::block::{Block, BlockId};
use vstd::prelude::*;

verus! {

/// The sum of `w` over the blocks of `s`.
pub open spec fn sum_by(s: Seq<Block>, w: spec_fn(Block) -> int) -> int
    decreases s.len(),
{
    if s.len() == 0 {
        0
    } else {
        sum_by(s.drop_last(), w) + w(s.last())
    }
}

/// Weighs a block by its size.
pub open spec fn by_size() -> spec_fn(Block) -> int {
    |b: Block| b.size as int
}

/// Weighs a block by 1 if it starts below `addr`, else by 0.
pub open spec fn one_below(addr: int) -> spec_fn(Block) -> int {
    |b: Block|
        if b.start_addr < addr {
            1int
        } else {
            0int
        }
}

/// Weighs a block by its size if it starts below `addr`, else by 0.
pub open spec fn size_if_below(addr: int) -> spec_fn(Block) -> int {
    |b: Block|
        if b.start_addr < addr {
            b.size as int
        } else {
            0int
        }
}

/// The sum of the sizes of the blocks of `s`.
pub open spec fn total_size(s: Seq<Block>) -> int {
    sum_by(s, by_size())
}

/// How many blocks of `s` start below `addr`.
pub open spec fn count_below(s: Seq<Block>, addr: int) -> int {
    sum_by(s, one_below(addr))
}

/// The sum of the sizes of the blocks of `s` that start below `addr`.
pub open spec fn size_below(s: Seq<Block>, addr: int) -> int {
    sum_by(s, size_if_below(addr))
}

/// The largest size among the blocks of `s`; 0 for the empty list.
pub open spec fn max_size(s: Seq<Block>) -> int
    decreases s.len(),
{
    if s.len() == 0 {
        0
    } else if max_size(s.drop_last()) >= s.last().size {
        max_size(s.drop_last())
    } else {
        s.last().size as int
    }
}

/// Every block of `s` is a well-formed block below `size`, and is free or
/// used as `free` says.
pub open spec fn blocks_within(s: Seq<Block>, size: u64, free: bool) -> bool {
    forall|i: int|
        0 <= i < s.len() ==> {
            &&& (#[trigger] s[i]).wf()
            &&& s[i].free() == free
            &&& s[i].end_addr < size
        }
}

/// No two blocks of `s` share an address.
pub open spec fn disjoint(s: Seq<Block>) -> bool {
    forall|i: int, j: int| 0 <= i < j < s.len() ==> !(#[trigger] s[i]).overlaps(#[trigger] s[j])
}

/// No block of `s` shares an address with a block of `t`.
pub open spec fn apart(s: Seq<Block>, t: Seq<Block>) -> bool {
    forall|i: int, j: int|
        0 <= i < s.len() && 0 <= j < t.len() ==> !(#[trigger] s[i]).overlaps(#[trigger] t[j])
}

/// No two blocks of `s` carry the same tag.
pub open spec fn distinct_ids(s: Seq<Block>) -> bool {
    forall|i: int, j: int| 0 <= i < j < s.len() ==> (#[trigger] s[i]).id != (#[trigger] s[j]).id
}

/// No block of `s` ends right before another block of `s` begins.
pub open spec fn no_neighbours(s: Seq<Block>) -> bool {
    forall|i: int, j: int|
        0 <= i < s.len() && 0 <= j < s.len() ==> !(#[trigger] s[i]).precedes(#[trigger] s[j])
}

/// Some block of `s` holds the address `addr`.
pub open spec fn in_use(s: Seq<Block>, addr: int) -> bool {
    exists|i: int| 0 <= i < s.len() && (#[trigger] s[i]).contains(addr)
}

/// Some block of `s` is used under `id`.
pub open spec fn has_id(s: Seq<Block>, id: u64) -> bool {
    exists|i: int| 0 <= i < s.len() && (#[trigger] s[i]).id == BlockId::Used(id)
}

/// The index of the block of `s` that is used under `id`; meaningful where
/// there is one.
pub open spec fn index_of_id(s: Seq<Block>, id: u64) -> int {
    choose|i: int| 0 <= i < s.len() && (#[trigger] s[i]).id == BlockId::Used(id)
}

/// The invariant of an address space of `size` addresses: the free and the
/// used blocks lie below `size`, no two of them overlap, their sizes add up
/// to `size`, used ids are unique, and no two free blocks touch.
pub open spec fn partition(free: Seq<Block>, used: Seq<Block>, size: u64) -> bool {
    &&& blocks_within(free, size, true)
    &&& blocks_within(used, size, false)
    &&& distinct_ids(used)
    &&& disjoint(free)
    &&& disjoint(used)
    &&& apart(free, used)
    &&& no_neighbours(free)
    &&& total_size(free) + total_size(used) == size
}

/// A block put at the end adds its weight to the sum.
pub proof fn lemma_sum_push(s: Seq<Block>, b: Block, w: spec_fn(Block) -> int)
    ensures
        sum_by(s.push(b), w) == sum_by(s, w) + w(b),
{
    assert(s.push(b).drop_last() =~= s);
}

/// A block taken out takes its weight from the sum.
pub proof fn lemma_sum_remove(s: Seq<Block>, i: int, w: spec_fn(Block) -> int)
    requires
        0 <= i < s.len(),
    ensures
        sum_by(s.remove(i), w) == sum_by(s, w) - w(s[i]),
    decreases s.len(),
{
    if i == s.len() - 1 {
        assert(s.remove(i) =~= s.drop_last());
    } else {
        assert(s.remove(i).drop_last() =~= s.drop_last().remove(i));
        lemma_sum_remove(s.drop_last(), i, w);
    }
}

/// A block put in the place of another changes the sum by the difference
/// of their weights.
pub proof fn lemma_sum_update(s: Seq<Block>, i: int, b: Block, w: spec_fn(Block) -> int)
    requires
        0 <= i < s.len(),
    ensures
        sum_by(s.update(i, b), w) == sum_by(s, w) - w(s[i]) + w(b),
    decreases s.len(),
{
    if i == s.len() - 1 {
        assert(s.update(i, b).drop_last() =~= s.drop_last());
    } else {
        assert(s.update(i, b).drop_last() =~= s.drop_last().update(i, b));
        lemma_sum_update(s.drop_last(), i, b, w);
    }
}

/// The sum over the first `k + 1` blocks is the sum over the first `k`
/// plus the weight of block `k`.
pub proof fn lemma_sum_take_next(s: Seq<Block>, k: int, w: spec_fn(Block) -> int)
    requires
        0 <= k < s.len(),
    ensures
        sum_by(s.take(k + 1), w) == sum_by(s.take(k), w) + w(s[k]),
{
    assert(s.take(k + 1).drop_last() =~= s.take(k));
}

/// A sum of sizes is at least the sum over any prefix, and at least each
/// single size.
pub proof fn lemma_total_size_bounds(s: Seq<Block>, k: int)
    requires
        0 <= k <= s.len(),
    ensures
        0 <= total_size(s.take(k)) <= total_size(s),
        k < s.len() ==> total_size(s.take(k)) + s[k].size <= total_size(s),
    decreases s.len(),
{
    if s.len() == 0 {
        assert(s.take(k) =~= s);
    } else if k == s.len() {
        assert(s.take(k) =~= s);
        lemma_total_size_bounds(s.drop_last(), k - 1);
        assert(s.drop_last().take(k - 1) =~= s.take(k - 1));
    } else {
        lemma_total_size_bounds(s.drop_last(), k);
        assert(s.drop_last().take(k) =~= s.take(k));
        if k == s.len() - 1 {
            assert(s.take(k) =~= s.drop_last());
        }
    }
}

/// Two lists that hold the same blocks, in whatever order, have the same
/// sum.
pub proof fn lemma_sum_permutation(s: Seq<Block>, t: Seq<Block>, w: spec_fn(Block) -> int)
    requires
        s.to_multiset() == t.to_multiset(),
    ensures
        sum_by(s, w) == sum_by(t, w),
    decreases s.len(),
{
    broadcast use vstd::seq_lib::group_to_multiset_ensures;

    if s.len() == 0 {
        assert(t.to_multiset().len() == 0);
        assert(t.len() == 0);
    } else {
        let a = s.last();
        assert(s.to_multiset().count(a) > 0);
        assert(t.contains(a));
        let i = t.index_of(a);
        assert(s.drop_last() =~= s.remove(s.len() - 1));
        assert(s.drop_last().to_multiset() =~= t.remove(i).to_multiset());
        lemma_sum_permutation(s.drop_last(), t.remove(i), w);
        lemma_sum_remove(t, i, w);
    }
}

/// Among blocks of at least one address each, the largest is no larger than
/// the sum of all, and equals it just where there is one block only.
pub proof fn lemma_max_size(s: Seq<Block>)
    requires
        s.len() > 0,
        forall|i: int| 0 <= i < s.len() ==> (#[trigger] s[i]).size >= 1,
    ensures
        1 <= max_size(s) <= total_size(s),
        max_size(s) == total_size(s) <==> s.len() == 1,
        exists|i: int| 0 <= i < s.len() && (#[trigger] s[i]).size == max_size(s),
        forall|i: int| 0 <= i < s.len() ==> (#[trigger] s[i]).size <= max_size(s),
    decreases s.len(),
{
    let front = s.drop_last();
    let n = s.len() - 1;
    assert(s[n].size >= 1);
    if front.len() == 0 {
        assert(sum_by(front, by_size()) == 0);
        assert(s[0].size == max_size(s));
    } else {
        assert forall|i: int| 0 <= i < front.len() implies (#[trigger] front[i]).size >= 1 by {
            assert(s[i].size >= 1);
        }
        lemma_max_size(front);
        let w = choose|i: int| 0 <= i < front.len() && (#[trigger] front[i]).size == max_size(front);
        if max_size(front) >= s[n].size {
            assert(s[w].size == max_size(s));
        } else {
            assert(s[n].size == max_size(s));
        }
        assert forall|i: int| 0 <= i < s.len() implies (#[trigger] s[i]).size <= max_size(s) by {
            if i < n {
                assert(front[i].size <= max_size(front));
            }
        }
    }
}

/// The sum over two lists joined is the sum of their sums.
pub proof fn lemma_sum_concat(s: Seq<Block>, t: Seq<Block>, w: spec_fn(Block) -> int)
    ensures
        sum_by(s + t, w) == sum_by(s, w) + sum_by(t, w),
    decreases t.len(),
{
    if t.len() == 0 {
        assert(s + t =~= s);
    } else {
        assert((s + t).drop_last() =~= s + t.drop_last());
        lemma_sum_concat(s, t.drop_last(), w);
    }
}

/// Two lists of equal length whose blocks weigh the same, place by place,
/// have the same sum.
pub proof fn lemma_sum_same(s: Seq<Block>, t: Seq<Block>, w: spec_fn(Block) -> int)
    requires
        s.len() == t.len(),
        forall|i: int| 0 <= i < s.len() ==> w(#[trigger] s[i]) == w(t[i]),
    ensures
        sum_by(s, w) == sum_by(t, w),
    decreases s.len(),
{
    if s.len() > 0 {
        assert(w(s[s.len() - 1]) == w(t[s.len() - 1]));
        assert forall|i: int| 0 <= i < s.drop_last().len() implies w(#[trigger] s.drop_last()[i])
            == w(t.drop_last()[i]) by {
            assert(w(s[i]) == w(t[i]));
        }
        lemma_sum_same(s.drop_last(), t.drop_last(), w);
    }
}

} // verus!

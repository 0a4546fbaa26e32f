//! What holds of every address space, whatever was done to it.

use crate::algos::{lemma_pick_exists, AllocationMethod};
use crate::area::Layout;
use crate::block::Block;
use crate::cmd::{Cmd, CmdType};
use crate::layout::{
    by_size, disjoint, in_use, index_of_id, lemma_max_size, lemma_sum_concat, lemma_sum_same,
    max_size, no_neighbours, sum_by, total_size,
};
use crate::simulation::{apply, layout_after};
use crate::steps::{
    ascending, by_address, lemma_ascending_unique, lemma_by_address, lemma_carve_keeps_partition,
    lemma_coalesce_keeps_partition, lemma_pack_keeps_partition, lemma_total_prefix, packed,
};
use vstd::prelude::*;
use vstd::set_lib::{lemma_int_range, lemma_set_disjoint_lens, lemma_subset_equality, set_int_range};

verus! {

/// The addresses that the blocks of `s` hold.
pub open spec fn cells(s: Seq<Block>) -> Set<int> {
    Set::new(|a: int| in_use(s, a))
}

/// Blocks that do not overlap hold as many addresses as their sizes add up
/// to.
pub proof fn lemma_cells_len(s: Seq<Block>)
    requires
        disjoint(s),
        forall|i: int| 0 <= i < s.len() ==> (#[trigger] s[i]).wf(),
    ensures
        cells(s).finite(),
        cells(s).len() == total_size(s),
    decreases s.len(),
{
    if s.len() == 0 {
        assert(cells(s) =~= Set::<int>::empty());
    } else {
        let front = s.drop_last();
        let b = s.last();
        let n = s.len() - 1;
        assert forall|i: int| 0 <= i < front.len() implies (#[trigger] front[i]).wf() by {
            assert(s[i].wf());
        }
        assert(disjoint(front)) by {
            assert forall|i: int, j: int| 0 <= i < j < front.len() implies !(
            #[trigger] front[i]).overlaps(#[trigger] front[j]) by {
                assert(!s[i].overlaps(s[j]));
            }
        }
        lemma_cells_len(front);
        let r = set_int_range(b.start_addr as int, b.end_addr + 1);
        assert(s[n].wf());
        lemma_int_range(b.start_addr as int, b.end_addr + 1);
        assert forall|a: int| in_use(s, a) <==> (in_use(front, a) || b.contains(a)) by {
            if in_use(front, a) {
                let x = choose|x: int| 0 <= x < front.len() && (#[trigger] front[x]).contains(a);
                assert(s[x].contains(a));
            }
            if b.contains(a) {
                assert(s[n].contains(a));
            }
            if in_use(s, a) {
                let x = choose|x: int| 0 <= x < s.len() && (#[trigger] s[x]).contains(a);
                if x < n {
                    assert(front[x].contains(a));
                }
            }
        }
        assert(cells(s) =~= cells(front) + r);
        assert(cells(front).disjoint(r)) by {
            assert forall|a: int| !(cells(front).contains(a) && r.contains(a)) by {
                if in_use(front, a) && r.contains(a) {
                    let x = choose|x: int| 0 <= x < front.len() && (#[trigger] front[x]).contains(a);
                    assert(!s[x].overlaps(s[n]));
                }
            }
        }
        lemma_set_disjoint_lens(cells(front), r);
    }
}

/// The blocks of an address space tile it: no two blocks, free or used,
/// share an address, and the addresses they hold are exactly those of
/// `[0, size)`.
pub proof fn lemma_tiling(l: Layout)
    requires
        l.wf(),
    ensures
        disjoint(l.free + l.used),
        forall|a: int| 0 <= a < l.size <==> in_use(l.free + l.used, a),
{
    let all = l.free + l.used;
    let nf = l.free.len();
    assert forall|i: int| 0 <= i < all.len() implies (#[trigger] all[i]).wf() && all[i].end_addr
        < l.size by {
        if i < nf {
            assert(l.free[i].wf());
        } else {
            assert(l.used[i - nf].wf());
        }
    }
    assert(disjoint(all)) by {
        assert forall|i: int, j: int| 0 <= i < j < all.len() implies !(#[trigger] all[i]).overlaps(
            #[trigger] all[j],
        ) by {
            if j < nf {
                assert(!l.free[i].overlaps(l.free[j]));
            } else if i < nf {
                assert(!l.free[i].overlaps(l.used[j - nf]));
            } else {
                assert(!l.used[i - nf].overlaps(l.used[j - nf]));
            }
        }
    }
    lemma_cells_len(all);
    lemma_sum_concat(l.free, l.used, by_size());
    let whole = set_int_range(0, l.size as int);
    lemma_int_range(0, l.size as int);
    assert(cells(all).subset_of(whole)) by {
        assert forall|a: int| cells(all).contains(a) implies whole.contains(a) by {
            let x = choose|x: int| 0 <= x < all.len() && (#[trigger] all[x]).contains(a);
            assert(all[x].wf());
        }
    }
    lemma_subset_equality(cells(all), whole);
    assert forall|a: int| 0 <= a < l.size <==> in_use(all, a) by {
        assert(whole.contains(a) <==> cells(all).contains(a));
    }
}

/// The sizes of the free and of the used blocks add up to the size of the
/// space.
pub proof fn lemma_conservation(l: Layout)
    requires
        l.wf(),
    ensures
        total_size(l.free) + total_size(l.used) == l.size,
{
}

/// A request, served or refused, leaves a well-formed address space.
pub proof fn lemma_allocate_wf(l: Layout, id: u64, n: u64, method: AllocationMethod)
    requires
        l.wf(),
    ensures
        l.allocate(id, n, method).wf(),
{
    if l.alloc_result(id, n, method).is_ok() {
        let i = lemma_pick_exists(method, l.free, n);
        lemma_carve_keeps_partition(l.free, l.used, l.size, i, id, n);
    }
}

/// Giving a block back, or being refused, leaves a well-formed address
/// space; in particular no two free blocks touch afterwards.
pub proof fn lemma_dealloc_wf(l: Layout, id: u64)
    requires
        l.wf(),
    ensures
        l.dealloc(id).wf(),
        no_neighbours(l.dealloc(id).free),
{
    if l.dealloc_result(id).is_ok() {
        lemma_coalesce_keeps_partition(l.free, l.used, l.size, index_of_id(l.used, id));
    }
}

/// Compaction, done or refused, leaves a well-formed address space.
pub proof fn lemma_compact_wf(l: Layout)
    requires
        l.wf(),
    ensures
        l.compact().wf(),
{
    if l.free.len() > 0 {
        lemma_by_address(l.used);
        lemma_pack_keeps_partition(l.free, l.used, l.size, by_address(l.used));
    }
}

/// Compacting twice gives what compacting once gives.
pub proof fn lemma_compact_idempotent(l: Layout)
    requires
        l.wf(),
    ensures
        l.compact().compact() == l.compact(),
{
    if l.free.len() > 0 {
        let sorted = by_address(l.used);
        lemma_by_address(l.used);
        lemma_pack_keeps_partition(l.free, l.used, l.size, sorted);
        let once = l.compact();
        let out = once.used;
        assert(ascending(out)) by {
            assert forall|x: int, y: int| 0 <= x < y < out.len() implies (#[trigger] out[x]).start_addr
                <= (#[trigger] out[y]).start_addr by {
                lemma_total_prefix(sorted, x, y);
                lemma_total_prefix(sorted, y, sorted.len() as int);
                assert(sorted.take(sorted.len() as int) =~= sorted);
            }
        }
        lemma_by_address(out);
        lemma_ascending_unique(out, l.size, out, by_address(out));
        assert(packed(out) =~= out) by {
            assert forall|k: int| 0 <= k < out.len() implies #[trigger] packed(out)[k] == out[k] by {
                lemma_total_prefix(sorted, k, sorted.len() as int);
                assert(sorted.take(sorted.len() as int) =~= sorted);
                assert forall|x: int| 0 <= x < k implies by_size()(#[trigger] out.take(k)[x])
                    == by_size()(sorted.take(k)[x]) by {
                    lemma_total_prefix(sorted, x, sorted.len() as int);
                    assert(sorted[x].wf());
                }
                lemma_sum_same(out.take(k), sorted.take(k), by_size());
                assert(sorted[k].wf());
            }
        }
        assert(total_size(out) == total_size(sorted)) by {
            assert forall|x: int| 0 <= x < out.len() implies by_size()(#[trigger] out[x])
                == by_size()(sorted[x]) by {
                assert(sorted[x].wf());
            }
            lemma_sum_same(out, sorted, by_size());
        }
        assert(total_size(once.free) == once.free[0].size) by {
            assert(once.free.drop_last() =~= Seq::<Block>::empty());
            assert(sum_by(once.free.drop_last(), by_size()) == 0);
        }
        assert(once.compact().free =~= once.free);
    }
}

/// Where something is free, the largest free block holds at least one
/// address and at most all free addresses; it holds all of them just where
/// it is the only free block. So the part of the free addresses outside
/// the largest free block is at least 0 and below 1, and it is 0 just where
/// there is one free block.
pub proof fn lemma_fragmentation(l: Layout)
    requires
        l.wf(),
        l.free.len() > 0,
    ensures
        1 <= max_size(l.free) <= total_size(l.free),
        max_size(l.free) == total_size(l.free) <==> l.free.len() == 1,
{
    assert forall|i: int| 0 <= i < l.free.len() implies (#[trigger] l.free[i]).size >= 1 by {
        assert(l.free[i].wf());
    }
    lemma_max_size(l.free);
}

/// A command, done or refused, leaves a well-formed address space.
pub proof fn lemma_apply_wf(l: Layout, c: Cmd, m: AllocationMethod)
    requires
        l.wf(),
        c.wf(),
    ensures
        apply(l, c, m).wf(),
{
    match c.ty {
        CmdType::Alloc => lemma_allocate_wf(l, c.block_id.unwrap(), c.size.unwrap(), m),
        CmdType::Dealloc => lemma_dealloc_wf(l, c.block_id.unwrap()),
        CmdType::Compact => lemma_compact_wf(l),
    }
}

/// Any run of commands leaves a well-formed address space.
pub proof fn lemma_layout_after_wf(l: Layout, cmds: Seq<Cmd>, m: AllocationMethod)
    requires
        l.wf(),
        forall|i: int| 0 <= i < cmds.len() ==> (#[trigger] cmds[i]).wf(),
    ensures
        layout_after(l, cmds, m).wf(),
    decreases cmds.len(),
{
    if cmds.len() > 0 {
        assert forall|i: int| 0 <= i < cmds.drop_last().len() implies (#[trigger] cmds.drop_last()[i]).wf() by {
            assert(cmds[i].wf());
        }
        lemma_layout_after_wf(l, cmds.drop_last(), m);
        assert(cmds[cmds.len() - 1].wf());
        lemma_apply_wf(layout_after(l, cmds.drop_last(), m), cmds.last(), m);
    }
}

} // verus!

//! Sorting by a key: a merge sort that keeps the order of equal keys.

use vstd::prelude::*;
use vstd::seq_lib::{lemma_multiset_commutative, to_multiset_build};

verus! {

/// What is put in order by a number of its own.
pub trait Keyed: Copy {
    /// The number by which the value is ordered.
    spec fn key(&self) -> int;

    /// The key, for comparing while the program runs.
    fn sort_key(&self) -> (k: u64)
        ensures
            k == self.key(),
    ;
}

impl Keyed for usize {
    open spec fn key(&self) -> int {
        *self as int
    }

    fn sort_key(&self) -> (k: u64) {
        *self as u64
    }
}

/// The keys of `s` ascend along the list.
pub open spec fn in_order<T: Keyed>(s: Seq<T>) -> bool {
    forall|i: int, j: int| 0 <= i < j < s.len() ==> (#[trigger] s[i]).key() <= (#[trigger] s[j]).key()
}

/// The values of `v` from place `from` up to `to`, as a list of their own.
fn part_of<T: Keyed>(v: &Vec<T>, from: usize, to: usize) -> (part: Vec<T>)
    requires
        from <= to <= v.len(),
    ensures
        part@ == v@.subrange(from as int, to as int),
{
    let mut part: Vec<T> = Vec::new();
    let mut i: usize = from;
    while i < to
        invariant
            from <= i <= to <= v.len(),
            part@ == v@.subrange(from as int, i as int),
        decreases to - i,
    {
        part.push(v[i]);
        i += 1;
        assert(part@ =~= v@.subrange(from as int, i as int));
    }
    part
}

/// Merges two ordered lists into one ordered list of all their values.
/// Of two values with the same key, one from `a` comes before one from
/// `b`.
fn merge<T: Keyed>(a: &Vec<T>, b: &Vec<T>) -> (r: Vec<T>)
    requires
        in_order(a@),
        in_order(b@),
        a.len() + b.len() <= usize::MAX,
    ensures
        in_order(r@),
        r@.len() == a@.len() + b@.len(),
        r@.to_multiset() == a@.to_multiset().add(b@.to_multiset()),
{
    broadcast use vstd::seq_lib::group_to_multiset_ensures;
    broadcast use vstd::multiset::group_multiset_axioms;

    let mut r: Vec<T> = Vec::new();
    let mut i: usize = 0;
    let mut j: usize = 0;
    assert(a@.take(0).to_multiset().add(b@.take(0).to_multiset()) =~= r@.to_multiset());
    while i < a.len() || j < b.len()
        invariant
            i <= a.len(),
            j <= b.len(),
            in_order(a@),
            in_order(b@),
            in_order(r@),
            r@.len() == i + j,
            r@.to_multiset() == a@.take(i as int).to_multiset().add(b@.take(j as int).to_multiset()),
            forall|x: int| 0 <= x < r@.len() && i < a.len() ==> (#[trigger] r@[x]).key() <= a@[i as int].key(),
            forall|x: int| 0 <= x < r@.len() && j < b.len() ==> (#[trigger] r@[x]).key() <= b@[j as int].key(),
        decreases a.len() - i + (b.len() - j),
    {
        let from_a = if i >= a.len() {
            false
        } else if j >= b.len() {
            true
        } else {
            a[i].sort_key() <= b[j].sort_key()
        };
        let ghost before = r@;
        if from_a {
            let x = a[i];
            r.push(x);
            proof {
                assert(a@.take(i + 1) =~= a@.take(i as int).push(x));
                to_multiset_build(before, x);
                to_multiset_build(a@.take(i as int), x);
                assert(r@.to_multiset() =~= a@.take(i + 1).to_multiset().add(
                    b@.take(j as int).to_multiset(),
                ));
                assert forall|p: int, q: int| 0 <= p < q < r@.len() implies (#[trigger] r@[p]).key() <= (
                #[trigger] r@[q]).key() by {
                    if q < before.len() {
                        assert(before[p].key() <= before[q].key());
                    } else {
                        assert(before[p].key() <= x.key());
                    }
                }
                if i + 1 < a.len() {
                    assert(a@[i as int].key() <= a@[i + 1].key());
                }
            }
            i += 1;
        } else {
            let x = b[j];
            r.push(x);
            proof {
                assert(b@.take(j + 1) =~= b@.take(j as int).push(x));
                to_multiset_build(before, x);
                to_multiset_build(b@.take(j as int), x);
                assert(r@.to_multiset() =~= a@.take(i as int).to_multiset().add(
                    b@.take(j + 1).to_multiset(),
                ));
                assert forall|p: int, q: int| 0 <= p < q < r@.len() implies (#[trigger] r@[p]).key() <= (
                #[trigger] r@[q]).key() by {
                    if q < before.len() {
                        assert(before[p].key() <= before[q].key());
                    } else {
                        assert(before[p].key() <= x.key());
                    }
                }
                if j + 1 < b.len() {
                    assert(b@[j as int].key() <= b@[j + 1].key());
                }
            }
            j += 1;
        }
    }
    assert(a@.take(i as int) =~= a@);
    assert(b@.take(j as int) =~= b@);
    r
}

/// The values of `v` from place `from` up to `to`, in the order of their
/// keys.
fn sort_part<T: Keyed>(v: &Vec<T>, from: usize, to: usize) -> (r: Vec<T>)
    requires
        from <= to <= v.len(),
    ensures
        in_order(r@),
        r@.len() == to - from,
        r@.to_multiset() == v@.subrange(from as int, to as int).to_multiset(),
    decreases to - from,
{
    broadcast use vstd::seq_lib::group_to_multiset_ensures;

    if to - from <= 1 {
        part_of(v, from, to)
    } else {
        let mid = from + (to - from) / 2;
        let a = sort_part(v, from, mid);
        let b = sort_part(v, mid, to);
        proof {
            let left = v@.subrange(from as int, mid as int);
            let right = v@.subrange(mid as int, to as int);
            assert(left + right =~= v@.subrange(from as int, to as int));
            lemma_multiset_commutative(left, right);
        }
        merge(&a, &b)
    }
}

/// The values of `v` in the order of their keys; values with the same key
/// keep the order they have in `v`.
pub fn merge_sort<T: Keyed>(v: &Vec<T>) -> (r: Vec<T>)
    ensures
        in_order(r@),
        r@.len() == v@.len(),
        r@.to_multiset() == v@.to_multiset(),
{
    assert(v@.subrange(0, v@.len() as int) =~= v@);
    sort_part(v, 0, v.len())
}

} // verus!

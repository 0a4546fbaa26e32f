//! Disk-head scheduling: the order in which requested cylinders are
//! visited, and how far the head travels.

use crate::sort::{merge_sort, Keyed};
use crate::text::{
    all_digits, chars_of, cut_at, digits_value, is_digit, lines, number, parse_number, split_lines,
};
use vstd::prelude::*;
use vstd::relations::{sorted_by, total_ordering};
use vstd::string::StrSliceExecFns;
use vstd::seq_lib::lemma_sorted_unique;

verus! {

/// The way the head moves first: towards cylinder 0 (`End`), or towards the
/// last cylinder (`Start`).
#[derive(Debug, Clone, Copy, PartialEq, Eq, Structural)]
pub enum Direction {
    End,
    Start,
}

/// A scheduling policy.
#[derive(Debug, Clone, Copy, PartialEq, Eq, Structural)]
pub enum Algorithm {
    Fcfs,
    Scan,
    Cscan,
}

/// The distance between two cylinders.
pub open spec fn gap(a: usize, b: usize) -> int {
    if a >= b {
        a - b
    } else {
        b - a
    }
}

/// The distance the head travels when it visits the cylinders of `path` in
/// their order, starting on the first.
pub open spec fn travel(path: Seq<usize>) -> int
    decreases path.len(),
{
    if path.len() < 2 {
        0
    } else {
        travel(path.drop_last()) + gap(path[path.len() - 2], path[path.len() - 1])
    }
}

/// The usual order of numbers.
pub open spec fn leq() -> spec_fn(usize, usize) -> bool {
    |a: usize, b: usize| a <= b
}

/// Holds of the cylinders below `head`.
pub open spec fn below(head: usize) -> spec_fn(usize) -> bool {
    |c: usize| c < head
}

/// Holds of `head` and of the cylinders above it.
pub open spec fn not_below(head: usize) -> spec_fn(usize) -> bool {
    |c: usize| c >= head
}

/// The order in which SCAN visits the requested `cylinders` with the head
/// on `head`, on a disk of `nrc` cylinders. Towards `End` the head sweeps
/// down over the requests below it to cylinder 0, then up over the rest.
/// Towards `Start` it goes to the last cylinder, comes down over the
/// requests not below where it began, and then takes those below it from
/// the lowest up.
pub open spec fn scan_order(nrc: usize, head: usize, cylinders: Seq<usize>, dir: Direction) -> Seq<
    usize,
> {
    let sorted = cylinders.sort_by(leq());
    let left = sorted.filter(below(head));
    let right = sorted.filter(not_below(head));
    match dir {
        Direction::End => left.reverse().push(0) + right,
        Direction::Start => seq![(nrc - 1) as usize] + right.reverse() + left,
    }
}

/// The order in which C-SCAN visits the requested `cylinders`. Towards
/// `End` the head sweeps up over the requests not below it to the last
/// cylinder, jumps to cylinder 0 and sweeps up over the rest. Towards
/// `Start` it sweeps down over the requests below it to cylinder 0, jumps
/// to the last cylinder and sweeps down over the rest.
pub open spec fn cscan_order(nrc: usize, head: usize, cylinders: Seq<usize>, dir: Direction) -> Seq<
    usize,
> {
    let sorted = cylinders.sort_by(leq());
    let left = sorted.filter(below(head));
    let right = sorted.filter(not_below(head));
    match dir {
        Direction::End => right.push((nrc - 1) as usize).push(0) + left,
        Direction::Start => left.reverse().push(0).push((nrc - 1) as usize) + right.reverse(),
    }
}

/// The head travels no further over a beginning of a path than over the
/// whole, and never a negative distance.
pub proof fn lemma_travel_grows(path: Seq<usize>, k: int)
    requires
        0 <= k <= path.len(),
    ensures
        0 <= travel(path.take(k)) <= travel(path),
    decreases path.len(),
{
    if k == path.len() {
        assert(path.take(k) =~= path);
        if path.len() >= 2 {
            lemma_travel_grows(path.drop_last(), k - 1);
        }
    } else {
        lemma_travel_grows(path.drop_last(), k);
        assert(path.drop_last().take(k) =~= path.take(k));
    }
}

/// In an ascending list, the cylinders below `head` are those before the
/// first that is not below it.
pub proof fn lemma_split_sorted(s: Seq<usize>, head: usize, p: int)
    requires
        sorted_by(s, leq()),
        0 <= p <= s.len(),
        forall|i: int| 0 <= i < p ==> (#[trigger] s[i]) < head,
        forall|i: int| p <= i < s.len() ==> (#[trigger] s[i]) >= head,
    ensures
        s.filter(below(head)) == s.take(p),
        s.filter(not_below(head)) == s.skip(p),
    decreases s.len(),
{
    reveal(Seq::filter);
    if s.len() == 0 {
        assert(s.take(p) =~= Seq::<usize>::empty());
        assert(s.skip(p) =~= Seq::<usize>::empty());
    } else {
        let front = s.drop_last();
        let n = s.len() - 1;
        assert(sorted_by(front, leq())) by {
            assert forall|i: int, j: int| 0 <= i < j < front.len() implies #[trigger] leq()(
                front[i],
                front[j],
            ) by {
                assert(leq()(s[i], s[j]));
            }
        }
        if p == s.len() {
            assert(s[n] < head);
            lemma_split_sorted(front, head, p - 1);
            assert(front.take(p - 1).push(s[n]) =~= s.take(p));
            assert(front.skip(p - 1) =~= Seq::<usize>::empty());
            assert(s.skip(p) =~= Seq::<usize>::empty());
        } else {
            assert(s[n] >= head);
            lemma_split_sorted(front, head, p);
            assert(front.take(p) =~= s.take(p));
            assert(front.skip(p).push(s[n]) =~= s.skip(p));
        }
    }
}

/// The distance between two cylinders.
pub fn distance(a: usize, b: usize) -> (d: usize)
    ensures
        d == gap(a, b),
{
    if a >= b {
        a - b
    } else {
        b - a
    }
}

/// Walks the head from `head` over `order`. Hands back the distance
/// travelled and the path, which begins on `head`; or nothing where the
/// distance is beyond the machine's numbers.
pub fn walk(head: usize, order: Vec<usize>) -> (r: Option<(usize, Vec<usize>)>)
    ensures
        r.is_some() == (travel(seq![head] + order@) <= usize::MAX),
        r.is_some() ==> r.unwrap().1@ == seq![head] + order@ && r.unwrap().0 == travel(
            r.unwrap().1@,
        ),
{
    let ghost whole = seq![head] + order@;
    let mut total: usize = 0;
    let mut path: Vec<usize> = Vec::new();
    path.push(head);
    let mut current = head;
    let mut i: usize = 0;
    assert(path@ =~= whole.take(1));
    assert(travel(path@) == 0);
    while i < order.len()
        invariant
            i <= order.len(),
            whole == seq![head] + order@,
            path@ == whole.take(i + 1),
            current == path@[i as int],
            total == travel(path@),
        decreases order.len() - i,
    {
        let cylinder = order[i];
        proof {
            let next = whole.take(i + 2);
            assert(next.drop_last() =~= whole.take(i + 1));
            assert(next[next.len() - 1] == cylinder);
            assert(next[next.len() - 2] == current);
            lemma_travel_grows(whole, i + 2);
            assert(path@.push(cylinder) =~= next);
        }
        let step = distance(current, cylinder);
        if step > usize::MAX - total {
            return None;
        }
        total = total + step;
        current = cylinder;
        path.push(current);
        i += 1;
    }
    assert(whole.take(i + 1) =~= whole);
    Some((total, path))
}

/// First come, first served: the head visits the requests in the order
/// they were made. Hands back the distance travelled and the path, which
/// begins on `head`.
pub fn fcfs(nrc: usize, head: usize, requests: Vec<usize>, dir: Direction) -> (r: (
    usize,
    Vec<usize>,
))
    requires
        travel(seq![head] + requests@) <= usize::MAX,
    ensures
        r.1@ == seq![head] + requests@,
        r.0 == travel(r.1@),
{
    walk(head, requests).unwrap()
}

/// Puts the numbers of `v` from place `from` up to `to` at the end of
/// `out`, in their order.
fn extend_with(out: &mut Vec<usize>, v: &Vec<usize>, from: usize, to: usize)
    requires
        from <= to <= v.len(),
    ensures
        final(out)@ == old(out)@ + v@.subrange(from as int, to as int),
{
    let mut i: usize = from;
    assert(out@ =~= old(out)@ + v@.subrange(from as int, i as int));
    while i < to
        invariant
            from <= i <= to <= v.len(),
            out@ == old(out)@ + v@.subrange(from as int, i as int),
        decreases to - i,
    {
        out.push(v[i]);
        i += 1;
        assert(out@ =~= old(out)@ + v@.subrange(from as int, i as int));
    }
}

/// Puts the numbers of `v` from place `from` up to `to` at the end of
/// `out`, the last of them first.
fn extend_reversed(out: &mut Vec<usize>, v: &Vec<usize>, from: usize, to: usize)
    requires
        from <= to <= v.len(),
    ensures
        final(out)@ == old(out)@ + v@.subrange(from as int, to as int).reverse(),
{
    let mut i: usize = to;
    let ghost part = v@.subrange(from as int, to as int).reverse();
    assert(out@ =~= old(out)@ + part.take(0));
    while i > from
        invariant
            from <= i <= to <= v.len(),
            part == v@.subrange(from as int, to as int).reverse(),
            out@ == old(out)@ + part.take(to - i),
        decreases i - from,
    {
        i -= 1;
        out.push(v[i]);
        assert(out@ =~= old(out)@ + part.take(to - i));
    }
    assert(part.take(to - from) =~= part);
}

/// Sorts the cylinders, and finds the place of the first that is not below
/// `head`.
fn sort_and_split(cylinders: &mut Vec<usize>, head: usize) -> (p: usize)
    ensures
        final(cylinders)@ == old(cylinders)@.sort_by(leq()),
        p <= final(cylinders)@.len(),
        final(cylinders)@.take(p as int) == final(cylinders)@.filter(below(head)),
        final(cylinders)@.skip(p as int) == final(cylinders)@.filter(not_below(head)),
{
    *cylinders = merge_sort(cylinders);
    proof {
        assert(total_ordering(leq()));
        old(cylinders)@.lemma_sort_by_ensures(leq());
        lemma_sorted_unique(cylinders@, old(cylinders)@.sort_by(leq()), leq());
    }
    let mut p: usize = 0;
    while p < cylinders.len() && cylinders[p] < head
        invariant
            p <= cylinders.len(),
            forall|i: int| 0 <= i < p ==> (#[trigger] cylinders@[i]) < head,
        decreases cylinders.len() - p,
    {
        p += 1;
    }
    proof {
        assert forall|i: int| p <= i < cylinders@.len() implies (#[trigger] cylinders@[i])
            >= head by {
            if p < i {
                assert(leq()(cylinders@[p as int], cylinders@[i]));
            }
        }
        lemma_split_sorted(cylinders@, head, p as int);
    }
    p
}

/// The order in which SCAN visits the requests.
pub fn scan_path(nrc: usize, head: usize, cylinders: Vec<usize>, dir: Direction) -> (order: Vec<
    usize,
>)
    requires
        nrc >= 1,
    ensures
        order@ == scan_order(nrc, head, cylinders@, dir),
{
    let mut cylinders = cylinders;
    let ghost asked = cylinders@;
    let p = sort_and_split(&mut cylinders, head);
    let n = cylinders.len();
    let mut order: Vec<usize> = Vec::new();
    proof {
        assert(cylinders@.subrange(0, p as int) =~= cylinders@.take(p as int));
        assert(cylinders@.subrange(p as int, n as int) =~= cylinders@.skip(p as int));
    }
    match dir {
        Direction::End => {
            extend_reversed(&mut order, &cylinders, 0, p);
            order.push(0);
            extend_with(&mut order, &cylinders, p, n);
        },
        Direction::Start => {
            order.push(nrc - 1);
            extend_reversed(&mut order, &cylinders, p, n);
            extend_with(&mut order, &cylinders, 0, p);
        },
    }
    assert(order@ =~= scan_order(nrc, head, asked, dir));
    order
}

/// The order in which C-SCAN visits the requests.
pub fn cscan_path(nrc: usize, head: usize, cylinders: Vec<usize>, dir: Direction) -> (order: Vec<
    usize,
>)
    requires
        nrc >= 1,
    ensures
        order@ == cscan_order(nrc, head, cylinders@, dir),
{
    let mut cylinders = cylinders;
    let ghost asked = cylinders@;
    let p = sort_and_split(&mut cylinders, head);
    let n = cylinders.len();
    let mut order: Vec<usize> = Vec::new();
    proof {
        assert(cylinders@.subrange(0, p as int) =~= cylinders@.take(p as int));
        assert(cylinders@.subrange(p as int, n as int) =~= cylinders@.skip(p as int));
    }
    match dir {
        Direction::End => {
            extend_with(&mut order, &cylinders, p, n);
            order.push(nrc - 1);
            order.push(0);
            extend_with(&mut order, &cylinders, 0, p);
        },
        Direction::Start => {
            extend_reversed(&mut order, &cylinders, 0, p);
            order.push(0);
            order.push(nrc - 1);
            extend_reversed(&mut order, &cylinders, p, n);
        },
    }
    assert(order@ =~= cscan_order(nrc, head, asked, dir));
    order
}

/// SCAN: see `scan_order`. Hands back the distance travelled and the path,
/// which begins on `head`.
pub fn scan(nrc: usize, head: usize, cylinders: Vec<usize>, dir: Direction) -> (r: (
    usize,
    Vec<usize>,
))
    requires
        nrc >= 1,
        travel(seq![head] + scan_order(nrc, head, cylinders@, dir)) <= usize::MAX,
    ensures
        r.1@ == seq![head] + scan_order(nrc, head, cylinders@, dir),
        r.0 == travel(r.1@),
{
    fcfs(nrc, head, scan_path(nrc, head, cylinders, dir), dir)
}

/// C-SCAN: see `cscan_order`. Hands back the distance travelled and the
/// path, which begins on `head`.
pub fn cscan(nrc: usize, head: usize, cylinders: Vec<usize>, dir: Direction) -> (r: (
    usize,
    Vec<usize>,
))
    requires
        nrc >= 1,
        travel(seq![head] + cscan_order(nrc, head, cylinders@, dir)) <= usize::MAX,
    ensures
        r.1@ == seq![head] + cscan_order(nrc, head, cylinders@, dir),
        r.0 == travel(r.1@),
{
    fcfs(nrc, head, cscan_path(nrc, head, cylinders, dir), dir)
}

/// The order in which `algorithm` visits the requests.
pub open spec fn order(
    algorithm: Algorithm,
    nrc: usize,
    head: usize,
    requests: Seq<usize>,
    dir: Direction,
) -> Seq<usize> {
    match algorithm {
        Algorithm::Fcfs => requests,
        Algorithm::Scan => scan_order(nrc, head, requests, dir),
        Algorithm::Cscan => cscan_order(nrc, head, requests, dir),
    }
}

/// The direction that `s` writes: `0` for `End`, `1` for `Start`, as a
/// decimal number with an optional sign.
pub open spec fn direction(s: Seq<char>) -> Option<Direction> {
    let signed = s.len() > 0 && (s[0] == '+' || s[0] == '-');
    let digits = if signed {
        s.skip(1)
    } else {
        s
    };
    if digits.len() == 0 || !all_digits(digits) {
        None
    } else if digits_value(digits) == 0 {
        Some(Direction::End)
    } else if digits_value(digits) == 1 && s[0] != '-' {
        Some(Direction::Start)
    } else {
        None
    }
}

impl Direction {
    /// The direction with the number `n`: 0 for `End`, 1 for `Start`.
    pub fn from(n: usize) -> (d: Direction)
        requires
            n <= 1,
        ensures
            d == (if n == 0 {
                Direction::End
            } else {
                Direction::Start
            }),
    {
        if n == 0 {
            Direction::End
        } else {
            Direction::Start
        }
    }

    /// Reads a direction from its text.
    pub fn from_str(s: &str) -> (r: Result<Direction, String>)
        ensures
            match r {
                Ok(d) => direction(s@) == Some(d),
                Err(e) => direction(s@).is_none() && e@ == "Invalid direction"@,
            },
    {
        let v = chars_of(s);
        match read_direction(&v, 0, v.len()) {
            Some(d) => {
                assert(v@.subrange(0, v@.len() as int) =~= s@);
                Ok(d)
            },
            None => {
                assert(v@.subrange(0, v@.len() as int) =~= s@);
                Err("Invalid direction".to_owned())
            },
        }
    }
}

/// Reads the characters of `v` from `from` up to `to` as a direction.
fn read_direction(v: &Vec<char>, from: usize, to: usize) -> (r: Option<Direction>)
    requires
        from <= to <= v.len(),
    ensures
        r == direction(v@.subrange(from as int, to as int)),
{
    let ghost s = v@.subrange(from as int, to as int);
    let mut i: usize = from;
    let mut minus = false;
    if i < to && (v[i] == '+' || v[i] == '-') {
        minus = v[i] == '-';
        i += 1;
    }
    let start = i;
    let ghost digits = v@.subrange(start as int, to as int);
    assert(digits =~= if s.len() > 0 && (s[0] == '+' || s[0] == '-') {
        s.skip(1)
    } else {
        s
    });
    if i == to {
        return None;
    }
    // the number read so far, or 2 for every number above 1
    let mut seen: u8 = 0;
    while i < to
        invariant
            start <= i <= to <= v.len(),
            s == v@.subrange(from as int, to as int),
            digits == v@.subrange(start as int, to as int),
            digits == (if s.len() > 0 && (s[0] == '+' || s[0] == '-') {
                s.skip(1)
            } else {
                s
            }),
            minus == (s.len() > 0 && s[0] == '-'),
            start < to,
            all_digits(digits.take(i - start)),
            seen <= 2,
            seen < 2 ==> digits_value(digits.take(i - start)) == seen,
            seen == 2 ==> digits_value(digits.take(i - start)) >= 2,
        decreases to - i,
    {
        let n = v[i] as u32;
        if n < 0x30 || n > 0x39 {
            assert(!is_digit(digits[i - start]));
            return None;
        }
        proof {
            let next = digits.take(i - start + 1);
            assert(next.drop_last() =~= digits.take(i - start));
            assert(all_digits(next)) by {
                assert forall|k: int| 0 <= k < next.len() implies is_digit(#[trigger] next[k]) by {
                    if k < i - start {
                        assert(is_digit(digits.take(i - start)[k]));
                    }
                }
            }
        }
        let d = (n - 0x30) as u8;
        seen = if seen == 0 && d < 2 {
            d
        } else {
            2
        };
        i += 1;
    }
    assert(digits.take(i - start) =~= digits);
    if seen == 0 {
        Some(Direction::End)
    } else if seen == 1 && !minus {
        Some(Direction::Start)
    } else {
        None
    }
}

/// Why a text describes no disk and requests, with the line at fault.
#[derive(Debug, Clone, PartialEq, Eq)]
pub enum DataError {
    /// There is no line for the number of cylinders.
    NoCylinders,
    /// The line for the number of cylinders is no number.
    InvalidCylinders(String),
    /// There is no line for the place of the head.
    NoHead,
    /// The line for the place of the head is no number.
    InvalidHead(String),
    /// There is no line for the direction.
    NoDirection,
    /// The line for the direction is no direction.
    InvalidDirection(String),
    /// The line of a request is no number.
    InvalidCylinder(String),
}

/// A `DataError` with its texts as sequences of characters.
pub enum DataFault {
    NoCylinders,
    InvalidCylinders(Seq<char>),
    NoHead,
    InvalidHead(Seq<char>),
    NoDirection,
    InvalidDirection(Seq<char>),
    InvalidCylinder(Seq<char>),
}

impl View for DataError {
    type V = DataFault;

    open spec fn view(&self) -> DataFault {
        match self {
            DataError::NoCylinders => DataFault::NoCylinders,
            DataError::InvalidCylinders(s) => DataFault::InvalidCylinders(s@),
            DataError::NoHead => DataFault::NoHead,
            DataError::InvalidHead(s) => DataFault::InvalidHead(s@),
            DataError::NoDirection => DataFault::NoDirection,
            DataError::InvalidDirection(s) => DataFault::InvalidDirection(s@),
            DataError::InvalidCylinder(s) => DataFault::InvalidCylinder(s@),
        }
    }
}

/// The number that `s` writes, where it fits the machine's `usize`.
pub open spec fn index(s: Seq<char>) -> Option<usize> {
    match number(s) {
        Some(n) => if n <= usize::MAX {
            Some(n as usize)
        } else {
            None
        },
        None => None,
    }
}

/// The requests that the lines `l` write, or the first line that writes
/// none.
pub open spec fn requests(l: Seq<Seq<char>>) -> Result<Seq<usize>, DataFault>
    decreases l.len(),
{
    if l.len() == 0 {
        Ok(Seq::empty())
    } else {
        match requests(l.drop_last()) {
            Err(e) => Err(e),
            Ok(r) => match index(l.last()) {
                None => Err(DataFault::InvalidCylinder(l.last())),
                Some(c) => Ok(r.push(c)),
            },
        }
    }
}

/// What the text `s` describes: the number of cylinders, the place of the
/// head, the direction, and the requests, one line each.
pub open spec fn disk_data(s: Seq<char>) -> Result<(usize, usize, Direction, Seq<usize>), DataFault> {
    let l = lines(s);
    if l.len() < 1 {
        Err(DataFault::NoCylinders)
    } else if index(l[0]).is_none() {
        Err(DataFault::InvalidCylinders(l[0]))
    } else if l.len() < 2 {
        Err(DataFault::NoHead)
    } else if index(l[1]).is_none() {
        Err(DataFault::InvalidHead(l[1]))
    } else if l.len() < 3 {
        Err(DataFault::NoDirection)
    } else if direction(l[2]).is_none() {
        Err(DataFault::InvalidDirection(l[2]))
    } else {
        match requests(l.skip(3)) {
            Err(e) => Err(e),
            Ok(r) => Ok((index(l[0]).unwrap(), index(l[1]).unwrap(), direction(l[2]).unwrap(), r)),
        }
    }
}

/// Where the lines up to place `k` write no requests, neither do all.
pub proof fn lemma_requests_fail(l: Seq<Seq<char>>, k: int)
    requires
        0 <= k <= l.len(),
        requests(l.take(k)).is_err(),
    ensures
        requests(l) == requests(l.take(k)),
    decreases l.len(),
{
    if k == l.len() {
        assert(l.take(k) =~= l);
    } else {
        assert(l.drop_last().take(k) =~= l.take(k));
        lemma_requests_fail(l.drop_last(), k);
    }
}

/// Reads the characters of `v` from `from` up to `to` as a `usize`.
fn parse_index(v: &Vec<char>, from: usize, to: usize) -> (r: Option<usize>)
    requires
        from <= to <= v.len(),
    ensures
        r == index(v@.subrange(from as int, to as int)),
{
    match parse_number(v, from, to) {
        Some(n) => if n <= usize::MAX as u64 {
            Some(n as usize)
        } else {
            None
        },
        None => None,
    }
}

/// A disk and the requests made of it.
#[derive(Debug, Clone, PartialEq, Eq)]
pub struct Data {
    pub cylinders: usize,
    pub head: usize,
    pub dir: Direction,
    pub requests: Vec<usize>,
}

impl Data {
    /// A disk of `nrc` cylinders with the head on `head`, and the requests
    /// `cylinders`. Where no direction is given, it is `End`.
    pub fn new(nrc: usize, head: usize, cylinders: Vec<usize>, dir: Option<Direction>) -> (d: Self)
        ensures
            d.cylinders == nrc,
            d.head == head,
            d.requests == cylinders,
            d.dir == (match dir {
                Some(dir) => dir,
                None => Direction::End,
            }),
    {
        Self {
            cylinders: nrc,
            head,
            dir: match dir {
                Some(dir) => dir,
                None => Direction::End,
            },
            requests: cylinders,
        }
    }

    /// Reads a disk and its requests from a text of one line each: the
    /// number of cylinders, the place of the head, the direction, then one
    /// line for each request.
    pub fn from_str(s: &str) -> (r: Result<Self, DataError>)
        ensures
            match r {
                Ok(d) => disk_data(s@) == Ok::<(usize, usize, Direction, Seq<usize>), DataFault>(
                    (d.cylinders, d.head, d.dir, d.requests@),
                ),
                Err(e) => disk_data(s@) == Err::<(usize, usize, Direction, Seq<usize>), DataFault>(
                    e@,
                ),
            },
    {
        let v = chars_of(s);
        let l = split_lines(&v);
        if l.len() < 1 {
            return Err(DataError::NoCylinders);
        }
        assert(l@[0].0 <= l@[0].1 <= v.len());
        let nrc = match parse_index(&v, l[0].0, l[0].1) {
            Some(n) => n,
            None => {
                return Err(DataError::InvalidCylinders(s.substring_char(l[0].0, l[0].1).to_owned()));
            },
        };
        if l.len() < 2 {
            return Err(DataError::NoHead);
        }
        assert(l@[1].0 <= l@[1].1 <= v.len());
        let head = match parse_index(&v, l[1].0, l[1].1) {
            Some(n) => n,
            None => {
                return Err(DataError::InvalidHead(s.substring_char(l[1].0, l[1].1).to_owned()));
            },
        };
        if l.len() < 3 {
            return Err(DataError::NoDirection);
        }
        assert(l@[2].0 <= l@[2].1 <= v.len());
        let dir = match read_direction(&v, l[2].0, l[2].1) {
            Some(d) => d,
            None => {
                return Err(DataError::InvalidDirection(s.substring_char(l[2].0, l[2].1).to_owned()));
            },
        };
        let mut cylinders: Vec<usize> = Vec::new();
        let ghost rest = lines(s@).skip(3);
        let mut i: usize = 3;
        while i < l.len()
            invariant
                3 <= i <= l.len(),
                v@ == s@,
                cut_at(v@, l@, lines(s@)),
                rest == lines(s@).skip(3),
                index(lines(s@)[0]) == Some(nrc),
                index(lines(s@)[1]) == Some(head),
                direction(lines(s@)[2]) == Some(dir),
                requests(rest.take(i - 3)) == Ok::<Seq<usize>, DataFault>(cylinders@),
            decreases l.len() - i,
        {
            let (from, to) = l[i];
            assert(l@[i as int].0 <= l@[i as int].1 <= v.len());
            proof {
                assert(rest.take(i - 2).drop_last() =~= rest.take(i - 3));
                assert(rest.take(i - 2).last() == v@.subrange(from as int, to as int));
            }
            match parse_index(&v, from, to) {
                Some(c) => {
                    cylinders.push(c);
                },
                None => {
                    proof {
                        assert(requests(rest.take(i - 2)).is_err());
                        lemma_requests_fail(rest, i - 2);
                    }
                    return Err(DataError::InvalidCylinder(s.substring_char(from, to).to_owned()));
                },
            }
            i += 1;
        }
        assert(rest.take(i - 3) =~= rest);
        Ok(Data::new(nrc, head, cylinders, Some(dir)))
    }
}

/// One scheduling policy at work on one disk.
#[derive(Debug, Clone, PartialEq, Eq)]
pub struct Simulation {
    pub algorithm: Algorithm,
    pub data: Data,
}

impl Simulation {
    /// The order in which the requests are visited.
    pub open spec fn visits(&self) -> Seq<usize> {
        order(self.algorithm, self.data.cylinders, self.data.head, self.data.requests@, self.data.dir)
    }

    /// Whether the requests can be scheduled: a disk that is swept has a
    /// cylinder, and the distance to travel is within the machine's
    /// numbers.
    pub open spec fn can_run(&self) -> bool {
        &&& self.algorithm != Algorithm::Fcfs ==> self.data.cylinders >= 1
        &&& travel(seq![self.data.head] + self.visits()) <= usize::MAX
    }

    /// Schedules the requests where that can be done, as `run` does.
    pub fn try_run(&self) -> (r: Option<(usize, Vec<usize>)>)
        ensures
            r.is_some() == self.can_run(),
            r.is_some() ==> r.unwrap().1@ == seq![self.data.head] + self.visits() && r.unwrap().0
                == travel(r.unwrap().1@),
    {
        let requests = self.data.requests.clone();
        let order = match self.algorithm {
            Algorithm::Fcfs => requests,
            Algorithm::Scan => {
                if self.data.cylinders == 0 {
                    return None;
                }
                scan_path(self.data.cylinders, self.data.head, requests, self.data.dir)
            },
            Algorithm::Cscan => {
                if self.data.cylinders == 0 {
                    return None;
                }
                cscan_path(self.data.cylinders, self.data.head, requests, self.data.dir)
            },
        };
        walk(self.data.head, order)
    }

    /// Schedules the requests. Hands back the distance travelled and the
    /// path, which begins on the head's place.
    pub fn run(&self) -> (r: (usize, Vec<usize>))
        requires
            self.can_run(),
        ensures
            r.1@ == seq![self.data.head] + self.visits(),
            r.0 == travel(r.1@),
    {
        let requests = self.data.requests.clone();
        match self.algorithm {
            Algorithm::Fcfs => fcfs(self.data.cylinders, self.data.head, requests, self.data.dir),
            Algorithm::Scan => scan(self.data.cylinders, self.data.head, requests, self.data.dir),
            Algorithm::Cscan => cscan(self.data.cylinders, self.data.head, requests, self.data.dir),
        }
    }
}

} // verus!

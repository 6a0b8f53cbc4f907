//! Positions in order: by time, or by owner and then by time.
use vstd::prelude::*;

use crate::clock::Timestamp;

verus! {

/// What something is ordered by: its group first, then its time.
#[derive(Clone, Copy, PartialEq, Eq, Debug, Structural)]
pub struct Mark {
    pub group: u128,
    pub at: Timestamp,
}

impl Mark {
    /// Not after `other`.
    pub open spec fn le(self, other: Mark) -> bool {
        self.group < other.group || (self.group == other.group && self.at.le(other.at))
    }

    /// Whether this mark comes strictly before `other`.
    pub fn before(self, other: Mark) -> (r: bool)
        ensures
            r == !other.le(self),
    {
        self.group < other.group || (self.group == other.group && self.at.before(other.at))
    }
}

/// Some positions in order, with one more put after those not later.
pub open spec fn placed(order: Seq<int>, marks: Seq<Mark>, i: int) -> Seq<int>
    decreases order.len(),
{
    if order.len() == 0 || marks[order.last()].le(marks[i]) {
        order.push(i)
    } else {
        placed(order.drop_last(), marks, i).push(order.last())
    }
}

/// The first `n` positions in order; equal marks keep theirs.
pub open spec fn by_mark_upto(marks: Seq<Mark>, n: int) -> Seq<int>
    decreases n,
{
    if n <= 0 {
        Seq::empty()
    } else {
        placed(by_mark_upto(marks, n - 1), marks, n - 1)
    }
}

/// All positions, earliest time first; equal marks keep their order.
pub open spec fn by_mark(marks: Seq<Mark>) -> Seq<int> {
    by_mark_upto(marks, marks.len() as int)
}

/// Positions as numbers.
pub open spec fn positions(v: Seq<usize>) -> Seq<int> {
    Seq::new(v.len(), |i: int| v[i] as int)
}

/// Orders positions by their marks.
pub fn order_by_mark(marks: &Vec<Mark>) -> (r: Vec<usize>)
    ensures
        positions(r@) == by_mark(marks@),
        r@.len() == marks@.len(),
        forall|k: int| 0 <= k < r@.len() ==> (#[trigger] r@[k]) < marks@.len(),
{
    let mut order: Vec<usize> = Vec::new();
    let n: usize = marks.len();
    let mut i: usize = 0;
    assert(positions(order@) =~= by_mark_upto(marks@, 0));
    while i < n
        invariant
            i <= n,
            n == marks@.len(),
            order@.len() == i,
            positions(order@) == by_mark_upto(marks@, i as int),
            forall|k: int| 0 <= k < order@.len() ==> (#[trigger] order@[k]) < i,
        decreases n - i,
    {
        let ghost before = order@;
        let ghost all = positions(order@);
        let mut p: usize = i;
        assert(all.take(i as int) =~= all);
        assert(placed(all, marks@, i as int) =~= placed(all.take(i as int), marks@, i as int)
            + all.skip(i as int));
        while p > 0 && marks[i].before(marks[order[p - 1]])
            invariant
                p <= i,
                i < n,
                n == marks@.len(),
                order@ == before,
                before.len() == i,
                all == positions(before),
                forall|k: int| 0 <= k < order@.len() ==> (#[trigger] order@[k]) < i,
                placed(all, marks@, i as int) == placed(all.take(p as int), marks@, i as int)
                    + all.skip(p as int),
            decreases p,
        {
            assert(all.take(p as int).last() == order@[p - 1]);
            assert(all.take(p as int).drop_last() =~= all.take(p - 1));
            assert(placed(all.take(p - 1), marks@, i as int).push(all[p - 1]) + all.skip(p as int)
                =~= placed(all.take(p - 1), marks@, i as int) + all.skip(p - 1));
            p = p - 1;
        }
        assert(placed(all.take(p as int), marks@, i as int) == all.take(p as int).push(i as int))
            by {
            if p > 0 {
                assert(all.take(p as int).last() == order@[p - 1]);
            }
        }
        order.insert(p, i);
        assert(positions(order@) =~= all.take(p as int).push(i as int) + all.skip(p as int));
        i = i + 1;
    }
    order
}

proof fn placed_keeps(order: Seq<int>, marks: Seq<Mark>, i: int)
    requires
        forall|a: int, b: int|
            0 <= a < b < order.len() ==> marks[#[trigger] order[a]].le(marks[#[trigger] order[b]]),
    ensures
        placed(order, marks, i).len() == order.len() + 1,
        forall|x: int| #[trigger]
            placed(order, marks, i).contains(x) <==> order.contains(x) || x == i,
        forall|a: int, b: int|
            0 <= a < b < placed(order, marks, i).len() ==> marks[#[trigger] placed(
                order,
                marks,
                i,
            )[a]].le(marks[#[trigger] placed(order, marks, i)[b]]),
    decreases order.len(),
{
    let after = placed(order, marks, i);
    if order.len() == 0 || marks[order.last()].le(marks[i]) {
        assert forall|x: int| #[trigger] after.contains(x) <==> order.contains(x) || x == i by {
            if order.contains(x) {
                let k = choose|k: int| 0 <= k < order.len() && order[k] == x;
                assert(after[k] == x);
            }
            assert(after.last() == i);
            if after.contains(x) && x != i {
                let k = choose|k: int| 0 <= k < after.len() && after[k] == x;
                assert(order[k] == x);
            }
        }
        assert forall|a: int, b: int| 0 <= a < b < after.len() implies marks[#[trigger] after[a]].le(
            marks[#[trigger] after[b]],
        ) by {
            if b == order.len() {
                assert(after[a] == order[a]);
                if a < order.len() - 1 {
                    assert(marks[order[a]].le(marks[order[order.len() - 1]]));
                }
            } else {
                assert(after[a] == order[a] && after[b] == order[b]);
            }
        }
    } else {
        let front = order.drop_last();
        let rest = placed(front, marks, i);
        assert forall|a: int, b: int| 0 <= a < b < front.len() implies marks[#[trigger] front[a]].le(
            marks[#[trigger] front[b]],
        ) by {
            assert(front[a] == order[a] && front[b] == order[b]);
        }
        placed_keeps(front, marks, i);
        assert forall|x: int| #[trigger] after.contains(x) <==> order.contains(x) || x == i by {
            if order.contains(x) {
                let k = choose|k: int| 0 <= k < order.len() && order[k] == x;
                if k < front.len() {
                    assert(front[k] == x);
                    assert(rest.contains(x));
                    let j = choose|j: int| 0 <= j < rest.len() && rest[j] == x;
                    assert(after[j] == x);
                } else {
                    assert(after.last() == x);
                }
            }
            if x == i {
                assert(rest.contains(x));
                let j = choose|j: int| 0 <= j < rest.len() && rest[j] == x;
                assert(after[j] == x);
            }
            if after.contains(x) {
                let j = choose|j: int| 0 <= j < after.len() && after[j] == x;
                if j < rest.len() {
                    assert(rest[j] == x);
                    assert(rest.contains(x));
                    if front.contains(x) {
                        let k = choose|k: int| 0 <= k < front.len() && front[k] == x;
                        assert(order[k] == x);
                    }
                } else {
                    assert(order[order.len() - 1] == x);
                }
            }
        }
        assert forall|a: int, b: int| 0 <= a < b < after.len() implies marks[#[trigger] after[a]].le(
            marks[#[trigger] after[b]],
        ) by {
            assert(after[a] == rest[a]);
            if b == rest.len() {
                assert(rest.contains(rest[a]));
                if front.contains(rest[a]) {
                    let k = choose|k: int| 0 <= k < front.len() && front[k] == rest[a];
                    assert(order[k] == rest[a]);
                    assert(marks[order[k]].le(marks[order[order.len() - 1]]));
                }
            } else {
                assert(after[b] == rest[b]);
            }
        }
    }
}

proof fn by_mark_keeps(marks: Seq<Mark>, n: int)
    requires
        0 <= n <= marks.len(),
    ensures
        by_mark_upto(marks, n).len() == n,
        forall|x: int| #[trigger] by_mark_upto(marks, n).contains(x) <==> 0 <= x < n,
        forall|a: int, b: int|
            0 <= a < b < n ==> marks[#[trigger] by_mark_upto(marks, n)[a]].le(
                marks[#[trigger] by_mark_upto(marks, n)[b]],
            ),
    decreases n,
{
    if n > 0 {
        by_mark_keeps(marks, n - 1);
        placed_keeps(by_mark_upto(marks, n - 1), marks, n - 1);
    }
}

/// Ordering lists every position and leaves no later mark before an earlier one.
pub proof fn by_mark_is_a_sorted_permutation(marks: Seq<Mark>)
    ensures
        by_mark(marks).len() == marks.len(),
        forall|x: int| #[trigger] by_mark(marks).contains(x) <==> 0 <= x < marks.len(),
        forall|a: int, b: int|
            0 <= a < b < marks.len() ==> marks[#[trigger] by_mark(marks)[a]].le(
                marks[#[trigger] by_mark(marks)[b]],
            ),
{
    by_mark_keeps(marks, marks.len() as int);
}

/// Times as marks of one group.
pub open spec fn time_marks(times: Seq<Timestamp>) -> Seq<Mark> {
    Seq::new(times.len(), |i: int| Mark { group: 0, at: times[i] })
}

/// All positions, earliest time first; equal times keep their order.
pub open spec fn by_time(times: Seq<Timestamp>) -> Seq<int> {
    by_mark(time_marks(times))
}

/// Orders positions by time.
pub fn order_by_time(times: &Vec<Timestamp>) -> (r: Vec<usize>)
    ensures
        positions(r@) == by_time(times@),
        r@.len() == times@.len(),
        forall|k: int| 0 <= k < r@.len() ==> (#[trigger] r@[k]) < times@.len(),
{
    let mut marks: Vec<Mark> = Vec::new();
    let mut i: usize = 0;
    while i < times.len()
        invariant
            i <= times.len(),
            marks@ =~= time_marks(times@).take(i as int),
        decreases times.len() - i,
    {
        marks.push(Mark { group: 0, at: times[i] });
        i = i + 1;
    }
    assert(marks@ =~= time_marks(times@));
    order_by_mark(&marks)
}

/// Ordering by time lists every position and leaves no later time before an
/// earlier one.
pub proof fn by_time_is_a_sorted_permutation(times: Seq<Timestamp>)
    ensures
        by_time(times).len() == times.len(),
        forall|x: int| #[trigger] by_time(times).contains(x) <==> 0 <= x < times.len(),
        forall|a: int, b: int|
            0 <= a < b < times.len() ==> times[#[trigger] by_time(times)[a]].le(
                times[#[trigger] by_time(times)[b]],
            ),
{
    let marks = time_marks(times);
    let order = by_time(times);
    by_mark_is_a_sorted_permutation(marks);
    assert forall|a: int, b: int| 0 <= a < b < times.len() implies times[#[trigger] order[a]].le(
        times[#[trigger] order[b]],
    ) by {
        assert(order.contains(order[a]) && order.contains(order[b]));
        assert(marks[order[a]].le(marks[order[b]]));
    }
}

proof fn placed_is_stable(order: Seq<int>, marks: Seq<Mark>, i: int)
    requires
        forall|a: int, b: int|
            0 <= a < b < order.len() ==> marks[#[trigger] order[a]].le(marks[#[trigger] order[b]]),
        forall|a: int| 0 <= a < order.len() ==> #[trigger] order[a] < i,
        forall|a: int, b: int|
            0 <= a < b < order.len() && marks[#[trigger] order[b]].le(marks[#[trigger] order[a]])
                ==> order[a] < order[b],
    ensures
        forall|a: int, b: int|
            0 <= a < b < placed(order, marks, i).len() && marks[#[trigger] placed(
                order,
                marks,
                i,
            )[b]].le(marks[#[trigger] placed(order, marks, i)[a]]) ==> placed(order, marks, i)[a]
                < placed(order, marks, i)[b],
    decreases order.len(),
{
    if order.len() > 0 && !marks[order.last()].le(marks[i]) {
        let front = order.drop_last();
        let rest = placed(front, marks, i);
        let after = placed(order, marks, i);
        assert forall|a: int, b: int| 0 <= a < b < front.len() implies marks[#[trigger] front[a]].le(
            marks[#[trigger] front[b]],
        ) by {
            assert(front[a] == order[a] && front[b] == order[b]);
        }
        assert forall|a: int| 0 <= a < front.len() implies #[trigger] front[a] < i by {
            assert(front[a] == order[a]);
        }
        assert forall|a: int, b: int|
            0 <= a < b < front.len() && marks[#[trigger] front[b]].le(
                marks[#[trigger] front[a]],
            ) implies front[a] < front[b] by {
            assert(front[a] == order[a] && front[b] == order[b]);
        }
        placed_is_stable(front, marks, i);
        placed_keeps(front, marks, i);
        assert forall|a: int, b: int|
            0 <= a < b < after.len() && marks[#[trigger] after[b]].le(
                marks[#[trigger] after[a]],
            ) implies after[a] < after[b] by {
            assert(after[a] == rest[a]);
            if b == rest.len() {
                assert(rest.contains(rest[a]));
                if front.contains(rest[a]) {
                    let k = choose|k: int| 0 <= k < front.len() && front[k] == rest[a];
                    assert(order[k] == rest[a]);
                    assert(after[b] == order[order.len() - 1]);
                }
            } else {
                assert(after[b] == rest[b]);
            }
        }
    }
}

proof fn by_mark_upto_is_stable(marks: Seq<Mark>, n: int)
    requires
        0 <= n <= marks.len(),
    ensures
        forall|a: int, b: int|
            0 <= a < b < n && marks[#[trigger] by_mark_upto(marks, n)[b]].le(
                marks[#[trigger] by_mark_upto(marks, n)[a]],
            ) ==> by_mark_upto(marks, n)[a] < by_mark_upto(marks, n)[b],
    decreases n,
{
    if n > 0 {
        let before = by_mark_upto(marks, n - 1);
        by_mark_keeps(marks, n - 1);
        by_mark_keeps(marks, n);
        by_mark_upto_is_stable(marks, n - 1);
        assert forall|a: int| 0 <= a < before.len() implies #[trigger] before[a] < n - 1 by {
            assert(before.contains(before[a]));
        }
        placed_is_stable(before, marks, n - 1);
    }
}

/// Of two positions the one of the smaller group comes first, within a group the
/// earlier one, and at the same time the smaller one.
pub proof fn positions_are_in_order(marks: Seq<Mark>, a: int, b: int)
    requires
        0 <= a < b < marks.len(),
    ensures
        ({
            let first = by_mark(marks)[a];
            let second = by_mark(marks)[b];
            let (m, n) = (marks[first], marks[second]);
            &&& 0 <= first < marks.len()
            &&& 0 <= second < marks.len()
            &&& m.group <= n.group
            &&& m.group == n.group ==> m.at.secs <= n.at.secs
            &&& m.group == n.group && m.at.secs == n.at.secs ==> m.at.nanos <= n.at.nanos
            &&& m.group == n.group && m.at.secs == n.at.secs && m.at.nanos == n.at.nanos ==> first
                < second
        }),
{
    by_mark_is_a_sorted_permutation(marks);
    by_mark_upto_is_stable(marks, marks.len() as int);
    let order = by_mark(marks);
    assert(order.contains(order[a]) && order.contains(order[b]));
    assert(marks[order[a]].le(marks[order[b]]));
}

/// In order of time the earlier position comes first, and at the same time the
/// smaller one.
pub proof fn times_are_in_order(times: Seq<Timestamp>, a: int, b: int)
    requires
        0 <= a < b < times.len(),
    ensures
        ({
            let first = by_time(times)[a];
            let second = by_time(times)[b];
            let (t, u) = (times[first], times[second]);
            &&& 0 <= first < times.len()
            &&& 0 <= second < times.len()
            &&& t.secs <= u.secs
            &&& t.secs == u.secs ==> t.nanos <= u.nanos
            &&& t.secs == u.secs && t.nanos == u.nanos ==> first < second
        }),
{
    positions_are_in_order(time_marks(times), a, b);
}

} // verus!

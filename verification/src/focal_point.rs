//! Focal points (candidate positions with an interest score) and the
//! collection that keeps the best ones up to a fixed capacity.

use vstd::prelude::*;
use crate::float_bits::{Float64, is_nan64, le64, lt64, total_key64};
use crate::interpol_value::PseudoComplex;

verus! {

broadcast use vstd::seq_lib::group_to_multiset_ensures;

/// A candidate point with its evaluation (the bigger the more interesting).
#[derive(Clone, Copy, Debug)]
pub struct FocalPoint {
    /// The point we represent.
    pub point: PseudoComplex,
    /// The evaluation we have (the bigger the better).
    pub evaluation: Float64,
}

/// The place of a focal point's evaluation in the IEEE-754 total order, the
/// order in which focal points are ranked.
pub open spec fn rank(p: FocalPoint) -> int {
    total_key64(p.evaluation.0)
}

/// `i` is the first position holding a point of lowest rank.
pub open spec fn is_first_minimum(points: Seq<FocalPoint>, i: int) -> bool {
    &&& 0 <= i < points.len()
    &&& forall|j: int| 0 <= j < points.len() ==> rank(points[i]) <= #[trigger] rank(points[j])
    &&& forall|j: int| 0 <= j < i ==> rank(points[i]) < #[trigger] rank(points[j])
}

/// The first position holding a point of lowest rank.
pub open spec fn first_minimum_index(points: Seq<FocalPoint>) -> int {
    choose|i: int| is_first_minimum(points, i)
}

/// There is exactly one first minimum in a non-empty sequence.
pub proof fn lemma_first_minimum_unique(points: Seq<FocalPoint>, i: int)
    requires
        is_first_minimum(points, i),
    ensures
        first_minimum_index(points) == i,
{
    let k = first_minimum_index(points);
    assert(is_first_minimum(points, k));
    if k < i {
        assert(rank(points[i]) < rank(points[k]));
    } else if i < k {
        assert(rank(points[k]) < rank(points[i]));
    }
}

/// One step of collecting: below capacity the point is added; otherwise it
/// replaces the first point of lowest rank unless its evaluation is `<=` that
/// point's evaluation.
pub open spec fn collect_step(points: Seq<FocalPoint>, capacity: nat, p: FocalPoint) -> Seq<
    FocalPoint,
> {
    if points.len() < capacity {
        points.push(p)
    } else {
        let i = first_minimum_index(points);
        if le64(p.evaluation.0, points[i].evaluation.0) {
            points
        } else {
            points.update(i, p)
        }
    }
}

/// A full collection skips a point whose evaluation is `<=` that of every
/// point held: nothing is displaced.
pub proof fn lemma_worse_point_is_skipped(points: Seq<FocalPoint>, capacity: nat, p: FocalPoint)
    requires
        points.len() > 0,
        points.len() >= capacity,
        forall|j: int| 0 <= j < points.len() ==> le64(p.evaluation.0, #[trigger] points[j].evaluation.0),
    ensures
        collect_step(points, capacity, p) == points,
{
    lemma_first_minimum_exists(points);
    let i = first_minimum_index(points);
    assert(le64(p.evaluation.0, points[i].evaluation.0));
}

/// A full collection lets a point in when its evaluation is `>` (not NaN and
/// above) that of every point held: it takes the place of the first point of
/// lowest rank.
pub proof fn lemma_better_point_displaces(points: Seq<FocalPoint>, capacity: nat, p: FocalPoint)
    requires
        points.len() > 0,
        points.len() >= capacity,
        forall|j: int| 0 <= j < points.len() ==> lt64(#[trigger] points[j].evaluation.0, p.evaluation.0),
    ensures
        collect_step(points, capacity, p) == points.update(first_minimum_index(points), p),
        is_first_minimum(points, first_minimum_index(points)),
{
    lemma_first_minimum_exists(points);
    let i = first_minimum_index(points);
    assert(lt64(points[i].evaluation.0, p.evaluation.0));
}

/// The points kept after collecting `incoming` one by one.
pub open spec fn collect_all(points: Seq<FocalPoint>, capacity: nat, incoming: Seq<FocalPoint>) -> Seq<
    FocalPoint,
>
    decreases incoming.len(),
{
    if incoming.len() == 0 {
        points
    } else {
        collect_step(collect_all(points, capacity, incoming.drop_last()), capacity, incoming.last())
    }
}


/// A non-empty sequence has a first point of lowest rank.
pub proof fn lemma_first_minimum_exists(points: Seq<FocalPoint>)
    requires
        points.len() > 0,
    ensures
        is_first_minimum(points, first_minimum_index(points)),
    decreases points.len(),
{
    if points.len() == 1 {
        assert(is_first_minimum(points, 0));
    } else {
        let front = points.drop_last();
        lemma_first_minimum_exists(front);
        let k = first_minimum_index(front);
        let last = points.len() - 1;
        if rank(points[last]) < rank(points[k]) {
            assert forall|j: int| 0 <= j < points.len() implies rank(points[last]) <= #[trigger] rank(
                points[j],
            ) by {
                if j < last {
                    assert(front[j] == points[j]);
                }
            }
            assert forall|j: int| 0 <= j < last implies rank(points[last]) < #[trigger] rank(
                points[j],
            ) by {
                assert(front[j] == points[j]);
            }
            assert(is_first_minimum(points, last));
        } else {
            assert forall|j: int| 0 <= j < points.len() implies rank(points[k]) <= #[trigger] rank(
                points[j],
            ) by {
                if j < last {
                    assert(front[j] == points[j]);
                }
            }
            assert forall|j: int| 0 <= j < k implies rank(points[k]) < #[trigger] rank(points[j]) by {
                assert(front[j] == points[j]);
            }
            assert(is_first_minimum(points, k));
        }
    }
}

/// Collecting never exceeds the capacity: a collection holding at most
/// `capacity` points holds `min(capacity, held + offered)` points afterwards.
pub proof fn lemma_collect_all_len(points: Seq<FocalPoint>, capacity: nat, incoming: Seq<FocalPoint>)
    requires
        points.len() <= capacity,
        capacity > 0 || incoming.len() == 0,
    ensures
        collect_all(points, capacity, incoming).len() == if points.len() + incoming.len() <= capacity {
            (points.len() + incoming.len()) as int
        } else {
            capacity as int
        },
    decreases incoming.len(),
{
    if incoming.len() > 0 {
        lemma_collect_all_len(points, capacity, incoming.drop_last());
        let before = collect_all(points, capacity, incoming.drop_last());
        if before.len() >= capacity {
            lemma_first_minimum_exists(before);
        }
    }
}

/// Replacing one element replaces it in the multiset of elements.
proof fn lemma_update_to_multiset(points: Seq<FocalPoint>, i: int, p: FocalPoint)
    requires
        0 <= i < points.len(),
    ensures
        points.update(i, p).to_multiset() =~= points.to_multiset().remove(points[i]).insert(p),
{
    let u = points.update(i, p);
    assert(u.remove(i) =~= points.remove(i));
    assert(u.remove(i).to_multiset() == u.to_multiset().remove(u[i]));
    assert(points.remove(i).to_multiset() == points.to_multiset().remove(points[i]));
    assert(u.contains(p)) by {
        assert(u[i] == p);
    }
    assert(u.to_multiset().count(p) > 0);
    assert(u.to_multiset() =~= u.to_multiset().remove(p).insert(p));
}

/// The collection keeps the best points. Starting from `points` (at most
/// `capacity` of them) and offered `incoming`, with no NaN evaluation among
/// them: it holds `min(capacity, held + offered)` points, these are a
/// sub-multiset of the held and offered points, and every held or offered
/// point it no longer holds has an evaluation `<=` that of every point it
/// holds.
pub proof fn lemma_collect_keeps_best(points: Seq<FocalPoint>, capacity: nat, incoming: Seq<FocalPoint>)
    requires
        capacity > 0,
        points.len() <= capacity,
        forall|t: int| 0 <= t < points.len() ==> !is_nan64(#[trigger] points[t].evaluation.0),
        forall|t: int| 0 <= t < incoming.len() ==> !is_nan64(#[trigger] incoming[t].evaluation.0),
    ensures
        ({
            let kept = collect_all(points, capacity, incoming);
            let all = points + incoming;
            &&& kept.len() == if all.len() <= capacity {
                all.len() as int
            } else {
                capacity as int
            }
            &&& kept.len() < capacity ==> kept == all
            &&& kept.to_multiset().subset_of(all.to_multiset())
            &&& forall|j: int| 0 <= j < kept.len() ==> all.contains(#[trigger] kept[j])
            &&& forall|t: int, j: int|
                0 <= t < all.len() && 0 <= j < kept.len() && !kept.contains(all[t])
                    ==> le64(#[trigger] all[t].evaluation.0, #[trigger] kept[j].evaluation.0)
        }),
    decreases incoming.len(),
{
    let kept = collect_all(points, capacity, incoming);
    let all = points + incoming;
    lemma_collect_all_len(points, capacity, incoming);
    assert forall|t: int| 0 <= t < all.len() implies !is_nan64(#[trigger] all[t].evaluation.0) by {
        if t < points.len() {
            assert(all[t] == points[t]);
        } else {
            assert(all[t] == incoming[t - points.len()]);
        }
    }
    if incoming.len() == 0 {
        assert(all =~= points);
        assert(kept == points);
        assert forall|j: int| 0 <= j < kept.len() implies all.contains(#[trigger] kept[j]) by {
            assert(all[j] == kept[j]);
        }
        assert forall|t: int, j: int|
            0 <= t < all.len() && 0 <= j < kept.len() && !kept.contains(all[t])
                implies le64(#[trigger] all[t].evaluation.0, #[trigger] kept[j].evaluation.0) by {
            assert(kept[t] == all[t]);
        }
    } else {
        let rest = incoming.drop_last();
        let front = points + rest;
        let x = incoming.last();
        let n = all.len() - 1;
        assert(all.drop_last() =~= front);
        assert(all =~= front.push(x));
        assert(all[n] == x);
        assert forall|t: int| 0 <= t < rest.len() implies !is_nan64(#[trigger] rest[t].evaluation.0) by {
            assert(rest[t] == incoming[t]);
        }
        lemma_collect_keeps_best(points, capacity, rest);
        let before = collect_all(points, capacity, rest);
        assert(kept == collect_step(before, capacity, x));
        assert forall|t: int| 0 <= t < front.len() implies #[trigger] front[t] == all[t] by {}
        assert forall|j: int| 0 <= j < before.len() implies all.contains(#[trigger] before[j]) by {
            assert(front.contains(before[j]));
            let t = choose|t: int| 0 <= t < front.len() && front[t] == before[j];
            assert(all[t] == before[j]);
        }
        assert forall|j: int| 0 <= j < before.len() implies !is_nan64(#[trigger] before[j].evaluation.0) by {
            assert(all.contains(before[j]));
            let t = choose|t: int| 0 <= t < all.len() && all[t] == before[j];
            assert(!is_nan64(all[t].evaluation.0));
        }
        assert(all.to_multiset() =~= front.to_multiset().insert(x));
        if before.len() < capacity {
            assert(before == front);
            assert(kept == front.push(x));
            assert(kept =~= all);
            assert forall|j: int| 0 <= j < kept.len() implies all.contains(#[trigger] kept[j]) by {
                assert(all[j] == kept[j]);
            }
            assert forall|t: int, j: int|
                0 <= t < all.len() && 0 <= j < kept.len() && !kept.contains(all[t])
                    implies le64(#[trigger] all[t].evaluation.0, #[trigger] kept[j].evaluation.0) by {
                assert(kept[t] == all[t]);
            }
        } else {
            lemma_first_minimum_exists(before);
            let i = first_minimum_index(before);
            let m = before[i];
            if le64(x.evaluation.0, m.evaluation.0) {
                assert(kept == before);
                assert forall|j: int| 0 <= j < kept.len() implies all.contains(#[trigger] kept[j]) by {
                }
                assert forall|t: int, j: int|
                    0 <= t < all.len() && 0 <= j < kept.len() && !kept.contains(all[t])
                        implies le64(#[trigger] all[t].evaluation.0, #[trigger] kept[j].evaluation.0) by {
                    if t == n {
                        assert(rank(m) <= rank(before[j]));
                    } else {
                        assert(front[t] == all[t]);
                    }
                }
            } else {
                assert(kept == before.update(i, x));
                lemma_update_to_multiset(before, i, x);
                assert forall|j: int| 0 <= j < kept.len() implies all.contains(#[trigger] kept[j]) by {
                    if j == i {
                        assert(all[n] == kept[j]);
                    } else {
                        assert(kept[j] == before[j]);
                    }
                }
                assert forall|t: int, j: int|
                    0 <= t < all.len() && 0 <= j < kept.len() && !kept.contains(all[t])
                        implies le64(#[trigger] all[t].evaluation.0, #[trigger] kept[j].evaluation.0) by {
                    let q = all[t];
                    if t == n {
                        assert(kept[i] == x);
                        assert(kept.contains(x));
                    } else {
                        assert(front[t] == q);
                        if before.contains(q) {
                            let u = choose|u: int| 0 <= u < before.len() && before[u] == q;
                            if u != i {
                                assert(kept[u] == q);
                                assert(kept.contains(q));
                            }
                            assert(q == m);
                            if j != i {
                                assert(kept[j] == before[j]);
                                assert(rank(m) <= rank(before[j]));
                            }
                        } else {
                            assert(le64(q.evaluation.0, m.evaluation.0));
                            if j != i {
                                assert(kept[j] == before[j]);
                                assert(le64(q.evaluation.0, before[j].evaluation.0));
                            }
                        }
                    }
                }
            }
        }
    }
}

/// The first position of lowest rank.
fn find_first_minimum(points: &Vec<FocalPoint>) -> (r: usize)
    requires
        points@.len() > 0,
    ensures
        is_first_minimum(points@, r as int),
{
    let mut best: usize = 0;
    let mut i: usize = 1;
    while i < points.len()
        invariant
            1 <= i <= points@.len(),
            is_first_minimum(points@.take(i as int), best as int),
        decreases points@.len() - i,
    {
        if points[i].evaluation.total_key() < points[best].evaluation.total_key() {
            best = i;
        }
        proof {
            assert forall|j: int| 0 <= j < i + 1 implies rank(points@.take(i + 1)[best as int])
                <= #[trigger] rank(points@.take(i + 1)[j]) by {
                if j < i {
                    assert(points@.take(i + 1)[j] == points@.take(i as int)[j]);
                }
            }
        }
        i = i + 1;
    }
    proof {
        assert(points@.take(points@.len() as int) =~= points@);
    }
    best
}

/// The position of the first smallest value in the IEEE-754 total order
/// (`Iterator::min_by` with `total_cmp`): used to pick the nearest remaining
/// point when a path is built.
pub fn index_of_first_minimum(values: &Vec<Float64>) -> (r: usize)
    requires
        values@.len() > 0,
    ensures
        r < values@.len(),
        forall|j: int|
            0 <= j < values@.len() ==> total_key64(values@[r as int].0) <= #[trigger] total_key64(
                values@[j].0,
            ),
        forall|j: int|
            0 <= j < r ==> total_key64(values@[r as int].0) < #[trigger] total_key64(values@[j].0),
{
    let mut best: usize = 0;
    let mut i: usize = 1;
    while i < values.len()
        invariant
            1 <= i <= values@.len(),
            best < i,
            forall|j: int|
                0 <= j < i ==> total_key64(values@[best as int].0) <= #[trigger] total_key64(
                    values@[j].0,
                ),
            forall|j: int|
                0 <= j < best ==> total_key64(values@[best as int].0) < #[trigger] total_key64(
                    values@[j].0,
                ),
        decreases values@.len() - i,
    {
        if values[i].total_key() < values[best].total_key() {
            best = i;
        }
        i = i + 1;
    }
    best
}

/// `i` is the position of the first smallest distance in the IEEE-754 total
/// order.
pub open spec fn is_first_nearest(distances: Seq<Float64>, i: int) -> bool {
    &&& 0 <= i < distances.len()
    &&& forall|j: int|
        0 <= j < distances.len() ==> total_key64(distances[i].0) <= #[trigger] total_key64(distances[j].0)
    &&& forall|j: int| 0 <= j < i ==> total_key64(distances[i].0) < #[trigger] total_key64(distances[j].0)
}

/// One step of the short path: takes the first of the nearest points out of
/// `todo`, given the distance of each point from the current position
/// (`distances[i]` belongs to `todo[i]`). The last point moves into the freed
/// place, as `Vec::swap_remove` does.
pub fn take_nearest(todo: &mut Vec<FocalPoint>, distances: &Vec<Float64>) -> (r: FocalPoint)
    requires
        old(todo)@.len() > 0,
        distances@.len() == old(todo)@.len(),
    ensures
        exists|i: int|
            #[trigger] is_first_nearest(distances@, i) && r == old(todo)@[i] && final(todo)@
                == old(todo)@.update(i, old(todo)@.last()).drop_last(),
{
    let nearest = index_of_first_minimum(distances);
    let r = todo.swap_remove(nearest);
    assert(is_first_nearest(distances@, nearest as int));
    r
}

/// `result` is `points` rearranged by descending rank, keeping the storage
/// order among points of equal rank: `result[k]` is `points[order[k]]`, with
/// `order` a permutation of the positions of `points`.
pub open spec fn is_stable_descending(points: Seq<FocalPoint>, result: Seq<FocalPoint>, order: Seq<int>) -> bool {
    &&& result.len() == points.len()
    &&& order.len() == points.len()
    &&& forall|k: int| 0 <= k < order.len() ==> 0 <= #[trigger] order[k] < points.len() && result[k] == points[order[k]]
    &&& forall|k: int, l: int| #![trigger order[k], order[l]] 0 <= k < l < order.len() ==> order[k] != order[l]
    &&& forall|k: int, l: int| #![trigger result[k], result[l]] 0 <= k < l < result.len() ==> rank(result[l]) <= rank(result[k])
    &&& forall|k: int, l: int| #![trigger order[k], order[l]]
        0 <= k < l < order.len() && rank(result[k]) == rank(result[l]) ==> order[k] < order[l]
}

/// A collection of focal points holding at most `capacity` of them.
#[derive(Debug)]
pub struct FocalPointCollection {
    points: Vec<FocalPoint>,
    capacity: usize,
}

impl FocalPointCollection {
    /// The points currently held, in storage order.
    pub closed spec fn points(self) -> Seq<FocalPoint> {
        self.points@
    }

    /// The maximum number of points held.
    pub closed spec fn capacity(self) -> nat {
        self.capacity as nat
    }

    /// The collection never holds more points than its capacity.
    #[verifier::type_invariant]
    spec fn within_capacity(self) -> bool {
        self.points@.len() <= self.capacity
    }

    /// Creates an empty collection of focal points with a set capacity.
    pub fn new(capacity: usize) -> (r: Self)
        ensures
            r.points() == Seq::<FocalPoint>::empty(),
            r.capacity() == capacity,
    {
        FocalPointCollection { points: Vec::new(), capacity }
    }

    /// Processes a slice of focal points, keeping only the best ones up to the
    /// collection's capacity: while there is room a point is added; otherwise
    /// it replaces the lowest-ranked point held, unless its evaluation is not
    /// greater than that point's.
    pub fn append(&mut self, point_slice: &[FocalPoint])
        requires
            old(self).capacity() > 0 || point_slice@.len() == 0,
        ensures
            final(self).points().len() <= final(self).capacity(),
            final(self).capacity() == old(self).capacity(),
            final(self).points() == collect_all(
                old(self).points(),
                old(self).capacity(),
                point_slice@,
            ),
    {
        proof {
            use_type_invariant(&*self);
        }
        let ghost start = self.points@;
        let capacity = self.capacity;
        let mut points: Vec<FocalPoint> = Vec::new();
        std::mem::swap(&mut points, &mut self.points);
        let mut k: usize = 0;
        proof {
            assert(point_slice@.take(0) =~= Seq::<FocalPoint>::empty());
        }
        while k < point_slice.len()
            invariant
                0 <= k <= point_slice@.len(),
                capacity > 0 || point_slice@.len() == 0,
                points@.len() <= capacity,
                points@ == collect_all(start, capacity as nat, point_slice@.take(k as int)),
            decreases point_slice@.len() - k,
        {
            let point = point_slice[k];
            proof {
                assert(point_slice@.take(k + 1).drop_last() =~= point_slice@.take(k as int));
            }
            if points.len() < capacity {
                points.push(point);
            } else {
                let minimal = find_first_minimum(&points);
                proof {
                    lemma_first_minimum_unique(points@, minimal as int);
                }
                if !point.evaluation.le(&points[minimal].evaluation) {
                    points[minimal] = point;
                }
            }
            k = k + 1;
        }
        proof {
            assert(point_slice@.take(point_slice@.len() as int) =~= point_slice@);
        }
        self.points = points;
    }

    /// Iterates over the points currently held, in storage order.
    pub fn get_iterator(&self) -> (r: std::slice::Iter<'_, FocalPoint>)
        ensures
            vstd::std_specs::iter::IteratorSpec::remaining(&r) == self.points().as_ref(),
    {
        proof {
            broadcast use vstd::std_specs::slice::axiom_spec_slice_iter;
        }
        self.points.as_slice().iter()
    }

    /// Returns the points ordered by descending evaluation in the total order
    /// (most interesting first); points of equal evaluation keep their
    /// storage order.
    pub fn get_descending_path(&self) -> (r: Vec<FocalPoint>)
        ensures
            r@.to_multiset() == self.points().to_multiset(),
            exists|order: Seq<int>| is_stable_descending(self.points(), r@, order),
    {
        let ghost n = self.points@.len();
        let mut remaining: Vec<FocalPoint> = Vec::new();
        let mut i: usize = 0;
        while i < self.points.len()
            invariant
                0 <= i <= self.points@.len(),
                remaining@ == self.points@.take(i as int),
            decreases self.points@.len() - i,
        {
            remaining.push(self.points[i]);
            proof {
                assert(self.points@.take(i + 1) =~= self.points@.take(i as int).push(self.points@[i as int]));
            }
            i = i + 1;
        }
        proof {
            assert(self.points@.take(self.points@.len() as int) =~= self.points@);
        }
        let ghost mut positions: Seq<int> = Seq::new(n, |t: int| t);
        let ghost mut order: Seq<int> = Seq::empty();
        let mut result: Vec<FocalPoint> = Vec::new();
        while remaining.len() > 0
            invariant
                n == self.points@.len(),
                result@.to_multiset().add(remaining@.to_multiset()) == self.points@.to_multiset(),
                forall|a: int, b: int| #![trigger result@[a], result@[b]] 0 <= a < b < result@.len() ==> rank(result@[b]) <= rank(result@[a]),
                forall|a: int, b: int|
                    0 <= a < result@.len() && 0 <= b < remaining@.len() ==> #[trigger] rank(remaining@[b])
                        <= #[trigger] rank(result@[a]),
                positions.len() == remaining@.len(),
                order.len() == result@.len(),
                forall|t: int| 0 <= t < positions.len() ==> 0 <= #[trigger] positions[t] < n && remaining@[t] == self.points@[positions[t]],
                forall|t: int, u: int| #![trigger positions[t], positions[u]] 0 <= t < u < positions.len() ==> positions[t] < positions[u],
                forall|k: int| 0 <= k < order.len() ==> 0 <= #[trigger] order[k] < n && result@[k] == self.points@[order[k]],
                forall|k: int, l: int| #![trigger order[k], order[l]] 0 <= k < l < order.len() ==> order[k] != order[l],
                forall|k: int, t: int| #![trigger order[k], positions[t]] 0 <= k < order.len() && 0 <= t < positions.len() ==> order[k] != positions[t],
                forall|k: int, l: int| #![trigger order[k], order[l]]
                    0 <= k < l < order.len() && rank(result@[k]) == rank(result@[l]) ==> order[k] < order[l],
                forall|k: int, t: int| #![trigger order[k], positions[t]]
                    0 <= k < order.len() && 0 <= t < positions.len() && rank(result@[k]) == rank(remaining@[t]) ==> order[k] < positions[t],
                result@.len() + remaining@.len() == n,
            decreases remaining@.len(),
        {
            let best = find_first_maximum(&remaining);
            let ghost before_remaining = remaining@;
            let ghost before_result = result@;
            let ghost before_positions = positions;
            let ghost before_order = order;
            let point = remaining.remove(best);
            result.push(point);
            proof {
                let p = before_positions[best as int];
                positions = before_positions.remove(best as int);
                order = before_order.push(p);
                assert(remaining@ == before_remaining.remove(best as int));
                assert(result@ == before_result.push(point));
                assert forall|a: int, b: int|
                    0 <= a < result@.len() && 0 <= b < remaining@.len() implies #[trigger] rank(remaining@[b])
                        <= #[trigger] rank(result@[a]) by {
                    if b < best {
                        assert(remaining@[b] == before_remaining[b]);
                    } else {
                        assert(remaining@[b] == before_remaining[b + 1]);
                    }
                }
                assert forall|a: int, b: int| #![trigger result@[a], result@[b]] 0 <= a < b < result@.len() implies rank(result@[b]) <= rank(result@[a]) by {
                    if b == result@.len() - 1 {
                        assert(before_remaining[best as int] == result@[b]);
                    }
                }
                assert forall|t: int| 0 <= t < positions.len() implies 0 <= #[trigger] positions[t] < n && remaining@[t] == self.points@[positions[t]] by {
                    if t < best {
                        assert(positions[t] == before_positions[t]);
                        assert(remaining@[t] == before_remaining[t]);
                    } else {
                        assert(positions[t] == before_positions[t + 1]);
                        assert(remaining@[t] == before_remaining[t + 1]);
                    }
                }
                assert forall|t: int, u: int| #![trigger positions[t], positions[u]] 0 <= t < u < positions.len() implies positions[t] < positions[u] by {
                    let t0 = if t < best { t } else { t + 1 };
                    let u0 = if u < best { u } else { u + 1 };
                    assert(positions[t] == before_positions[t0]);
                    assert(positions[u] == before_positions[u0]);
                    assert(before_positions[t0] < before_positions[u0]);
                }
                assert forall|k: int| 0 <= k < order.len() implies 0 <= #[trigger] order[k] < n && result@[k] == self.points@[order[k]] by {
                    if k < before_order.len() {
                        assert(order[k] == before_order[k]);
                    } else {
                        assert(order[k] == p);
                        assert(before_positions[best as int] == p);
                    }
                }
                assert forall|k: int, l: int| #![trigger order[k], order[l]] 0 <= k < l < order.len() implies order[k] != order[l] by {
                    if l == before_order.len() {
                        assert(order[l] == before_positions[best as int]);
                        assert(order[k] == before_order[k]);
                    } else {
                        assert(order[k] == before_order[k]);
                        assert(order[l] == before_order[l]);
                    }
                }
                assert forall|k: int, t: int| #![trigger order[k], positions[t]] 0 <= k < order.len() && 0 <= t < positions.len() implies order[k] != positions[t] by {
                    let t0 = if t < best { t } else { t + 1 };
                    assert(positions[t] == before_positions[t0]);
                    if k < before_order.len() {
                        assert(order[k] == before_order[k]);
                    } else {
                        assert(order[k] == before_positions[best as int]);
                        if t0 < best {
                            assert(before_positions[t0] < before_positions[best as int]);
                        } else {
                            assert(before_positions[best as int] < before_positions[t0]);
                        }
                    }
                }
                assert forall|k: int, l: int| #![trigger order[k], order[l]]
                    0 <= k < l < order.len() && rank(result@[k]) == rank(result@[l]) implies order[k] < order[l] by {
                    if l == before_order.len() {
                        assert(order[k] == before_order[k]);
                        assert(order[l] == before_positions[best as int]);
                        assert(result@[k] == before_result[k]);
                        assert(result@[l] == before_remaining[best as int]);
                    } else {
                        assert(order[k] == before_order[k]);
                        assert(order[l] == before_order[l]);
                    }
                }
                assert forall|k: int, t: int| #![trigger order[k], positions[t]]
                    0 <= k < order.len() && 0 <= t < positions.len() && rank(result@[k]) == rank(remaining@[t]) implies order[k] < positions[t] by {
                    let t0 = if t < best { t } else { t + 1 };
                    assert(positions[t] == before_positions[t0]);
                    assert(remaining@[t] == before_remaining[t0]);
                    if k < before_order.len() {
                        assert(order[k] == before_order[k]);
                        assert(result@[k] == before_result[k]);
                    } else {
                        assert(order[k] == before_positions[best as int]);
                        assert(result@[k] == before_remaining[best as int]);
                        if t0 < best {
                            assert(rank(before_remaining[t0]) < rank(before_remaining[best as int]));
                        } else {
                            assert(before_positions[best as int] < before_positions[t0]);
                        }
                    }
                }
            }
        }
        proof {
            assert(is_stable_descending(self.points@, result@, order));
        }
        result
    }
}

/// The first position holding a point of highest rank.
fn find_first_maximum(points: &Vec<FocalPoint>) -> (r: usize)
    requires
        points@.len() > 0,
    ensures
        r < points@.len(),
        forall|j: int| 0 <= j < points@.len() ==> #[trigger] rank(points@[j]) <= rank(points@[r as int]),
        forall|j: int| 0 <= j < r ==> #[trigger] rank(points@[j]) < rank(points@[r as int]),
{
    let mut best: usize = 0;
    let mut i: usize = 1;
    while i < points.len()
        invariant
            1 <= i <= points@.len(),
            best < i,
            forall|j: int| 0 <= j < i ==> #[trigger] rank(points@[j]) <= rank(points@[best as int]),
            forall|j: int| 0 <= j < best ==> #[trigger] rank(points@[j]) < rank(points@[best as int]),
        decreases points@.len() - i,
    {
        if points[best].evaluation.total_key() < points[i].evaluation.total_key() {
            best = i;
        }
        i = i + 1;
    }
    best
}

} // verus!

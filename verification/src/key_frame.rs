//! Time-indexed key frame tracks: an open list ([`KeyFrameList`]) that collects
//! key frames in any order, and the closed, time-sorted list
//! ([`ClosedKeyFrameList`]) that finds the frames surrounding a query time.

use vstd::prelude::*;
use crate::float_bits::{
    F32_SIGN, Float32, at_least_zero32, is_nan32, lemma_is_nan32_fields, lemma_total_key32_injective,
};
use crate::key_time::KeyTime;

verus! {

/// A value of a track at a given time.
#[derive(Clone, Copy, Debug)]
pub struct KeyFrame<T> {
    pub time: KeyTime,
    pub value: T,
}

impl<T> KeyFrame<T> {
    /// Creates a key frame.
    pub fn new(time: KeyTime, value: T) -> (r: KeyFrame<T>)
        ensures
            r.time == time,
            r.value == value,
    {
        KeyFrame { time, value }
    }
}

/// The frames have strictly increasing times.
pub open spec fn strictly_sorted<T>(frames: Seq<KeyFrame<T>>) -> bool {
    forall|i: int, j: int|
        0 <= i < j < frames.len() ==> #[trigger] frames[i].time.key() < #[trigger] frames[j].time.key()
}

/// For each time (by bit pattern) used in `frames`, the value it was given
/// last: a later frame at the same time overrides an earlier one.
pub open spec fn latest_values<T>(frames: Seq<KeyFrame<T>>) -> Map<u32, T>
    decreases frames.len(),
{
    if frames.len() == 0 {
        Map::empty()
    } else {
        latest_values(frames.drop_last()).insert(frames.last().time.0.0, frames.last().value)
    }
}

/// `closed` is strictly sorted by time and holds exactly one frame per time
/// in the domain of `values`, carrying that time's value.
pub open spec fn lists_values<T>(closed: Seq<KeyFrame<T>>, values: Map<u32, T>) -> bool {
    &&& strictly_sorted(closed)
    &&& forall|j: int|
        0 <= j < closed.len() ==> {
            &&& values.contains_key(#[trigger] closed[j].time.0.0)
            &&& values[closed[j].time.0.0] == closed[j].value
        }
    &&& forall|b: u32|
        values.contains_key(b) ==> exists|j: int| 0 <= j < closed.len() && #[trigger] closed[j].time.0.0 == b
}

/// `closed` is the time-sorted list holding, for every time used in `open`,
/// exactly one frame, with the value last given to that time.
pub closed spec fn is_closing_of<T>(closed: Seq<KeyFrame<T>>, open: Seq<KeyFrame<T>>) -> bool {
    lists_values(closed, latest_values(open))
}

/// What closing means: `closed` lists exactly the latest value of each time
/// used in `open`, in strictly increasing time order.
pub proof fn lemma_closing_lists_latest_values<T>(closed: Seq<KeyFrame<T>>, open: Seq<KeyFrame<T>>)
    ensures
        is_closing_of(closed, open) <==> lists_values(closed, latest_values(open)),
{
}

/// Every time used in `frames` has a latest value.
pub proof fn lemma_latest_values_domain<T>(frames: Seq<KeyFrame<T>>, i: int)
    requires
        0 <= i < frames.len(),
    ensures
        latest_values(frames).contains_key(frames[i].time.0.0),
    decreases frames.len(),
{
    if i < frames.len() - 1 {
        lemma_latest_values_domain(frames.drop_last(), i);
    }
}

/// Only times used in `frames` have a latest value.
pub proof fn lemma_latest_values_domain_only<T>(frames: Seq<KeyFrame<T>>, b: u32)
    requires
        latest_values(frames).contains_key(b),
    ensures
        exists|i: int| 0 <= i < frames.len() && #[trigger] frames[i].time.0.0 == b,
    decreases frames.len(),
{
    if frames.len() > 0 && frames.last().time.0.0 != b {
        lemma_latest_values_domain_only(frames.drop_last(), b);
        let i = choose|i: int| 0 <= i < frames.drop_last().len() && #[trigger] frames.drop_last()[i].time.0.0 == b;
        assert(frames[i] == frames.drop_last()[i]);
    } else if frames.len() > 0 {
        assert(frames[frames.len() - 1].time.0.0 == b);
    }
}

/// A closed list holds exactly one frame per time used in the frames it was
/// closed from, and no other frame, in strictly increasing time order.
pub proof fn lemma_closing_one_frame_per_time<T>(closed: Seq<KeyFrame<T>>, open: Seq<KeyFrame<T>>)
    requires
        is_closing_of(closed, open),
    ensures
        strictly_sorted(closed),
        forall|i: int| 0 <= i < open.len() ==> has_frame_at(closed, #[trigger] open[i].time),
        forall|j: int| 0 <= j < closed.len() ==> has_frame_at(open, #[trigger] closed[j].time),
        forall|j: int, k: int|
            #![trigger closed[j], closed[k]]
            0 <= j < closed.len() && 0 <= k < closed.len() && closed[j].time == closed[k].time ==> j == k,
{
    lemma_sorted_times_unique(closed);
    assert forall|i: int| 0 <= i < open.len() implies has_frame_at(closed, #[trigger] open[i].time) by {
        lemma_closing_has_time(closed, open, i);
    }
    assert forall|j: int| 0 <= j < closed.len() implies has_frame_at(open, #[trigger] closed[j].time) by {
        lemma_closing_time_is_used(closed, open, j);
    }
}

/// Some frame is at `time`.
pub open spec fn has_frame_at<T>(frames: Seq<KeyFrame<T>>, time: KeyTime) -> bool {
    exists|j: int| 0 <= j < frames.len() && frames[j].time == time
}

/// In a strictly sorted list no two frames share a time.
proof fn lemma_sorted_times_unique<T>(closed: Seq<KeyFrame<T>>)
    requires
        strictly_sorted(closed),
    ensures
        forall|j: int, k: int|
            #![trigger closed[j], closed[k]]
            0 <= j < closed.len() && 0 <= k < closed.len() && closed[j].time == closed[k].time ==> j == k,
{
    assert forall|j: int, k: int|
        #![trigger closed[j], closed[k]]
        0 <= j < closed.len() && 0 <= k < closed.len() && closed[j].time == closed[k].time implies j == k by {
        if j < k {
            assert(closed[j].time.key() < closed[k].time.key());
        } else if k < j {
            assert(closed[k].time.key() < closed[j].time.key());
        }
    }
}

/// Every time used in the open frames has a frame in the closed list.
proof fn lemma_closing_has_time<T>(closed: Seq<KeyFrame<T>>, open: Seq<KeyFrame<T>>, i: int)
    requires
        is_closing_of(closed, open),
        0 <= i < open.len(),
    ensures
        has_frame_at(closed, open[i].time),
{
    lemma_latest_values_domain(open, i);
    let b = open[i].time.0.0;
    let j = choose|j: int| 0 <= j < closed.len() && #[trigger] closed[j].time.0.0 == b;
    assert(closed[j].time == open[i].time);
}

/// Every frame of the closed list is at a time used in the open frames.
proof fn lemma_closing_time_is_used<T>(closed: Seq<KeyFrame<T>>, open: Seq<KeyFrame<T>>, j: int)
    requires
        is_closing_of(closed, open),
        0 <= j < closed.len(),
    ensures
        has_frame_at(open, closed[j].time),
{
    let b = closed[j].time.0.0;
    lemma_latest_values_domain_only(open, b);
    let i = choose|i: int| 0 <= i < open.len() && #[trigger] open[i].time.0.0 == b;
    assert(open[i].time == closed[j].time);
}

/// `time` is the latest time used in `frames` (in the total order): some
/// frame has it, and no frame is later.
pub open spec fn is_latest_time<T>(time: KeyTime, frames: Seq<KeyFrame<T>>) -> bool {
    &&& exists|i: int| 0 <= i < frames.len() && #[trigger] frames[i].time.0.0 == time.0.0
    &&& forall|i: int| 0 <= i < frames.len() ==> (#[trigger] frames[i]).time.key() <= time.key()
}

/// A closed list of non-empty frames is not empty, and it ends at the
/// latest time used in the frames it was closed from.
pub proof fn lemma_closing_ends_at_latest<T>(closed: Seq<KeyFrame<T>>, open: Seq<KeyFrame<T>>)
    requires
        is_closing_of(closed, open),
        open.len() > 0,
    ensures
        closed.len() > 0,
        is_latest_time(closed.last().time, open),
{
    let m = latest_values(open);
    lemma_latest_values_domain(open, 0);
    let j0 = choose|j: int| 0 <= j < closed.len() && #[trigger] closed[j].time.0.0 == open[0].time.0.0;
    let last = closed.len() - 1;
    assert forall|i: int| 0 <= i < open.len() implies (#[trigger] open[i]).time.key() <= closed.last().time.key() by {
        lemma_latest_values_domain(open, i);
        let j = choose|j: int| 0 <= j < closed.len() && #[trigger] closed[j].time.0.0 == open[i].time.0.0;
        if j < last {
            assert(closed[j].time.key() < closed[last].time.key());
        }
    }
    assert(m.contains_key(closed[last].time.0.0));
    lemma_latest_values_domain_only(open, closed[last].time.0.0);
}

/// `time` is the latest time used in `frames` that is not NaN: it is not NaN,
/// some frame has it, and no frame whose time is not NaN is later.
pub open spec fn is_latest_defined_time<T>(time: KeyTime, frames: Seq<KeyFrame<T>>) -> bool {
    &&& !is_nan32(time.0.0)
    &&& exists|i: int| 0 <= i < frames.len() && #[trigger] frames[i].time.0.0 == time.0.0
    &&& forall|i: int|
        0 <= i < frames.len() && !is_nan32(frames[i].time.0.0) ==> (#[trigger] frames[i]).time.key()
            <= time.key()
}

/// The time of the last frame of `frames` whose time is not NaN, or time 0
/// when every time is NaN.
pub open spec fn last_defined_time<T>(frames: Seq<KeyFrame<T>>) -> KeyTime
    decreases frames.len(),
{
    if frames.len() == 0 {
        KeyTime(Float32(0))
    } else if !is_nan32(frames.last().time.0.0) {
        frames.last().time
    } else {
        last_defined_time(frames.drop_last())
    }
}

/// When the last frame's time is not NaN (its exponent field is not all
/// ones, or its mantissa is zero), the last time that is not NaN is the time
/// of the last frame: a closed list ending at a finite time ends there.
pub proof fn lemma_last_defined_time_of_defined_last<T>(frames: Seq<KeyFrame<T>>)
    requires
        frames.len() > 0,
        (frames.last().time.0.0 & 0x7F80_0000u32) != 0x7F80_0000u32 || (frames.last().time.0.0
            & 0x007F_FFFFu32) == 0u32,
    ensures
        last_defined_time(frames) == frames.last().time,
{
    lemma_is_nan32_fields(frames.last().time.0.0);
}

/// When the frames after `i` all have NaN times and frame `i` does not, the
/// last time that is not NaN is the time of frame `i`.
proof fn lemma_last_defined_time_at<T>(frames: Seq<KeyFrame<T>>, i: int)
    requires
        0 <= i < frames.len(),
        !is_nan32(frames[i].time.0.0),
        forall|k: int| i < k < frames.len() ==> is_nan32(#[trigger] frames[k].time.0.0),
    ensures
        last_defined_time(frames) == frames[i].time,
    decreases frames.len(),
{
    if i < frames.len() - 1 {
        let front = frames.drop_last();
        assert(is_nan32(frames[frames.len() - 1].time.0.0));
        assert forall|k: int| i < k < front.len() implies is_nan32(#[trigger] front[k].time.0.0) by {
            assert(front[k] == frames[k]);
        }
        lemma_last_defined_time_at(front, i);
    }
}

/// If frame `j` has a time that is not NaN, some frame at or after `j` is the
/// last one whose time is not NaN.
proof fn lemma_last_defined_index<T>(frames: Seq<KeyFrame<T>>, j: int) -> (i: int)
    requires
        0 <= j < frames.len(),
        !is_nan32(frames[j].time.0.0),
    ensures
        j <= i < frames.len(),
        !is_nan32(frames[i].time.0.0),
        forall|k: int| i < k < frames.len() ==> is_nan32(#[trigger] frames[k].time.0.0),
    decreases frames.len(),
{
    let n = frames.len() - 1;
    if !is_nan32(frames[n].time.0.0) {
        n
    } else {
        let front = frames.drop_last();
        assert(front[j] == frames[j]);
        let i = lemma_last_defined_index(front, j);
        assert(front[i] == frames[i]);
        assert forall|k: int| i < k < frames.len() implies is_nan32(#[trigger] frames[k].time.0.0) by {
            if k < n {
                assert(front[k] == frames[k]);
            }
        }
        i
    }
}

/// In a strictly sorted list holding a frame at time 0, the last time that
/// is not NaN is the latest such time, and it is not negative.
pub proof fn lemma_sorted_last_defined_time<T>(frames: Seq<KeyFrame<T>>)
    requires
        strictly_sorted(frames),
        has_frame_at(frames, KeyTime(Float32(0))),
    ensures
        is_latest_defined_time(last_defined_time(frames), frames),
        last_defined_time(frames).0.0 < F32_SIGN,
        at_least_zero32(last_defined_time(frames).0.0),
{
    let j0 = choose|j: int| 0 <= j < frames.len() && frames[j].time == KeyTime(Float32(0));
    let i = lemma_last_defined_index(frames, j0);
    lemma_last_defined_time_at(frames, i);
    if j0 < i {
        assert(frames[j0].time.key() < frames[i].time.key());
    }
    assert forall|k: int|
        0 <= k < frames.len() && !is_nan32(frames[k].time.0.0) implies (#[trigger] frames[k]).time.key()
        <= frames[i].time.key() by {
        if k < i {
            assert(frames[k].time.key() < frames[i].time.key());
        }
    }
}

/// Closing keeps the latest time that is not NaN: it is the same for the
/// closed list and for the frames it was closed from.
pub proof fn lemma_closing_keeps_latest_defined_time<T>(
    closed: Seq<KeyFrame<T>>,
    open: Seq<KeyFrame<T>>,
    time: KeyTime,
)
    requires
        is_closing_of(closed, open),
    ensures
        is_latest_defined_time(time, closed) <==> is_latest_defined_time(time, open),
{
    lemma_closing_one_frame_per_time(closed, open);
    if is_latest_defined_time(time, closed) {
        let j = choose|j: int| 0 <= j < closed.len() && #[trigger] closed[j].time.0.0 == time.0.0;
        assert(has_frame_at(open, closed[j].time));
        let i = choose|i: int| 0 <= i < open.len() && open[i].time == closed[j].time;
        assert(open[i].time.0.0 == time.0.0);
        assert forall|k: int|
            0 <= k < open.len() && !is_nan32(open[k].time.0.0) implies (#[trigger] open[k]).time.key()
            <= time.key() by {
            assert(has_frame_at(closed, open[k].time));
            let m = choose|m: int| 0 <= m < closed.len() && closed[m].time == open[k].time;
            assert(closed[m].time.key() <= time.key());
        }
    }
    if is_latest_defined_time(time, open) {
        let i = choose|i: int| 0 <= i < open.len() && #[trigger] open[i].time.0.0 == time.0.0;
        assert(has_frame_at(closed, open[i].time));
        let j = choose|j: int| 0 <= j < closed.len() && closed[j].time == open[i].time;
        assert(closed[j].time.0.0 == time.0.0);
        assert forall|k: int|
            0 <= k < closed.len() && !is_nan32(closed[k].time.0.0) implies (#[trigger] closed[k]).time.key()
            <= time.key() by {
            assert(has_frame_at(open, closed[k].time));
            let m = choose|m: int| 0 <= m < open.len() && open[m].time == closed[k].time;
            assert(open[m].time.key() <= time.key());
        }
    }
}

/// Mutable builder for a list of key frames, always seeded with a frame at
/// time 0. Frames may be added in any order; [`KeyFrameList::into_closed`]
/// sorts them.
#[derive(Clone, Debug)]
pub struct KeyFrameList<T> {
    seed_value: T,
    key_frame_list: Vec<KeyFrame<T>>,
}

/// The seed frame every list starts with: `value` at time 0.
pub open spec fn seed_frame<T>(value: T) -> KeyFrame<T> {
    KeyFrame { time: KeyTime(Float32(0)), value }
}

impl<T> KeyFrameList<T> {
    /// The frames in the order they were added, starting with the seed frame.
    pub closed spec fn frames(self) -> Seq<KeyFrame<T>> {
        seq![seed_frame(self.seed_value)] + self.key_frame_list@
    }

    /// Generates a list seeded with a single key frame at time 0.
    pub fn new(value: T) -> (r: KeyFrameList<T>)
        ensures
            r.frames() == seq![seed_frame(value)],
    {
        let r = KeyFrameList { seed_value: value, key_frame_list: Vec::new() };
        proof {
            assert(r.frames() =~= seq![seed_frame(value)]);
        }
        r
    }

    /// Appends a key frame at the given time. Order does not matter; the frames
    /// are sorted (and duplicate times collapsed) in [`KeyFrameList::into_closed`].
    pub fn add_key_frame(&mut self, time: KeyTime, value: T)
        ensures
            final(self).frames() == old(self).frames().push(KeyFrame { time, value }),
    {
        self.key_frame_list.push(KeyFrame::new(time, value));
        proof {
            assert(final(self).frames() =~= old(self).frames().push(KeyFrame { time, value }));
        }
    }
}

/// The number of frames strictly before `time`, found by binary search.
fn partition_point<T>(frames: &Vec<KeyFrame<T>>, time: &KeyTime) -> (r: usize)
    requires
        strictly_sorted(frames@),
    ensures
        r <= frames@.len(),
        forall|j: int| 0 <= j < r ==> #[trigger] frames@[j].time.key() < time.key(),
        forall|j: int| r <= j < frames@.len() ==> time.key() <= #[trigger] frames@[j].time.key(),
{
    let mut low: usize = 0;
    let mut high: usize = frames.len();
    while low < high
        invariant
            strictly_sorted(frames@),
            low <= high <= frames@.len(),
            forall|j: int| 0 <= j < low ==> #[trigger] frames@[j].time.key() < time.key(),
            forall|j: int| high <= j < frames@.len() ==> time.key() <= #[trigger] frames@[j].time.key(),
        decreases high - low,
    {
        let middle = low + (high - low) / 2;
        if frames[middle].time.is_before(time) {
            proof {
                assert forall|j: int| 0 <= j < middle + 1 implies #[trigger] frames@[j].time.key()
                    < time.key() by {
                    if j < middle {
                        assert(frames@[j].time.key() < frames@[middle as int].time.key());
                    }
                }
            }
            low = middle + 1;
        } else {
            proof {
                assert forall|j: int| middle <= j < frames@.len() implies time.key()
                    <= #[trigger] frames@[j].time.key() by {
                    if j > middle {
                        assert(frames@[middle as int].time.key() < frames@[j].time.key());
                    }
                }
            }
            high = middle;
        }
    }
    low
}

impl<T: Copy> KeyFrameList<T> {
    /// Consumes the builder and returns the time-sorted, queryable list.
    ///
    /// Key frames sharing the same time are collapsed to a single frame keeping
    /// the most recently added value, so setting a key frame again at an
    /// already used time overrides it (last write wins).
    pub fn into_closed(self) -> (r: ClosedKeyFrameList<T>)
        ensures
            is_closing_of(r.frames(), self.frames()),
            r.frames().len() > 0,
            is_latest_time(r.frames().last().time, self.frames()),
            is_latest_defined_time(last_defined_time(r.frames()), self.frames()),
    {
        let ghost open = self.frames();
        let mut sorted: Vec<KeyFrame<T>> = Vec::new();
        sorted.push(KeyFrame::new(KeyTime::zero(), self.seed_value));
        let mut k: usize = 0;
        proof {
            let first = open.take(1);
            assert(first.drop_last() =~= Seq::<KeyFrame<T>>::empty());
            assert(latest_values(first.drop_last()) == Map::<u32, T>::empty());
            assert(first.last() == seed_frame(self.seed_value));
            assert(latest_values(first) == Map::<u32, T>::empty().insert(0u32, self.seed_value));
            assert(sorted@[0].time.0.0 == 0u32);
        }
        while k < self.key_frame_list.len()
            invariant
                open == self.frames(),
                open == seq![seed_frame(self.seed_value)] + self.key_frame_list@,
                open.len() == self.key_frame_list@.len() + 1,
                0 <= k < open.len(),
                sorted@.len() > 0,
                is_closing_of(sorted@, open.take(k + 1)),
            decreases open.len() - k,
        {
            let frame = self.key_frame_list[k];
            let ghost i: int = k + 1;
            proof {
                assert(open[i as int] == frame);
            }
            let ghost before = sorted@;
            let ghost m = latest_values(open.take(i as int));
            let ghost b = frame.time.0.0;
            proof {
                assert(open.take(i + 1).drop_last() =~= open.take(i as int));
                assert(latest_values(open.take(i + 1)) == m.insert(b, frame.value));
            }
            let p = partition_point(&sorted, &frame.time);
            if p < sorted.len() && sorted[p].time.is_same_time(&frame.time) {
                sorted[p] = frame;
                proof {
                    let m2 = m.insert(b, frame.value);
                    let after = sorted@;
                    assert(after == before.update(p as int, frame));
                    assert forall|x: int, y: int|
                        0 <= x < y < after.len() implies #[trigger] after[x].time.key()
                        < #[trigger] after[y].time.key() by {
                        assert(before[x].time.key() < before[y].time.key());
                    }
                    assert forall|j: int| 0 <= j < after.len() implies {
                        &&& m2.contains_key(#[trigger] after[j].time.0.0)
                        &&& m2[after[j].time.0.0] == after[j].value
                    } by {
                        if j != p {
                            if j < p {
                                assert(before[j].time.key() < before[p as int].time.key());
                            } else {
                                assert(before[p as int].time.key() < before[j].time.key());
                            }
                            lemma_total_key32_injective(before[j].time.0.0, b);
                        }
                    }
                    assert forall|c: u32| m2.contains_key(c) implies exists|j: int|
                        0 <= j < after.len() && #[trigger] after[j].time.0.0 == c by {
                        if c == b {
                            assert(after[p as int].time.0.0 == c);
                        } else {
                            let j = choose|j: int| 0 <= j < before.len() && #[trigger] before[j].time.0.0 == c;
                            assert(j != p);
                            assert(after[j].time.0.0 == c);
                        }
                    }
                }
            } else {
                sorted.insert(p, frame);
                proof {
                    let m2 = m.insert(b, frame.value);
                    let after = sorted@;
                    assert(after == before.insert(p as int, frame));
                    if p < before.len() {
                        lemma_total_key32_injective(before[p as int].time.0.0, b);
                        assert(frame.time.key() < before[p as int].time.key());
                    }
                    assert forall|x: int, y: int|
                        0 <= x < y < after.len() implies #[trigger] after[x].time.key()
                        < #[trigger] after[y].time.key() by {
                        if y < p {
                            assert(before[x].time.key() < before[y].time.key());
                        } else if y == p {
                        } else if x < p {
                            assert(after[y] == before[y - 1]);
                            if y - 1 > p {
                                assert(before[p as int].time.key() < before[y - 1].time.key());
                            }
                        } else if x == p {
                            assert(after[y] == before[y - 1]);
                            if y - 1 > p {
                                assert(before[p as int].time.key() < before[y - 1].time.key());
                            }
                        } else {
                            assert(before[x - 1].time.key() < before[y - 1].time.key());
                        }
                    }
                    assert forall|j: int| 0 <= j < before.len() implies #[trigger] before[j].time.0.0 != b by {
                        if j < p {
                        } else {
                            if j > p {
                                assert(before[p as int].time.key() < before[j].time.key());
                            }
                        }
                    }
                    assert forall|j: int| 0 <= j < after.len() implies {
                        &&& m2.contains_key(#[trigger] after[j].time.0.0)
                        &&& m2[after[j].time.0.0] == after[j].value
                    } by {
                        if j < p {
                            assert(after[j] == before[j]);
                            assert(before[j].time.0.0 != b);
                        } else if j > p {
                            assert(after[j] == before[j - 1]);
                            assert(before[j - 1].time.0.0 != b);
                        }
                    }
                    assert forall|c: u32| m2.contains_key(c) implies exists|j: int|
                        0 <= j < after.len() && #[trigger] after[j].time.0.0 == c by {
                        if c == b {
                            assert(after[p as int].time.0.0 == c);
                        } else {
                            let j = choose|j: int| 0 <= j < before.len() && #[trigger] before[j].time.0.0 == c;
                            if j < p {
                                assert(after[j].time.0.0 == c);
                            } else {
                                assert(after[j + 1].time.0.0 == c);
                            }
                        }
                    }
                }
            }
            k = k + 1;
        }
        proof {
            assert(open.take(open.len() as int) =~= open);
            lemma_latest_values_domain(open, 0);
            let j0 = choose|j: int| 0 <= j < sorted@.len() && #[trigger] sorted@[j].time.0.0 == 0u32;
            assert(sorted@[j0].time == KeyTime(Float32(0)));
            lemma_closing_ends_at_latest(sorted@, open);
            lemma_sorted_last_defined_time(sorted@);
            lemma_closing_keeps_latest_defined_time(sorted@, open, last_defined_time(sorted@));
        }
        ClosedKeyFrameList { key_frame_list: sorted }
    }
}

/// A sorted list is determined by the times and values it holds.
proof fn lemma_lists_values_unique<T>(c1: Seq<KeyFrame<T>>, c2: Seq<KeyFrame<T>>, values: Map<u32, T>)
    requires
        lists_values(c1, values),
        lists_values(c2, values),
    ensures
        c1 == c2,
    decreases c1.len(),
{
    if c1.len() == 0 {
        if c2.len() > 0 {
            assert(values.contains_key(c2[0].time.0.0));
            let j = choose|j: int| 0 <= j < c1.len() && #[trigger] c1[j].time.0.0 == c2[0].time.0.0;
        }
        assert(c1 =~= c2);
    } else {
        let l1 = c1.len() - 1;
        assert(values.contains_key(c1[l1].time.0.0));
        let j2 = choose|j: int| 0 <= j < c2.len() && #[trigger] c2[j].time.0.0 == c1[l1].time.0.0;
        let l2 = c2.len() - 1;
        assert(values.contains_key(c2[l2].time.0.0));
        let j1 = choose|j: int| 0 <= j < c1.len() && #[trigger] c1[j].time.0.0 == c2[l2].time.0.0;
        if j2 < l2 {
            assert(c2[j2].time.key() < c2[l2].time.key());
        }
        if j1 < l1 {
            assert(c1[j1].time.key() < c1[l1].time.key());
        }
        lemma_total_key32_injective(c1[l1].time.0.0, c2[l2].time.0.0);
        let b = c1[l1].time.0.0;
        assert(c1[l1] == c2[l2]);
        let rest = values.remove(b);
        let d1 = c1.drop_last();
        let d2 = c2.drop_last();
        assert forall|j: int| 0 <= j < d1.len() implies #[trigger] d1[j].time.0.0 != b by {
            assert(c1[j].time.key() < c1[l1].time.key());
        }
        assert forall|j: int| 0 <= j < d2.len() implies #[trigger] d2[j].time.0.0 != b by {
            assert(c2[j].time.key() < c2[l2].time.key());
        }
        assert forall|x: u32| rest.contains_key(x) implies exists|j: int|
            0 <= j < d1.len() && #[trigger] d1[j].time.0.0 == x by {
            let j = choose|j: int| 0 <= j < c1.len() && #[trigger] c1[j].time.0.0 == x;
            assert(d1[j] == c1[j]);
        }
        assert forall|x: u32| rest.contains_key(x) implies exists|j: int|
            0 <= j < d2.len() && #[trigger] d2[j].time.0.0 == x by {
            let j = choose|j: int| 0 <= j < c2.len() && #[trigger] c2[j].time.0.0 == x;
            assert(d2[j] == c2[j]);
        }
        assert(lists_values(d1, rest));
        assert(lists_values(d2, rest));
        lemma_lists_values_unique(d1, d2, rest);
        assert(c1 =~= d1.push(c1[l1]));
        assert(c2 =~= d2.push(c2[l2]));
    }
}

/// The closed list depends only on the latest value given to each time: two
/// open lists that agree on those close to the same list.
pub proof fn lemma_closing_determined_by_latest_values<T>(
    c1: Seq<KeyFrame<T>>,
    o1: Seq<KeyFrame<T>>,
    c2: Seq<KeyFrame<T>>,
    o2: Seq<KeyFrame<T>>,
)
    requires
        is_closing_of(c1, o1),
        is_closing_of(c2, o2),
        latest_values(o1) == latest_values(o2),
    ensures
        c1 == c2,
{
    lemma_lists_values_unique(c1, c2, latest_values(o1));
}

/// The order in which frames at different times are added does not matter.
pub proof fn lemma_add_order_irrelevant<T>(open: Seq<KeyFrame<T>>, f1: KeyFrame<T>, f2: KeyFrame<T>)
    requires
        f1.time.0.0 != f2.time.0.0,
    ensures
        latest_values(open.push(f1).push(f2)) == latest_values(open.push(f2).push(f1)),
{
    assert(open.push(f1).push(f2).drop_last() =~= open.push(f1));
    assert(open.push(f1).drop_last() =~= open);
    assert(open.push(f2).push(f1).drop_last() =~= open.push(f2));
    assert(open.push(f2).drop_last() =~= open);
    let a = open.push(f1);
    let b = open.push(f2);
    assert(latest_values(a) == latest_values(open).insert(f1.time.0.0, f1.value));
    assert(latest_values(b) == latest_values(open).insert(f2.time.0.0, f2.value));
    assert(latest_values(a.push(f2)) == latest_values(a).insert(f2.time.0.0, f2.value));
    assert(latest_values(b.push(f1)) == latest_values(b).insert(f1.time.0.0, f1.value));
    assert(latest_values(open).insert(f1.time.0.0, f1.value).insert(f2.time.0.0, f2.value)
        =~= latest_values(open).insert(f2.time.0.0, f2.value).insert(f1.time.0.0, f1.value));
}

/// The latest values after adding `b` to `a`: those of `b` override those of `a`.
pub proof fn lemma_latest_values_append<T>(a: Seq<KeyFrame<T>>, b: Seq<KeyFrame<T>>)
    ensures
        latest_values(a + b) == latest_values(a).union_prefer_right(latest_values(b)),
    decreases b.len(),
{
    if b.len() == 0 {
        assert(a + b =~= a);
        assert(latest_values(a).union_prefer_right(latest_values(b)) =~= latest_values(a));
    } else {
        lemma_latest_values_append(a, b.drop_last());
        assert((a + b).drop_last() =~= a + b.drop_last());
        assert((a + b).last() == b.last());
        assert(latest_values(a + b) =~= latest_values(a).union_prefer_right(latest_values(b)));
    }
}

/// The frames use pairwise different times.
pub open spec fn distinct_times<T>(frames: Seq<KeyFrame<T>>) -> bool {
    forall|i: int, j: int|
        0 <= i < j < frames.len() ==> #[trigger] frames[i].time.0.0 != #[trigger] frames[j].time.0.0
}

/// With pairwise different times, each frame's value is the latest value of its time.
proof fn lemma_latest_values_distinct<T>(frames: Seq<KeyFrame<T>>, i: int)
    requires
        distinct_times(frames),
        0 <= i < frames.len(),
    ensures
        latest_values(frames).contains_key(frames[i].time.0.0),
        latest_values(frames)[frames[i].time.0.0] == frames[i].value,
    decreases frames.len(),
{
    lemma_latest_values_domain(frames, i);
    if i < frames.len() - 1 {
        let front = frames.drop_last();
        assert(front[i] == frames[i]);
        assert forall|x: int, y: int| 0 <= x < y < front.len() implies #[trigger] front[x].time.0.0
            != #[trigger] front[y].time.0.0 by {
            assert(front[x] == frames[x] && front[y] == frames[y]);
        }
        lemma_latest_values_distinct(front, i);
        assert(frames[i].time.0.0 != frames[frames.len() - 1].time.0.0);
    }
}

/// Frames at pairwise different times may be added in any order: whatever
/// was added before, two orders of the same frames close to the same list.
pub proof fn lemma_any_order_of_distinct_times<T>(
    prefix: Seq<KeyFrame<T>>,
    p1: Seq<KeyFrame<T>>,
    p2: Seq<KeyFrame<T>>,
    c1: Seq<KeyFrame<T>>,
    c2: Seq<KeyFrame<T>>,
)
    requires
        distinct_times(p1),
        distinct_times(p2),
        forall|f: KeyFrame<T>| p1.contains(f) <==> p2.contains(f),
        is_closing_of(c1, prefix + p1),
        is_closing_of(c2, prefix + p2),
    ensures
        c1 == c2,
{
    let m1 = latest_values(p1);
    let m2 = latest_values(p2);
    assert forall|b: u32| #[trigger] m1.dom().contains(b) implies m2.dom().contains(b) && m2[b] == m1[b] by {
        lemma_latest_values_domain_only(p1, b);
        let i = choose|i: int| 0 <= i < p1.len() && #[trigger] p1[i].time.0.0 == b;
        lemma_latest_values_distinct(p1, i);
        assert(p1.contains(p1[i]));
        let j = choose|j: int| 0 <= j < p2.len() && p2[j] == p1[i];
        lemma_latest_values_distinct(p2, j);
    }
    assert forall|b: u32| #[trigger] m2.dom().contains(b) implies m1.dom().contains(b) by {
        lemma_latest_values_domain_only(p2, b);
        let j = choose|j: int| 0 <= j < p2.len() && #[trigger] p2[j].time.0.0 == b;
        assert(p2.contains(p2[j]));
        let i = choose|i: int| 0 <= i < p1.len() && p1[i] == p2[j];
        lemma_latest_values_domain(p1, i);
    }
    assert(m1.dom() =~= m2.dom());
    assert(m1 =~= m2);
    lemma_latest_values_append(prefix, p1);
    lemma_latest_values_append(prefix, p2);
    lemma_closing_determined_by_latest_values(c1, prefix + p1, c2, prefix + p2);
}

/// Setting a key frame again at an already used time overrides it: the
/// closed list holds the frame added last at that time.
pub proof fn lemma_last_write_wins<T>(closed: Seq<KeyFrame<T>>, open: Seq<KeyFrame<T>>, frame: KeyFrame<T>)
    requires
        is_closing_of(closed, open.push(frame)),
    ensures
        exists|j: int| 0 <= j < closed.len() && #[trigger] closed[j] == frame,
{
    assert(open.push(frame).drop_last() =~= open);
    let m = latest_values(open.push(frame));
    assert(m.contains_key(frame.time.0.0));
    let j = choose|j: int| 0 <= j < closed.len() && #[trigger] closed[j].time.0.0 == frame.time.0.0;
    assert(closed[j].value == frame.value);
    assert(closed[j] == frame);
}

/// Immutable, time-sorted list of key frames, obtained from
/// [`KeyFrameList::into_closed`]. It holds at least one frame and its last
/// frame is not earlier than time 0.
#[derive(Debug)]
pub struct ClosedKeyFrameList<T> {
    key_frame_list: Vec<KeyFrame<T>>,
}

/// Where a query time falls in a closed list: on or before the first frame,
/// after the last frame (both give a single value), or between two frames.
#[derive(Clone, Copy, Debug)]
pub enum InterpolationSpan<T> {
    Single(T),
    Between(KeyFrame<T>, KeyFrame<T>),
}

impl<T> ClosedKeyFrameList<T> {
    /// The frames in increasing time order.
    pub closed spec fn frames(self) -> Seq<KeyFrame<T>> {
        self.key_frame_list@
    }

    #[verifier::type_invariant]
    spec fn well_formed(self) -> bool {
        &&& strictly_sorted(self.key_frame_list@)
        &&& has_frame_at(self.key_frame_list@, KeyTime(Float32(0)))
    }

    /// The number of key frames. Every closed list is strictly sorted by time
    /// and holds a frame at time 0.
    pub fn len(&self) -> (r: usize)
        ensures
            r == self.frames().len(),
            r > 0,
            strictly_sorted(self.frames()),
            has_frame_at(self.frames(), KeyTime(Float32(0))),
    {
        proof {
            use_type_invariant(self);
        }
        self.key_frame_list.len()
    }

    /// The time of the last key frame whose time is not NaN: the latest time
    /// of the list. Since the list is always seeded with a frame at time 0,
    /// this is well defined and `>= 0`.
    pub fn max_time(&self) -> (r: KeyTime)
        ensures
            r == last_defined_time(self.frames()),
            is_latest_defined_time(r, self.frames()),
            at_least_zero32(r.0.0),
            r.0.0 < F32_SIGN,
            strictly_sorted(self.frames()),
    {
        proof {
            use_type_invariant(self);
        }
        let ghost f = self.frames();
        let ghost j0 = choose|j: int| 0 <= j < f.len() && f[j].time == KeyTime(Float32(0));
        let mut i: usize = self.key_frame_list.len() - 1;
        while self.key_frame_list[i].time.0.is_nan()
            invariant
                f == self.key_frame_list@,
                0 <= j0 <= i < f.len(),
                f[j0].time == KeyTime(Float32(0)),
                forall|k: int| i < k < f.len() ==> is_nan32(#[trigger] f[k].time.0.0),
            decreases i,
        {
            i = i - 1;
        }
        proof {
            lemma_last_defined_time_at(f, i as int);
            lemma_sorted_last_defined_time(f);
        }
        self.key_frame_list[i].time
    }
}

impl<T: Copy> ClosedKeyFrameList<T> {
    /// Finds the frames that determine the value at `time`. Up to the first key
    /// frame the first value holds, after the last key frame the last value; in
    /// between, the two surrounding frames are returned for interpolation.
    pub fn get_interpolation_span(&self, time: KeyTime) -> (r: InterpolationSpan<T>)
        ensures
            ({
                let f = self.frames();
                match r {
                    InterpolationSpan::Single(v) => (time.key() <= f[0].time.key() && v
                        == f[0].value) || (f.last().time.key() < time.key() && v == f.last().value),
                    InterpolationSpan::Between(a, b) => exists|i: int|
                        0 < i < f.len() && a == f[i - 1] && b == f[i] && #[trigger] f[i
                            - 1].time.key() < time.key() <= f[i].time.key(),
                }
            }),
            (r is Single) <==> (time.key() <= self.frames()[0].time.key()
                || self.frames().last().time.key() < time.key()),
            strictly_sorted(self.frames()),
    {
        proof {
            use_type_invariant(self);
        }
        let length = self.key_frame_list.len();
        let idx = partition_point(&self.key_frame_list, &time);
        if idx == 0 {
            InterpolationSpan::Single(self.key_frame_list[0].value)
        } else if idx >= length {
            proof {
                if length > 1 {
                    assert(self.frames()[0].time.key() < self.frames()[length - 1].time.key());
                }
            }
            InterpolationSpan::Single(self.key_frame_list[length - 1].value)
        } else {
            proof {
                assert(self.frames()[0].time.key() <= self.frames()[idx - 1].time.key()) by {
                    if idx - 1 > 0 {
                        assert(self.frames()[0].time.key() < self.frames()[idx - 1].time.key());
                    }
                }
                assert(self.frames()[idx as int].time.key() <= self.frames()[length - 1].time.key()) by {
                    if idx < length - 1 {
                        assert(self.frames()[idx as int].time.key() < self.frames()[length - 1].time.key());
                    }
                }
                assert(self.frames()[idx - 1].time.key() < time.key());
            }
            InterpolationSpan::Between(self.key_frame_list[idx - 1], self.key_frame_list[idx])
        }
    }
}

} // verus!

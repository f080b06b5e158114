//! Segments: the parts of a room's timeline that survive the cuts, as the
//! complement of the gap list within the room's duration.

use vstd::prelude::*;

verus! {

pub const NANOSECONDS_IN_MILLISECOND: i64 = 1_000_000;

/// Whether the instant `t` lies in one of the half-open intervals.
pub open spec fn covers(intervals: Seq<(i64, i64)>, t: int) -> bool
    decreases intervals.len(),
{
    intervals.len() > 0 && (covers(intervals.drop_last(), t) || intervals.last().0 <= t
        < intervals.last().1)
}

/// Every interval is non-empty and ends strictly before the next one begins.
pub open spec fn separated(intervals: Seq<(i64, i64)>) -> bool {
    &&& forall|i: int| 0 <= i < intervals.len() ==> (#[trigger] intervals[i]).0 < intervals[i].1
    &&& forall|i: int, j: int|
        0 <= i < j < intervals.len() ==> (#[trigger] intervals[i]).1 < (#[trigger] intervals[j]).0
}

/// The summed length of the intervals.
pub open spec fn total_length(intervals: Seq<(i64, i64)>) -> int
    decreases intervals.len(),
{
    if intervals.len() == 0 {
        0
    } else {
        total_length(intervals.drop_last()) + (intervals.last().1 - intervals.last().0)
    }
}

/// `segments` is the complement of `gaps` within `[0, duration)`: the maximal
/// intervals of instants of the room that no gap covers.
pub open spec fn is_complement(segments: Seq<(i64, i64)>, gaps: Seq<(i64, i64)>, duration: int) -> bool {
    &&& separated(segments)
    &&& forall|t: int| #[trigger] covers(segments, t) <==> 0 <= t < duration && !covers(gaps, t)
}

/// `covers` is membership in one of the intervals.
pub proof fn lemma_covers_is_membership(intervals: Seq<(i64, i64)>, t: int)
    ensures
        covers(intervals, t) <==> exists|i: int|
            0 <= i < intervals.len() && (#[trigger] intervals[i]).0 <= t < intervals[i].1,
    decreases intervals.len(),
{
    if intervals.len() > 0 {
        let rest = intervals.drop_last();
        lemma_covers_is_membership(rest, t);
        if covers(intervals, t) {
            if covers(rest, t) {
                let i = choose|i: int| 0 <= i < rest.len() && (#[trigger] rest[i]).0 <= t < rest[i].1;
                assert(intervals[i] == rest[i]);
            } else {
                assert(intervals[intervals.len() - 1].0 <= t);
            }
        }
        if exists|i: int| 0 <= i < intervals.len() && (#[trigger] intervals[i]).0 <= t < intervals[i].1 {
            let i = choose|i: int|
                0 <= i < intervals.len() && (#[trigger] intervals[i]).0 <= t < intervals[i].1;
            if i < rest.len() {
                assert(rest[i] == intervals[i]);
            }
        }
    }
}

/// An interval appended to a list covers what it covers itself, besides
/// what the list covered.
pub proof fn lemma_covers_push(intervals: Seq<(i64, i64)>, last: (i64, i64))
    ensures
        forall|t: int| #[trigger]
            covers(intervals.push(last), t) <==> covers(intervals, t) || last.0 <= t < last.1,
{
    assert(intervals.push(last).drop_last() =~= intervals);
}

/// Removes the instants of `gap` from separated `segments`.
fn subtract_gap(segments: &Vec<(i64, i64)>, gap: (i64, i64)) -> (out: Vec<(i64, i64)>)
    requires
        separated(segments@),
    ensures
        separated(out@),
        forall|t: int| #[trigger] covers(out@, t) <==> covers(segments@, t) && !(gap.0 <= t < gap.1),
{
    let mut out: Vec<(i64, i64)> = Vec::new();
    let mut i: usize = 0;
    assert(segments@.take(0) =~= Seq::<(i64, i64)>::empty());
    while i < segments.len()
        invariant
            0 <= i <= segments.len(),
            separated(segments@),
            separated(out@),
            forall|k: int| 0 <= k < out.len() ==> i > 0 && (#[trigger] out[k]).1 <= segments[i - 1].1,
            forall|t: int| #[trigger]
                covers(out@, t) <==> covers(segments@.take(i as int), t) && !(gap.0 <= t < gap.1),
        decreases segments.len() - i,
    {
        let (a, b) = segments[i];
        let ghost before = out@;
        proof {
            assert(segments@.take(i + 1).drop_last() =~= segments@.take(i as int));
            assert(segments@.take(i + 1).last() == (a, b));
            assert forall|k: int| 0 <= k < out.len() implies (#[trigger] out[k]).1 < a by {
                assert(out[k].1 <= segments[i - 1].1);
                assert(segments[i - 1].1 < segments[i as int].0);
            }
        }
        proof {
            lemma_covers_push(segments@.take(i as int), (a, b));
            assert(segments@.take(i + 1) =~= segments@.take(i as int).push((a, b)));
        }
        if gap.1 <= a || gap.0 >= b || gap.0 >= gap.1 {
            out.push((a, b));
            proof {
                lemma_covers_push(before, (a, b));
            }
        } else {
            if a < gap.0 {
                out.push((a, gap.0));
                proof {
                    lemma_covers_push(before, (a, gap.0));
                }
            }
            let ghost middle = out@;
            if gap.1 < b {
                out.push((gap.1, b));
                proof {
                    lemma_covers_push(middle, (gap.1, b));
                }
            }
        }
        i += 1;
    }
    assert(segments@.take(i as int) =~= segments@);
    out
}

/// The complement of the gap list within `[0, room_duration)`, in the unit of
/// its arguments: the maximal intervals of the room's timeline that no gap
/// covers, in ascending order.
pub fn invert_segments(gaps: &Vec<(i64, i64)>, room_duration: i64) -> (res: Vec<(i64, i64)>)
    ensures
        is_complement(res@, gaps@, room_duration as int),
{
    let mut segments: Vec<(i64, i64)> = Vec::new();
    if room_duration > 0 {
        segments.push((0, room_duration));
        proof {
            lemma_covers_push(Seq::<(i64, i64)>::empty(), (0, room_duration));
        }
    }
    let mut j: usize = 0;
    assert(gaps@.take(0) =~= Seq::<(i64, i64)>::empty());
    while j < gaps.len()
        invariant
            0 <= j <= gaps.len(),
            is_complement(segments@, gaps@.take(j as int), room_duration as int),
        decreases gaps.len() - j,
    {
        proof {
            assert(gaps@.take(j + 1).drop_last() =~= gaps@.take(j as int));
            assert(gaps@.take(j + 1).last() == gaps[j as int]);
        }
        segments = subtract_gap(&segments, gaps[j]);
        j += 1;
    }
    assert(gaps@.take(j as int) =~= gaps@);
    segments
}

/// An ordered list of half-open intervals `[start, stop)` in milliseconds.
#[derive(Debug)]
pub struct Segments {
    intervals: Vec<(i64, i64)>,
}

impl View for Segments {
    type V = Seq<(i64, i64)>;

    closed spec fn view(&self) -> Seq<(i64, i64)> {
        self.intervals@
    }
}

/// A number of nanoseconds in whole milliseconds, cut towards zero.
pub open spec fn milliseconds_of(nanoseconds: i64) -> i64 {
    if nanoseconds >= 0 {
        (nanoseconds / NANOSECONDS_IN_MILLISECOND) as i64
    } else {
        (-((-nanoseconds) / (NANOSECONDS_IN_MILLISECOND as int))) as i64
    }
}

/// Each bound in whole milliseconds.
pub open spec fn in_milliseconds(intervals: Seq<(i64, i64)>) -> Seq<(i64, i64)> {
    Seq::new(
        intervals.len(),
        |i: int| (milliseconds_of(intervals[i].0), milliseconds_of(intervals[i].1)),
    )
}

/// All bounds are non-negative.
pub open spec fn non_negative(intervals: Seq<(i64, i64)>) -> bool {
    forall|i: int| 0 <= i < intervals.len() ==> 0 <= (#[trigger] intervals[i]).0 && 0 <= intervals[i].1
}

impl Segments {
    /// Segments with the given intervals.
    pub fn from(intervals: Vec<(i64, i64)>) -> (res: Segments)
        ensures
            res@ == intervals@,
    {
        Segments { intervals }
    }

    /// The number of intervals.
    pub fn len(&self) -> (n: usize)
        ensures
            n == self@.len(),
    {
        self.intervals.len()
    }

    /// The interval at `index`, as `(start, stop)`.
    pub fn get(&self, index: usize) -> (res: Option<(i64, i64)>)
        ensures
            res == if index < self@.len() {
                Some(self@[index as int])
            } else {
                None
            },
    {
        if index < self.intervals.len() {
            Some(self.intervals[index])
        } else {
            None
        }
    }

    /// The intervals, in order.
    pub fn to_vec(&self) -> (res: Vec<(i64, i64)>)
        ensures
            res@ == self@,
    {
        let mut out: Vec<(i64, i64)> = Vec::new();
        let mut i: usize = 0;
        while i < self.intervals.len()
            invariant
                0 <= i <= self.intervals.len(),
                out@ == self.intervals@.take(i as int),
            decreases self.intervals.len() - i,
        {
            out.push(self.intervals[i]);
            i += 1;
            assert(out@ =~= self.intervals@.take(i as int));
        }
        assert(self.intervals@.take(i as int) =~= self.intervals@);
        out
    }
}

/// A covered instant lies in `[0, duration)`, so the bounds of a complement do too.
pub proof fn lemma_complement_in_bounds(segments: Seq<(i64, i64)>, gaps: Seq<(i64, i64)>, duration: int)
    requires
        is_complement(segments, gaps, duration),
    ensures
        forall|i: int|
            0 <= i < segments.len() ==> 0 <= (#[trigger] segments[i]).0 < segments[i].1 <= duration,
{
    assert forall|i: int| 0 <= i < segments.len() implies 0 <= (#[trigger] segments[i]).0
        < segments[i].1 <= duration by {
        let (a, b) = segments[i];
        lemma_covers_is_membership(segments, a as int);
        lemma_covers_is_membership(segments, b - 1);
        assert(covers(segments, a as int));
        assert(covers(segments, b - 1));
    }
}

/// A number of nanoseconds in whole milliseconds, cut towards zero.
pub fn to_millisecond(nanoseconds: i64) -> (res: i64)
    ensures
        res == milliseconds_of(nanoseconds),
{
    if nanoseconds >= 0 {
        nanoseconds / NANOSECONDS_IN_MILLISECOND
    } else {
        let size: i128 = -(nanoseconds as i128);
        let whole: i128 = size / (NANOSECONDS_IN_MILLISECOND as i128);
        (-whole) as i64
    }
}

/// Converts nanosecond intervals to milliseconds, bound by bound.
pub fn to_milliseconds(intervals: &Vec<(i64, i64)>) -> (res: Segments)
    ensures
        res@ == in_milliseconds(intervals@),
{
    let mut out: Vec<(i64, i64)> = Vec::new();
    let mut i: usize = 0;
    while i < intervals.len()
        invariant
            0 <= i <= intervals.len(),
            out@ == in_milliseconds(intervals@.take(i as int)),
        decreases intervals.len() - i,
    {
        let (start, stop) = intervals[i];
        out.push((to_millisecond(start), to_millisecond(stop)));
        i += 1;
        assert(out@ =~= in_milliseconds(intervals@.take(i as int)));
    }
    assert(intervals@.take(i as int) =~= intervals@);
    Segments { intervals: out }
}

/// The modified segments of a commit: the complement of the gaps within
/// `[0, room_duration)` nanoseconds, reported in milliseconds.
pub fn modified_segments(gaps: &Vec<(i64, i64)>, room_duration: i64) -> (res: Segments)
    ensures
        exists|kept: Seq<(i64, i64)>| #[trigger]
            is_complement(kept, gaps@, room_duration as int) && res@ == in_milliseconds(kept),
{
    let kept = invert_segments(gaps, room_duration);
    to_milliseconds(&kept)
}

} // verus!

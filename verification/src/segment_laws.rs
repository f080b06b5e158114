//! Laws of the segments: what is left of a room's duration is what the gaps
//! do not take, in nanoseconds and, up to rounding, in milliseconds.

use vstd::prelude::*;
use crate::gaps::gaps_ordered;
use crate::segments::{
    covers,
    in_milliseconds,
    is_complement,
    lemma_complement_in_bounds,
    lemma_covers_is_membership,
    lemma_covers_push,
    non_negative,
    separated,
    total_length,
    NANOSECONDS_IN_MILLISECOND,
};

verus! {

/// The length of the part of an interval that lies within `[0, duration)`.
pub open spec fn clipped_length(interval: (i64, i64), duration: int) -> int {
    let start = if interval.0 < 0 {
        0
    } else {
        interval.0 as int
    };
    let stop = if interval.1 > duration {
        duration
    } else {
        interval.1 as int
    };
    if stop > start {
        stop - start
    } else {
        0
    }
}

/// The summed length of the parts of the intervals within `[0, duration)`.
pub open spec fn clipped_total(intervals: Seq<(i64, i64)>, duration: int) -> int
    decreases intervals.len(),
{
    if intervals.len() == 0 {
        0
    } else {
        clipped_total(intervals.drop_last(), duration) + clipped_length(intervals.last(), duration)
    }
}

/// The number of instants in `[0, n)` that the intervals cover.
pub open spec fn covered_instants(intervals: Seq<(i64, i64)>, n: int) -> int
    decreases n,
{
    if n <= 0 {
        0
    } else {
        covered_instants(intervals, n - 1) + if covers(intervals, n - 1) {
            1int
        } else {
            0int
        }
    }
}

/// An interval covers as many instants of `[0, n)` as its clipped length.
proof fn lemma_instants_of_interval(interval: (i64, i64), n: int)
    requires
        0 <= n,
    ensures
        covered_instants(seq![interval], n) == clipped_length(interval, n),
    decreases n,
{
    if n > 0 {
        lemma_instants_of_interval(interval, n - 1);
        lemma_covers_push(Seq::<(i64, i64)>::empty(), interval);
        assert(Seq::<(i64, i64)>::empty().push(interval) =~= seq![interval]);
    }
}

/// Instants add up over an interval that overlaps none before it.
proof fn lemma_instants_add_up(intervals: Seq<(i64, i64)>, last: (i64, i64), n: int)
    requires
        0 <= n,
        forall|t: int| !(covers(intervals, t) && last.0 <= t < last.1),
    ensures
        covered_instants(intervals.push(last), n) == covered_instants(intervals, n)
            + covered_instants(seq![last], n),
    decreases n,
{
    if n > 0 {
        lemma_instants_add_up(intervals, last, n - 1);
        lemma_covers_push(intervals, last);
        lemma_covers_push(Seq::<(i64, i64)>::empty(), last);
        assert(Seq::<(i64, i64)>::empty().push(last) =~= seq![last]);
    }
}

/// Intervals that do not overlap cover as many instants of `[0, n)` as
/// their clipped lengths add up to.
proof fn lemma_instants_of_ordered(intervals: Seq<(i64, i64)>, n: int)
    requires
        0 <= n,
        gaps_ordered(intervals),
    ensures
        covered_instants(intervals, n) == clipped_total(intervals, n),
    decreases intervals.len(),
{
    if intervals.len() == 0 {
        assert(intervals =~= Seq::<(i64, i64)>::empty());
        lemma_instants_of_none(n);
    } else {
        let rest = intervals.drop_last();
        let last = intervals.last();
        assert(gaps_ordered(rest)) by {
            assert forall|i: int| 0 <= i < rest.len() implies (#[trigger] rest[i]).0 <= rest[i].1 by {
                assert(rest[i] == intervals[i]);
            }
            assert forall|i: int, j: int| 0 <= i < j < rest.len() implies (#[trigger] rest[i]).1 <= (
            #[trigger] rest[j]).0 by {
                assert(rest[i] == intervals[i]);
                assert(rest[j] == intervals[j]);
            }
        }
        lemma_instants_of_ordered(rest, n);
        assert forall|t: int| !(covers(rest, t) && last.0 <= t < last.1) by {
            lemma_covers_is_membership(rest, t);
            if covers(rest, t) {
                let i = choose|i: int| 0 <= i < rest.len() && (#[trigger] rest[i]).0 <= t < rest[i].1;
                assert(rest[i] == intervals[i]);
                assert(intervals[i].1 <= intervals[intervals.len() - 1].0);
            }
        }
        lemma_instants_add_up(rest, last, n);
        lemma_instants_of_interval(last, n);
        assert(rest.push(last) =~= intervals);
    }
}

proof fn lemma_instants_of_none(n: int)
    ensures
        covered_instants(Seq::<(i64, i64)>::empty(), n) == 0,
    decreases n,
{
    if n > 0 {
        lemma_instants_of_none(n - 1);
    }
}

/// Of the first `n` instants of a room, each is left in one segment or
/// lies in a gap.
proof fn lemma_instants_part(segments: Seq<(i64, i64)>, gaps: Seq<(i64, i64)>, duration: int, n: int)
    requires
        is_complement(segments, gaps, duration),
        0 <= n <= duration,
    ensures
        covered_instants(segments, n) + covered_instants(gaps, n) == n,
    decreases n,
{
    if n > 0 {
        lemma_instants_part(segments, gaps, duration, n - 1);
    }
}

/// Separated intervals do not overlap.
proof fn lemma_separated_is_ordered(intervals: Seq<(i64, i64)>)
    requires
        separated(intervals),
    ensures
        gaps_ordered(intervals),
{
}

/// Intervals within `[0, duration)` are as long as their clipped lengths.
proof fn lemma_clipped_within(intervals: Seq<(i64, i64)>, duration: int)
    requires
        forall|i: int|
            0 <= i < intervals.len() ==> 0 <= (#[trigger] intervals[i]).0 <= intervals[i].1 <= duration,
    ensures
        clipped_total(intervals, duration) == total_length(intervals),
    decreases intervals.len(),
{
    if intervals.len() > 0 {
        let rest = intervals.drop_last();
        assert forall|i: int| 0 <= i < rest.len() implies 0 <= (#[trigger] rest[i]).0 <= rest[i].1
            <= duration by {
            assert(rest[i] == intervals[i]);
        }
        lemma_clipped_within(rest, duration);
        assert(intervals.last() == intervals[intervals.len() - 1]);
    }
}

/// The segments complement the gaps.
///
/// For gaps that are ordered, as the gap analyzer emits them, and a room of
/// duration `duration`: the lengths of the segments add up to the duration
/// less the lengths of the parts of the gaps that lie within the room.
pub proof fn law_segments_complement_gaps(
    segments: Seq<(i64, i64)>,
    gaps: Seq<(i64, i64)>,
    duration: int,
)
    requires
        0 <= duration,
        gaps_ordered(gaps),
        is_complement(segments, gaps, duration),
    ensures
        total_length(segments) == duration - clipped_total(gaps, duration),
{
    lemma_instants_part(segments, gaps, duration, duration);
    lemma_instants_of_ordered(gaps, duration);
    lemma_separated_is_ordered(segments);
    lemma_instants_of_ordered(segments, duration);
    lemma_complement_in_bounds(segments, gaps, duration);
    lemma_clipped_within(segments, duration);
}

/// The conversion to milliseconds loses less than a millisecond at each
/// bound: the lengths in milliseconds, taken back to nanoseconds, differ
/// from the lengths in nanoseconds by less than a millisecond for each
/// interval.
pub proof fn law_milliseconds_are_close(intervals: Seq<(i64, i64)>)
    requires
        non_negative(intervals),
    ensures
        ({
            let exact = total_length(intervals);
            let rounded = total_length(in_milliseconds(intervals)) * NANOSECONDS_IN_MILLISECOND;
            let slack = intervals.len() * (NANOSECONDS_IN_MILLISECOND - 1);
            exact - slack <= rounded <= exact + slack
        }),
    decreases intervals.len(),
{
    if intervals.len() > 0 {
        let rest = intervals.drop_last();
        assert(non_negative(rest)) by {
            assert forall|i: int| 0 <= i < rest.len() implies 0 <= (#[trigger] rest[i]).0 && 0
                <= rest[i].1 by {
                assert(rest[i] == intervals[i]);
            }
        }
        law_milliseconds_are_close(rest);
        assert(in_milliseconds(intervals).drop_last() =~= in_milliseconds(rest));
        let last = intervals.last();
        assert(last == intervals[intervals.len() - 1]);
        let m = NANOSECONDS_IN_MILLISECOND as int;
        let a = last.0 as int;
        let b = last.1 as int;
        assert(in_milliseconds(intervals).last() == ((a / m) as i64, (b / m) as i64)) by {
            assert(in_milliseconds(intervals).last() == in_milliseconds(intervals)[intervals.len() - 1]);
        }
        assert(0 <= a / m <= a && 0 <= b / m <= b && a - (m - 1) <= (a / m) * m <= a && b - (m - 1)
            <= (b / m) * m <= b) by (nonlinear_arith)
            requires
                a >= 0,
                b >= 0,
                m == 1_000_000,
        ;
        let rounded_rest = total_length(in_milliseconds(rest));
        let qa = a / m;
        let qb = b / m;
        assert((rounded_rest + (qb - qa)) * m == rounded_rest * m + qb * m - qa * m)
            by (nonlinear_arith);
        assert(intervals.len() * (m - 1) == rest.len() * (m - 1) + (m - 1)) by (nonlinear_arith)
            requires
                intervals.len() == rest.len() + 1,
        ;
    }
}

} // verus!

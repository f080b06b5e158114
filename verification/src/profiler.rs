//! Profiler entries: the measurements of one kind of operation, and the
//! report drawn from those of the last seconds.

use vstd::prelude::*;
use crate::ordering::{ascending_order, is_ascending_order, key_before, Key};
use crate::rounding::{percentile_index, percentile_position, HIGH_PERCENTILE, LOW_PERCENTILE};

verus! {

pub const NANOSECONDS_IN_SECOND: u128 = 1_000_000_000;

/// The report of an entry: two high percentiles and the maximum of the
/// measurements, all zero where there are none.
#[derive(Clone, Copy, Debug, PartialEq, Eq, Structural)]
pub struct EntryReport {
    pub p95: usize,
    pub p99: usize,
    pub max: usize,
}

impl Default for EntryReport {
    fn default() -> (res: EntryReport)
        ensures
            res == (EntryReport { p95: 0, p99: 0, max: 0 }),
    {
        EntryReport { p95: 0, p99: 0, max: 0 }
    }
}

#[verifier::external_type_specification]
#[verifier::external_body]
pub struct ExInstant(std::time::Instant);

/// Reads the monotonic clock with `std::time::Instant::now`.
///
/// Trusted: nothing is claimed of the instant read.
#[verifier::external_body]
fn clock() -> std::time::Instant {
    std::time::Instant::now()
}

/// The time since `origin` on the monotonic clock, read with
/// `std::time::Instant::elapsed`.
///
/// Trusted: nothing is claimed of the time read.
#[verifier::external_body]
fn elapsed(origin: &std::time::Instant) -> core::time::Duration {
    origin.elapsed()
}

/// The length of a duration in nanoseconds, as
/// `core::time::Duration::as_nanos` gives it.
///
/// Trusted: nothing is claimed of the number.
#[verifier::external_body]
fn nanoseconds(duration: &core::time::Duration) -> u128 {
    duration.as_nanos()
}

/// The measurements of one kind of operation: values, each with the time of
/// its registration in nanoseconds since the entry was made.
pub struct Entry {
    origin: std::time::Instant,
    values: Vec<(usize, u128)>,
}

impl View for Entry {
    type V = Seq<(usize, u128)>;

    closed spec fn view(&self) -> Seq<(usize, u128)> {
        self.values@
    }
}

/// The whole seconds between a registration at `at` and the instant `now`;
/// none where `now` is not after `at`.
pub open spec fn age_in_seconds(now: u128, at: u128) -> int {
    if now >= at {
        (now - at) / (NANOSECONDS_IN_SECOND as int)
    } else {
        0
    }
}

/// The measurements that are less than `duration` seconds old at `now`, in
/// their order.
pub open spec fn retained(values: Seq<(usize, u128)>, now: u128, duration: u64) -> Seq<(usize, u128)>
    decreases values.len(),
{
    if values.len() == 0 {
        Seq::empty()
    } else if age_in_seconds(now, values.last().1) < duration {
        retained(values.drop_last(), now, duration).push(values.last())
    } else {
        retained(values.drop_last(), now, duration)
    }
}

/// Whether `after` is what a flush at some time leaves of `before`: the
/// measurements less than `duration` seconds old, in ascending order of
/// value.
pub open spec fn flushed(after: Seq<(usize, u128)>, before: Seq<(usize, u128)>, duration: u64) -> bool {
    exists|now: u128| is_sorted_copy(after, #[trigger] retained(before, now, duration))
}

/// Whether `report` is the report on `values`, whatever their order.
pub open spec fn reports_on(report: EntryReport, values: Seq<(usize, u128)>) -> bool {
    exists|sorted: Seq<(usize, u128)>| #[trigger]
        is_sorted_copy(sorted, values) && report == report_of(sorted)
}

/// Whether `after` is `before` with one more measurement of `value`, taken
/// at some time.
pub open spec fn gained(after: Seq<(usize, u128)>, before: Seq<(usize, u128)>, value: usize) -> bool {
    exists|at: u128| after == before.push((value, at))
}

/// The sort keys of measurements: their values.
pub open spec fn value_keys(values: Seq<(usize, u128)>) -> Seq<Key> {
    Seq::new(values.len(), |i: int| (0i64, 0i64, values[i].0 as u128))
}

/// Whether `sorted` holds the measurements of `values` in ascending order
/// of value, measurements of equal value in their order.
pub open spec fn is_sorted_copy(sorted: Seq<(usize, u128)>, values: Seq<(usize, u128)>) -> bool {
    exists|order: Seq<usize>| #[trigger]
        is_ascending_order(order, value_keys(values)) && sorted == Seq::new(
            values.len(),
            |k: int| values[order[k] as int],
        )
}

/// The value that stands for a percentile: the mean of the measurement at
/// the percentile's position and the maximum, rounded down; the maximum
/// where the position is that of the maximum or beyond.
pub open spec fn percentile_value(sorted: Seq<(usize, u128)>, position: nat) -> int {
    let last = sorted.len() - 1;
    if position < last {
        (sorted[position as int].0 + sorted[last].0) / 2
    } else {
        sorted[last].0 as int
    }
}

/// The report of measurements in ascending order of value.
pub open spec fn report_of(sorted: Seq<(usize, u128)>) -> EntryReport {
    if sorted.len() == 0 {
        EntryReport { p95: 0, p99: 0, max: 0 }
    } else {
        EntryReport {
            p95: percentile_value(sorted, percentile_position(sorted.len(), LOW_PERCENTILE as nat)) as usize,
            p99: percentile_value(sorted, percentile_position(sorted.len(), HIGH_PERCENTILE as nat)) as usize,
            max: sorted[sorted.len() - 1].0,
        }
    }
}

/// The value for the percentile with the given multiplier.
fn value_at(sorted: &Vec<(usize, u128)>, multiplier: u128) -> (res: usize)
    requires
        sorted.len() > 0,
        multiplier < 0x100_0000,
    ensures
        res == percentile_value(sorted@, percentile_position(sorted@.len(), multiplier as nat)),
{
    let last = sorted.len() - 1;
    let max = sorted[last].0;
    let position = percentile_index(sorted.len(), multiplier);
    if position < last as u128 {
        let mean: u128 = (sorted[position as usize].0 as u128 + max as u128) / 2;
        mean as usize
    } else {
        max
    }
}

/// Arranges measurements in ascending order of value, measurements of
/// equal value in their order, and reports on them.
pub fn sorted_report(values: &Vec<(usize, u128)>) -> (res: (Vec<(usize, u128)>, EntryReport))
    ensures
        is_sorted_copy(res.0@, values@),
        res.1 == report_of(res.0@),
{
    let mut keys: Vec<Key> = Vec::new();
    let mut i: usize = 0;
    while i < values.len()
        invariant
            0 <= i <= values.len(),
            keys@ == value_keys(values@.take(i as int)),
        decreases values.len() - i,
    {
        keys.push((0, 0, values[i].0 as u128));
        i += 1;
        assert(keys@ =~= value_keys(values@.take(i as int)));
    }
    assert(values@.take(i as int) =~= values@);
    let order = ascending_order(&keys);
    let mut sorted: Vec<(usize, u128)> = Vec::new();
    let mut k: usize = 0;
    while k < order.len()
        invariant
            0 <= k <= order.len(),
            order.len() == values.len(),
            is_ascending_order(order@, value_keys(values@)),
            sorted.len() == k,
            forall|m: int| 0 <= m < k ==> (#[trigger] sorted[m]) == values[order[m] as int],
        decreases order.len() - k,
    {
        assert(order[k as int] < value_keys(values@).len());
        sorted.push(values[order[k]]);
        k += 1;
    }
    assert(sorted@ =~= Seq::new(values@.len(), |m: int| values@[order@[m] as int]));
    let report = if sorted.len() == 0 {
        EntryReport::default()
    } else {
        let last = sorted.len() - 1;
        EntryReport {
            p95: value_at(&sorted, LOW_PERCENTILE),
            p99: value_at(&sorted, HIGH_PERCENTILE),
            max: sorted[last].0,
        }
    };
    (sorted, report)
}

impl Entry {
    /// An entry without measurements.
    pub fn new() -> (res: Entry)
        ensures
            res@ == Seq::<(usize, u128)>::empty(),
    {
        Entry { origin: clock(), values: Vec::new() }
    }

    /// Registers a measurement at the present time.
    pub fn register(&mut self, value: usize)
        ensures
            gained(final(self)@, old(self)@, value),
    {
        let at = nanoseconds(&elapsed(&self.origin));
        self.register_at(value, at);
    }

    /// Registers a measurement at the time `at`, in nanoseconds since the
    /// entry was made.
    pub fn register_at(&mut self, value: usize, at: u128)
        ensures
            final(self)@ == old(self)@.push((value, at)),
    {
        self.values.push((value, at));
    }

    /// Drops the measurements that are `duration` seconds old or older at
    /// the present time, and reports on the others.
    pub fn flush(&mut self, duration: u64) -> (report: EntryReport)
        ensures
            flushed(final(self)@, old(self)@, duration),
            report == report_of(final(self)@),
    {
        let now = nanoseconds(&elapsed(&self.origin));
        self.flush_at(now, duration)
    }

    /// Drops the measurements that are `duration` seconds old or older at
    /// the time `now`, in nanoseconds since the entry was made; keeps the
    /// others in ascending order of value; and reports on them.
    pub fn flush_at(&mut self, now: u128, duration: u64) -> (report: EntryReport)
        ensures
            is_sorted_copy(final(self)@, retained(old(self)@, now, duration)),
            report == report_of(final(self)@),
    {
        let mut kept: Vec<(usize, u128)> = Vec::new();
        let mut i: usize = 0;
        assert(self.values@.take(0) =~= Seq::<(usize, u128)>::empty());
        while i < self.values.len()
            invariant
                0 <= i <= self.values.len(),
                self.values@ == old(self).values@,
                kept@ == retained(self.values@.take(i as int), now, duration),
            decreases self.values.len() - i,
        {
            let (value, at) = self.values[i];
            proof {
                assert(self.values@.take(i + 1).drop_last() =~= self.values@.take(i as int));
                assert(self.values@.take(i + 1).last() == (value, at));
            }
            let age: u128 = if now >= at {
                (now - at) / NANOSECONDS_IN_SECOND
            } else {
                0
            };
            if age < duration as u128 {
                kept.push((value, at));
            }
            i += 1;
        }
        assert(self.values@.take(i as int) =~= self.values@);
        let (sorted, report) = sorted_report(&kept);
        self.values = sorted;
        report
    }

    /// The number of measurements held.
    pub fn len(&self) -> (n: usize)
        ensures
            n == self@.len(),
    {
        self.values.len()
    }
}

/// In a sorted copy the values ascend, so the last one is the maximum.
pub proof fn law_sorted_copy_ascends(sorted: Seq<(usize, u128)>, values: Seq<(usize, u128)>, a: int, b: int)
    requires
        is_sorted_copy(sorted, values),
        0 <= a <= b < sorted.len(),
    ensures
        sorted[a].0 <= sorted[b].0,
{
    let order = choose|order: Seq<usize>| #[trigger]
        is_ascending_order(order, value_keys(values)) && sorted == Seq::new(
            values.len(),
            |k: int| values[order[k] as int],
        );
    if a < b {
        assert(key_before(value_keys(values), order[a] as int, order[b] as int));
    }
}

} // verus!

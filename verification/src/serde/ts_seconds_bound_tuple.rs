//! A room's time on the wire: the pair `[lt, rt)` of Unix seconds, `null`
//! for an end without a bound.

use vstd::prelude::*;
use crate::room::Bound;

verus! {

pub const NANOSECONDS_IN_SECOND: i64 = 1_000_000_000;

/// Why a pair of seconds is no room time.
#[derive(Clone, Copy, Debug, PartialEq, Eq, Structural)]
pub enum TimeError {
    /// The sequence ends before the element with this number, from 1; or
    /// it holds this many elements, more than two.
    InvalidLength(usize),
    /// The instant so many seconds from the epoch is not a 64-bit number of
    /// nanoseconds.
    OutOfRange(i64),
}

/// The whole seconds from the epoch to an instant in nanoseconds.
pub open spec fn seconds_of(nanoseconds: i64) -> i64 {
    (nanoseconds as int / NANOSECONDS_IN_SECOND as int) as i64
}

/// The lower end on the wire: the seconds of an included bound, one more
/// for an excluded one, nothing without a bound.
pub open spec fn lower_on_wire(bound: Bound) -> Option<i64> {
    match bound {
        Bound::Included(t) => Some(seconds_of(t)),
        Bound::Excluded(t) => Some((seconds_of(t) + 1) as i64),
        Bound::Unbounded => None,
    }
}

/// The upper end on the wire: the seconds of an excluded bound, one less
/// for an included one, nothing without a bound.
pub open spec fn upper_on_wire(bound: Bound) -> Option<i64> {
    match bound {
        Bound::Included(t) => Some((seconds_of(t) - 1) as i64),
        Bound::Excluded(t) => Some(seconds_of(t)),
        Bound::Unbounded => None,
    }
}

/// Whether so many seconds are a 64-bit number of nanoseconds.
pub open spec fn in_range(seconds: i64) -> bool {
    i64::MIN <= seconds * NANOSECONDS_IN_SECOND <= i64::MAX
}

/// The time that a sequence of elements stands for.
pub open spec fn time_of(elements: Seq<Option<i64>>) -> Result<(Bound, Bound), TimeError> {
    if elements.len() == 0 {
        Err(TimeError::InvalidLength(1))
    } else if elements[0] is Some && !in_range(elements[0].unwrap()) {
        Err(TimeError::OutOfRange(elements[0].unwrap()))
    } else if elements.len() == 1 {
        Err(TimeError::InvalidLength(2))
    } else if elements[1] is Some && !in_range(elements[1].unwrap()) {
        Err(TimeError::OutOfRange(elements[1].unwrap()))
    } else if elements.len() > 2 {
        Err(TimeError::InvalidLength(elements.len() as usize))
    } else {
        Ok(
            (
                match elements[0] {
                    Some(lt) => Bound::Included((lt * NANOSECONDS_IN_SECOND) as i64),
                    None => Bound::Unbounded,
                },
                match elements[1] {
                    Some(rt) => Bound::Excluded((rt * NANOSECONDS_IN_SECOND) as i64),
                    None => Bound::Unbounded,
                },
            ),
        )
    }
}

/// The whole seconds from the epoch to an instant in nanoseconds, rounded
/// towards the past.
pub fn timestamp(nanoseconds: i64) -> (res: i64)
    ensures
        res == seconds_of(nanoseconds),
        -9_223_372_037 <= res <= 9_223_372_036,
{
    if nanoseconds >= 0 {
        nanoseconds / NANOSECONDS_IN_SECOND
    } else {
        let back: i64 = -(nanoseconds + 1);
        let q = back / NANOSECONDS_IN_SECOND;
        assert(nanoseconds as int / 1_000_000_000 == -q - 1) by (nonlinear_arith)
            requires
                nanoseconds < 0,
                back == -(nanoseconds + 1),
                q == back / 1_000_000_000,
        ;
        -q - 1
    }
}

/// Writes a room's time as the pair `[lt, rt)` of Unix seconds: the bounds
/// are moved to a closed lower end and an open upper end.
pub fn serialize(value: &(Bound, Bound)) -> (res: (Option<i64>, Option<i64>))
    ensures
        res.0 == lower_on_wire(value.0),
        res.1 == upper_on_wire(value.1),
{
    let lt = match value.0 {
        Bound::Included(t) => Some(timestamp(t)),
        Bound::Excluded(t) => Some(timestamp(t) + 1),
        Bound::Unbounded => None,
    };
    let rt = match value.1 {
        Bound::Included(t) => Some(timestamp(t) - 1),
        Bound::Excluded(t) => Some(timestamp(t)),
        Bound::Unbounded => None,
    };
    (lt, rt)
}

/// The instant so many seconds from the epoch, in nanoseconds.
fn instant(seconds: i64) -> (res: Option<i64>)
    ensures
        res is Some <==> in_range(seconds),
        res matches Some(t) ==> t == seconds * NANOSECONDS_IN_SECOND,
{
    let product: i128 = seconds as i128 * NANOSECONDS_IN_SECOND as i128;
    if product < i64::MIN as i128 || product > i64::MAX as i128 {
        None
    } else {
        Some(product as i64)
    }
}

/// Reads a room's time from the elements of a sequence: two numbers of
/// Unix seconds, the lower end included and the upper end excluded, or
/// `None` for an end without a bound.
///
/// Fails when an element is missing, when there are more than two, and when
/// an instant is not a 64-bit number of nanoseconds; the elements are read
/// in order, and the first fault decides.
pub fn deserialize(elements: &Vec<Option<i64>>) -> (res: Result<(Bound, Bound), TimeError>)
    ensures
        res == time_of(elements@),
{
    if elements.len() == 0 {
        return Err(TimeError::InvalidLength(1));
    }
    let lt = match elements[0] {
        Some(val) => match instant(val) {
            Some(t) => Bound::Included(t),
            None => {
                return Err(TimeError::OutOfRange(val));
            },
        },
        None => Bound::Unbounded,
    };
    if elements.len() == 1 {
        return Err(TimeError::InvalidLength(2));
    }
    let rt = match elements[1] {
        Some(val) => match instant(val) {
            Some(t) => Bound::Excluded(t),
            None => {
                return Err(TimeError::OutOfRange(val));
            },
        },
        None => Bound::Unbounded,
    };
    if elements.len() > 2 {
        return Err(TimeError::InvalidLength(elements.len()));
    }
    Ok((lt, rt))
}

} // verus!

//! Placing the joined rows on the destination timeline: every row moves by
//! the gaps before it, and rows that land on the same instant are spread
//! over consecutive nanoseconds in the order of their creation.

use vstd::prelude::*;
use crate::event::{clone_opt, Event};
use crate::rows::Row;
use crate::squeeze::{proper_gaps, squeeze, squeezed};

verus! {

/// Some row has no place on the destination timeline: its squeezed time is
/// before the room's opening, or its final time is not a 64-bit number.
#[derive(Clone, Copy, Debug, PartialEq, Eq, Structural)]
pub struct TimeOutOfRange;

/// The squeezed time of row `i`: where it lands on the destination timeline.
pub open spec fn row_time(rows: Seq<Row>, gaps: Seq<(i64, i64)>, i: int) -> int {
    squeezed(gaps, rows[i].occurred_at as int)
}

/// Whether row `j` lands on the same instant as row `i` and comes before it:
/// it was created earlier or, created at the same time, stands earlier in
/// the join.
pub open spec fn collides_before(rows: Seq<Row>, gaps: Seq<(i64, i64)>, j: int, i: int) -> bool {
    &&& row_time(rows, gaps, j) == row_time(rows, gaps, i)
    &&& (rows[j].created_at < rows[i].created_at || (rows[j].created_at == rows[i].created_at && j
        < i))
}

/// The number of rows among the first `n` that collide with row `i` and come
/// before it.
pub open spec fn rank_among(rows: Seq<Row>, gaps: Seq<(i64, i64)>, i: int, n: int) -> nat
    decreases n,
{
    if n <= 0 {
        0
    } else {
        rank_among(rows, gaps, i, n - 1) + if collides_before(rows, gaps, n - 1, i) {
            1nat
        } else {
            0nat
        }
    }
}

/// The position of row `i` among the rows that land on its instant, from 0.
pub open spec fn rank(rows: Seq<Row>, gaps: Seq<(i64, i64)>, i: int) -> nat {
    rank_among(rows, gaps, i, rows.len() as int)
}

/// The time of row `i` in the destination: its squeezed time, plus one
/// nanosecond for each row that collides with it and comes before it.
///
/// Rows that collide so get different times. A row that is spread from one
/// instant may still meet a row that lands on a later instant: the spread
/// takes no account of the instants behind it.
pub open spec fn destination_time(rows: Seq<Row>, gaps: Seq<(i64, i64)>, i: int) -> int {
    row_time(rows, gaps, i) + rank(rows, gaps, i)
}

/// Every row has a place on the destination timeline.
pub open spec fn placeable(rows: Seq<Row>, gaps: Seq<(i64, i64)>) -> bool {
    forall|i: int|
        0 <= i < rows.len() ==> 0 <= #[trigger] row_time(rows, gaps, i) && destination_time(
            rows,
            gaps,
            i,
        ) <= i64::MAX
}

/// The event that a row becomes. A row that continues a source event keeps
/// that event's original time; a new one takes its first time as original.
pub open spec fn placed(row: Row, id: u128, room_id: u128, occurred_at: i64) -> Event {
    Event {
        id,
        room_id,
        kind: row.kind,
        set: row.set,
        label: row.label,
        data: row.data,
        occurred_at,
        original_occurred_at: match row.original_occurred_at {
            Some(t) => t,
            None => occurred_at,
        },
        attribute: row.attribute,
        created_by: row.created_by,
        created_at: row.created_at,
        removed: false,
    }
}

/// The rows placed in the room `room_id`, row `i` under the id `ids[i]`
/// and at its destination time.
pub open spec fn destination_events(
    rows: Seq<Row>,
    gaps: Seq<(i64, i64)>,
    room_id: u128,
    ids: Seq<u128>,
) -> Seq<Event> {
    Seq::new(
        rows.len(),
        |i: int| placed(rows[i], ids[i], room_id, destination_time(rows, gaps, i) as i64),
    )
}

/// Rows that land on the same instant are spread: the one that comes
/// before the other gets the lower rank, hence the earlier time.
pub proof fn law_colliding_rows_are_spread(rows: Seq<Row>, gaps: Seq<(i64, i64)>, i: int, j: int)
    requires
        0 <= i < rows.len(),
        0 <= j < rows.len(),
        collides_before(rows, gaps, j, i),
    ensures
        rank(rows, gaps, j) < rank(rows, gaps, i),
        destination_time(rows, gaps, j) < destination_time(rows, gaps, i),
{
    lemma_rank_grows(rows, gaps, j, i, rows.len() as int);
}

/// Whatever comes before row `j` comes before row `i` too, when `j` comes
/// before `i`; and `j` itself is counted for `i` only.
proof fn lemma_rank_grows(rows: Seq<Row>, gaps: Seq<(i64, i64)>, j: int, i: int, n: int)
    requires
        0 <= n <= rows.len(),
        0 <= i < rows.len(),
        0 <= j < rows.len(),
        collides_before(rows, gaps, j, i),
    ensures
        rank_among(rows, gaps, j, n) + (if j < n {
            1int
        } else {
            0int
        }) <= rank_among(rows, gaps, i, n),
    decreases n,
{
    if n > 0 {
        lemma_rank_grows(rows, gaps, j, i, n - 1);
    }
}

/// Whether `times` holds the squeezed times of the first `n` rows, none of
/// them before the room's opening.
pub open spec fn are_row_times(times: Seq<i64>, rows: Seq<Row>, gaps: Seq<(i64, i64)>, n: int) -> bool {
    forall|k: int| 0 <= k < n ==> 0 <= #[trigger] times[k] && times[k] == row_time(rows, gaps, k)
}

/// The squeezed time of every row, or `None` where one lies before the
/// room's opening.
fn squeezed_times(rows: &Vec<Row>, gaps: &Vec<(i64, i64)>) -> (res: Option<Vec<i64>>)
    requires
        proper_gaps(gaps@),
    ensures
        res is Some <==> forall|i: int|
            0 <= i < rows.len() ==> 0 <= #[trigger] row_time(rows@, gaps@, i),
        res matches Some(times) ==> times.len() == rows.len() && are_row_times(
            times@,
            rows@,
            gaps@,
            rows.len() as int,
        ),
{
    let mut times: Vec<i64> = Vec::new();
    let mut i: usize = 0;
    while i < rows.len()
        invariant
            0 <= i <= rows.len(),
            proper_gaps(gaps@),
            times.len() == i,
            are_row_times(times@, rows@, gaps@, i as int),
        decreases rows.len() - i,
    {
        assert(row_time(rows@, gaps@, i as int) == squeezed(gaps@, rows[i as int].occurred_at as int));
        match squeeze(gaps, rows[i].occurred_at) {
            Some(t) => {
                if t < 0 {
                    return None;
                }
                times.push(t);
            },
            None => {
                return None;
            },
        }
        i += 1;
    }
    assert forall|k: int| 0 <= k < rows.len() implies 0 <= #[trigger] row_time(rows@, gaps@, k) by {
        assert(0 <= times[k]);
    }
    Some(times)
}

/// The event of one row.
fn place(row: &Row, id: u128, room_id: u128, occurred_at: i64) -> (res: Event)
    ensures
        res == placed(*row, id, room_id, occurred_at),
{
    Event {
        id,
        room_id,
        kind: row.kind.clone(),
        set: row.set.clone(),
        label: clone_opt(&row.label),
        data: row.data.clone(),
        occurred_at,
        original_occurred_at: match row.original_occurred_at {
            Some(t) => t,
            None => occurred_at,
        },
        attribute: clone_opt(&row.attribute),
        created_by: row.created_by.clone(),
        created_at: row.created_at,
        removed: false,
    }
}

/// Places the rows in the room `room_id`, row `i` under the id `ids[i]`.
///
/// Each event occurs at the squeezed time of its row plus the row's rank
/// among the rows that land on the same instant. Fails exactly when some row
/// has no place on the destination timeline.
pub fn place_rows(rows: &Vec<Row>, gaps: &Vec<(i64, i64)>, room_id: u128, ids: &Vec<u128>) -> (res:
    Result<Vec<Event>, TimeOutOfRange>)
    requires
        proper_gaps(gaps@),
        ids.len() == rows.len(),
    ensures
        res is Ok <==> placeable(rows@, gaps@),
        res matches Ok(events) ==> events@ == destination_events(rows@, gaps@, room_id, ids@),
        res matches Ok(events) ==> forall|i: int| 0 <= i < events.len() ==> (#[trigger] events[i]).wf(),
{
    let times = match squeezed_times(rows, gaps) {
        Some(times) => times,
        None => {
            return Err(TimeOutOfRange);
        },
    };
    let mut events: Vec<Event> = Vec::new();
    let mut i: usize = 0;
    while i < rows.len()
        invariant
            0 <= i <= rows.len(),
            ids.len() == rows.len(),
            times.len() == rows.len(),
            are_row_times(times@, rows@, gaps@, rows.len() as int),
            events.len() == i,
            forall|k: int|
                0 <= k < i ==> destination_time(rows@, gaps@, k) <= i64::MAX && #[trigger] events[k]
                    == placed(rows[k], ids[k], room_id, destination_time(rows@, gaps@, k) as i64),
            forall|k: int| 0 <= k < i ==> (#[trigger] events[k]).wf(),
        decreases rows.len() - i,
    {
        let mut count: usize = 0;
        let mut j: usize = 0;
        while j < rows.len()
            invariant
                0 <= j <= rows.len(),
                0 <= i < rows.len(),
                times.len() == rows.len(),
                are_row_times(times@, rows@, gaps@, rows.len() as int),
                count == rank_among(rows@, gaps@, i as int, j as int),
                count <= j,
            decreases rows.len() - j,
        {
            assert(times[j as int] == row_time(rows@, gaps@, j as int));
            assert(times[i as int] == row_time(rows@, gaps@, i as int));
            if times[j] == times[i] && (rows[j].created_at < rows[i].created_at || (
            rows[j].created_at == rows[i].created_at && j < i)) {
                count += 1;
            }
            j += 1;
        }
        assert(times[i as int] == row_time(rows@, gaps@, i as int));
        let at: i128 = times[i] as i128 + count as i128;
        if at > i64::MAX as i128 {
            return Err(TimeOutOfRange);
        }
        events.push(place(&rows[i], ids[i], room_id, at as i64));
        i += 1;
    }
    assert forall|k: int| 0 <= k < rows.len() implies 0 <= #[trigger] row_time(rows@, gaps@, k)
        && destination_time(rows@, gaps@, k) <= i64::MAX by {
        assert(0 <= times[k]);
        assert(events[k].id == ids[k]);
    }
    assert(events@ =~= destination_events(rows@, gaps@, room_id, ids@));
    Ok(events)
}

} // verus!

//! The state reader: validates a request for the state of one or more
//! sets, chooses cursor and limit, and assembles the answer.

use vstd::prelude::*;
use crate::event::{clone_opt, Event};
use crate::room::{Room, Bound};
use crate::state::{
    is_state_page,
    picked,
    set_state,
    state_total_count,
    total_count,
    SetStateQuery,
};

verus! {

pub const MAX_SETS: usize = 10;

pub const MAX_LIMIT_PER_SET: i64 = 100;

/// A request to read the state of some sets of a room.
#[derive(Debug)]
pub struct ReadRequest {
    pub room_id: u128,
    pub sets: Vec<String>,
    pub attribute: Option<String>,
    pub occurred_at: Option<i64>,
    pub original_occurred_at: Option<i64>,
    pub limit: Option<i64>,
}

/// Why a request cannot be answered.
#[derive(Clone, Copy, Debug, PartialEq, Eq, Structural)]
pub enum ReadError {
    /// No set was named, or more than [`MAX_SETS`].
    InvalidStateSets,
    /// The request names no cursor and the room's time gives none.
    InvalidRoomTime,
}

/// The value of a set in the answer: the event itself where the state is a
/// single event without a label, else the list of events.
#[derive(Debug)]
pub enum SetValue {
    Single(Event),
    Collection(Vec<Event>),
}

/// The answer for one set.
#[derive(Debug)]
pub struct SetEntry {
    pub set: String,
    pub value: SetValue,
}

/// The answer to a request: one entry for each set named, in the order of
/// the request, and, where a single set was named, whether its state holds
/// more events than the limit.
#[derive(Debug)]
pub struct State {
    pub entries: Vec<SetEntry>,
    pub has_next: Option<bool>,
}

/// The limit in force: the one asked for, at most [`MAX_LIMIT_PER_SET`] and
/// at least none; [`MAX_LIMIT_PER_SET`] where none was asked for.
pub open spec fn limit_of(limit: Option<i64>) -> usize {
    match limit {
        Some(l) => if l < 0 {
            0
        } else if l > MAX_LIMIT_PER_SET {
            MAX_LIMIT_PER_SET as usize
        } else {
            l as usize
        },
        None => MAX_LIMIT_PER_SET as usize,
    }
}

/// The cursor "after the end of the room": one nanosecond more than the
/// room is long, at most `i64::MAX`; `None` where the room's time is not a
/// closed-open interval.
pub open spec fn default_cursor(time: (Bound, Bound)) -> Option<i64> {
    match time {
        (Bound::Included(opened_at), Bound::Excluded(closed_at)) => if closed_at - opened_at
            + 1 > i64::MAX {
            Some(i64::MAX)
        } else if closed_at - opened_at + 1 < i64::MIN {
            Some(i64::MIN)
        } else {
            Some((closed_at - opened_at + 1) as i64)
        },
        _ => None,
    }
}

/// The cursor in force: the one of the request, else the room's default.
pub open spec fn cursor_of(request: ReadRequest, room: Room) -> Option<i64> {
    match request.original_occurred_at {
        Some(c) => Some(c),
        None => default_cursor(room.time),
    }
}

/// The query that a request makes for one of its sets.
pub open spec fn is_query_for(query: SetStateQuery, request: ReadRequest, room: Room, set: String) -> bool {
    &&& query.room_id == room.id
    &&& query.set == set
    &&& Some(query.original_occurred_at) == cursor_of(request, room)
    &&& query.occurred_at == request.occurred_at
    &&& query.attribute == request.attribute
    &&& query.limit == limit_of(request.limit)
}

/// Whether `value` is the shape that the answer gives to the events of a set.
pub open spec fn is_shape(value: SetValue, events: Seq<Event>) -> bool {
    if events.len() == 1 && events[0].label is None {
        value == SetValue::Single(events[0])
    } else {
        value matches SetValue::Collection(list) && list@ == events
    }
}

/// Whether `entry` answers the request for `set`: its value is the state of
/// the set under the query of the request, in the shape of the answer.
pub open spec fn is_entry_for(
    entry: SetEntry,
    log: Seq<Event>,
    request: ReadRequest,
    room: Room,
    set: String,
) -> bool {
    &&& entry.set == set
    &&& exists|query: SetStateQuery, positions: Seq<usize>| #[trigger]
        is_state_page(positions, log, query) && is_query_for(query, request, room, set) && is_shape(
            entry.value,
            picked(log, positions),
        )
}

/// Whether the state of the only set of the request holds more than the limit.
pub open spec fn has_more(log: Seq<Event>, request: ReadRequest, room: Room, flag: bool) -> bool {
    exists|query: SetStateQuery| #[trigger]
        is_query_for(query, request, room, request.sets[0]) && flag == (total_count(log, query)
            > query.limit)
}

/// The error of a request, if any: the sets are checked before the cursor.
pub open spec fn fault_of(request: ReadRequest, room: Room) -> Option<ReadError> {
    if request.sets.len() == 0 || request.sets.len() > MAX_SETS {
        Some(ReadError::InvalidStateSets)
    } else if cursor_of(request, room) is None {
        Some(ReadError::InvalidRoomTime)
    } else {
        None
    }
}

/// Chooses the limit in force.
pub fn choose_limit(limit: Option<i64>) -> (res: usize)
    ensures
        res == limit_of(limit),
        res <= MAX_LIMIT_PER_SET,
{
    match limit {
        Some(l) => if l < 0 {
            0
        } else if l > MAX_LIMIT_PER_SET {
            MAX_LIMIT_PER_SET as usize
        } else {
            l as usize
        },
        None => MAX_LIMIT_PER_SET as usize,
    }
}

/// Chooses the cursor in force.
pub fn choose_cursor(request: &ReadRequest, room: &Room) -> (res: Option<i64>)
    ensures
        res == cursor_of(*request, *room),
{
    match request.original_occurred_at {
        Some(c) => Some(c),
        None => match room.time {
            (Bound::Included(opened_at), Bound::Excluded(closed_at)) => {
                let length: i128 = closed_at as i128 - opened_at as i128 + 1;
                if length > i64::MAX as i128 {
                    Some(i64::MAX)
                } else if length < i64::MIN as i128 {
                    Some(i64::MIN)
                } else {
                    Some(length as i64)
                }
            },
            _ => None,
        },
    }
}

/// Gives the events of a set the shape of the answer.
pub fn shape(events: Vec<Event>) -> (res: SetValue)
    ensures
        is_shape(res, events@),
{
    if events.len() == 1 && events[0].label.is_none() {
        SetValue::Single(events[0].duplicate())
    } else {
        SetValue::Collection(events)
    }
}

/// Reads the state of the sets that the request names from the log of the room.
///
/// Fails with `InvalidStateSets` exactly when no set or more than
/// [`MAX_SETS`] are named; otherwise with `InvalidRoomTime` exactly when the
/// request names no cursor and the room's time gives none. Otherwise the
/// answer holds, for each set in the order of the request, the page of its
/// state; `has_next` is present exactly when one set was named.
pub fn read(room: &Room, log: &Vec<Event>, request: &ReadRequest) -> (res: Result<State, ReadError>)
    ensures
        match res {
            Ok(state) => {
                &&& fault_of(*request, *room) is None
                &&& state.entries.len() == request.sets.len()
                &&& forall|k: int|
                    0 <= k < request.sets.len() ==> is_entry_for(
                        #[trigger] state.entries[k],
                        log@,
                        *request,
                        *room,
                        request.sets[k],
                    )
                &&& state.has_next is Some <==> request.sets.len() == 1
                &&& state.has_next matches Some(flag) ==> has_more(log@, *request, *room, flag)
            },
            Err(e) => fault_of(*request, *room) == Some(e),
        },
{
    if request.sets.len() == 0 || request.sets.len() > MAX_SETS {
        return Err(ReadError::InvalidStateSets);
    }
    let limit = choose_limit(request.limit);
    let cursor = match choose_cursor(request, room) {
        Some(c) => c,
        None => {
            return Err(ReadError::InvalidRoomTime);
        },
    };
    let mut entries: Vec<SetEntry> = Vec::new();
    let mut has_next: Option<bool> = None;
    let mut k: usize = 0;
    while k < request.sets.len()
        invariant
            0 <= k <= request.sets.len(),
            limit == limit_of(request.limit),
            Some(cursor) == cursor_of(*request, *room),
            entries.len() == k,
            forall|m: int|
                0 <= m < k ==> is_entry_for(
                    #[trigger] entries[m],
                    log@,
                    *request,
                    *room,
                    request.sets[m],
                ),
            has_next is Some <==> request.sets.len() == 1 && k > 0,
            has_next matches Some(flag) ==> has_more(log@, *request, *room, flag),
        decreases request.sets.len() - k,
    {
        let query = SetStateQuery {
            room_id: room.id,
            set: request.sets[k].clone(),
            original_occurred_at: cursor,
            occurred_at: request.occurred_at,
            attribute: clone_opt(&request.attribute),
            limit,
        };
        assert(is_query_for(query, *request, *room, request.sets[k as int]));
        if request.sets.len() == 1 {
            let total = state_total_count(log, &query);
            has_next = Some(total > limit);
        }
        let events = set_state(log, &query);
        let ghost positions = choose|positions: Seq<usize>| #[trigger]
            is_state_page(positions, log@, query) && events@ == picked(log@, positions);
        let entry = SetEntry { set: request.sets[k].clone(), value: shape(events) };
        assert(is_state_page(positions, log@, query) && is_query_for(
            query,
            *request,
            *room,
            request.sets[k as int],
        ) && is_shape(entry.value, picked(log@, positions)));
        entries.push(entry);
        k += 1;
    }
    Ok(State { entries, has_next })
}

} // verus!

//! The event log: an append-only list of events, listed in the canonical
//! order of a room's timeline.

use vstd::prelude::*;
use crate::event::{clone_opt, Event};
use crate::ordering::{ascending_order, is_ascending_order, key_before, occurs, Key};
use crate::state::same_text;

verus! {

pub const MAX_LIMIT: usize = 100;

/// What is needed to append an event. The set defaults to the kind, the
/// original time to the time of occurrence.
#[derive(Debug)]
pub struct NewEvent {
    pub id: u128,
    pub room_id: u128,
    pub kind: String,
    pub data: String,
    pub occurred_at: i64,
    pub created_by: String,
    pub created_at: i64,
    pub set: Option<String>,
    pub label: Option<String>,
    pub attribute: Option<String>,
    pub original_occurred_at: Option<i64>,
}

/// An event cannot occur before its room opens.
#[derive(Clone, Copy, Debug, PartialEq, Eq, Structural)]
pub struct NegativeOccurredAt;

/// The event that an insert appends.
pub open spec fn inserted(new: NewEvent) -> Event {
    Event {
        id: new.id,
        room_id: new.room_id,
        kind: new.kind,
        set: match new.set {
            Some(s) => s,
            None => new.kind,
        },
        label: new.label,
        data: new.data,
        occurred_at: new.occurred_at,
        original_occurred_at: match new.original_occurred_at {
            Some(t) => t,
            None => new.occurred_at,
        },
        attribute: new.attribute,
        created_by: new.created_by,
        created_at: new.created_at,
        removed: false,
    }
}

/// Appends an event to the log and returns a copy of it.
///
/// Fails, and leaves the log as it is, exactly when the event would occur
/// before its room opens. Otherwise the log grows by the one event; the
/// events already in it are not touched.
pub fn insert(log: &mut Vec<Event>, new: NewEvent) -> (res: Result<Event, NegativeOccurredAt>)
    ensures
        match res {
            Ok(event) => new.occurred_at >= 0 && event == inserted(new) && event.wf() && final(log)@
                == old(log)@.push(event),
            Err(_) => new.occurred_at < 0 && final(log)@ == old(log)@,
        },
{
    if new.occurred_at < 0 {
        return Err(NegativeOccurredAt);
    }
    let set = match &new.set {
        Some(s) => s.clone(),
        None => new.kind.clone(),
    };
    let original_occurred_at = match new.original_occurred_at {
        Some(t) => t,
        None => new.occurred_at,
    };
    let event = Event {
        id: new.id,
        room_id: new.room_id,
        kind: new.kind,
        set,
        label: new.label,
        data: new.data,
        occurred_at: new.occurred_at,
        original_occurred_at,
        attribute: new.attribute,
        created_by: new.created_by,
        created_at: new.created_at,
        removed: false,
    };
    let copy = event.duplicate();
    log.push(event);
    Ok(copy)
}

/// The events that are not of the given kind in the given room, in order.
pub open spec fn without_kind(events: Seq<Event>, room_id: u128, kind: Seq<char>) -> Seq<Event>
    decreases events.len(),
{
    if events.len() == 0 {
        Seq::empty()
    } else if events.last().room_id == room_id && events.last().kind@ == kind {
        without_kind(events.drop_last(), room_id, kind)
    } else {
        without_kind(events.drop_last(), room_id, kind).push(events.last())
    }
}

/// Deletes the events of one kind from the log of a room, and returns how
/// many there were. The other events stay as they are, in their order.
pub fn delete(log: &mut Vec<Event>, room_id: u128, kind: &String) -> (deleted: usize)
    ensures
        final(log)@ == without_kind(old(log)@, room_id, kind@),
        deleted == old(log)@.len() - final(log)@.len(),
{
    let mut left: Vec<Event> = Vec::new();
    let mut i: usize = 0;
    assert(log@.take(0) =~= Seq::<Event>::empty());
    while i < log.len()
        invariant
            0 <= i <= log.len(),
            log@ == old(log)@,
            left@ == without_kind(log@.take(i as int), room_id, kind@),
            left.len() <= i,
        decreases log.len() - i,
    {
        proof {
            assert(log@.take(i + 1).drop_last() =~= log@.take(i as int));
            assert(log@.take(i + 1).last() == log[i as int]);
        }
        if !(log[i].room_id == room_id && same_text(&log[i].kind, kind)) {
            left.push(log[i].duplicate());
        }
        i += 1;
    }
    assert(log@.take(i as int) =~= log@);
    let deleted = log.len() - left.len();
    *log = left;
    deleted
}

/// The direction of a listing.
#[derive(Clone, Copy, Debug, PartialEq, Eq, Structural)]
pub enum Direction {
    Forward,
    Backward,
}

/// What to list: the room, the filters, the direction, the cursor and the
/// number of events.
#[derive(Debug)]
pub struct ListQuery {
    pub room_id: u128,
    pub kind: Option<String>,
    pub set: Option<String>,
    pub label: Option<String>,
    pub attribute: Option<String>,
    /// Where present, only events that occur at this time or later are listed.
    pub min_occurred_at: Option<i64>,
    /// Where present, only events that occur at this time or earlier are listed.
    pub max_occurred_at: Option<i64>,
    pub direction: Direction,
    /// Where present, the time of occurrence and the id of the last event of
    /// the page before: the listing goes on behind it.
    pub cursor: Option<(i64, u128)>,
    pub limit: usize,
}

/// Whether an optional filter lets a text through.
pub open spec fn passes(filter: Option<String>, text: Seq<char>) -> bool {
    filter matches Some(wanted) ==> wanted@ == text
}

/// Whether an optional filter lets an optional text through.
pub open spec fn passes_opt(filter: Option<String>, text: Option<String>) -> bool {
    filter matches Some(wanted) ==> (text matches Some(t) && wanted@ == t@)
}

/// Whether the event lies behind the cursor in the direction of the listing.
pub open spec fn behind_cursor(event: Event, query: ListQuery) -> bool {
    match query.cursor {
        None => true,
        Some((at, id)) => match query.direction {
            Direction::Forward => event.occurred_at > at || (event.occurred_at == at && event.id > id),
            Direction::Backward => event.occurred_at < at || (event.occurred_at == at && event.id
                < id),
        },
    }
}

/// Whether the event is listed: it is in the log of the room, passes the
/// filters and lies behind the cursor.
pub open spec fn is_listed(event: Event, query: ListQuery) -> bool {
    &&& !event.removed
    &&& event.room_id == query.room_id
    &&& passes(query.kind, event.kind@)
    &&& passes(query.set, event.set@)
    &&& passes_opt(query.label, event.label)
    &&& passes_opt(query.attribute, event.attribute)
    &&& query.min_occurred_at matches Some(min) ==> min <= event.occurred_at
    &&& query.max_occurred_at matches Some(max) ==> event.occurred_at <= max
    &&& behind_cursor(event, query)
}

/// The canonical order of a room's timeline: by time of occurrence, then
/// by time of creation, then by id; events equal in all three, by their
/// position in the log.
pub open spec fn comes_before(log: Seq<Event>, a: int, b: int) -> bool {
    let x = log[a];
    let y = log[b];
    x.occurred_at < y.occurred_at || (x.occurred_at == y.occurred_at && (x.created_at < y.created_at
        || (x.created_at == y.created_at && (x.id < y.id || (x.id == y.id && a < b)))))
}

/// Whether position `a` is listed before position `b`.
pub open spec fn listed_before(log: Seq<Event>, query: ListQuery, a: int, b: int) -> bool {
    match query.direction {
        Direction::Forward => comes_before(log, a, b),
        Direction::Backward => comes_before(log, b, a),
    }
}

/// The limit in force: the one asked for, at most [`MAX_LIMIT`].
pub open spec fn limit_in_force(query: ListQuery) -> usize {
    if query.limit > MAX_LIMIT {
        MAX_LIMIT
    } else {
        query.limit
    }
}

/// Whether `positions` is the page that the query asks for: the first
/// listed events in the direction of the listing, as many as the limit
/// allows.
pub open spec fn is_list_page(positions: Seq<usize>, log: Seq<Event>, query: ListQuery) -> bool {
    &&& positions.len() <= limit_in_force(query)
    &&& forall|k: int|
        0 <= k < positions.len() ==> (#[trigger] positions[k]) < log.len() && is_listed(
            log[positions[k] as int],
            query,
        )
    &&& forall|k: int, l: int|
        0 <= k < l < positions.len() ==> listed_before(
            log,
            query,
            #[trigger] positions[k] as int,
            #[trigger] positions[l] as int,
        )
    &&& forall|i: int|
        0 <= i < log.len() && is_listed(#[trigger] log[i], query) ==> occurs(positions, i) || (
        positions.len() == limit_in_force(query) && forall|k: int|
            0 <= k < positions.len() ==> listed_before(log, query, #[trigger] positions[k] as int, i))
}

fn lets_through(filter: &Option<String>, text: &String) -> (res: bool)
    ensures
        res == passes(*filter, text@),
{
    match filter {
        Some(wanted) => same_text(wanted, text),
        None => true,
    }
}

fn lets_opt_through(filter: &Option<String>, text: &Option<String>) -> (res: bool)
    ensures
        res == passes_opt(*filter, *text),
{
    match filter {
        Some(wanted) => match text {
            Some(t) => same_text(wanted, t),
            None => false,
        },
        None => true,
    }
}

/// Whether the event is listed.
pub fn lists(event: &Event, query: &ListQuery) -> (res: bool)
    ensures
        res == is_listed(*event, *query),
{
    let behind = match query.cursor {
        None => true,
        Some((at, id)) => match query.direction {
            Direction::Forward => event.occurred_at > at || (event.occurred_at == at && event.id > id),
            Direction::Backward => event.occurred_at < at || (event.occurred_at == at && event.id
                < id),
        },
    };
    let late_enough = match query.min_occurred_at {
        Some(min) => min <= event.occurred_at,
        None => true,
    };
    let early_enough = match query.max_occurred_at {
        Some(max) => event.occurred_at <= max,
        None => true,
    };
    !event.removed && event.room_id == query.room_id && lets_through(&query.kind, &event.kind)
        && lets_through(&query.set, &event.set) && lets_opt_through(&query.label, &event.label)
        && lets_opt_through(&query.attribute, &event.attribute) && late_enough && early_enough
        && behind
}

/// Lists events of a room: those that pass the filters and lie behind the
/// cursor, in the canonical order of the timeline or, backward, in its
/// reverse; at most `limit` of them, and at most [`MAX_LIMIT`].
pub fn list(log: &Vec<Event>, query: &ListQuery) -> (res: Vec<Event>)
    ensures
        exists|positions: Seq<usize>| #[trigger]
            is_list_page(positions, log@, *query) && res@ == crate::state::picked(log@, positions),
{
    let mut listed: Vec<usize> = Vec::new();
    let mut keys: Vec<Key> = Vec::new();
    let mut i: usize = 0;
    while i < log.len()
        invariant
            0 <= i <= log.len(),
            keys.len() == listed.len(),
            forall|m: int|
                0 <= m < listed.len() ==> (#[trigger] listed[m]) < i && is_listed(
                    log[listed[m] as int],
                    *query,
                ),
            forall|m: int|
                0 <= m < listed.len() ==> (#[trigger] keys[m]) == (
                    log[listed[m] as int].occurred_at,
                    log[listed[m] as int].created_at,
                    log[listed[m] as int].id,
                ),
            forall|m: int, n: int| 0 <= m < n < listed.len() ==> (#[trigger] listed[m]) < (#[trigger] listed[n]),
            forall|v: int| 0 <= v < i && is_listed(#[trigger] log[v], *query) ==> occurs(listed@, v),
        decreases log.len() - i,
    {
        let ghost before = listed@;
        if lists(&log[i], query) {
            listed.push(i);
            keys.push((log[i].occurred_at, log[i].created_at, log[i].id));
        }
        proof {
            assert forall|v: int| 0 <= v < i + 1 && is_listed(#[trigger] log[v], *query) implies occurs(
                listed@,
                v,
            ) by {
                if v < i {
                    assert(occurs(before, v));
                    let p = choose|p: int| 0 <= p < before.len() && #[trigger] before[p] == v;
                    assert(listed@[p] == v);
                } else {
                    assert(listed@[listed.len() - 1] == v);
                }
            }
        }
        i += 1;
    }
    let order = ascending_order(&keys);
    let n = listed.len();
    let limit = if query.limit > MAX_LIMIT {
        MAX_LIMIT
    } else {
        query.limit
    };
    let count = if limit < n {
        limit
    } else {
        n
    };
    let forward = match query.direction {
        Direction::Forward => true,
        Direction::Backward => false,
    };
    let mut res: Vec<Event> = Vec::new();
    let mut positions: Vec<usize> = Vec::new();
    let mut k: usize = 0;
    while k < count
        invariant
            0 <= k <= count <= n,
            n == listed.len(),
            n == keys.len(),
            forward == (query.direction == Direction::Forward),
            is_ascending_order(order@, keys@),
            forall|p: int| 0 <= p < listed.len() ==> (#[trigger] listed[p]) < log.len(),
            positions.len() == k,
            res.len() == k,
            forall|p: int|
                0 <= p < k ==> (#[trigger] positions[p]) == listed[order[if forward {
                    p
                } else {
                    n - 1 - p
                }] as int],
            forall|p: int| 0 <= p < k ==> (#[trigger] res[p]) == log[positions[p] as int],
        decreases count - k,
    {
        let slot = if forward {
            k
        } else {
            n - 1 - k
        };
        assert(order[slot as int] < keys.len());
        let position = listed[order[slot]];
        positions.push(position);
        res.push(log[position].duplicate());
        k += 1;
    }
    proof {
        let ps = positions@;
        assert(res@ =~= crate::state::picked(log@, ps));
        assert forall|a: int, b: int| 0 <= a < b < ps.len() implies listed_before(
            log@,
            *query,
            #[trigger] ps[a] as int,
            #[trigger] ps[b] as int,
        ) by {
            let sa = if forward {
                a
            } else {
                n - 1 - a
            };
            let sb = if forward {
                b
            } else {
                n - 1 - b
            };
            let x = order[sa] as int;
            let y = order[sb] as int;
            if forward {
                assert(key_before(keys@, x, y));
            } else {
                assert(key_before(keys@, y, x));
            }
            assert(keys[x].0 == log[listed[x] as int].occurred_at);
            assert(keys[y].0 == log[listed[y] as int].occurred_at);
            if x < y {
                assert(listed[x] < listed[y]);
            }
            if y < x {
                assert(listed[y] < listed[x]);
            }
        }
        assert forall|i: int| 0 <= i < log.len() && is_listed(#[trigger] log[i], *query) implies occurs(
            ps,
            i,
        ) || (ps.len() == limit_in_force(*query) && forall|c: int|
            0 <= c < ps.len() ==> listed_before(log@, *query, #[trigger] ps[c] as int, i)) by {
            assert(occurs(listed@, i));
            let s = choose|s: int| 0 <= s < listed.len() && #[trigger] listed[s] == i;
            assert(occurs(order@, s));
            let o = choose|o: int| 0 <= o < order.len() && #[trigger] order[o] == s;
            let rank = if forward {
                o
            } else {
                n - 1 - o
            };
            if rank < count {
                assert(ps[rank] == listed[order[if forward {
                    rank
                } else {
                    n - 1 - rank
                }] as int]);
                assert(ps[rank] == i);
            } else {
                assert forall|c: int| 0 <= c < ps.len() implies listed_before(
                    log@,
                    *query,
                    #[trigger] ps[c] as int,
                    i,
                ) by {
                    let sc = if forward {
                        c
                    } else {
                        n - 1 - c
                    };
                    let x = order[sc] as int;
                    if forward {
                        assert(key_before(keys@, order[sc] as int, order[o] as int));
                    } else {
                        assert(key_before(keys@, order[o] as int, order[sc] as int));
                    }
                    assert(keys[x].0 == log[listed[x] as int].occurred_at);
                    assert(keys[s].0 == log[listed[s] as int].occurred_at);
                    if s < x {
                        assert(listed[s] < listed[x]);
                    }
                    if x < s {
                        assert(listed[x] < listed[s]);
                    }
                }
            }
        }
        assert(is_list_page(ps, log@, *query));
    }
    res
}

} // verus!

//! Set state: for a named set of a room, the latest version of every label
//! before a cursor, newest first.

use vstd::prelude::*;
use crate::event::Event;
use crate::ordering::{ascending_order, is_ascending_order, key_before, occurs, Key};

verus! {

/// The attribute that marks a version as the removal of its label.
pub open spec fn deleted_mark() -> Seq<char> {
    "deleted"@
}

/// What to read: the set of a room, the versions that count, and how many
/// events to return.
#[derive(Debug)]
pub struct SetStateQuery {
    pub room_id: u128,
    pub set: String,
    /// Only versions that originally occurred before this instant count.
    pub original_occurred_at: i64,
    /// Where present, only versions that occur before this instant count.
    pub occurred_at: Option<i64>,
    /// Where present, only events with this attribute are returned.
    pub attribute: Option<String>,
    pub limit: usize,
}

/// Whether the version counts for the query: it is in the log of the room
/// and in the set, and lies before the cursors.
pub open spec fn is_candidate(event: Event, query: SetStateQuery) -> bool {
    &&& !event.removed
    &&& event.room_id == query.room_id
    &&& event.set@ == query.set@
    &&& event.original_occurred_at < query.original_occurred_at
    &&& query.occurred_at matches Some(bound) ==> event.occurred_at < bound
}

/// Whether two events are versions of one label.
pub open spec fn same_label(a: Event, b: Event) -> bool {
    a.label is Some && b.label is Some && a.label.unwrap()@ == b.label.unwrap()@
}

/// Whether the version at position `j` is later than the one at `i`: by
/// original time, then by position in the log.
pub open spec fn later(log: Seq<Event>, j: int, i: int) -> bool {
    log[j].original_occurred_at > log[i].original_occurred_at || (log[j].original_occurred_at
        == log[i].original_occurred_at && j > i)
}

/// Whether the event at `i` is the current version of its label: it counts,
/// and no version of the same label that counts is later. An event without
/// a label is always current.
pub open spec fn is_current(log: Seq<Event>, query: SetStateQuery, i: int) -> bool {
    &&& is_candidate(log[i], query)
    &&& forall|j: int|
        0 <= j < log.len() && is_candidate(#[trigger] log[j], query) && same_label(log[j], log[i])
            ==> !later(log, j, i)
}

/// Whether the attribute lets an event show: it is not the mark of a
/// removal and, where the query names an attribute, it is that one.
pub open spec fn attribute_shows(event: Event, query: SetStateQuery) -> bool {
    &&& !(event.attribute matches Some(a) && a@ == deleted_mark())
    &&& query.attribute matches Some(wanted) ==> (event.attribute matches Some(a) && a@ == wanted@)
}

/// Whether the event at `i` belongs to the state: it is the current version
/// of its label and its attribute lets it show.
pub open spec fn is_shown(log: Seq<Event>, query: SetStateQuery, i: int) -> bool {
    0 <= i < log.len() && is_current(log, query, i) && attribute_shows(log[i], query)
}

/// The number of events of the state among the first `n` of the log.
pub open spec fn shown_count(log: Seq<Event>, query: SetStateQuery, n: int) -> nat
    decreases n,
{
    if n <= 0 {
        0
    } else {
        shown_count(log, query, n - 1) + if is_shown(log, query, n - 1) {
            1nat
        } else {
            0nat
        }
    }
}

/// The size of the state, whatever the limit.
pub open spec fn total_count(log: Seq<Event>, query: SetStateQuery) -> nat {
    shown_count(log, query, log.len() as int)
}

/// Whether `positions` is the page of the state that the query asks for: the
/// latest events of the state, newest first, as many as the limit allows.
pub open spec fn is_state_page(positions: Seq<usize>, log: Seq<Event>, query: SetStateQuery) -> bool {
    &&& positions.len() <= query.limit
    &&& forall|k: int| 0 <= k < positions.len() ==> is_shown(log, query, #[trigger] positions[k] as int)
    &&& forall|k: int, l: int|
        0 <= k < l < positions.len() ==> later(log, #[trigger] positions[k] as int, #[trigger] positions[l] as int)
    &&& forall|i: int|
        is_shown(log, query, i) ==> occurs(positions, i) || (positions.len() == query.limit
            && forall|k: int| 0 <= k < positions.len() ==> later(log, #[trigger] positions[k] as int, i))
}

/// The events at the given positions of the log.
pub open spec fn picked(log: Seq<Event>, positions: Seq<usize>) -> Seq<Event> {
    Seq::new(positions.len(), |k: int| log[positions[k] as int])
}

/// Whether two texts are equal.
pub fn same_text(a: &String, b: &String) -> (res: bool)
    ensures
        res == (a@ == b@),
{
    *a == *b
}

/// Whether the text is the mark of a removal.
pub fn is_deleted_mark(a: &String) -> (res: bool)
    ensures
        res == (a@ == deleted_mark()),
{
    let mark = String::from_str("deleted");
    *a == mark
}

fn candidate(event: &Event, query: &SetStateQuery) -> (res: bool)
    ensures
        res == is_candidate(*event, *query),
{
    !event.removed && event.room_id == query.room_id && same_text(&event.set, &query.set)
        && event.original_occurred_at < query.original_occurred_at && match query.occurred_at {
        Some(bound) => event.occurred_at < bound,
        None => true,
    }
}

fn labels_match(a: &Event, b: &Event) -> (res: bool)
    ensures
        res == same_label(*a, *b),
{
    match (&a.label, &b.label) {
        (Some(x), Some(y)) => same_text(x, y),
        _ => false,
    }
}

fn attribute_passes(event: &Event, query: &SetStateQuery) -> (res: bool)
    ensures
        res == attribute_shows(*event, *query),
{
    let deleted = match &event.attribute {
        Some(a) => is_deleted_mark(a),
        None => false,
    };
    let wanted = match &query.attribute {
        Some(w) => match &event.attribute {
            Some(a) => same_text(a, w),
            None => false,
        },
        None => true,
    };
    !deleted && wanted
}

/// Whether the event at `i` belongs to the state.
pub fn shows(log: &Vec<Event>, query: &SetStateQuery, i: usize) -> (res: bool)
    requires
        i < log.len(),
    ensures
        res == is_shown(log@, *query, i as int),
{
    if !candidate(&log[i], query) || !attribute_passes(&log[i], query) {
        return false;
    }
    let mut j: usize = 0;
    while j < log.len()
        invariant
            0 <= j <= log.len(),
            i < log.len(),
            forall|k: int|
                0 <= k < j && is_candidate(#[trigger] log[k], *query) && same_label(log[k], log[i as int])
                    ==> !later(log@, k, i as int),
        decreases log.len() - j,
    {
        if candidate(&log[j], query) && labels_match(&log[j], &log[i]) && (
        log[j].original_occurred_at > log[i].original_occurred_at || (log[j].original_occurred_at
            == log[i].original_occurred_at && j > i)) {
            return false;
        }
        j += 1;
    }
    true
}

/// The positions of the events of the state, in the order of the log.
fn shown_positions(log: &Vec<Event>, query: &SetStateQuery) -> (res: Vec<usize>)
    ensures
        res.len() == total_count(log@, *query),
        forall|m: int| 0 <= m < res.len() ==> is_shown(log@, *query, #[trigger] res[m] as int),
        forall|m: int, n: int| 0 <= m < n < res.len() ==> (#[trigger] res[m]) < (#[trigger] res[n]),
        forall|i: int| is_shown(log@, *query, i) ==> occurs(res@, i),
{
    let mut res: Vec<usize> = Vec::new();
    let mut i: usize = 0;
    while i < log.len()
        invariant
            0 <= i <= log.len(),
            res.len() == shown_count(log@, *query, i as int),
            forall|m: int|
                0 <= m < res.len() ==> (#[trigger] res[m]) < i && is_shown(log@, *query, res[m] as int),
            forall|m: int, n: int| 0 <= m < n < res.len() ==> (#[trigger] res[m]) < (#[trigger] res[n]),
            forall|v: int| 0 <= v < i && is_shown(log@, *query, v) ==> occurs(res@, v),
        decreases log.len() - i,
    {
        let ghost before = res@;
        if shows(log, query, i) {
            res.push(i);
        }
        proof {
            assert forall|v: int| 0 <= v < i + 1 && is_shown(log@, *query, v) implies occurs(
                res@,
                v,
            ) by {
                if v < i {
                    assert(occurs(before, v));
                    let p = choose|p: int| 0 <= p < before.len() && #[trigger] before[p] == v;
                    assert(res@[p] == v);
                } else {
                    assert(res@[res.len() - 1] == v);
                }
            }
        }
        i += 1;
    }
    res
}

/// The state of a set: the current version of every label of the set that
/// lies before the cursors of the query and whose attribute lets it show,
/// and every such event without a label; the latest `limit` of them, newest
/// first.
pub fn set_state(log: &Vec<Event>, query: &SetStateQuery) -> (res: Vec<Event>)
    ensures
        exists|positions: Seq<usize>| #[trigger]
            is_state_page(positions, log@, *query) && res@ == picked(log@, positions),
{
    let shown = shown_positions(log, query);
    assert forall|k: int| 0 <= k < shown.len() implies (#[trigger] shown[k]) < log.len() by {
        assert(is_shown(log@, *query, shown[k] as int));
    }
    let mut keys: Vec<Key> = Vec::new();
    let mut m: usize = 0;
    while m < shown.len()
        invariant
            0 <= m <= shown.len(),
            keys.len() == m,
            forall|k: int| 0 <= k < shown.len() ==> (#[trigger] shown[k]) < log.len(),
            forall|k: int|
                0 <= k < m ==> (#[trigger] keys[k]) == (
                    log[shown[k] as int].original_occurred_at,
                    0i64,
                    0u128,
                ),
        decreases shown.len() - m,
    {
        keys.push((log[shown[m]].original_occurred_at, 0, 0));
        m += 1;
    }
    let order = ascending_order(&keys);
    let n = shown.len();
    let count = if query.limit < n {
        query.limit
    } else {
        n
    };
    let mut res: Vec<Event> = Vec::new();
    let mut positions: Vec<usize> = Vec::new();
    let mut k: usize = 0;
    while k < count
        invariant
            0 <= k <= count <= n,
            n == shown.len(),
            n == keys.len(),
            is_ascending_order(order@, keys@),
            forall|p: int| 0 <= p < shown.len() ==> (#[trigger] shown[p]) < log.len(),
            positions.len() == k,
            res.len() == k,
            forall|p: int| 0 <= p < k ==> (#[trigger] positions[p]) == shown[order[n - 1 - p] as int],
            forall|p: int| 0 <= p < k ==> (#[trigger] res[p]) == log[positions[p] as int],
        decreases count - k,
    {
        assert(order[n - 1 - k] < keys.len());
        let position = shown[order[n - 1 - k]];
        positions.push(position);
        res.push(log[position].duplicate());
        k += 1;
    }
    proof {
        let ps = positions@;
        assert(res@ =~= picked(log@, ps));
        assert forall|a: int, b: int| 0 <= a < b < ps.len() implies later(
            log@,
            #[trigger] ps[a] as int,
            #[trigger] ps[b] as int,
        ) by {
            let x = order[n - 1 - a] as int;
            let y = order[n - 1 - b] as int;
            assert(key_before(keys@, y, x));
            assert(keys[x] == (log[shown[x] as int].original_occurred_at, 0i64, 0u128));
            assert(keys[y] == (log[shown[y] as int].original_occurred_at, 0i64, 0u128));
            if y < x {
                assert(shown[y] < shown[x]);
            }
        }
        assert forall|i: int| is_shown(log@, *query, i) implies occurs(ps, i) || (ps.len()
            == query.limit && forall|c: int|
            0 <= c < ps.len() ==> later(log@, #[trigger] ps[c] as int, i)) by {
            assert(occurs(shown@, i));
            let s = choose|s: int| 0 <= s < shown.len() && #[trigger] shown[s] == i;
            assert(occurs(order@, s));
            let o = choose|o: int| 0 <= o < order.len() && #[trigger] order[o] == s;
            if n - 1 - o < count {
                assert(ps[n - 1 - o] == shown[order[n - 1 - (n - 1 - o)] as int]);
                assert(ps[n - 1 - o] == i);
            } else {
                assert forall|c: int| 0 <= c < ps.len() implies later(
                    log@,
                    #[trigger] ps[c] as int,
                    i,
                ) by {
                    let x = order[n - 1 - c] as int;
                    assert(key_before(keys@, order[o] as int, order[n - 1 - c] as int));
                    assert(keys[x] == (log[shown[x] as int].original_occurred_at, 0i64, 0u128));
                    assert(keys[s] == (log[shown[s] as int].original_occurred_at, 0i64, 0u128));
                    if s < x {
                        assert(shown[s] < shown[x]);
                    }
                }
            }
        }
        assert(is_state_page(ps, log@, *query));
    }
    res
}

/// The number of events in the state of a set, whatever the limit.
pub fn state_total_count(log: &Vec<Event>, query: &SetStateQuery) -> (res: usize)
    ensures
        res == total_count(log@, *query),
{
    shown_positions(log, query).len()
}

} // verus!

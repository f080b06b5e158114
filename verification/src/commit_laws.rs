//! Laws of the commit: what a commit without changes does, and what no
//! commit ever does to the original time of an event.

use vstd::prelude::*;
use crate::change::Change;
use crate::commit::{cut_kind, without_cuts};
use crate::event::Event;
use crate::placement::{destination_events, destination_time, placed, rank, row_time};
use crate::rows::{joined_rows, modified, passed, source_rows, Row};

verus! {

/// The events that are in the log, in order.
pub open spec fn live_events(events: Seq<Event>) -> Seq<Event>
    decreases events.len(),
{
    if events.len() == 0 {
        Seq::empty()
    } else if events.last().removed {
        live_events(events.drop_last())
    } else {
        live_events(events.drop_last()).push(events.last())
    }
}

/// Whether `copy` is `event` in another room, under another id and at
/// another time of occurrence, and the same in everything else.
pub open spec fn is_moved_copy(copy: Event, event: Event) -> bool {
    &&& copy.kind == event.kind
    &&& copy.set == event.set
    &&& copy.label == event.label
    &&& copy.data == event.data
    &&& copy.original_occurred_at == event.original_occurred_at
    &&& copy.attribute == event.attribute
    &&& copy.created_by == event.created_by
    &&& copy.created_at == event.created_at
    &&& copy.removed == event.removed
}

/// Without changes the join is the log itself: one row for each event that
/// is in the log, in order.
pub proof fn lemma_join_without_changes(events: Seq<Event>, now: i64)
    ensures
        joined_rows(events, Seq::<Change>::empty(), now) == Seq::new(
            live_events(events).len(),
            |i: int| passed(live_events(events)[i]),
        ),
    decreases events.len(),
{
    let none = Seq::<Change>::empty();
    if events.len() > 0 {
        lemma_join_without_changes(events.drop_last(), now);
        let before = live_events(events.drop_last());
        assert(joined_rows(events.drop_last(), none, now) =~= source_rows(events.drop_last(), none));
        assert(joined_rows(events, none, now) =~= Seq::new(
            live_events(events).len(),
            |i: int| passed(live_events(events)[i]),
        ));
    } else {
        assert(joined_rows(events, none, now) =~= Seq::new(
            live_events(events).len(),
            |i: int| passed(live_events(events)[i]),
        ));
    }
}

/// A commit without changes passes the events through.
///
/// With an empty change set the destination holds, before the cut markers
/// are deleted, one event for each event in the log of the source room, in
/// order: the same event in everything but its room, its id and its time of
/// occurrence, which is the squeezed time of the source event plus its rank
/// among the events that land on the same instant. Deleting the cut markers
/// then leaves the events that are not of the cut kind.
pub proof fn law_commit_without_changes(
    events: Seq<Event>,
    gaps: Seq<(i64, i64)>,
    now: i64,
    room_id: u128,
    ids: Seq<u128>,
    i: int,
)
    requires
        0 <= i < live_events(events).len(),
    ensures
        ({
            let rows = joined_rows(events, Seq::<Change>::empty(), now);
            let source = live_events(events)[i];
            let copy = destination_events(rows, gaps, room_id, ids)[i];
            &&& rows.len() == live_events(events).len()
            &&& is_moved_copy(copy, source)
            &&& copy.room_id == room_id
            &&& copy.id == ids[i]
            &&& copy.occurred_at == (crate::squeeze::squeezed(gaps, source.occurred_at as int) + rank(
                rows,
                gaps,
                i,
            )) as i64
        }),
{
    lemma_join_without_changes(events, now);
    lemma_live_events_are_live(events, i);
}

/// The events that are in the log are not removed.
pub proof fn lemma_live_events_are_live(events: Seq<Event>, i: int)
    requires
        0 <= i < live_events(events).len(),
    ensures
        !live_events(events)[i].removed,
    decreases events.len(),
{
    if events.len() > 0 {
        if i < live_events(events.drop_last()).len() {
            lemma_live_events_are_live(events.drop_last(), i);
        }
    }
}

/// Deleting the cut markers deletes nothing else: an event that is not of
/// the cut kind is left, and every event left is not of the cut kind.
pub proof fn law_only_cuts_are_deleted(events: Seq<Event>, e: Event)
    ensures
        without_cuts(events).contains(e) <==> events.contains(e) && e.kind@ != cut_kind(),
    decreases events.len(),
{
    if events.len() > 0 {
        let rest = events.drop_last();
        let last = events.last();
        law_only_cuts_are_deleted(rest, e);
        if events.contains(e) {
            let k = choose|k: int| 0 <= k < events.len() && events[k] == e;
            if k < rest.len() {
                assert(rest[k] == e);
            }
        }
        if rest.contains(e) {
            let k = choose|k: int| 0 <= k < rest.len() && rest[k] == e;
            assert(events[k] == e);
        }
        let kept = without_cuts(rest);
        if last.kind@ != cut_kind() {
            if kept.push(last).contains(e) {
                let k = choose|k: int| 0 <= k < kept.push(last).len() && kept.push(last)[k] == e;
                if k < kept.len() {
                    assert(kept[k] == e);
                }
            }
            if kept.contains(e) {
                let k = choose|k: int| 0 <= k < kept.len() && kept[k] == e;
                assert(kept.push(last)[k] == e);
            }
            assert(kept.push(last)[kept.len() as int] == last);
            assert(events[events.len() - 1] == last);
        } else {
            assert(events[events.len() - 1] == last);
        }
    }
}

/// Whether the row continues the event: it is the event passed through, or
/// the event under one of the changes.
pub open spec fn continues(row: Row, event: Event, changes: Seq<Change>) -> bool {
    row == passed(event) || exists|c: int| 0 <= c < changes.len() && row == modified(event, #[trigger] changes[c])
}

/// Every row that the events give continues an event that is in the log.
pub proof fn lemma_rows_continue_events(events: Seq<Event>, changes: Seq<Change>, k: int)
    requires
        0 <= k < source_rows(events, changes).len(),
    ensures
        exists|j: int|
            0 <= j < events.len() && !(#[trigger] events[j]).removed && continues(
                source_rows(events, changes)[k],
                events[j],
                changes,
            ),
    decreases events.len(),
{
    if events.len() > 0 {
        let rest = events.drop_last();
        let last = events.last();
        let before = source_rows(rest, changes);
        if k < before.len() {
            lemma_rows_continue_events(rest, changes, k);
            let j = choose|j: int|
                0 <= j < rest.len() && !(#[trigger] rest[j]).removed && continues(
                    before[k],
                    rest[j],
                    changes,
                );
            assert(events[j] == rest[j]);
        } else {
            let own = crate::rows::event_rows(last, changes);
            let m = k - before.len();
            assert(source_rows(events, changes)[k] == own[m]);
            lemma_modification_rows(last, changes, m);
            assert(events[events.len() - 1] == last);
        }
    }
}

/// Every row of the modifications of an event is the event under one of
/// the changes.
proof fn lemma_modification_rows(event: Event, changes: Seq<Change>, m: int)
    requires
        0 <= m < crate::rows::event_rows(event, changes).len(),
    ensures
        !event.removed,
        continues(crate::rows::event_rows(event, changes)[m], event, changes),
{
    if crate::rows::is_referenced(event, changes) {
        assert(changes.take(changes.len() as int) =~= changes);
        lemma_modification_row(event, changes, changes.len() as int, m);
    } else {
        assert(crate::rows::event_rows(event, changes)[m] == passed(event));
    }
}

proof fn lemma_modification_row(event: Event, changes: Seq<Change>, n: int, m: int)
    requires
        0 <= n <= changes.len(),
        0 <= m < crate::rows::modification_rows(event, changes.take(n)).len(),
    ensures
        exists|c: int|
            0 <= c < n && crate::rows::modification_rows(event, changes.take(n))[m] == modified(
                event,
                #[trigger] changes[c],
            ),
    decreases n,
{
    let upto = changes.take(n);
    if n > 0 {
        assert(upto.drop_last() =~= changes.take(n - 1));
        assert(upto.last() == changes[n - 1]);
        let before = crate::rows::modification_rows(event, changes.take(n - 1));
        if m < before.len() {
            lemma_modification_row(event, changes, n - 1, m);
        } else {
            assert(crate::rows::modification_rows(event, upto)[m] == modified(event, changes[n - 1]));
        }
    }
}

/// No commit rewrites the original time of an event.
///
/// Every destination event that the events of the source room give
/// continues an event of the source log and has that event's original time,
/// whatever the changes, the gaps and the identifiers.
pub proof fn law_commit_keeps_original_time(
    events: Seq<Event>,
    changes: Seq<Change>,
    gaps: Seq<(i64, i64)>,
    now: i64,
    room_id: u128,
    ids: Seq<u128>,
    k: int,
)
    requires
        0 <= k < source_rows(events, changes).len(),
    ensures
        exists|j: int|
            0 <= j < events.len() && !(#[trigger] events[j]).removed && continues(
                joined_rows(events, changes, now)[k],
                events[j],
                changes,
            ) && destination_events(
                joined_rows(events, changes, now),
                gaps,
                room_id,
                ids,
            )[k].original_occurred_at == events[j].original_occurred_at,
{
    lemma_rows_continue_events(events, changes, k);
    let j = choose|j: int|
        0 <= j < events.len() && !(#[trigger] events[j]).removed && continues(
            source_rows(events, changes)[k],
            events[j],
            changes,
        );
    let rows = joined_rows(events, changes, now);
    assert(rows[k] == source_rows(events, changes)[k]);
    assert(destination_events(rows, gaps, room_id, ids)[k] == placed(
        rows[k],
        ids[k],
        room_id,
        destination_time(rows, gaps, k) as i64,
    ));
}

} // verus!

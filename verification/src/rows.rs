//! The join of a room's events with an edition's changes: the rows from
//! which a commit builds the destination event log, before any timing.

use vstd::prelude::*;
use crate::change::{Change, ChangeKind};
use crate::event::{clone_opt, Event};

verus! {

/// An event in the making: what the destination event will hold, with the
/// time it has in the source timeline. `original_occurred_at` is present
/// where the row continues an event of the source room.
#[derive(Debug)]
pub struct Row {
    pub kind: String,
    pub set: String,
    pub label: Option<String>,
    pub data: String,
    pub occurred_at: i64,
    pub original_occurred_at: Option<i64>,
    pub attribute: Option<String>,
    pub created_by: String,
    pub created_at: i64,
}

/// What is wrong with a change.
#[derive(Clone, Copy, Debug, PartialEq, Eq, Structural)]
pub enum ChangeFault {
    /// An addition names an event, or lacks the kind, the payload, the time
    /// or the author of the event it creates; or a modification or removal names no event.
    Malformed,
    /// A modification or removal names an event that the source room does not hold.
    UnknownEvent,
}

/// A change that breaks the integrity rule of its change set.
#[derive(Clone, Copy, Debug, PartialEq, Eq, Structural)]
pub struct ChangeError {
    pub change_id: u128,
    pub fault: ChangeFault,
}

/// Whether one of the events has this id.
pub open spec fn holds_event(events: Seq<Event>, id: u128) -> bool {
    exists|i: int| 0 <= i < events.len() && (#[trigger] events[i]).id == id
}

/// The fault of a change against the events of its source room, if any.
pub open spec fn fault_of(events: Seq<Event>, change: Change) -> Option<ChangeFault> {
    if !change@.wf() {
        Some(ChangeFault::Malformed)
    } else if change.kind != ChangeKind::Addition && !holds_event(events, change.event_id.unwrap()) {
        Some(ChangeFault::UnknownEvent)
    } else {
        None
    }
}

/// Every change of the set keeps the integrity rule.
pub open spec fn changes_valid(events: Seq<Event>, changes: Seq<Change>) -> bool {
    forall|i: int| 0 <= i < changes.len() ==> fault_of(events, #[trigger] changes[i]) is None
}

/// Whether the change applies to the event.
pub open spec fn refers_to(change: Change, event: Event) -> bool {
    change.kind != ChangeKind::Addition && change.event_id == Some(event.id)
}

/// The value of an override where it is present, else the event's own.
pub open spec fn or_text(over: Option<String>, own: String) -> String {
    match over {
        Some(t) => t,
        None => own,
    }
}

/// The same for an optional field.
pub open spec fn or_opt_text(over: Option<String>, own: Option<String>) -> Option<String> {
    match over {
        Some(t) => Some(t),
        None => own,
    }
}

/// An event that no change applies to passes through unchanged.
pub open spec fn passed(event: Event) -> Row {
    Row {
        kind: event.kind,
        set: event.set,
        label: event.label,
        data: event.data,
        occurred_at: event.occurred_at,
        original_occurred_at: Some(event.original_occurred_at),
        attribute: event.attribute,
        created_by: event.created_by,
        created_at: event.created_at,
    }
}

/// A modified event takes the fields that the change carries, and its own
/// for the others.
pub open spec fn modified(event: Event, change: Change) -> Row {
    Row {
        kind: or_text(change.event_kind, event.kind),
        set: or_text(change.event_set, event.set),
        label: or_opt_text(change.event_label, event.label),
        data: or_text(change.event_data, event.data),
        occurred_at: match change.event_occurred_at {
            Some(t) => t,
            None => event.occurred_at,
        },
        original_occurred_at: Some(event.original_occurred_at),
        attribute: event.attribute,
        created_by: or_text(change.event_created_by, event.created_by),
        created_at: event.created_at,
    }
}

/// The event that a well-formed addition creates at the wall-clock time
/// `now`; its set defaults to its kind.
pub open spec fn added(change: Change, now: i64) -> Row {
    Row {
        kind: change.event_kind.unwrap(),
        set: or_text(change.event_set, change.event_kind.unwrap()),
        label: change.event_label,
        data: change.event_data.unwrap(),
        occurred_at: change.event_occurred_at.unwrap(),
        original_occurred_at: None,
        attribute: None,
        created_by: change.event_created_by.unwrap(),
        created_at: now,
    }
}

/// Whether some change applies to the event.
pub open spec fn is_referenced(event: Event, changes: Seq<Change>) -> bool {
    exists|i: int| 0 <= i < changes.len() && refers_to(#[trigger] changes[i], event)
}

/// The rows that the modifications of `event` give, in the order of the changes.
pub open spec fn modification_rows(event: Event, changes: Seq<Change>) -> Seq<Row>
    decreases changes.len(),
{
    if changes.len() == 0 {
        Seq::empty()
    } else {
        let rest = modification_rows(event, changes.drop_last());
        let change = changes.last();
        if refers_to(change, event) && change.kind == ChangeKind::Modification {
            rest.push(modified(event, change))
        } else {
            rest
        }
    }
}

/// The rows that one event of the source room gives: none where it is
/// removed from the log; itself where no change applies to it; else one row
/// for each modification, and none for a removal.
pub open spec fn event_rows(event: Event, changes: Seq<Change>) -> Seq<Row> {
    if event.removed {
        Seq::empty()
    } else if is_referenced(event, changes) {
        modification_rows(event, changes)
    } else {
        seq![passed(event)]
    }
}

/// The rows of all events, in the order of the log.
pub open spec fn source_rows(events: Seq<Event>, changes: Seq<Change>) -> Seq<Row>
    decreases events.len(),
{
    if events.len() == 0 {
        Seq::empty()
    } else {
        source_rows(events.drop_last(), changes) + event_rows(events.last(), changes)
    }
}

/// The rows that the additions among the changes give, in order.
pub open spec fn addition_rows(changes: Seq<Change>, now: i64) -> Seq<Row>
    decreases changes.len(),
{
    if changes.len() == 0 {
        Seq::empty()
    } else if changes.last().kind == ChangeKind::Addition {
        addition_rows(changes.drop_last(), now).push(added(changes.last(), now))
    } else {
        addition_rows(changes.drop_last(), now)
    }
}

/// The full outer join of the events and the changes: the rows of the
/// events followed by those of the additions.
pub open spec fn joined_rows(events: Seq<Event>, changes: Seq<Change>, now: i64) -> Seq<Row> {
    source_rows(events, changes) + addition_rows(changes, now)
}

/// Whether the text is that of the override or, without one, the event's own.
fn pick_text(over: &Option<String>, own: &String) -> (res: String)
    ensures
        res == or_text(*over, *own),
{
    match over {
        Some(t) => t.clone(),
        None => own.clone(),
    }
}

fn pick_opt_text(over: &Option<String>, own: &Option<String>) -> (res: Option<String>)
    ensures
        res == or_opt_text(*over, *own),
{
    match over {
        Some(t) => Some(t.clone()),
        None => clone_opt(own),
    }
}

impl Row {
    /// The row of an event that passes through unchanged.
    pub fn pass(event: &Event) -> (res: Row)
        ensures
            res == passed(*event),
    {
        Row {
            kind: event.kind.clone(),
            set: event.set.clone(),
            label: clone_opt(&event.label),
            data: event.data.clone(),
            occurred_at: event.occurred_at,
            original_occurred_at: Some(event.original_occurred_at),
            attribute: clone_opt(&event.attribute),
            created_by: event.created_by.clone(),
            created_at: event.created_at,
        }
    }

    /// The row of an event under a modification.
    pub fn modify(event: &Event, change: &Change) -> (res: Row)
        ensures
            res == modified(*event, *change),
    {
        Row {
            kind: pick_text(&change.event_kind, &event.kind),
            set: pick_text(&change.event_set, &event.set),
            label: pick_opt_text(&change.event_label, &event.label),
            data: pick_text(&change.event_data, &event.data),
            occurred_at: match change.event_occurred_at {
                Some(t) => t,
                None => event.occurred_at,
            },
            original_occurred_at: Some(event.original_occurred_at),
            attribute: clone_opt(&event.attribute),
            created_by: pick_text(&change.event_created_by, &event.created_by),
            created_at: event.created_at,
        }
    }

    /// The row that an addition creates at the wall-clock time `now`, or
    /// `None` where the addition lacks a kind, a payload, a time or an author.
    pub fn add(change: &Change, now: i64) -> (res: Option<Row>)
        ensures
            res is Some <==> change.event_kind is Some && change.event_data is Some
                && change.event_occurred_at is Some && change.event_created_by is Some,
            res matches Some(row) ==> row == added(*change, now),
    {
        match (
            &change.event_kind,
            &change.event_data,
            change.event_occurred_at,
            &change.event_created_by,
        ) {
            (Some(kind), Some(data), Some(occurred_at), Some(created_by)) => Some(
                Row {
                    kind: kind.clone(),
                    set: pick_text(&change.event_set, kind),
                    label: clone_opt(&change.event_label),
                    data: data.clone(),
                    occurred_at,
                    original_occurred_at: None,
                    attribute: None,
                    created_by: created_by.clone(),
                    created_at: now,
                },
            ),
            _ => None,
        }
    }
}

/// Whether one of the events has the id.
pub fn has_event(events: &Vec<Event>, id: u128) -> (res: bool)
    ensures
        res == holds_event(events@, id),
{
    let mut i: usize = 0;
    while i < events.len()
        invariant
            0 <= i <= events.len(),
            forall|k: int| 0 <= k < i ==> (#[trigger] events[k]).id != id,
        decreases events.len() - i,
    {
        if events[i].id == id {
            return true;
        }
        i += 1;
    }
    false
}

/// Checks the integrity rule of a change set against the events of its
/// source room, and reports the first change that breaks it.
pub fn check_changes(events: &Vec<Event>, changes: &Vec<Change>) -> (res: Result<(), ChangeError>)
    ensures
        res is Ok <==> changes_valid(events@, changes@),
        res matches Err(err) ==> exists|i: int|
            0 <= i < changes.len() && (#[trigger] changes[i]).id == err.change_id && fault_of(
                events@,
                changes[i],
            ) == Some(err.fault) && changes_valid(events@, changes@.take(i)),
{
    let mut i: usize = 0;
    while i < changes.len()
        invariant
            0 <= i <= changes.len(),
            changes_valid(events@, changes@.take(i as int)),
        decreases changes.len() - i,
    {
        let change = &changes[i];
        if !change.is_well_formed() {
            return Err(ChangeError { change_id: change.id, fault: ChangeFault::Malformed });
        }
        match change.kind {
            ChangeKind::Addition => {},
            _ => {
                let known = match change.event_id {
                    Some(id) => has_event(events, id),
                    None => false,
                };
                if !known {
                    return Err(
                        ChangeError { change_id: change.id, fault: ChangeFault::UnknownEvent },
                    );
                }
            },
        }
        i += 1;
        assert forall|k: int| 0 <= k < i implies fault_of(
            events@,
            #[trigger] changes@.take(i as int)[k],
        ) is None by {
            if k < i - 1 {
                assert(changes@.take(i as int)[k] == changes@.take(i - 1)[k]);
            }
        }
    }
    assert(changes@.take(i as int) =~= changes@);
    Ok(())
}

/// The rows of one event.
fn rows_of_event(event: &Event, changes: &Vec<Change>) -> (res: Vec<Row>)
    ensures
        res@ == event_rows(*event, changes@),
{
    let mut rows: Vec<Row> = Vec::new();
    if event.removed {
        return rows;
    }
    let mut referenced = false;
    let mut i: usize = 0;
    assert(changes@.take(0) =~= Seq::<Change>::empty());
    while i < changes.len()
        invariant
            0 <= i <= changes.len(),
            rows@ == modification_rows(*event, changes@.take(i as int)),
            referenced == is_referenced(*event, changes@.take(i as int)),
            !referenced ==> rows@.len() == 0,
        decreases changes.len() - i,
    {
        let change = &changes[i];
        proof {
            assert(changes@.take(i + 1).drop_last() =~= changes@.take(i as int));
            assert(changes@.take(i + 1).last() == *change);
        }
        let applies = match change.kind {
            ChangeKind::Addition => false,
            _ => match change.event_id {
                Some(id) => id == event.id,
                None => false,
            },
        };
        proof {
            let before = changes@.take(i as int);
            let after = changes@.take(i + 1);
            if is_referenced(*event, before) {
                let w = choose|w: int| 0 <= w < before.len() && refers_to(#[trigger] before[w], *event);
                assert(after[w] == before[w]);
            }
            if applies {
                assert(refers_to(after[i as int], *event));
            }
            if is_referenced(*event, after) {
                let w = choose|w: int| 0 <= w < after.len() && refers_to(#[trigger] after[w], *event);
                if w < i {
                    assert(before[w] == after[w]);
                }
            }
        }
        if applies {
            referenced = true;
            match change.kind {
                ChangeKind::Modification => {
                    rows.push(Row::modify(event, change));
                },
                _ => {},
            }
        }
        i += 1;
    }
    assert(changes@.take(i as int) =~= changes@);
    if !referenced {
        rows.push(Row::pass(event));
        assert(rows@ =~= seq![passed(*event)]);
    }
    rows
}

/// Joins the events of the source room with the changes of an edition.
///
/// Fails exactly when a change breaks the integrity rule of the change set,
/// with the first such change. Otherwise the rows are those of the events, in
/// the order of the log (an event that no change applies to passes through,
/// a modified one gives a row per modification, a removed one none),
/// followed by one row for each addition, created at `now`.
pub fn join_rows(events: &Vec<Event>, changes: &Vec<Change>, now: i64) -> (res: Result<
    Vec<Row>,
    ChangeError,
>)
    ensures
        res is Ok <==> changes_valid(events@, changes@),
        res matches Ok(rows) ==> rows@ == joined_rows(events@, changes@, now),
        res matches Err(err) ==> exists|i: int|
            0 <= i < changes.len() && (#[trigger] changes[i]).id == err.change_id && fault_of(
                events@,
                changes[i],
            ) == Some(err.fault) && changes_valid(events@, changes@.take(i)),
{
    match check_changes(events, changes) {
        Err(err) => {
            return Err(err);
        },
        Ok(()) => {},
    }
    let mut rows: Vec<Row> = Vec::new();
    let mut i: usize = 0;
    assert(events@.take(0) =~= Seq::<Event>::empty());
    while i < events.len()
        invariant
            0 <= i <= events.len(),
            rows@ == source_rows(events@.take(i as int), changes@),
        decreases events.len() - i,
    {
        proof {
            assert(events@.take(i + 1).drop_last() =~= events@.take(i as int));
            assert(events@.take(i + 1).last() == events[i as int]);
        }
        let mut more = rows_of_event(&events[i], changes);
        rows.append(&mut more);
        i += 1;
    }
    assert(events@.take(i as int) =~= events@);
    let ghost from_events = rows@;
    let mut j: usize = 0;
    assert(changes@.take(0) =~= Seq::<Change>::empty());
    while j < changes.len()
        invariant
            0 <= j <= changes.len(),
            changes_valid(events@, changes@),
            rows@ == from_events + addition_rows(changes@.take(j as int), now),
        decreases changes.len() - j,
    {
        let change = &changes[j];
        proof {
            assert(changes@.take(j + 1).drop_last() =~= changes@.take(j as int));
            assert(changes@.take(j + 1).last() == *change);
            assert(fault_of(events@, changes@[j as int]) is None);
        }
        match change.kind {
            ChangeKind::Addition => {
                match Row::add(change, now) {
                    Some(row) => {
                        rows.push(row);
                    },
                    None => {
                        assert(false);
                    },
                }
            },
            _ => {},
        }
        j += 1;
        assert(rows@ =~= from_events + addition_rows(changes@.take(j as int), now));
    }
    assert(changes@.take(j as int) =~= changes@);
    Ok(rows)
}

} // verus!

//! The commit engine: from an edition and its source room to the destination
//! room, its event log and the segments of the timeline that survive.

use vstd::prelude::*;
use crate::change::Change;
use crate::error::ErrorKind;
use crate::event::Event;
use crate::gaps::{
    collect_gaps,
    cut_markers,
    gaps_of,
    gaps_ordered,
    is_cut_change,
    ordered_by_time,
    GapError,
};
use crate::placement::{destination_events, place_rows, placeable, TimeOutOfRange};
use crate::room::{duration_of, Room};
use crate::ids::{fresh_id, fresh_ids};
use crate::rows::{changes_valid, fault_of, join_rows, joined_rows, ChangeError, Row};
use crate::segments::{in_milliseconds, is_complement, modified_segments, Segments};
use crate::state::same_text;

verus! {

/// An edition: a staging area of changes to a room.
#[derive(Debug)]
pub struct Edition {
    pub id: u128,
    pub source_room_id: u128,
    pub created_by: String,
    pub created_at: i64,
}

/// Why an edition cannot be committed.
#[derive(Clone, Copy, Debug, PartialEq, Eq, Structural)]
pub enum CommitError {
    /// The source room's time is not `[opened_at, closed_at)` with
    /// `closed_at > opened_at`.
    InvalidRoomTime,
    /// The cut markers do not form a sequence of cuts.
    InvalidCut(GapError),
    /// A change breaks the integrity rule of the change set.
    InvalidChange(ChangeError),
    /// An event has no place on the destination timeline.
    TimeOutOfRange,
}

impl CommitError {
    /// The kind of error that the broadcast of a failed commit carries: a
    /// bad room time is named as such, every other failure is a failure of
    /// the commit task.
    pub fn kind(&self) -> (res: ErrorKind)
        ensures
            res == if *self == CommitError::InvalidRoomTime {
                ErrorKind::InvalidRoomTime
            } else {
                ErrorKind::EditionCommitTaskFailed
            },
    {
        match self {
            CommitError::InvalidRoomTime => ErrorKind::InvalidRoomTime,
            _ => ErrorKind::EditionCommitTaskFailed,
        }
    }
}

/// The status that the broadcast of a commit carries.
pub open spec fn status_of(failed: bool) -> Seq<char> {
    if failed {
        "error"@
    } else {
        "success"@
    }
}

/// The status that the broadcast of a commit carries: `success` or `error`.
pub fn status(result: &Result<Commit, CommitError>) -> (res: &'static str)
    ensures
        res@ == status_of(result is Err),
{
    match result {
        Ok(_) => "success",
        Err(_) => "error",
    }
}

/// What a commit produces.
#[derive(Debug)]
pub struct Commit {
    pub destination: Room,
    pub events: Vec<Event>,
    pub modified_segments: Segments,
}

/// The kind of the events and changes that mark cuts.
pub open spec fn cut_kind() -> Seq<char> {
    "stream"@
}

/// The events of the room, in order.
pub open spec fn events_of_room(events: Seq<Event>, room_id: u128) -> Seq<Event>
    decreases events.len(),
{
    if events.len() == 0 {
        Seq::empty()
    } else if events.last().room_id == room_id {
        events_of_room(events.drop_last(), room_id).push(events.last())
    } else {
        events_of_room(events.drop_last(), room_id)
    }
}

/// The changes of the edition, in order.
pub open spec fn changes_of_edition(changes: Seq<Change>, edition_id: u128) -> Seq<Change>
    decreases changes.len(),
{
    if changes.len() == 0 {
        Seq::empty()
    } else if changes.last().edition_id == edition_id {
        changes_of_edition(changes.drop_last(), edition_id).push(changes.last())
    } else {
        changes_of_edition(changes.drop_last(), edition_id)
    }
}

/// Whether the event marks a cut: it is in the log and of the cut kind.
pub open spec fn is_cut_event(event: Event) -> bool {
    !event.removed && event.kind@ == cut_kind()
}

/// The events that mark cuts, in order.
pub open spec fn cut_events(events: Seq<Event>) -> Seq<Event>
    decreases events.len(),
{
    if events.len() == 0 {
        Seq::empty()
    } else if is_cut_event(events.last()) {
        cut_events(events.drop_last()).push(events.last())
    } else {
        cut_events(events.drop_last())
    }
}

/// Whether the change is about an event of the cut kind.
pub open spec fn is_stream_change(change: Change) -> bool {
    change.event_kind matches Some(kind) && kind@ == cut_kind()
}

/// The changes that mark cuts, in order.
pub open spec fn cut_changes(changes: Seq<Change>) -> Seq<Change>
    decreases changes.len(),
{
    if changes.len() == 0 {
        Seq::empty()
    } else if is_stream_change(changes.last()) {
        cut_changes(changes.drop_last()).push(changes.last())
    } else {
        cut_changes(changes.drop_last())
    }
}

/// The events that are not of the cut kind, in order.
pub open spec fn without_cuts(events: Seq<Event>) -> Seq<Event>
    decreases events.len(),
{
    if events.len() == 0 {
        Seq::empty()
    } else if events.last().kind@ == cut_kind() {
        without_cuts(events.drop_last())
    } else {
        without_cuts(events.drop_last()).push(events.last())
    }
}

/// The first change that marks a cut without carrying a time and a payload.
pub open spec fn first_bare_cut(changes: Seq<Change>) -> Option<Change>
    decreases changes.len(),
{
    if changes.len() == 0 {
        None
    } else {
        match first_bare_cut(changes.drop_last()) {
            Some(c) => Some(c),
            None => if is_cut_change(changes.last()) {
                None
            } else {
                Some(changes.last())
            },
        }
    }
}

/// The gaps that the cut markers of the events and changes give: the
/// error of the first change that marks a cut without a time and a payload,
/// else what the analyzer makes of the markers in ascending order of time.
pub open spec fn gaps_outcome(events: Seq<Event>, changes: Seq<Change>) -> Result<
    Seq<(i64, i64)>,
    GapError,
> {
    match first_bare_cut(cut_changes(changes)) {
        Some(c) => Err(GapError::InvalidCutChange { id: c.id }),
        None => gaps_of(ordered_by_time(cut_markers(cut_events(events), cut_changes(changes)))),
    }
}

/// The error of a commit, if any, in the order of the steps: the room's
/// time, the cuts, the changes, the times of the destination events.
pub open spec fn commit_fault(
    source: Room,
    events: Seq<Event>,
    changes: Seq<Change>,
    now: i64,
) -> Option<CommitError> {
    if duration_of(source.time) is None {
        Some(CommitError::InvalidRoomTime)
    } else {
        match gaps_outcome(events, changes) {
            Err(e) => Some(CommitError::InvalidCut(e)),
            Ok(gaps) => if !changes_valid(events, changes) {
                Some(CommitError::InvalidChange(first_fault(events, changes)))
            } else if !placeable(joined_rows(events, changes, now), gaps) {
                Some(CommitError::TimeOutOfRange)
            } else {
                None
            },
        }
    }
}

/// The first change that breaks the integrity rule, with its fault.
pub open spec fn first_fault(events: Seq<Event>, changes: Seq<Change>) -> ChangeError {
    let i = choose|i: int|
        0 <= i < changes.len() && fault_of(events, #[trigger] changes[i]) is Some && changes_valid(
            events,
            changes.take(i),
        );
    ChangeError { change_id: changes[i].id, fault: fault_of(events, changes[i]).unwrap() }
}

/// Whether `commit` is what committing gives under the ids `ids` for the
/// events and `destination_id` for the room.
pub open spec fn is_commit(
    commit: Commit,
    source: Room,
    events: Seq<Event>,
    changes: Seq<Change>,
    now: i64,
    destination_id: u128,
    ids: Seq<u128>,
) -> bool {
    let gaps = gaps_outcome(events, changes).unwrap();
    let rows = joined_rows(events, changes, now);
    &&& commit.destination.id == destination_id
    &&& commit.destination.audience == source.audience
    &&& commit.destination.time == source.time
    &&& commit.destination.tags == source.tags
    &&& commit.destination.source_room_id == Some(source.id)
    &&& commit.events@ == without_cuts(destination_events(rows, gaps, destination_id, ids))
    &&& exists|left: Seq<(i64, i64)>| #[trigger]
        is_complement(left, gaps, duration_of(source.time).unwrap() as int)
            && commit.modified_segments@ == in_milliseconds(left)
}

/// The first violation is unique, so any witness names it.
proof fn lemma_first_fault(events: Seq<Event>, changes: Seq<Change>, i: int)
    requires
        0 <= i < changes.len(),
        fault_of(events, changes[i]) is Some,
        changes_valid(events, changes.take(i)),
    ensures
        first_fault(events, changes) == (ChangeError {
            change_id: changes[i].id,
            fault: fault_of(events, changes[i]).unwrap(),
        }),
{
    let w = choose|w: int|
        0 <= w < changes.len() && fault_of(events, #[trigger] changes[w]) is Some && changes_valid(
            events,
            changes.take(w),
        );
    if w < i {
        assert(changes.take(i)[w] == changes[w]);
    } else if i < w {
        assert(changes.take(w)[i] == changes[i]);
    }
}

/// The events of the room.
pub fn select_room_events(events: &Vec<Event>, room_id: u128) -> (res: Vec<Event>)
    ensures
        res@ == events_of_room(events@, room_id),
{
    let mut res: Vec<Event> = Vec::new();
    let mut i: usize = 0;
    assert(events@.take(0) =~= Seq::<Event>::empty());
    while i < events.len()
        invariant
            0 <= i <= events.len(),
            res@ == events_of_room(events@.take(i as int), room_id),
        decreases events.len() - i,
    {
        proof {
            assert(events@.take(i + 1).drop_last() =~= events@.take(i as int));
            assert(events@.take(i + 1).last() == events[i as int]);
        }
        if events[i].room_id == room_id {
            res.push(events[i].duplicate());
        }
        i += 1;
    }
    assert(events@.take(i as int) =~= events@);
    res
}

/// The changes of the edition.
pub fn select_edition_changes(changes: &Vec<Change>, edition_id: u128) -> (res: Vec<Change>)
    ensures
        res@ == changes_of_edition(changes@, edition_id),
{
    let mut res: Vec<Change> = Vec::new();
    let mut i: usize = 0;
    assert(changes@.take(0) =~= Seq::<Change>::empty());
    while i < changes.len()
        invariant
            0 <= i <= changes.len(),
            res@ == changes_of_edition(changes@.take(i as int), edition_id),
        decreases changes.len() - i,
    {
        proof {
            assert(changes@.take(i + 1).drop_last() =~= changes@.take(i as int));
            assert(changes@.take(i + 1).last() == changes[i as int]);
        }
        if changes[i].edition_id == edition_id {
            res.push(changes[i].duplicate());
        }
        i += 1;
    }
    assert(changes@.take(i as int) =~= changes@);
    res
}

/// Whether the text is the cut kind.
pub fn is_cut_kind(kind: &String) -> (res: bool)
    ensures
        res == (kind@ == cut_kind()),
{
    let stream = String::from_str("stream");
    same_text(kind, &stream)
}

/// The events that mark cuts.
pub fn select_cut_events(events: &Vec<Event>) -> (res: Vec<Event>)
    ensures
        res@ == cut_events(events@),
{
    let mut res: Vec<Event> = Vec::new();
    let mut i: usize = 0;
    assert(events@.take(0) =~= Seq::<Event>::empty());
    while i < events.len()
        invariant
            0 <= i <= events.len(),
            res@ == cut_events(events@.take(i as int)),
        decreases events.len() - i,
    {
        proof {
            assert(events@.take(i + 1).drop_last() =~= events@.take(i as int));
            assert(events@.take(i + 1).last() == events[i as int]);
        }
        if !events[i].removed && is_cut_kind(&events[i].kind) {
            res.push(events[i].duplicate());
        }
        i += 1;
    }
    assert(events@.take(i as int) =~= events@);
    res
}

/// The changes that mark cuts.
pub fn select_cut_changes(changes: &Vec<Change>) -> (res: Vec<Change>)
    ensures
        res@ == cut_changes(changes@),
{
    let mut res: Vec<Change> = Vec::new();
    let mut i: usize = 0;
    assert(changes@.take(0) =~= Seq::<Change>::empty());
    while i < changes.len()
        invariant
            0 <= i <= changes.len(),
            res@ == cut_changes(changes@.take(i as int)),
        decreases changes.len() - i,
    {
        proof {
            assert(changes@.take(i + 1).drop_last() =~= changes@.take(i as int));
            assert(changes@.take(i + 1).last() == changes[i as int]);
        }
        let marks = match &changes[i].event_kind {
            Some(kind) => is_cut_kind(kind),
            None => false,
        };
        if marks {
            res.push(changes[i].duplicate());
        }
        i += 1;
    }
    assert(changes@.take(i as int) =~= changes@);
    res
}

/// Deletes the events of the cut kind.
pub fn strip_cuts(events: &Vec<Event>) -> (res: Vec<Event>)
    ensures
        res@ == without_cuts(events@),
{
    let mut res: Vec<Event> = Vec::new();
    let mut i: usize = 0;
    assert(events@.take(0) =~= Seq::<Event>::empty());
    while i < events.len()
        invariant
            0 <= i <= events.len(),
            res@ == without_cuts(events@.take(i as int)),
        decreases events.len() - i,
    {
        proof {
            assert(events@.take(i + 1).drop_last() =~= events@.take(i as int));
            assert(events@.take(i + 1).last() == events[i as int]);
        }
        if !is_cut_kind(&events[i].kind) {
            res.push(events[i].duplicate());
        }
        i += 1;
    }
    assert(events@.take(i as int) =~= events@);
    res
}

/// The gaps of the cut markers among the events and the changes.
///
/// A change that marks a cut without carrying a time and a payload is
/// reported as an invalid cut change; otherwise the result is that of the
/// analyzer over the markers in ascending order of time.
pub fn find_gaps(events: &Vec<Event>, changes: &Vec<Change>) -> (res: Result<
    Vec<(i64, i64)>,
    GapError,
>)
    ensures
        crate::gaps::is_result(res, gaps_outcome(events@, changes@)),
        res matches Ok(gaps) ==> gaps_ordered(gaps@),
{
    let marking_events = select_cut_events(events);
    let marking_changes = select_cut_changes(changes);
    let mut i: usize = 0;
    assert(marking_changes@.take(0) =~= Seq::<Change>::empty());
    while i < marking_changes.len()
        invariant
            0 <= i <= marking_changes.len(),
            marking_changes@ == cut_changes(changes@),
            first_bare_cut(marking_changes@.take(i as int)) is None,
            forall|k: int| 0 <= k < i ==> is_cut_change(#[trigger] marking_changes[k]),
        decreases marking_changes.len() - i,
    {
        proof {
            assert(marking_changes@.take(i + 1).drop_last() =~= marking_changes@.take(i as int));
            assert(marking_changes@.take(i + 1).last() == marking_changes[i as int]);
        }
        let change = &marking_changes[i];
        if change.event_occurred_at.is_none() || change.event_data.is_none() {
            proof {
                assert(first_bare_cut(marking_changes@.take(i + 1)) == Some(
                    marking_changes[i as int],
                ));
                lemma_bare_cut_is_final(marking_changes@, i + 1);
            }
            return Err(GapError::InvalidCutChange { id: change.id });
        }
        i += 1;
    }
    assert(marking_changes@.take(i as int) =~= marking_changes@);
    collect_gaps(&marking_events, &marking_changes)
}

/// Once a bare cut is found, the changes behind it change nothing.
proof fn lemma_bare_cut_is_final(changes: Seq<Change>, k: int)
    requires
        0 <= k <= changes.len(),
        first_bare_cut(changes.take(k)) is Some,
    ensures
        first_bare_cut(changes) == first_bare_cut(changes.take(k)),
    decreases changes.len() - k,
{
    if k == changes.len() {
        assert(changes.take(k) =~= changes);
    } else {
        assert(changes.take(k + 1).drop_last() =~= changes.take(k));
        lemma_bare_cut_is_final(changes, k + 1);
    }
}

/// What a commit has found before it creates anything: the room's
/// duration, the gaps and the rows of the join.
pub struct Draft {
    pub duration: i64,
    pub gaps: Vec<(i64, i64)>,
    pub rows: Vec<Row>,
}

/// Whether the draft is what the first steps of a commit find.
pub open spec fn is_draft(draft: Draft, source: Room, events: Seq<Event>, changes: Seq<Change>, now: i64) -> bool {
    &&& duration_of(source.time) == Some(draft.duration)
    &&& gaps_outcome(events, changes) == Ok::<Seq<(i64, i64)>, GapError>(draft.gaps@)
    &&& gaps_ordered(draft.gaps@)
    &&& changes_valid(events, changes)
    &&& draft.rows@ == joined_rows(events, changes, now)
}

/// The first steps of a commit, which create nothing: the room's time is
/// validated, the cuts are resolved into gaps, and the events are joined
/// with the changes. Fails exactly when the commit fails at one of them.
pub fn draft(source: &Room, events: &Vec<Event>, changes: &Vec<Change>, now: i64) -> (res: Result<
    Draft,
    CommitError,
>)
    ensures
        match res {
            Ok(draft) => is_draft(draft, *source, events@, changes@, now),
            Err(e) => e != CommitError::TimeOutOfRange && commit_fault(
                *source,
                events@,
                changes@,
                now,
            ) == Some(e),
        },
{
    let duration = match source.duration() {
        Ok(d) => d,
        Err(_) => {
            return Err(CommitError::InvalidRoomTime);
        },
    };
    let gaps = match find_gaps(events, changes) {
        Ok(gaps) => gaps,
        Err(e) => {
            return Err(CommitError::InvalidCut(e));
        },
    };
    let rows = match join_rows(events, changes, now) {
        Ok(rows) => rows,
        Err(e) => {
            proof {
                let i = choose|i: int|
                    0 <= i < changes.len() && (#[trigger] changes[i]).id == e.change_id && fault_of(
                        events@,
                        changes[i],
                    ) == Some(e.fault) && changes_valid(events@, changes@.take(i));
                lemma_first_fault(events@, changes@, i);
            }
            return Err(CommitError::InvalidChange(e));
        },
    };
    Ok(Draft { duration, gaps, rows })
}

/// Clones the source room: the destination has the audience, the time and
/// the tags of the source under the identity `id`, and points back to it.
pub fn clone_room(source: &Room, id: u128) -> (destination: Room)
    ensures
        destination.id == id,
        destination.audience == source.audience,
        destination.time == source.time,
        destination.tags == source.tags,
        destination.source_room_id == Some(source.id),
        destination.preserve_history,
{
    source.derive(id)
}

/// Clones the events: places the rows of the join in the destination room,
/// each moved by the gaps before it and spread where rows collide, row `i`
/// under the id `ids[i]`. Fails exactly when a row has no place on the
/// destination timeline.
pub fn clone_events(rows: &Vec<Row>, gaps: &Vec<(i64, i64)>, destination: &Room, ids: &Vec<u128>) -> (res:
    Result<Vec<Event>, CommitError>)
    requires
        crate::squeeze::proper_gaps(gaps@),
        ids.len() == rows.len(),
    ensures
        res is Ok <==> placeable(rows@, gaps@),
        res matches Err(e) ==> e == CommitError::TimeOutOfRange,
        res matches Ok(events) ==> events@ == destination_events(rows@, gaps@, destination.id, ids@),
{
    match place_rows(rows, gaps, destination.id, ids) {
        Ok(placed) => Ok(placed),
        Err(TimeOutOfRange) => Err(CommitError::TimeOutOfRange),
    }
}

/// The last steps of a commit: the room is cloned under `destination_id`,
/// the rows are placed on the destination timeline, row `i` under the id
/// `ids[i]`, the cut markers are deleted and the gaps are inverted into
/// segments. Fails exactly when a row has no place.
pub fn complete(source: &Room, draft: &Draft, destination_id: u128, ids: &Vec<u128>) -> (res: Result<
    Commit,
    CommitError,
>)
    requires
        ids.len() == draft.rows.len(),
        gaps_ordered(draft.gaps@),
    ensures
        res is Ok <==> placeable(draft.rows@, draft.gaps@),
        res matches Err(e) ==> e == CommitError::TimeOutOfRange,
        res matches Ok(commit) ==> {
            &&& commit.destination.id == destination_id
            &&& commit.destination.audience == source.audience
            &&& commit.destination.time == source.time
            &&& commit.destination.tags == source.tags
            &&& commit.destination.source_room_id == Some(source.id)
            &&& commit.events@ == without_cuts(
                destination_events(draft.rows@, draft.gaps@, destination_id, ids@),
            )
            &&& exists|left: Seq<(i64, i64)>| #[trigger]
                is_complement(left, draft.gaps@, draft.duration as int)
                    && commit.modified_segments@ == in_milliseconds(left)
        },
{
    let destination = clone_room(source, destination_id);
    let placed = match clone_events(&draft.rows, &draft.gaps, &destination, ids) {
        Ok(placed) => placed,
        Err(e) => {
            return Err(e);
        },
    };
    let kept = strip_cuts(&placed);
    let modified = modified_segments(&draft.gaps, draft.duration);
    Ok(Commit { destination, events: kept, modified_segments: modified })
}

/// Commits an edition under given identifiers: from the events of the
/// source room and the changes of the edition to the destination room, its
/// events and the modified segments.
///
/// The steps are taken in this order, and the first that fails decides the
/// error: the room's time is validated; the cut events and cut changes are
/// resolved into gaps; the room is cloned under `destination_id`; the events
/// are joined with the changes, moved by the gaps before them and spread
/// where they collide, row `i` under the id `ids[i]`; the cut markers are
/// deleted from the destination; the gaps are inverted into segments, in
/// milliseconds.
pub fn commit_with_ids(
    source: &Room,
    events: &Vec<Event>,
    changes: &Vec<Change>,
    now: i64,
    destination_id: u128,
    ids: &Vec<u128>,
) -> (res: Result<Commit, CommitError>)
    requires
        ids.len() == joined_rows(events@, changes@, now).len(),
    ensures
        match res {
            Ok(commit) => commit_fault(*source, events@, changes@, now) is None && is_commit(
                commit,
                *source,
                events@,
                changes@,
                now,
                destination_id,
                ids@,
            ),
            Err(e) => commit_fault(*source, events@, changes@, now) == Some(e),
        },
{
    let found = match draft(source, events, changes, now) {
        Ok(found) => found,
        Err(e) => {
            return Err(e);
        },
    };
    let res = complete(source, &found, destination_id, ids);
    proof {
        if res is Ok {
            let commit = res->Ok_0;
            let left = choose|left: Seq<(i64, i64)>| #[trigger]
                is_complement(left, found.gaps@, found.duration as int) && commit.modified_segments@
                    == in_milliseconds(left);
            assert(is_complement(left, found.gaps@, duration_of(source.time).unwrap() as int)
                && commit.modified_segments@ == in_milliseconds(left));
        }
    }
    res
}

/// Commits an edition: the events of `events` that belong to the source
/// room are transformed by the changes of `changes` that belong to the
/// edition, as [`commit_with_ids`] does, under fresh random identifiers for
/// the destination room and its events.
///
/// Whether the commit fails, and how, does not depend on the identifiers
/// drawn.
pub fn call(edition: &Edition, source: &Room, events: &Vec<Event>, changes: &Vec<Change>, now: i64) -> (res:
    Result<Commit, CommitError>)
    ensures
        ({
            let own_events = events_of_room(events@, source.id);
            let own_changes = changes_of_edition(changes@, edition.id);
            match res {
                Ok(commit) => commit_fault(*source, own_events, own_changes, now) is None
                    && exists|ids: Seq<u128>| #[trigger]
                    is_commit(
                        commit,
                        *source,
                        own_events,
                        own_changes,
                        now,
                        commit.destination.id,
                        ids,
                    ) && ids.len() == joined_rows(own_events, own_changes, now).len(),
                Err(e) => commit_fault(*source, own_events, own_changes, now) == Some(e),
            }
        }),
{
    let own_events = select_room_events(events, source.id);
    let own_changes = select_edition_changes(changes, edition.id);
    let found = match draft(source, &own_events, &own_changes, now) {
        Ok(found) => found,
        Err(e) => {
            return Err(e);
        },
    };
    let destination_id = fresh_id();
    let ids = fresh_ids(found.rows.len());
    let res = complete(source, &found, destination_id, &ids);
    proof {
        if res is Ok {
            let commit = res->Ok_0;
            let left = choose|left: Seq<(i64, i64)>| #[trigger]
                is_complement(left, found.gaps@, found.duration as int) && commit.modified_segments@
                    == in_milliseconds(left);
            assert(is_complement(left, found.gaps@, duration_of(source.time).unwrap() as int)
                && commit.modified_segments@ == in_milliseconds(left));
            assert(is_commit(
                commit,
                *source,
                own_events@,
                own_changes@,
                now,
                commit.destination.id,
                ids@,
            ));
        }
    }
    res
}

} // verus!

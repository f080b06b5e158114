//! The change set: the changes staged in editions, written until an
//! edition is committed and never applied before.

use vstd::prelude::*;
use crate::change::{Change, ChangeKind};
use crate::commit::{changes_of_edition, select_edition_changes, Edition};
use crate::event::Event;
use crate::room::Room;
use crate::rows::ChangeFault;

verus! {

/// Whether the room owns an event with this id.
pub open spec fn room_holds_event(events: Seq<Event>, room_id: u128, id: u128) -> bool {
    exists|i: int| 0 <= i < events.len() && (#[trigger] events[i]).id == id && events[i].room_id == room_id
}

/// The fault of a change against the log, for an edition of the room
/// `room_id`: a change must be well formed, and a modification or removal
/// must name an event that the room owns.
pub open spec fn integrity_fault(events: Seq<Event>, room_id: u128, change: Change) -> Option<ChangeFault> {
    if !change@.wf() {
        Some(ChangeFault::Malformed)
    } else if change.kind != ChangeKind::Addition && !room_holds_event(
        events,
        room_id,
        change.event_id.unwrap(),
    ) {
        Some(ChangeFault::UnknownEvent)
    } else {
        None
    }
}

/// Whether the room owns an event with this id.
pub fn owns_event(events: &Vec<Event>, room_id: u128, id: u128) -> (res: bool)
    ensures
        res == room_holds_event(events@, room_id, id),
{
    let mut i: usize = 0;
    while i < events.len()
        invariant
            0 <= i <= events.len(),
            forall|k: int| 0 <= k < i ==> !((#[trigger] events[k]).id == id && events[k].room_id == room_id),
        decreases events.len() - i,
    {
        if events[i].id == id && events[i].room_id == room_id {
            return true;
        }
        i += 1;
    }
    false
}

/// Stages a change in an edition of the room `source_room_id`.
///
/// Fails, and leaves the change set as it is, exactly when the change
/// breaks the integrity rule; otherwise the change set grows by the change.
/// The events are not touched: a change is applied only by a commit.
pub fn create(changes: &mut Vec<Change>, events: &Vec<Event>, source_room_id: u128, change: Change) -> (res:
    Result<(), ChangeFault>)
    ensures
        match res {
            Ok(()) => integrity_fault(events@, source_room_id, change) is None && final(changes)@
                == old(changes)@.push(change),
            Err(fault) => integrity_fault(events@, source_room_id, change) == Some(fault) && final(changes)@ == old(changes)@,
        },
{
    if !change.is_well_formed() {
        return Err(ChangeFault::Malformed);
    }
    match change.kind {
        ChangeKind::Addition => {},
        _ => {
            let known = match change.event_id {
                Some(id) => owns_event(events, source_room_id, id),
                None => false,
            };
            if !known {
                return Err(ChangeFault::UnknownEvent);
            }
        },
    }
    changes.push(change);
    Ok(())
}

/// The changes of an edition, in the order in which they were staged.
pub fn list(changes: &Vec<Change>, edition_id: u128) -> (res: Vec<Change>)
    ensures
        res@ == changes_of_edition(changes@, edition_id),
{
    select_edition_changes(changes, edition_id)
}

/// The changes that do not have the given id, in order.
pub open spec fn without_change(changes: Seq<Change>, id: u128) -> Seq<Change>
    decreases changes.len(),
{
    if changes.len() == 0 {
        Seq::empty()
    } else if changes.last().id == id {
        without_change(changes.drop_last(), id)
    } else {
        without_change(changes.drop_last(), id).push(changes.last())
    }
}

/// Deletes the change with the given id from the change set, and says
/// whether there was one. The other changes stay as they are, in order.
pub fn delete(changes: &mut Vec<Change>, id: u128) -> (deleted: bool)
    ensures
        final(changes)@ == without_change(old(changes)@, id),
        deleted == exists|i: int| 0 <= i < old(changes)@.len() && (#[trigger] old(changes)@[i]).id == id,
{
    let mut left: Vec<Change> = Vec::new();
    let mut deleted = false;
    let mut i: usize = 0;
    assert(changes@.take(0) =~= Seq::<Change>::empty());
    while i < changes.len()
        invariant
            0 <= i <= changes.len(),
            changes@ == old(changes)@,
            left@ == without_change(changes@.take(i as int), id),
            deleted == exists|k: int| 0 <= k < i && (#[trigger] changes@[k]).id == id,
        decreases changes.len() - i,
    {
        proof {
            assert(changes@.take(i + 1).drop_last() =~= changes@.take(i as int));
            assert(changes@.take(i + 1).last() == changes[i as int]);
        }
        if changes[i].id == id {
            deleted = true;
        } else {
            left.push(changes[i].duplicate());
        }
        i += 1;
    }
    assert(changes@.take(i as int) =~= changes@);
    *changes = left;
    deleted
}

/// Whether `found` is what the lookup of an edition with its room gives:
/// the first edition with the id and the first room with the id of its
/// source room; nothing where either is missing.
pub open spec fn is_found_with_room(
    found: Option<(usize, usize)>,
    editions: Seq<Edition>,
    rooms: Seq<Room>,
    id: u128,
) -> bool {
    match found {
        Some((e, r)) => {
            &&& e < editions.len()
            &&& editions[e as int].id == id
            &&& forall|k: int| 0 <= k < e ==> (#[trigger] editions[k]).id != id
            &&& r < rooms.len()
            &&& rooms[r as int].id == editions[e as int].source_room_id
            &&& forall|k: int| 0 <= k < r ==> (#[trigger] rooms[k]).id != editions[e as int].source_room_id
        },
        None => (forall|k: int| 0 <= k < editions.len() ==> (#[trigger] editions[k]).id != id) || exists|e: int|
            0 <= e < editions.len() && (#[trigger] editions[e]).id == id && (forall|k: int|
                0 <= k < e ==> (#[trigger] editions[k]).id != id) && forall|k: int|
                0 <= k < rooms.len() ==> (#[trigger] rooms[k]).id != editions[e].source_room_id,
    }
}

/// Looks up an edition with its source room, and returns where the two
/// stand among the editions and the rooms.
pub fn find_with_room(editions: &Vec<Edition>, rooms: &Vec<Room>, id: u128) -> (found: Option<
    (usize, usize),
>)
    ensures
        is_found_with_room(found, editions@, rooms@, id),
{
    let mut e: usize = 0;
    while e < editions.len() && editions[e].id != id
        invariant
            0 <= e <= editions.len(),
            forall|k: int| 0 <= k < e ==> (#[trigger] editions[k]).id != id,
        decreases editions.len() - e,
    {
        e += 1;
    }
    if e == editions.len() {
        return None;
    }
    let room_id = editions[e].source_room_id;
    let mut r: usize = 0;
    while r < rooms.len() && rooms[r].id != room_id
        invariant
            0 <= r <= rooms.len(),
            forall|k: int| 0 <= k < r ==> (#[trigger] rooms[k]).id != room_id,
        decreases rooms.len() - r,
    {
        r += 1;
    }
    if r == rooms.len() {
        assert(editions[e as int].id == id);
        return None;
    }
    Some((e, r))
}

} // verus!

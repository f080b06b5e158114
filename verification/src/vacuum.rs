//! Vacuum: prunes old versions and long-removed labels from the logs of the
//! rooms that do not preserve their history.

use vstd::prelude::*;
use crate::event::Event;
use crate::room::Room;
use crate::state::{is_deleted_mark, same_text};

verus! {

pub const NANOSECONDS_IN_SECOND: i128 = 1_000_000_000;

/// The vacuum policy: how many versions of a label are kept, for how many
/// seconds a version that is not the latest is kept, and for how many
/// seconds a removed label is kept.
#[derive(Clone, Copy, Debug)]
pub struct VacuumConfig {
    pub max_history_size: usize,
    pub max_history_lifetime: u64,
    pub max_deleted_lifetime: u64,
}

/// Whether two events are versions of one label of one set of one room.
pub open spec fn same_group(a: Event, b: Event) -> bool {
    &&& a.room_id == b.room_id
    &&& a.set@ == b.set@
    &&& a.label is Some
    &&& b.label is Some
    &&& a.label.unwrap()@ == b.label.unwrap()@
}

/// Whether the version at `j` is newer than the one at `i`: by time of
/// occurrence, then by position in the log.
pub open spec fn newer(log: Seq<Event>, j: int, i: int) -> bool {
    log[j].occurred_at > log[i].occurred_at || (log[j].occurred_at == log[i].occurred_at && j > i)
}

/// The number of versions of the label of the event at `i`, among the first
/// `n` events of the log, that are newer than it.
pub open spec fn newer_versions(log: Seq<Event>, i: int, n: int) -> nat
    decreases n,
{
    if n <= 0 {
        0
    } else {
        newer_versions(log, i, n - 1) + if same_group(log[n - 1], log[i]) && newer(log, n - 1, i) {
            1nat
        } else {
            0nat
        }
    }
}

/// The latest version, among the first `n` events of the log, of the label
/// of the event at `i`; `i` itself where none is newer.
pub open spec fn latest_of_group(log: Seq<Event>, i: int, n: int) -> int
    decreases n,
{
    if n <= 0 {
        i
    } else {
        let best = latest_of_group(log, i, n - 1);
        if same_group(log[n - 1], log[i]) && newer(log, n - 1, best) {
            n - 1
        } else {
            best
        }
    }
}

/// Whether the event marks the removal of its label.
pub open spec fn marks_removal(event: Event) -> bool {
    event.attribute matches Some(a) && a@ == crate::state::deleted_mark()
}

/// Whether the event was created more than `lifetime` seconds before `now`.
pub open spec fn outlived(event: Event, lifetime: u64, now: i64) -> bool {
    event.created_at < now - lifetime * NANOSECONDS_IN_SECOND
}

/// Whether the label of the event at `i` was removed long enough ago: its
/// latest version marks a removal and has outlived the lifetime of a
/// removed label.
pub open spec fn label_expired(log: Seq<Event>, config: VacuumConfig, now: i64, i: int) -> bool {
    let latest = log[latest_of_group(log, i, log.len() as int)];
    marks_removal(latest) && outlived(latest, config.max_deleted_lifetime, now)
}

/// Whether the event at `i` is a version that history no longer holds: it
/// is not the latest of its label, and it lies beyond the versions that are
/// kept or has outlived the lifetime of a version.
pub open spec fn version_expired(log: Seq<Event>, config: VacuumConfig, now: i64, i: int) -> bool {
    let newer = newer_versions(log, i, log.len() as int);
    newer >= 1 && (newer >= config.max_history_size || outlived(
        log[i],
        config.max_history_lifetime,
        now,
    ))
}

/// Whether a room with this id is known and does not preserve its history.
pub open spec fn is_vacuumed_room(rooms: Seq<Room>, room_id: u128) -> bool {
    exists|r: int| 0 <= r < rooms.len() && (#[trigger] rooms[r]).id == room_id && !rooms[r].preserve_history
}

/// Whether the vacuum deletes the event at `i`.
pub open spec fn is_doomed(log: Seq<Event>, rooms: Seq<Room>, config: VacuumConfig, now: i64, i: int) -> bool {
    &&& is_vacuumed_room(rooms, log[i].room_id)
    &&& log[i].label is Some
    &&& label_expired(log, config, now, i) || version_expired(log, config, now, i)
}

/// The events among the first `n` of the log that the vacuum keeps, in order.
pub open spec fn kept(log: Seq<Event>, rooms: Seq<Room>, config: VacuumConfig, now: i64, n: int) -> Seq<Event>
    decreases n,
{
    if n <= 0 {
        Seq::empty()
    } else if is_doomed(log, rooms, config, now, n - 1) {
        kept(log, rooms, config, now, n - 1)
    } else {
        kept(log, rooms, config, now, n - 1).push(log[n - 1])
    }
}

/// The latest version of a label is a version of it, and none is newer.
pub proof fn law_latest_of_group(log: Seq<Event>, i: int, n: int)
    requires
        0 <= i < log.len(),
        0 <= n <= log.len(),
    ensures
        ({
            let best = latest_of_group(log, i, n);
            &&& 0 <= best < log.len()
            &&& best == i || (same_group(log[best], log[i]) && newer(log, best, i))
            &&& forall|j: int|
                0 <= j < n && same_group(#[trigger] log[j], log[i]) ==> !newer(log, j, best)
        }),
    decreases n,
{
    if n > 0 {
        law_latest_of_group(log, i, n - 1);
    }
}

/// The vacuum keeps the latest version of every label whose removal is not
/// yet due: an event that no version of its label is newer than is deleted
/// only with its whole label.
pub proof fn law_latest_is_kept(log: Seq<Event>, rooms: Seq<Room>, config: VacuumConfig, now: i64, i: int)
    requires
        0 <= i < log.len(),
        newer_versions(log, i, log.len() as int) == 0,
        !label_expired(log, config, now, i),
    ensures
        !is_doomed(log, rooms, config, now, i),
{
}

/// The vacuum rewrites nothing: every event that it keeps is an event of
/// the log that it does not delete, as it was.
pub proof fn law_kept_are_untouched(
    log: Seq<Event>,
    rooms: Seq<Room>,
    config: VacuumConfig,
    now: i64,
    n: int,
    k: int,
)
    requires
        0 <= n <= log.len(),
        0 <= k < kept(log, rooms, config, now, n).len(),
    ensures
        exists|j: int|
            0 <= j < n && kept(log, rooms, config, now, n)[k] == #[trigger] log[j] && !is_doomed(
                log,
                rooms,
                config,
                now,
                j,
            ),
    decreases n,
{
    if n > 0 {
        let before = kept(log, rooms, config, now, n - 1);
        if k < before.len() {
            law_kept_are_untouched(log, rooms, config, now, n - 1, k);
            let j = choose|j: int|
                0 <= j < n - 1 && before[k] == #[trigger] log[j] && !is_doomed(
                    log,
                    rooms,
                    config,
                    now,
                    j,
                );
            assert(kept(log, rooms, config, now, n)[k] == log[j]);
        } else {
            assert(kept(log, rooms, config, now, n)[k] == log[n - 1]);
        }
    }
}

/// Whether a room with this id is known and does not preserve its history.
pub fn vacuumed_room(rooms: &Vec<Room>, room_id: u128) -> (res: bool)
    ensures
        res == is_vacuumed_room(rooms@, room_id),
{
    let mut r: usize = 0;
    while r < rooms.len()
        invariant
            0 <= r <= rooms.len(),
            forall|k: int| 0 <= k < r ==> !((#[trigger] rooms[k]).id == room_id && !rooms[k].preserve_history),
        decreases rooms.len() - r,
    {
        if rooms[r].id == room_id && !rooms[r].preserve_history {
            return true;
        }
        r += 1;
    }
    false
}

fn in_same_group(a: &Event, b: &Event) -> (res: bool)
    ensures
        res == same_group(*a, *b),
{
    a.room_id == b.room_id && same_text(&a.set, &b.set) && match (&a.label, &b.label) {
        (Some(x), Some(y)) => same_text(x, y),
        _ => false,
    }
}

fn has_outlived(event: &Event, lifetime: u64, now: i64) -> (res: bool)
    ensures
        res == outlived(*event, lifetime, now),
{
    (event.created_at as i128) < now as i128 - lifetime as i128 * NANOSECONDS_IN_SECOND
}

/// Whether the vacuum deletes the event at `i`.
pub fn dooms(log: &Vec<Event>, rooms: &Vec<Room>, config: &VacuumConfig, now: i64, i: usize) -> (res:
    bool)
    requires
        i < log.len(),
    ensures
        res == is_doomed(log@, rooms@, *config, now, i as int),
{
    if log[i].label.is_none() || !vacuumed_room(rooms, log[i].room_id) {
        return false;
    }
    let mut newer_count: usize = 0;
    let mut latest: usize = i;
    let mut j: usize = 0;
    while j < log.len()
        invariant
            0 <= j <= log.len(),
            i < log.len(),
            latest < log.len(),
            newer_count == newer_versions(log@, i as int, j as int),
            newer_count <= j,
            latest == latest_of_group(log@, i as int, j as int),
        decreases log.len() - j,
    {
        if in_same_group(&log[j], &log[i]) {
            if log[j].occurred_at > log[i].occurred_at || (log[j].occurred_at == log[i].occurred_at
                && j > i) {
                newer_count += 1;
            }
            if log[j].occurred_at > log[latest].occurred_at || (log[j].occurred_at
                == log[latest].occurred_at && j > latest) {
                latest = j;
            }
        }
        j += 1;
    }
    let removed = match &log[latest].attribute {
        Some(a) => is_deleted_mark(a),
        None => false,
    };
    if removed && has_outlived(&log[latest], config.max_deleted_lifetime, now) {
        return true;
    }
    newer_count >= 1 && (newer_count >= config.max_history_size || has_outlived(
        &log[i],
        config.max_history_lifetime,
        now,
    ))
}

/// Runs the vacuum over a log at the wall-clock time `now` and returns what
/// is left of it.
///
/// Only labelled events of rooms that do not preserve their history are
/// deleted: every version of a label whose latest version marks a removal
/// and is older than `max_deleted_lifetime` seconds; and every version, but
/// never the latest, that has `max_history_size` or more newer versions or
/// is older than `max_history_lifetime` seconds. The other events stay as
/// they are, in their order.
pub fn call(log: &Vec<Event>, rooms: &Vec<Room>, config: &VacuumConfig, now: i64) -> (res: Vec<Event>)
    ensures
        res@ == kept(log@, rooms@, *config, now, log.len() as int),
{
    let mut res: Vec<Event> = Vec::new();
    let mut i: usize = 0;
    while i < log.len()
        invariant
            0 <= i <= log.len(),
            res@ == kept(log@, rooms@, *config, now, i as int),
        decreases log.len() - i,
    {
        if !dooms(log, rooms, config, now, i) {
            res.push(log[i].duplicate());
        }
        i += 1;
    }
    res
}

} // verus!

//! Rooms: time-bounded sessions that own an event log.

use vstd::prelude::*;

verus! {

/// One end of a room's time interval, in wall-clock nanoseconds since the
/// Unix epoch.
#[derive(Clone, Copy, Debug, PartialEq, Eq, Structural)]
pub enum Bound {
    Included(i64),
    Excluded(i64),
    Unbounded,
}

/// A room. `tags` is the JSON text of the room's tags.
#[derive(Debug)]
pub struct Room {
    pub id: u128,
    pub audience: String,
    pub time: (Bound, Bound),
    pub tags: Option<String>,
    pub source_room_id: Option<u128>,
    pub preserve_history: bool,
}

/// The room's time bounds cannot be used: they are not a closed-open
/// interval, or the room does not close after it opens.
#[derive(Clone, Copy, Debug, PartialEq, Eq, Structural)]
pub struct InvalidRoomTime;

/// The length of a well-formed time interval `[opened_at, closed_at)` in
/// nanoseconds, at most `i64::MAX`; `None` where the bounds are not of that
/// form or `closed_at` is not after `opened_at`.
pub open spec fn duration_of(time: (Bound, Bound)) -> Option<i64> {
    match time {
        (Bound::Included(opened_at), Bound::Excluded(closed_at)) => if closed_at
            > opened_at {
            if closed_at - opened_at > i64::MAX {
                Some(i64::MAX)
            } else {
                Some((closed_at - opened_at) as i64)
            }
        } else {
            None
        },
        _ => None,
    }
}

impl Room {
    /// The room's duration in nanoseconds: `closed_at - opened_at`, saturating
    /// at `i64::MAX`. Fails exactly when the bounds are not `[opened_at,
    /// closed_at)` with `closed_at > opened_at`.
    pub fn duration(&self) -> (res: Result<i64, InvalidRoomTime>)
        ensures
            match res {
                Ok(d) => duration_of(self.time) == Some(d) && d > 0,
                Err(_) => duration_of(self.time) is None,
            },
    {
        match self.time {
            (Bound::Included(opened_at), Bound::Excluded(closed_at)) => {
                if closed_at > opened_at {
                    match closed_at.checked_sub(opened_at) {
                        Some(d) => Ok(d),
                        None => Ok(i64::MAX),
                    }
                } else {
                    Err(InvalidRoomTime)
                }
            },
            _ => Err(InvalidRoomTime),
        }
    }

    /// The room that a commit of this room creates: the same audience, time
    /// and tags under the identity `id`, pointing back to this room. Like
    /// every new room it preserves its history.
    pub fn derive(&self, id: u128) -> (res: Room)
        ensures
            res.id == id,
            res.audience == self.audience,
            res.time == self.time,
            res.tags == self.tags,
            res.source_room_id == Some(self.id),
            res.preserve_history,
    {
        Room {
            id,
            audience: self.audience.clone(),
            time: self.time,
            tags: crate::event::clone_opt(&self.tags),
            source_room_id: Some(self.id),
            preserve_history: true,
        }
    }
}

} // verus!

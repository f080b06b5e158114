//! Events of a room's timeline and their mathematical view.

use vstd::prelude::*;

verus! {

/// One row of a room's event log.
///
/// Identifiers are 128-bit values, `data` is the JSON text of the payload,
/// `occurred_at` and `original_occurred_at` are nanoseconds from the room's
/// opening, `created_at` is wall-clock nanoseconds since the Unix epoch.
#[derive(Debug)]
pub struct Event {
    pub id: u128,
    pub room_id: u128,
    pub kind: String,
    pub set: String,
    pub label: Option<String>,
    pub data: String,
    pub occurred_at: i64,
    pub original_occurred_at: i64,
    pub attribute: Option<String>,
    pub created_by: String,
    pub created_at: i64,
    pub removed: bool,
}

/// The mathematical content of an [`Event`].
pub struct EventView {
    pub id: u128,
    pub room_id: u128,
    pub kind: Seq<char>,
    pub set: Seq<char>,
    pub label: Option<Seq<char>>,
    pub data: Seq<char>,
    pub occurred_at: int,
    pub original_occurred_at: int,
    pub attribute: Option<Seq<char>>,
    pub created_by: Seq<char>,
    pub created_at: int,
    pub removed: bool,
}

/// View of an optional string.
pub open spec fn opt_view(s: Option<String>) -> Option<Seq<char>> {
    match s {
        Some(t) => Some(t@),
        None => None,
    }
}

impl View for Event {
    type V = EventView;

    open spec fn view(&self) -> EventView {
        EventView {
            id: self.id,
            room_id: self.room_id,
            kind: self.kind@,
            set: self.set@,
            label: opt_view(self.label),
            data: self.data@,
            occurred_at: self.occurred_at as int,
            original_occurred_at: self.original_occurred_at as int,
            attribute: opt_view(self.attribute),
            created_by: self.created_by@,
            created_at: self.created_at as int,
            removed: self.removed,
        }
    }
}

/// Copies an optional string.
pub fn clone_opt(s: &Option<String>) -> (res: Option<String>)
    ensures
        res == *s,
{
    match s {
        Some(t) => Some(t.clone()),
        None => None,
    }
}

impl Event {
    /// An event is well formed when its offset from the room's opening is
    /// not negative.
    pub open spec fn wf(&self) -> bool {
        self.occurred_at >= 0
    }

    /// A copy with the same content.
    pub fn duplicate(&self) -> (res: Event)
        ensures
            res == *self,
    {
        Event {
            id: self.id,
            room_id: self.room_id,
            kind: self.kind.clone(),
            set: self.set.clone(),
            label: clone_opt(&self.label),
            data: self.data.clone(),
            occurred_at: self.occurred_at,
            original_occurred_at: self.original_occurred_at,
            attribute: clone_opt(&self.attribute),
            created_by: self.created_by.clone(),
            created_at: self.created_at,
            removed: self.removed,
        }
    }
}

} // verus!

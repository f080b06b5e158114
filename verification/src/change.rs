//! Changes staged in an edition: additions, modifications and removals of
//! events, applied only when the edition is committed.

use vstd::prelude::*;
use crate::event::{clone_opt, opt_view};

verus! {

/// What a change does to the event log.
#[derive(Clone, Copy, Debug, PartialEq, Eq, Structural)]
pub enum ChangeKind {
    Addition,
    Modification,
    Removal,
}

/// One row of an edition's change set.
///
/// `event_id` names the event that a modification or removal applies to; the
/// other `event_*` fields override the corresponding fields of the event, or
/// supply them for an addition.
#[derive(Debug)]
pub struct Change {
    pub id: u128,
    pub edition_id: u128,
    pub kind: ChangeKind,
    pub event_id: Option<u128>,
    pub event_kind: Option<String>,
    pub event_set: Option<String>,
    pub event_label: Option<String>,
    pub event_data: Option<String>,
    pub event_occurred_at: Option<i64>,
    pub event_created_by: Option<String>,
}

/// The mathematical content of a [`Change`].
pub struct ChangeView {
    pub id: u128,
    pub edition_id: u128,
    pub kind: ChangeKind,
    pub event_id: Option<u128>,
    pub event_kind: Option<Seq<char>>,
    pub event_set: Option<Seq<char>>,
    pub event_label: Option<Seq<char>>,
    pub event_data: Option<Seq<char>>,
    pub event_occurred_at: Option<i64>,
    pub event_created_by: Option<Seq<char>>,
}

impl View for Change {
    type V = ChangeView;

    open spec fn view(&self) -> ChangeView {
        ChangeView {
            id: self.id,
            edition_id: self.edition_id,
            kind: self.kind,
            event_id: self.event_id,
            event_kind: opt_view(self.event_kind),
            event_set: opt_view(self.event_set),
            event_label: opt_view(self.event_label),
            event_data: opt_view(self.event_data),
            event_occurred_at: self.event_occurred_at,
            event_created_by: opt_view(self.event_created_by),
        }
    }
}

impl ChangeView {
    /// The integrity rule of a change set: an addition carries the kind, the
    /// payload, the time and the author of the event it creates and names no
    /// event; a modification or removal names the event it applies to.
    pub open spec fn wf(self) -> bool {
        match self.kind {
            ChangeKind::Addition => self.event_id is None && self.event_kind is Some
                && self.event_data is Some && self.event_occurred_at is Some
                && self.event_created_by is Some,
            ChangeKind::Modification => self.event_id is Some,
            ChangeKind::Removal => self.event_id is Some,
        }
    }
}

impl Change {
    /// A copy with the same content.
    pub fn duplicate(&self) -> (res: Change)
        ensures
            res == *self,
    {
        Change {
            id: self.id,
            edition_id: self.edition_id,
            kind: self.kind,
            event_id: self.event_id,
            event_kind: clone_opt(&self.event_kind),
            event_set: clone_opt(&self.event_set),
            event_label: clone_opt(&self.event_label),
            event_data: clone_opt(&self.event_data),
            event_occurred_at: self.event_occurred_at,
            event_created_by: clone_opt(&self.event_created_by),
        }
    }

    /// Whether the change meets the integrity rule of [`ChangeView::wf`].
    pub fn is_well_formed(&self) -> (res: bool)
        ensures
            res == self@.wf(),
    {
        match self.kind {
            ChangeKind::Addition => self.event_id.is_none() && self.event_kind.is_some()
                && self.event_data.is_some() && self.event_occurred_at.is_some()
                && self.event_created_by.is_some(),
            ChangeKind::Modification => self.event_id.is_some(),
            ChangeKind::Removal => self.event_id.is_some(),
        }
    }
}

} // verus!

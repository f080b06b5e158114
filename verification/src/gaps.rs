//! The gap analyzer: resolves cut-start and cut-stop markers, taken from the
//! `stream` events of a room and the `stream` changes of an edition, into the
//! list of time gaps that a commit removes from the timeline.

use vstd::prelude::*;
use crate::change::Change;
use crate::event::Event;
use crate::json::{json_text_member, text_member};

verus! {

/// What a cut marker asks for.
#[derive(Clone, Copy, Debug, PartialEq, Eq, Structural)]
pub enum CutCommand {
    Start,
    Stop,
    /// The payload has no `cut` member, or one that is neither `start` nor `stop`.
    Unknown,
}

/// A cut marker reduced to what the analyzer reads: where it came from, when
/// it occurred and what it asks for.
#[derive(Clone, Copy, Debug, PartialEq, Eq, Structural)]
pub struct CutMarker {
    pub id: u128,
    pub occurred_at: i64,
    pub command: CutCommand,
    pub from_change: bool,
}

/// Why a marker sequence yields no gap list.
#[derive(Clone, Copy, Debug, PartialEq, Eq, Structural)]
pub enum GapError {
    /// The event with this id is a marker that the analyzer cannot accept in
    /// the state it has reached.
    InvalidCutEvent { id: u128 },
    /// The same for a change.
    InvalidCutChange { id: u128 },
    /// The input ended inside a cut.
    UnclosedCut,
}

/// State of the analyzer between two markers.
pub enum CutState {
    Stopped,
    /// Inside a cut that began at `since`, with `depth` nested starts still open.
    Started { since: i64, depth: nat },
}

/// Result of running the analyzer over a marker sequence.
pub enum Scan {
    /// The marker at this index was not acceptable.
    Rejected(int),
    /// All markers were accepted: the state reached and the gaps emitted.
    Running(CutState, Seq<(i64, i64)>),
}

/// One transition of the analyzer; `None` where the marker is not acceptable.
pub open spec fn step(state: CutState, marker: CutMarker) -> Option<(CutState, Option<(i64, i64)>)> {
    match (state, marker.command) {
        (CutState::Stopped, CutCommand::Start) => Some(
            (CutState::Started { since: marker.occurred_at, depth: 0 }, None),
        ),
        (CutState::Started { since, depth }, CutCommand::Start) => Some(
            (CutState::Started { since, depth: depth + 1 }, None),
        ),
        (CutState::Started { since, depth }, CutCommand::Stop) => if depth == 0 {
            Some((CutState::Stopped, Some((since, marker.occurred_at))))
        } else {
            Some((CutState::Started { since, depth: (depth - 1) as nat }, None))
        },
        _ => None,
    }
}

/// The analyzer run from the `Stopped` state over `markers`, left to right.
pub open spec fn scan(markers: Seq<CutMarker>) -> Scan
    decreases markers.len(),
{
    if markers.len() == 0 {
        Scan::Running(CutState::Stopped, Seq::empty())
    } else {
        match scan(markers.drop_last()) {
            Scan::Rejected(i) => Scan::Rejected(i),
            Scan::Running(state, gaps) => match step(state, markers.last()) {
                None => Scan::Rejected(markers.len() - 1),
                Some((next, None)) => Scan::Running(next, gaps),
                Some((next, Some(gap))) => Scan::Running(next, gaps.push(gap)),
            },
        }
    }
}

/// The error that reports `marker` as unacceptable.
pub open spec fn rejection(marker: CutMarker) -> GapError {
    if marker.from_change {
        GapError::InvalidCutChange { id: marker.id }
    } else {
        GapError::InvalidCutEvent { id: marker.id }
    }
}

/// The gaps of a marker sequence: those the analyzer emits when it accepts
/// every marker and ends in the `Stopped` state.
pub open spec fn gaps_of(markers: Seq<CutMarker>) -> Result<Seq<(i64, i64)>, GapError> {
    match scan(markers) {
        Scan::Rejected(i) => Err(rejection(markers[i])),
        Scan::Running(CutState::Stopped, gaps) => Ok(gaps),
        Scan::Running(CutState::Started { .. }, _) => Err(GapError::UnclosedCut),
    }
}

/// Whether an executable result is the given mathematical one.
pub open spec fn is_result(
    res: Result<Vec<(i64, i64)>, GapError>,
    expected: Result<Seq<(i64, i64)>, GapError>,
) -> bool {
    match res {
        Ok(v) => expected == Ok::<Seq<(i64, i64)>, GapError>(v@),
        Err(e) => expected == Err::<Seq<(i64, i64)>, GapError>(e),
    }
}

/// Markers in ascending order of time.
pub open spec fn sorted_by_time(markers: Seq<CutMarker>) -> bool {
    forall|i: int, j: int|
        0 <= i < j < markers.len() ==> markers[i].occurred_at <= markers[j].occurred_at
}

/// Every gap is a proper interval, and each one ends before the next begins.
pub open spec fn gaps_ordered(gaps: Seq<(i64, i64)>) -> bool {
    &&& forall|i: int| 0 <= i < gaps.len() ==> (#[trigger] gaps[i]).0 <= gaps[i].1
    &&& forall|i: int, j: int| 0 <= i < j < gaps.len() ==> (#[trigger] gaps[i]).1 <= (#[trigger] gaps[j]).0
}

/// `marker` put into `sorted` behind every marker that is not later than it.
pub open spec fn insert_by_time(sorted: Seq<CutMarker>, marker: CutMarker) -> Seq<CutMarker>
    decreases sorted.len(),
{
    if sorted.len() == 0 || sorted.last().occurred_at <= marker.occurred_at {
        sorted.push(marker)
    } else {
        insert_by_time(sorted.drop_last(), marker).push(sorted.last())
    }
}

/// `markers` in ascending order of time; markers of equal time keep the order
/// they came in.
pub open spec fn ordered_by_time(markers: Seq<CutMarker>) -> Seq<CutMarker>
    decreases markers.len(),
{
    if markers.len() == 0 {
        markers
    } else {
        insert_by_time(ordered_by_time(markers.drop_last()), markers.last())
    }
}

/// The command that the `cut` member of a payload spells.
pub open spec fn command_of(text: Option<Seq<char>>) -> CutCommand {
    match text {
        Some(t) => if t == "start"@ {
            CutCommand::Start
        } else if t == "stop"@ {
            CutCommand::Stop
        } else {
            CutCommand::Unknown
        },
        None => CutCommand::Unknown,
    }
}

/// The marker that a `stream` event stands for.
pub open spec fn event_marker(event: Event) -> CutMarker {
    CutMarker {
        id: event.id,
        occurred_at: event.occurred_at,
        command: command_of(json_text_member(event.data@, "cut"@)),
        from_change: false,
    }
}

/// Whether a change carries what a marker needs: a time and a payload.
pub open spec fn is_cut_change(change: Change) -> bool {
    change.event_occurred_at is Some && change.event_data is Some
}

/// The marker that a `stream` change stands for.
pub open spec fn change_marker(change: Change) -> CutMarker {
    CutMarker {
        id: change.id,
        occurred_at: change.event_occurred_at.unwrap(),
        command: command_of(json_text_member(change.event_data.unwrap()@, "cut"@)),
        from_change: true,
    }
}

/// The markers of the events, followed by those of the changes.
pub open spec fn cut_markers(events: Seq<Event>, changes: Seq<Change>) -> Seq<CutMarker> {
    Seq::new(events.len(), |i: int| event_marker(events[i])) + Seq::new(
        changes.len(),
        |i: int| change_marker(changes[i]),
    )
}

/// Once a marker is rejected, the markers behind it change nothing.
pub proof fn lemma_rejection_is_final(markers: Seq<CutMarker>, k: int, i: int)
    requires
        0 <= k <= markers.len(),
        scan(markers.take(k)) == Scan::Rejected(i),
    ensures
        scan(markers) == Scan::Rejected(i),
    decreases markers.len() - k,
{
    if k == markers.len() {
        assert(markers.take(k) =~= markers);
    } else {
        assert(markers.take(k + 1).drop_last() =~= markers.take(k));
        lemma_rejection_is_final(markers, k + 1, i);
    }
}

/// What the analyzer has emitted over markers in ascending order of time:
/// ordered gaps, none of which ends after the last marker, and an open cut
/// that began at or after the end of every gap.
pub open spec fn scan_in_order(markers: Seq<CutMarker>) -> bool {
    match scan(markers) {
        Scan::Rejected(_) => true,
        Scan::Running(state, gaps) => {
            &&& gaps_ordered(gaps)
            &&& forall|k: int|
                0 <= k < gaps.len() ==> markers.len() > 0 && (#[trigger] gaps[k]).1
                    <= markers.last().occurred_at
            &&& state matches CutState::Started { since, .. } ==> {
                &&& markers.len() > 0
                &&& since <= markers.last().occurred_at
                &&& forall|k: int| 0 <= k < gaps.len() ==> (#[trigger] gaps[k]).1 <= since
            }
        },
    }
}

/// Markers in ascending order of time give ordered gaps.
pub proof fn lemma_scan_in_order(markers: Seq<CutMarker>)
    requires
        sorted_by_time(markers),
    ensures
        scan_in_order(markers),
    decreases markers.len(),
{
    if markers.len() > 0 {
        let prefix = markers.drop_last();
        let m = markers.last();
        assert(sorted_by_time(prefix));
        lemma_scan_in_order(prefix);
        if prefix.len() > 0 {
            assert(prefix.last() == markers[markers.len() - 2]);
            assert(prefix.last().occurred_at <= m.occurred_at);
        }
        match scan(prefix) {
            Scan::Rejected(_) => {},
            Scan::Running(state, gaps) => {
                match step(state, m) {
                    None => {},
                    Some((next, None)) => {},
                    Some((next, Some(gap))) => {
                        let after = gaps.push(gap);
                        assert forall|i: int, j: int| 0 <= i < j < after.len() implies (
                        #[trigger] after[i]).1 <= (#[trigger] after[j]).0 by {
                            if j < gaps.len() {
                                assert(after[i] == gaps[i]);
                                assert(after[j] == gaps[j]);
                            } else {
                                assert(after[i] == gaps[i]);
                            }
                        }
                        assert forall|i: int| 0 <= i < after.len() implies (#[trigger] after[i]).0
                            <= after[i].1 by {
                            if i < gaps.len() {
                                assert(after[i] == gaps[i]);
                            }
                        }
                        assert forall|k: int| 0 <= k < after.len() implies (#[trigger] after[k]).1
                            <= m.occurred_at by {
                            if k < gaps.len() {
                                assert(after[k] == gaps[k]);
                            }
                        }
                    },
                }
            },
        }
    }
}

/// The gaps of markers in ascending order of time are ordered: each is a
/// proper interval and ends before the next begins.
pub proof fn law_gaps_are_ordered(markers: Seq<CutMarker>)
    requires
        sorted_by_time(markers),
    ensures
        gaps_of(markers) matches Ok(gaps) ==> gaps_ordered(gaps),
{
    lemma_scan_in_order(markers);
}

/// Where `marker` goes: behind the last marker that is not later than it.
pub proof fn lemma_insert_position(sorted: Seq<CutMarker>, marker: CutMarker, k: int)
    requires
        0 <= k <= sorted.len(),
        forall|j: int| k <= j < sorted.len() ==> sorted[j].occurred_at > marker.occurred_at,
        k == 0 || sorted[k - 1].occurred_at <= marker.occurred_at,
    ensures
        insert_by_time(sorted, marker) == sorted.insert(k, marker),
    decreases sorted.len(),
{
    if k == sorted.len() {
        assert(sorted.push(marker) =~= sorted.insert(k, marker));
    } else {
        let rest = sorted.drop_last();
        lemma_insert_position(rest, marker, k);
        assert(rest.insert(k, marker).push(sorted.last()) =~= sorted.insert(k, marker));
    }
}

/// Inserting by time keeps the order and adds exactly the one marker.
pub proof fn lemma_insert_keeps_order(sorted: Seq<CutMarker>, marker: CutMarker)
    requires
        sorted_by_time(sorted),
    ensures
        sorted_by_time(insert_by_time(sorted, marker)),
        insert_by_time(sorted, marker).to_multiset() == sorted.to_multiset().insert(marker),
        insert_by_time(sorted, marker).len() == sorted.len() + 1,
    decreases sorted.len(),
{
    broadcast use vstd::seq_lib::group_to_multiset_ensures;

    if sorted.len() == 0 || sorted.last().occurred_at <= marker.occurred_at {
    } else {
        let rest = sorted.drop_last();
        assert(sorted_by_time(rest));
        lemma_insert_keeps_order(rest, marker);
        let inner = insert_by_time(rest, marker);
        let out = inner.push(sorted.last());
        assert(sorted =~= rest.push(sorted.last()));
        assert(out.to_multiset() =~= sorted.to_multiset().insert(marker));
        assert forall|i: int, j: int| 0 <= i < j < out.len() implies out[i].occurred_at
            <= out[j].occurred_at by {
            if j < inner.len() {
            } else {
                // out[j] is the last of `sorted`; out[i] is `marker` or one of `rest`.
                assert(inner.to_multiset().count(inner[i]) > 0);
                if inner[i] != marker {
                    assert(rest.to_multiset().count(inner[i]) > 0);
                    assert(rest.contains(inner[i]));
                    let w = choose|w: int| 0 <= w < rest.len() && rest[w] == inner[i];
                    assert(sorted[w] == rest[w]);
                }
            }
        }
    }
}

/// Ordering by time gives the same markers in ascending order of time.
pub proof fn lemma_ordered_by_time(markers: Seq<CutMarker>)
    ensures
        sorted_by_time(ordered_by_time(markers)),
        ordered_by_time(markers).to_multiset() == markers.to_multiset(),
        ordered_by_time(markers).len() == markers.len(),
    decreases markers.len(),
{
    broadcast use vstd::seq_lib::group_to_multiset_ensures;

    if markers.len() > 0 {
        let rest = markers.drop_last();
        lemma_ordered_by_time(rest);
        lemma_insert_keeps_order(ordered_by_time(rest), markers.last());
        assert(markers =~= rest.push(markers.last()));
    }
}

/// State of the analyzer as the executable code holds it.
#[derive(Clone, Copy, Debug)]
pub enum CutEventsToGapsState {
    Started(i64, u64),
    Stopped,
}

impl View for CutEventsToGapsState {
    type V = CutState;

    open spec fn view(&self) -> CutState {
        match *self {
            CutEventsToGapsState::Started(since, depth) => CutState::Started {
                since,
                depth: depth as nat,
            },
            CutEventsToGapsState::Stopped => CutState::Stopped,
        }
    }
}

/// Runs the analyzer over `markers` in the order given.
///
/// Returns the emitted gaps when every marker is acceptable and the last one
/// leaves no cut open; otherwise the error of the first unacceptable marker,
/// or `UnclosedCut`.
pub fn gaps_from_markers(markers: &Vec<CutMarker>) -> (res: Result<Vec<(i64, i64)>, GapError>)
    ensures
        is_result(res, gaps_of(markers@)),
{
    let mut gaps: Vec<(i64, i64)> = Vec::new();
    let mut state = CutEventsToGapsState::Stopped;
    let mut i: usize = 0;
    assert(markers@.take(0) =~= Seq::<CutMarker>::empty());
    while i < markers.len()
        invariant
            0 <= i <= markers.len(),
            scan(markers@.take(i as int)) == Scan::Running(state@, gaps@),
            state matches CutEventsToGapsState::Started(_, depth) ==> depth < i,
        decreases markers.len() - i,
    {
        let marker = markers[i];
        proof {
            assert(markers@.take(i + 1).drop_last() =~= markers@.take(i as int));
            assert(markers@.take(i + 1).last() == marker);
        }
        match (marker.command, state) {
            (CutCommand::Start, CutEventsToGapsState::Stopped) => {
                state = CutEventsToGapsState::Started(marker.occurred_at, 0);
            },
            (CutCommand::Start, CutEventsToGapsState::Started(since, depth)) => {
                state = CutEventsToGapsState::Started(since, depth + 1);
            },
            (CutCommand::Stop, CutEventsToGapsState::Started(since, depth)) => {
                if depth == 0 {
                    gaps.push((since, marker.occurred_at));
                    state = CutEventsToGapsState::Stopped;
                } else {
                    state = CutEventsToGapsState::Started(since, depth - 1);
                }
            },
            _ => {
                proof {
                    assert(scan(markers@.take(i + 1)) == Scan::Rejected(i as int));
                    lemma_rejection_is_final(markers@, i + 1, i as int);
                }
                return Err(
                    if marker.from_change {
                        GapError::InvalidCutChange { id: marker.id }
                    } else {
                        GapError::InvalidCutEvent { id: marker.id }
                    },
                );
            },
        }
        i += 1;
    }
    assert(markers@.take(i as int) =~= markers@);
    match state {
        CutEventsToGapsState::Stopped => Ok(gaps),
        CutEventsToGapsState::Started(_, _) => Err(GapError::UnclosedCut),
    }
}

/// Puts `marker` into `sorted` behind every marker that is not later than it.
fn insert_marker(sorted: &mut Vec<CutMarker>, marker: CutMarker)
    ensures
        final(sorted)@ == insert_by_time(old(sorted)@, marker),
{
    let mut k: usize = sorted.len();
    while k > 0 && sorted[k - 1].occurred_at > marker.occurred_at
        invariant
            0 <= k <= sorted.len(),
            sorted@ == old(sorted)@,
            forall|j: int| k <= j < sorted.len() ==> sorted[j].occurred_at > marker.occurred_at,
        decreases k,
    {
        k -= 1;
    }
    proof {
        lemma_insert_position(sorted@, marker, k as int);
    }
    sorted.insert(k, marker);
}

/// Orders markers by time, keeping the order of markers of equal time.
pub fn sort_markers(markers: &Vec<CutMarker>) -> (res: Vec<CutMarker>)
    ensures
        res@ == ordered_by_time(markers@),
        sorted_by_time(res@),
        res@.to_multiset() == markers@.to_multiset(),
{
    let mut sorted: Vec<CutMarker> = Vec::new();
    let mut i: usize = 0;
    assert(markers@.take(0) =~= Seq::<CutMarker>::empty());
    while i < markers.len()
        invariant
            0 <= i <= markers.len(),
            sorted@ == ordered_by_time(markers@.take(i as int)),
        decreases markers.len() - i,
    {
        proof {
            assert(markers@.take(i + 1).drop_last() =~= markers@.take(i as int));
            assert(markers@.take(i + 1).last() == markers[i as int]);
        }
        insert_marker(&mut sorted, markers[i]);
        i += 1;
    }
    proof {
        assert(markers@.take(i as int) =~= markers@);
        lemma_ordered_by_time(markers@);
    }
    sorted
}

/// Reads the command out of the `cut` member of a payload.
pub fn decode_command(text: &Option<String>) -> (res: CutCommand)
    ensures
        res == command_of(crate::event::opt_view(*text)),
{
    match text {
        Some(t) => {
            let start = String::from_str("start");
            let stop = String::from_str("stop");
            if *t == start {
                CutCommand::Start
            } else if *t == stop {
                CutCommand::Stop
            } else {
                CutCommand::Unknown
            }
        },
        None => CutCommand::Unknown,
    }
}

/// Transforms cut-start and cut-stop events and changes into the list of
/// `(start, stop)` gaps, in nanoseconds.
///
/// The markers of the events and of the changes are merged in ascending order
/// of time (events before changes where the times are equal) and run through
/// the analyzer. The result is exactly [`gaps_of`] of that sequence; a
/// successful result is ordered.
pub fn collect_gaps(cut_events: &Vec<Event>, cut_changes: &Vec<Change>) -> (res: Result<
    Vec<(i64, i64)>,
    GapError,
>)
    requires
        forall|i: int| 0 <= i < cut_changes.len() ==> is_cut_change(#[trigger] cut_changes[i]),
    ensures
        is_result(res, gaps_of(ordered_by_time(cut_markers(cut_events@, cut_changes@)))),
        res matches Ok(gaps) ==> gaps_ordered(gaps@),
{
    let mut cut_vec: Vec<CutMarker> = Vec::new();
    let mut i: usize = 0;
    while i < cut_events.len()
        invariant
            0 <= i <= cut_events.len(),
            cut_vec@ == Seq::new(i as nat, |k: int| event_marker(cut_events[k])),
        decreases cut_events.len() - i,
    {
        let event = &cut_events[i];
        let text = text_member(event.data.as_str(), "cut");
        let marker = CutMarker {
            id: event.id,
            occurred_at: event.occurred_at,
            command: decode_command(&text),
            from_change: false,
        };
        cut_vec.push(marker);
        i += 1;
        assert(cut_vec@ =~= Seq::new(i as nat, |k: int| event_marker(cut_events[k])));
    }
    let ghost from_events = cut_vec@;
    let mut j: usize = 0;
    while j < cut_changes.len()
        invariant
            0 <= j <= cut_changes.len(),
            forall|i: int| 0 <= i < cut_changes.len() ==> is_cut_change(#[trigger] cut_changes[i]),
            cut_vec@ == from_events + Seq::new(j as nat, |k: int| change_marker(cut_changes[k])),
        decreases cut_changes.len() - j,
    {
        let change = &cut_changes[j];
        let text = match &change.event_data {
            Some(data) => text_member(data.as_str(), "cut"),
            None => None,
        };
        let occurred_at = match change.event_occurred_at {
            Some(t) => t,
            None => 0,
        };
        let marker = CutMarker {
            id: change.id,
            occurred_at,
            command: decode_command(&text),
            from_change: true,
        };
        cut_vec.push(marker);
        j += 1;
        assert(cut_vec@ =~= from_events + Seq::new(
            j as nat,
            |k: int| change_marker(cut_changes[k]),
        ));
    }
    assert(cut_vec@ =~= cut_markers(cut_events@, cut_changes@));
    let sorted = sort_markers(&cut_vec);
    proof {
        law_gaps_are_ordered(sorted@);
    }
    gaps_from_markers(&sorted)
}

} // verus!

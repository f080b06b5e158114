//! Laws of the set state: how it changes with the cursor, and how pages
//! follow one another.

use vstd::prelude::*;
use crate::event::{opt_view, Event};
use crate::ordering::occurs;
use crate::state::{
    attribute_shows,
    deleted_mark,
    is_candidate,
    is_current,
    is_shown,
    is_state_page,
    later,
    same_label,
    SetStateQuery,
};

verus! {

/// Whether two queries read the same set of the same room under the same
/// filters; their cursors and limits may differ.
pub open spec fn same_filters(a: SetStateQuery, b: SetStateQuery) -> bool {
    &&& a.room_id == b.room_id
    &&& a.set@ == b.set@
    &&& a.occurred_at == b.occurred_at
    &&& opt_view(a.attribute) == opt_view(b.attribute)
}

/// The latest version, among the first `n` events of the log, of the label
/// of the event at `i`; `i` itself where none is later.
pub open spec fn latest_version(log: Seq<Event>, query: SetStateQuery, i: int, n: int) -> int
    decreases n,
{
    if n <= 0 {
        i
    } else {
        let best = latest_version(log, query, i, n - 1);
        if is_candidate(log[n - 1], query) && same_label(log[n - 1], log[i]) && later(
            log,
            n - 1,
            best,
        ) {
            n - 1
        } else {
            best
        }
    }
}

/// The latest version is a version of the same label that counts, and no
/// version among the first `n` is later.
pub proof fn lemma_latest_version(log: Seq<Event>, query: SetStateQuery, i: int, n: int)
    requires
        0 <= i < log.len(),
        0 <= n <= log.len(),
        is_candidate(log[i], query),
    ensures
        ({
            let best = latest_version(log, query, i, n);
            &&& 0 <= best < log.len()
            &&& is_candidate(log[best], query)
            &&& best == i || (same_label(log[best], log[i]) && later(log, best, i))
            &&& forall|j: int|
                0 <= j < n && is_candidate(#[trigger] log[j], query) && same_label(log[j], log[i])
                    ==> !later(log, j, best)
        }),
    decreases n,
{
    if n > 0 {
        lemma_latest_version(log, query, i, n - 1);
    }
}

/// Every label that counts has a current version.
pub proof fn lemma_current_version_exists(log: Seq<Event>, query: SetStateQuery, i: int)
    requires
        0 <= i < log.len(),
        is_candidate(log[i], query),
    ensures
        exists|j: int|
            0 <= j < log.len() && #[trigger] is_current(log, query, j) && (j == i || (same_label(
                log[j],
                log[i],
            ) && later(log, j, i))),
{
    let n = log.len() as int;
    lemma_latest_version(log, query, i, n);
    let best = latest_version(log, query, i, n);
    if best == i {
        if log[i].label is Some {
            assert(is_current(log, query, i));
        } else {
            assert(is_current(log, query, i));
        }
    } else {
        assert forall|j: int|
            0 <= j < log.len() && is_candidate(#[trigger] log[j], query) && same_label(
                log[j],
                log[best],
            ) implies !later(log, j, best) by {
            assert(same_label(log[j], log[i]));
        }
        assert(is_current(log, query, best));
    }
}

/// The state grows with the cursor.
///
/// For two queries that differ in their cursors only, the earlier one not
/// after the later one, and without a filter on the attribute: an event of
/// the state at the earlier cursor is in the state at the later cursor, or a
/// version of its label is; or a version of its label that marks a removal
/// lies between the two cursors.
pub proof fn law_state_is_monotone(log: Seq<Event>, early: SetStateQuery, late: SetStateQuery, i: int)
    requires
        same_filters(early, late),
        early.attribute is None,
        early.original_occurred_at <= late.original_occurred_at,
        is_shown(log, early, i),
    ensures
        (exists|j: int| #[trigger] is_shown(log, late, j) && (j == i || same_label(log[j], log[i])))
            || (exists|d: int|
            0 <= d < log.len() && same_label(#[trigger] log[d], log[i]) && is_candidate(log[d], late)
                && early.original_occurred_at <= log[d].original_occurred_at && (
            log[d].attribute matches Some(a) && a@ == deleted_mark())),
{
    assert(is_candidate(log[i], late));
    lemma_current_version_exists(log, late, i);
    let j = choose|j: int|
        0 <= j < log.len() && #[trigger] is_current(log, late, j) && (j == i || (same_label(
            log[j],
            log[i],
        ) && later(log, j, i)));
    if attribute_shows(log[j], late) {
        assert(is_shown(log, late, j));
    } else {
        // The current version at the later cursor marks a removal; it did
        // not count at the earlier cursor, where the event at `i` was current.
        assert(j != i);
        if log[j].original_occurred_at < early.original_occurred_at {
            assert(is_candidate(log[j], early));
            assert(!later(log, j, i));
        }
        assert(same_label(log[j], log[i]));
    }
}

/// Versions of one label share their original time.
pub open spec fn versions_share_time(log: Seq<Event>, query: SetStateQuery) -> bool {
    forall|a: int, b: int|
        0 <= a < log.len() && 0 <= b < log.len() && is_candidate(#[trigger] log[a], query)
            && is_candidate(#[trigger] log[b], query) && same_label(log[a], log[b])
            ==> log[a].original_occurred_at == log[b].original_occurred_at
}

/// Two events of the state differ in their original time.
pub open spec fn state_times_differ(log: Seq<Event>, query: SetStateQuery) -> bool {
    forall|a: int, b: int|
        #![trigger is_shown(log, query, a), is_shown(log, query, b)]
        is_shown(log, query, a) && is_shown(log, query, b) && a != b ==> log[a].original_occurred_at
            != log[b].original_occurred_at
}

/// A page and the state behind it part the state between them.
///
/// Let `positions` be a non-empty page of the state under `first`, and
/// `next` the same query with the original time of the page's last event as
/// its cursor. Where versions of one label share their original time and
/// events of the state differ in theirs, every event of the state under
/// `first` is on the page or in the state under `next`, never both, and
/// nothing else is. Reading page after page so enumerates every event of
/// the state once.
pub proof fn law_pages_part_the_state(
    log: Seq<Event>,
    first: SetStateQuery,
    next: SetStateQuery,
    positions: Seq<usize>,
    i: int,
)
    requires
        is_state_page(positions, log, first),
        positions.len() > 0,
        same_filters(first, next),
        next.original_occurred_at == log[positions.last() as int].original_occurred_at,
        versions_share_time(log, first),
        state_times_differ(log, first),
    ensures
        is_shown(log, first, i) <==> occurs(positions, i) || is_shown(log, next, i),
        !(occurs(positions, i) && is_shown(log, next, i)),
{
    let last = positions.last() as int;
    assert(positions[positions.len() - 1] == last);
    assert(is_shown(log, first, last));
    if occurs(positions, i) {
        let k = choose|k: int| 0 <= k < positions.len() && #[trigger] positions[k] == i;
        assert(is_shown(log, first, positions[k] as int));
        if k < positions.len() - 1 {
            assert(later(log, positions[k] as int, positions[positions.len() - 1] as int));
        }
        assert(!is_candidate(log[i], next));
    } else if is_shown(log, first, i) {
        assert forall|k: int| 0 <= k < positions.len() implies later(
            log,
            #[trigger] positions[k] as int,
            i,
        ) by {}
        assert(later(log, positions[positions.len() - 1] as int, i));
        assert(i != last);
        assert(log[i].original_occurred_at != log[last].original_occurred_at);
        assert(is_candidate(log[i], next));
        assert forall|j: int|
            0 <= j < log.len() && is_candidate(#[trigger] log[j], next) && same_label(
                log[j],
                log[i],
            ) implies !later(log, j, i) by {
            assert(is_candidate(log[j], first));
        }
        assert(is_shown(log, next, i));
    } else if is_shown(log, next, i) {
        assert(is_candidate(log[i], first));
        assert forall|j: int|
            0 <= j < log.len() && is_candidate(#[trigger] log[j], first) && same_label(
                log[j],
                log[i],
            ) implies !later(log, j, i) by {
            assert(log[j].original_occurred_at == log[i].original_occurred_at);
            assert(is_candidate(log[j], next));
        }
        assert(is_shown(log, first, i));
    }
}

} // verus!

//! Laws of the vacuum: what it has left it leaves again.

use vstd::prelude::*;
use crate::event::Event;
use crate::room::Room;
use crate::vacuum::{
    is_doomed,
    kept,
    label_expired,
    latest_of_group,
    law_latest_of_group,
    newer,
    newer_versions,
    same_group,
    version_expired,
    VacuumConfig,
};

verus! {

/// What is kept of a longer stretch of the log begins with what is kept of
/// a shorter one.
proof fn lemma_kept_grows(log: Seq<Event>, rooms: Seq<Room>, config: VacuumConfig, now: i64, n: int, m: int)
    requires
        0 <= n <= m <= log.len(),
    ensures
        kept(log, rooms, config, now, n).len() <= kept(log, rooms, config, now, m).len(),
        forall|q: int|
            0 <= q < kept(log, rooms, config, now, n).len() ==> kept(log, rooms, config, now, m)[q]
                == #[trigger] kept(log, rooms, config, now, n)[q],
    decreases m - n,
{
    if n < m {
        lemma_kept_grows(log, rooms, config, now, n, m - 1);
    }
}

/// An event that is kept stands, in what is kept, behind the events kept
/// before it.
proof fn lemma_place_of_kept(log: Seq<Event>, rooms: Seq<Room>, config: VacuumConfig, now: i64, i: int)
    requires
        0 <= i < log.len(),
        !is_doomed(log, rooms, config, now, i),
    ensures
        ({
            let all = kept(log, rooms, config, now, log.len() as int);
            let place = kept(log, rooms, config, now, i).len() as int;
            0 <= place < all.len() && all[place] == log[i]
        }),
{
    lemma_kept_grows(log, rooms, config, now, i + 1, log.len() as int);
    assert(kept(log, rooms, config, now, i + 1)[kept(log, rooms, config, now, i).len() as int] == log[i]);
}

/// Every event that is kept is an event of the log that is not deleted,
/// behind the events kept before it.
proof fn lemma_source_of_kept(log: Seq<Event>, rooms: Seq<Room>, config: VacuumConfig, now: i64, n: int, p: int)
    requires
        0 <= n <= log.len(),
        0 <= p < kept(log, rooms, config, now, n).len(),
    ensures
        exists|i: int|
            0 <= i < n && !is_doomed(log, rooms, config, now, i) && #[trigger] kept(
                log,
                rooms,
                config,
                now,
                i,
            ).len() == p && kept(log, rooms, config, now, n)[p] == log[i],
    decreases n,
{
    if n > 0 {
        let before = kept(log, rooms, config, now, n - 1);
        if p < before.len() {
            lemma_source_of_kept(log, rooms, config, now, n - 1, p);
            let i = choose|i: int|
                0 <= i < n - 1 && !is_doomed(log, rooms, config, now, i) && #[trigger] kept(
                    log,
                    rooms,
                    config,
                    now,
                    i,
                ).len() == p && before[p] == log[i];
            assert(kept(log, rooms, config, now, n)[p] == log[i]);
        } else {
            assert(kept(log, rooms, config, now, n - 1).len() == p);
        }
    }
}

/// Among what is kept, an event has no more newer versions than it had in
/// the log.
proof fn lemma_fewer_newer_versions(
    log: Seq<Event>,
    rooms: Seq<Room>,
    config: VacuumConfig,
    now: i64,
    i: int,
    n: int,
)
    requires
        0 <= i < log.len(),
        0 <= n <= log.len(),
        !is_doomed(log, rooms, config, now, i),
    ensures
        ({
            let all = kept(log, rooms, config, now, log.len() as int);
            let place = kept(log, rooms, config, now, i).len() as int;
            newer_versions(all, place, kept(log, rooms, config, now, n).len() as int)
                <= newer_versions(log, i, n)
        }),
    decreases n,
{
    let all = kept(log, rooms, config, now, log.len() as int);
    let place = kept(log, rooms, config, now, i).len() as int;
    lemma_place_of_kept(log, rooms, config, now, i);
    if n > 0 {
        lemma_fewer_newer_versions(log, rooms, config, now, i, n - 1);
        if !is_doomed(log, rooms, config, now, n - 1) {
            let q = kept(log, rooms, config, now, n - 1).len() as int;
            lemma_place_of_kept(log, rooms, config, now, n - 1);
            assert(all[q] == log[n - 1]);
            assert(kept(log, rooms, config, now, n).len() == q + 1);
            // The two events stand in what is kept as they stand in the log.
            if n - 1 < i {
                lemma_kept_grows(log, rooms, config, now, n, i);
            } else if n - 1 > i {
                lemma_kept_grows(log, rooms, config, now, i + 1, n - 1);
            }
            assert(newer(all, q, place) == newer(log, n - 1, i));
        }
    }
}

/// No version of its label is newer than the latest.
proof fn lemma_nothing_newer(log: Seq<Event>, l: int, n: int)
    requires
        0 <= l < log.len(),
        0 <= n <= log.len(),
        forall|j: int| 0 <= j < log.len() && same_group(#[trigger] log[j], log[l]) ==> !newer(log, j, l),
    ensures
        newer_versions(log, l, n) == 0,
    decreases n,
{
    if n > 0 {
        lemma_nothing_newer(log, l, n - 1);
    }
}

/// The latest version of a label is kept unless the label has expired.
proof fn lemma_latest_survives(log: Seq<Event>, rooms: Seq<Room>, config: VacuumConfig, now: i64, i: int)
    requires
        0 <= i < log.len(),
        !label_expired(log, config, now, i),
    ensures
        !is_doomed(log, rooms, config, now, latest_of_group(log, i, log.len() as int)),
{
    let n = log.len() as int;
    let l = latest_of_group(log, i, n);
    law_latest_of_group(log, i, n);
    assert forall|j: int| 0 <= j < log.len() && same_group(#[trigger] log[j], log[l]) implies !newer(
        log,
        j,
        l,
    ) by {
        assert(same_group(log[j], log[i]));
    }
    lemma_nothing_newer(log, l, n);
    law_latest_of_group(log, l, n);
    let again = latest_of_group(log, l, n);
    if again != l {
        assert(same_group(log[again], log[l]));
        assert(!newer(log, again, l));
    }
}

/// The vacuum is idempotent.
///
/// What the vacuum has left of a log, it leaves as it is when it runs
/// again at the same time under the same policy.
pub proof fn law_vacuum_is_idempotent(log: Seq<Event>, rooms: Seq<Room>, config: VacuumConfig, now: i64)
    ensures
        ({
            let left = kept(log, rooms, config, now, log.len() as int);
            kept(left, rooms, config, now, left.len() as int) == left
        }),
{
    let left = kept(log, rooms, config, now, log.len() as int);
    assert forall|p: int| 0 <= p < left.len() implies !is_doomed(left, rooms, config, now, p) by {
        lemma_survivor_survives(log, rooms, config, now, p);
    }
    lemma_nothing_to_delete(left, rooms, config, now, left.len() as int);
    assert(left.take(left.len() as int) =~= left);
}

/// Where nothing is to be deleted, everything is kept.
proof fn lemma_nothing_to_delete(log: Seq<Event>, rooms: Seq<Room>, config: VacuumConfig, now: i64, n: int)
    requires
        0 <= n <= log.len(),
        forall|p: int| 0 <= p < log.len() ==> !is_doomed(log, rooms, config, now, p),
    ensures
        kept(log, rooms, config, now, n) == log.take(n),
    decreases n,
{
    if n > 0 {
        lemma_nothing_to_delete(log, rooms, config, now, n - 1);
        assert(log.take(n - 1).push(log[n - 1]) =~= log.take(n));
    } else {
        assert(log.take(0) =~= Seq::<Event>::empty());
    }
}

/// An event that the vacuum has kept is kept again.
proof fn lemma_survivor_survives(log: Seq<Event>, rooms: Seq<Room>, config: VacuumConfig, now: i64, p: int)
    requires
        0 <= p < kept(log, rooms, config, now, log.len() as int).len(),
    ensures
        !is_doomed(kept(log, rooms, config, now, log.len() as int), rooms, config, now, p),
{
    let n = log.len() as int;
    let left = kept(log, rooms, config, now, n);
    lemma_source_of_kept(log, rooms, config, now, n, p);
    let i = choose|i: int|
        0 <= i < n && !is_doomed(log, rooms, config, now, i) && #[trigger] kept(
            log,
            rooms,
            config,
            now,
            i,
        ).len() == p && left[p] == log[i];
    if is_doomed(left, rooms, config, now, p) {
        // The event is in a room that is vacuumed and has a label, so in
        // the log neither its label nor the event itself has expired.
        assert(!label_expired(log, config, now, i));
        assert(!version_expired(log, config, now, i));
        lemma_fewer_newer_versions(log, rooms, config, now, i, n);
        assert(!version_expired(left, config, now, p));
        // So its label has expired in what is kept: the latest version
        // there marks a removal and has outlived its time.
        let m = left.len() as int;
        let lk = latest_of_group(left, p, m);
        law_latest_of_group(left, p, m);
        lemma_source_of_kept(log, rooms, config, now, n, lk);
        let j = choose|j: int|
            0 <= j < n && !is_doomed(log, rooms, config, now, j) && #[trigger] kept(
                log,
                rooms,
                config,
                now,
                j,
            ).len() == lk && left[lk] == log[j];
        // The latest version in the log is kept too, and is no other.
        let l = latest_of_group(log, i, n);
        law_latest_of_group(log, i, n);
        lemma_latest_survives(log, rooms, config, now, i);
        lemma_place_of_kept(log, rooms, config, now, l);
        let pl = kept(log, rooms, config, now, l).len() as int;
        assert(left[pl] == log[l]);
        assert(same_group(log[j], log[i]));
        if j != l {
            assert(!newer(log, j, l));
            assert(newer(log, l, j));
            if l < j {
                lemma_kept_grows(log, rooms, config, now, l + 1, j);
            } else {
                lemma_kept_grows(log, rooms, config, now, j + 1, l);
            }
            assert(newer(left, pl, lk));
            assert(same_group(left[pl], left[p]));
            assert(false);
        }
        assert(false);
    }
}

} // verus!

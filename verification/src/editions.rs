//! Editions: the staging areas of a room, created and deleted by clients
//! and listed newest first.

use vstd::prelude::*;
use crate::commit::Edition;
use crate::ordering::{ascending_order, is_ascending_order, key_before, occurs, Key};

verus! {

/// What to list: the editions of a room, those created before an instant
/// where one is given, and at most so many where a limit is given.
#[derive(Clone, Copy, Debug)]
pub struct ListQuery {
    pub source_room_id: u128,
    pub last_created_at: Option<i64>,
    pub limit: Option<usize>,
}

/// A copy of an edition.
pub fn duplicate(edition: &Edition) -> (res: Edition)
    ensures
        res == *edition,
{
    Edition {
        id: edition.id,
        source_room_id: edition.source_room_id,
        created_by: edition.created_by.clone(),
        created_at: edition.created_at,
    }
}

/// Creates an edition: the list grows by it, and the editions already in it
/// are not touched.
pub fn insert(editions: &mut Vec<Edition>, edition: Edition)
    ensures
        final(editions)@ == old(editions)@.push(edition),
{
    editions.push(edition);
}

/// The editions that do not have the given id, in order.
pub open spec fn without_edition(editions: Seq<Edition>, id: u128) -> Seq<Edition>
    decreases editions.len(),
{
    if editions.len() == 0 {
        Seq::empty()
    } else if editions.last().id == id {
        without_edition(editions.drop_last(), id)
    } else {
        without_edition(editions.drop_last(), id).push(editions.last())
    }
}

/// Deletes the edition with the given id, and says whether there was one.
/// The other editions stay as they are, in order.
pub fn delete(editions: &mut Vec<Edition>, id: u128) -> (deleted: bool)
    ensures
        final(editions)@ == without_edition(old(editions)@, id),
        deleted == exists|i: int| 0 <= i < old(editions)@.len() && (#[trigger] old(editions)@[i]).id == id,
{
    let mut left: Vec<Edition> = Vec::new();
    let mut deleted = false;
    let mut i: usize = 0;
    assert(editions@.take(0) =~= Seq::<Edition>::empty());
    while i < editions.len()
        invariant
            0 <= i <= editions.len(),
            editions@ == old(editions)@,
            left@ == without_edition(editions@.take(i as int), id),
            deleted == exists|k: int| 0 <= k < i && (#[trigger] editions@[k]).id == id,
        decreases editions.len() - i,
    {
        proof {
            assert(editions@.take(i + 1).drop_last() =~= editions@.take(i as int));
            assert(editions@.take(i + 1).last() == editions[i as int]);
        }
        if editions[i].id == id {
            deleted = true;
        } else {
            left.push(duplicate(&editions[i]));
        }
        i += 1;
    }
    assert(editions@.take(i as int) =~= editions@);
    *editions = left;
    deleted
}

/// Whether the edition is listed: it is an edition of the room, created
/// before the instant that the query names.
pub open spec fn is_listed(edition: Edition, query: ListQuery) -> bool {
    &&& edition.source_room_id == query.source_room_id
    &&& query.last_created_at matches Some(t) ==> edition.created_at < t
}

/// Whether the edition at `a` is listed before the one at `b`: it was
/// created later or, created at the same time, stands later in the list.
pub open spec fn created_later(editions: Seq<Edition>, a: int, b: int) -> bool {
    editions[a].created_at > editions[b].created_at || (editions[a].created_at
        == editions[b].created_at && a > b)
}

/// Whether the limit of the query allows `n` editions.
pub open spec fn within_limit(query: ListQuery, n: nat) -> bool {
    query.limit matches Some(limit) ==> n <= limit
}

/// Whether `n` editions are as many as the limit of the query allows.
pub open spec fn at_limit(query: ListQuery, n: nat) -> bool {
    query.limit matches Some(limit) && n == limit
}

/// Whether `positions` is the page that the query asks for: the newest of
/// the listed editions, newest first, as many as the limit allows.
pub open spec fn is_edition_page(positions: Seq<usize>, editions: Seq<Edition>, query: ListQuery) -> bool {
    &&& within_limit(query, positions.len())
    &&& forall|k: int|
        0 <= k < positions.len() ==> (#[trigger] positions[k]) < editions.len() && is_listed(
            editions[positions[k] as int],
            query,
        )
    &&& forall|k: int, l: int|
        0 <= k < l < positions.len() ==> created_later(
            editions,
            #[trigger] positions[k] as int,
            #[trigger] positions[l] as int,
        )
    &&& forall|i: int|
        0 <= i < editions.len() && is_listed(#[trigger] editions[i], query) ==> occurs(positions, i)
            || (at_limit(query, positions.len()) && forall|k: int|
            0 <= k < positions.len() ==> created_later(editions, #[trigger] positions[k] as int, i))
}

/// The editions at the given positions.
pub open spec fn picked(editions: Seq<Edition>, positions: Seq<usize>) -> Seq<Edition> {
    Seq::new(positions.len(), |k: int| editions[positions[k] as int])
}

/// Whether the edition is listed.
pub fn lists(edition: &Edition, query: &ListQuery) -> (res: bool)
    ensures
        res == is_listed(*edition, *query),
{
    edition.source_room_id == query.source_room_id && match query.last_created_at {
        Some(t) => edition.created_at < t,
        None => true,
    }
}

/// Lists the editions of a room, newest first: those created before
/// `last_created_at` where it is given, and at most `limit` of them where a
/// limit is given.
pub fn list(editions: &Vec<Edition>, query: &ListQuery) -> (res: Vec<Edition>)
    ensures
        exists|positions: Seq<usize>| #[trigger]
            is_edition_page(positions, editions@, *query) && res@ == picked(editions@, positions),
{
    let mut listed: Vec<usize> = Vec::new();
    let mut keys: Vec<Key> = Vec::new();
    let mut i: usize = 0;
    while i < editions.len()
        invariant
            0 <= i <= editions.len(),
            keys.len() == listed.len(),
            forall|m: int|
                0 <= m < listed.len() ==> (#[trigger] listed[m]) < i && is_listed(
                    editions[listed[m] as int],
                    *query,
                ),
            forall|m: int|
                0 <= m < listed.len() ==> (#[trigger] keys[m]) == (
                    editions[listed[m] as int].created_at,
                    0i64,
                    0u128,
                ),
            forall|m: int, n: int| 0 <= m < n < listed.len() ==> (#[trigger] listed[m]) < (#[trigger] listed[n]),
            forall|v: int| 0 <= v < i && is_listed(#[trigger] editions[v], *query) ==> occurs(listed@, v),
        decreases editions.len() - i,
    {
        let ghost before = listed@;
        if lists(&editions[i], query) {
            listed.push(i);
            keys.push((editions[i].created_at, 0, 0));
        }
        proof {
            assert forall|v: int|
                0 <= v < i + 1 && is_listed(#[trigger] editions[v], *query) implies occurs(
                listed@,
                v,
            ) by {
                if v < i {
                    assert(occurs(before, v));
                    let p = choose|p: int| 0 <= p < before.len() && #[trigger] before[p] == v;
                    assert(listed@[p] == v);
                } else {
                    assert(listed@[listed.len() - 1] == v);
                }
            }
        }
        i += 1;
    }
    let order = ascending_order(&keys);
    let n = listed.len();
    let count = match query.limit {
        Some(limit) => if limit < n {
            limit
        } else {
            n
        },
        None => n,
    };
    let mut res: Vec<Edition> = Vec::new();
    let mut positions: Vec<usize> = Vec::new();
    let mut k: usize = 0;
    while k < count
        invariant
            0 <= k <= count <= n,
            n == listed.len(),
            n == keys.len(),
            is_ascending_order(order@, keys@),
            forall|p: int| 0 <= p < listed.len() ==> (#[trigger] listed[p]) < editions.len(),
            positions.len() == k,
            res.len() == k,
            forall|p: int| 0 <= p < k ==> (#[trigger] positions[p]) == listed[order[n - 1 - p] as int],
            forall|p: int| 0 <= p < k ==> (#[trigger] res[p]) == editions[positions[p] as int],
        decreases count - k,
    {
        assert(order[n - 1 - k] < keys.len());
        let position = listed[order[n - 1 - k]];
        positions.push(position);
        res.push(duplicate(&editions[position]));
        k += 1;
    }
    proof {
        let ps = positions@;
        assert(res@ =~= picked(editions@, ps));
        assert forall|a: int, b: int| 0 <= a < b < ps.len() implies created_later(
            editions@,
            #[trigger] ps[a] as int,
            #[trigger] ps[b] as int,
        ) by {
            let x = order[n - 1 - a] as int;
            let y = order[n - 1 - b] as int;
            assert(key_before(keys@, y, x));
            assert(keys[x].0 == editions[listed[x] as int].created_at);
            assert(keys[y].0 == editions[listed[y] as int].created_at);
            if y < x {
                assert(listed[y] < listed[x]);
            }
        }
        assert forall|i: int|
            0 <= i < editions.len() && is_listed(#[trigger] editions[i], *query) implies occurs(ps, i)
            || (at_limit(*query, ps.len()) && forall|c: int|
            0 <= c < ps.len() ==> created_later(editions@, #[trigger] ps[c] as int, i)) by {
            assert(occurs(listed@, i));
            let s = choose|s: int| 0 <= s < listed.len() && #[trigger] listed[s] == i;
            assert(occurs(order@, s));
            let o = choose|o: int| 0 <= o < order.len() && #[trigger] order[o] == s;
            if n - 1 - o < count {
                assert(ps[n - 1 - o] == listed[order[n - 1 - (n - 1 - o)] as int]);
                assert(ps[n - 1 - o] == i);
            } else {
                assert forall|c: int| 0 <= c < ps.len() implies created_later(
                    editions@,
                    #[trigger] ps[c] as int,
                    i,
                ) by {
                    let x = order[n - 1 - c] as int;
                    assert(key_before(keys@, order[o] as int, order[n - 1 - c] as int));
                    assert(keys[x].0 == editions[listed[x] as int].created_at);
                    assert(keys[s].0 == editions[listed[s] as int].created_at);
                    if s < x {
                        assert(listed[s] < listed[x]);
                    }
                }
            }
        }
        assert(is_edition_page(ps, editions@, *query));
    }
    res
}

} // verus!

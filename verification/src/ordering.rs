//! Ordering by keys: the arrangement of the positions of a sequence in
//! ascending order of their keys, which every ordered listing of the library
//! is built on.

use vstd::prelude::*;

verus! {

/// A sort key: three numbers compared one after the other.
pub type Key = (i64, i64, u128);

/// Whether position `a` sorts strictly before position `b`: by the first
/// number of the key, then the second, then the third, then by position.
pub open spec fn key_before(keys: Seq<Key>, a: int, b: int) -> bool {
    let x = keys[a];
    let y = keys[b];
    x.0 < y.0 || (x.0 == y.0 && (x.1 < y.1 || (x.1 == y.1 && (x.2 < y.2 || (x.2 == y.2 && a < b)))))
}

/// Whether `order` lists every position of `keys` once, in ascending order
/// of the keys, positions of equal keys in ascending order.
pub open spec fn is_ascending_order(order: Seq<usize>, keys: Seq<Key>) -> bool {
    &&& order.len() == keys.len()
    &&& forall|p: int| 0 <= p < order.len() ==> (#[trigger] order[p]) < keys.len()
    &&& forall|v: int| 0 <= v < keys.len() ==> occurs(order, v)
    &&& forall|p: int, q: int|
        0 <= p < q < order.len() ==> key_before(keys, #[trigger] order[p] as int, #[trigger] order[q] as int)
}

/// Whether the position `v` is listed in `order`.
pub open spec fn occurs(order: Seq<usize>, v: int) -> bool {
    exists|p: int| 0 <= p < order.len() && #[trigger] order[p] == v
}

/// An ascending order lists no position twice.
pub proof fn lemma_order_is_injective(order: Seq<usize>, keys: Seq<Key>, p: int, q: int)
    requires
        is_ascending_order(order, keys),
        0 <= p < order.len(),
        0 <= q < order.len(),
        order[p] == order[q],
    ensures
        p == q,
{
    if p < q {
        assert(key_before(keys, order[p] as int, order[q] as int));
    } else if q < p {
        assert(key_before(keys, order[q] as int, order[p] as int));
    }
}

/// There is only one ascending order of a sequence of keys.
pub proof fn law_order_is_unique(first: Seq<usize>, second: Seq<usize>, keys: Seq<Key>)
    requires
        is_ascending_order(first, keys),
        is_ascending_order(second, keys),
    ensures
        first == second,
    decreases keys.len(),
{
    assert forall|p: int| 0 <= p < first.len() implies first[p] == second[p] by {
        lemma_same_at(first, second, keys, p);
    }
    assert(first =~= second);
}

/// The number of positions that sort before `v` among the first `n`
/// positions of `keys`.
pub open spec fn count_before(keys: Seq<Key>, v: int, n: int) -> int
    decreases n,
{
    if n <= 0 {
        0
    } else {
        count_before(keys, v, n - 1) + if key_before(keys, n - 1, v) {
            1int
        } else {
            0int
        }
    }
}

/// The number of entries among the first `m` of `order` that are less
/// than `n` and sort before `v`.
spec fn listed_before(order: Seq<usize>, keys: Seq<Key>, v: int, n: int, m: int) -> int
    decreases m,
{
    if m <= 0 {
        0
    } else {
        listed_before(order, keys, v, n, m - 1) + if order[m - 1] < n && key_before(
            keys,
            order[m - 1] as int,
            v,
        ) {
            1int
        } else {
            0int
        }
    }
}

/// Counting through an order that lists every position once is counting
/// the positions.
proof fn lemma_listed_is_counted(order: Seq<usize>, keys: Seq<Key>, v: int, n: int)
    requires
        is_ascending_order(order, keys),
        0 <= n <= keys.len(),
    ensures
        listed_before(order, keys, v, n, order.len() as int) == count_before(keys, v, n),
    decreases n,
{
    if n == 0 {
        lemma_listed_none(order, keys, v, order.len() as int);
    } else {
        lemma_listed_is_counted(order, keys, v, n - 1);
        assert(occurs(order, n - 1));
        let p = choose|p: int| 0 <= p < order.len() && #[trigger] order[p] == n - 1;
        assert forall|q: int| 0 <= q < order.len() && q != p implies order[q] != n - 1 by {
            if order[q] == n - 1 {
                lemma_order_is_injective(order, keys, p, q);
            }
        }
        lemma_listed_step(order, keys, v, n, p, order.len() as int);
    }
}

proof fn lemma_listed_none(order: Seq<usize>, keys: Seq<Key>, v: int, m: int)
    ensures
        listed_before(order, keys, v, 0, m) == 0,
    decreases m,
{
    if m > 0 {
        lemma_listed_none(order, keys, v, m - 1);
    }
}

/// Admitting the position `n - 1`, which is listed at `p` only, adds it to
/// the count where it sorts before `v`.
proof fn lemma_listed_step(order: Seq<usize>, keys: Seq<Key>, v: int, n: int, p: int, m: int)
    requires
        0 <= p < order.len(),
        0 <= m <= order.len(),
        n >= 1,
        order[p] == n - 1,
        forall|q: int| 0 <= q < order.len() && q != p ==> #[trigger] order[q] != n - 1,
    ensures
        listed_before(order, keys, v, n, m) == listed_before(order, keys, v, n - 1, m) + if p < m
            && key_before(keys, n - 1, v) {
            1int
        } else {
            0int
        },
    decreases m,
{
    if m > 0 {
        lemma_listed_step(order, keys, v, n, p, m - 1);
        if m - 1 != p {
            assert(order[m - 1] != n - 1);
        }
    }
}

/// In an ascending order, the entries before slot `p` are exactly the
/// positions that sort before the one listed at `p`.
proof fn lemma_listed_prefix(order: Seq<usize>, keys: Seq<Key>, p: int, m: int)
    requires
        is_ascending_order(order, keys),
        0 <= p < order.len(),
        0 <= m <= order.len(),
    ensures
        listed_before(order, keys, order[p] as int, keys.len() as int, m) == if m <= p {
            m
        } else {
            p
        },
    decreases m,
{
    if m > 0 {
        lemma_listed_prefix(order, keys, p, m - 1);
        let v = order[p] as int;
        let w = order[m - 1] as int;
        if m - 1 < p {
            assert(key_before(keys, w, v));
        } else if m - 1 == p {
        } else {
            assert(key_before(keys, v, w));
        }
    }
}

/// The slot of a position in an ascending order is the number of positions
/// that sort before it.
pub proof fn lemma_slot_is_count(order: Seq<usize>, keys: Seq<Key>, p: int)
    requires
        is_ascending_order(order, keys),
        0 <= p < order.len(),
    ensures
        p == count_before(keys, order[p] as int, keys.len() as int),
{
    lemma_listed_prefix(order, keys, p, order.len() as int);
    lemma_listed_is_counted(order, keys, order[p] as int, keys.len() as int);
}

proof fn lemma_same_at(first: Seq<usize>, second: Seq<usize>, keys: Seq<Key>, p: int)
    requires
        is_ascending_order(first, keys),
        is_ascending_order(second, keys),
        0 <= p < first.len(),
    ensures
        first[p] == second[p],
{
    let v = first[p] as int;
    lemma_slot_is_count(first, keys, p);
    assert(occurs(second, v));
    let q = choose|q: int| 0 <= q < second.len() && #[trigger] second[q] == v;
    lemma_slot_is_count(second, keys, q);
}

/// Whether position `a` sorts strictly before position `b`.
fn sorts_before(keys: &Vec<Key>, a: usize, b: usize) -> (res: bool)
    requires
        a < keys.len(),
        b < keys.len(),
    ensures
        res == key_before(keys@, a as int, b as int),
{
    let x = keys[a];
    let y = keys[b];
    x.0 < y.0 || (x.0 == y.0 && (x.1 < y.1 || (x.1 == y.1 && (x.2 < y.2 || (x.2 == y.2 && a < b)))))
}

/// The positions of `keys` in ascending order of their keys; positions of
/// equal keys stay in ascending order.
pub fn ascending_order(keys: &Vec<Key>) -> (order: Vec<usize>)
    ensures
        is_ascending_order(order@, keys@),
{
    let mut order: Vec<usize> = Vec::new();
    let mut i: usize = 0;
    while i < keys.len()
        invariant
            0 <= i <= keys.len(),
            order.len() == i,
            forall|p: int| 0 <= p < order.len() ==> (#[trigger] order[p]) < i,
            forall|v: int| 0 <= v < i ==> occurs(order@, v),
            forall|p: int, q: int|
                0 <= p < q < order.len() ==> key_before(
                    keys@,
                    #[trigger] order[p] as int,
                    #[trigger] order[q] as int,
                ),
        decreases keys.len() - i,
    {
        let mut k: usize = order.len();
        while k > 0 && sorts_before(keys, i, order[k - 1])
            invariant
                0 <= k <= order.len(),
                i < keys.len(),
                forall|p: int| 0 <= p < order.len() ==> (#[trigger] order[p]) < i,
                forall|p: int|
                    k <= p < order.len() ==> key_before(keys@, i as int, #[trigger] order[p] as int),
            decreases k,
        {
            k -= 1;
        }
        let ghost before = order@;
        order.insert(k, i);
        proof {
            assert forall|v: int| 0 <= v < i + 1 implies occurs(order@, v) by {
                if v == i {
                    assert(order@[k as int] == v);
                } else {
                    assert(occurs(before, v));
                    let p = choose|p: int| 0 <= p < before.len() && #[trigger] before[p] == v;
                    if p < k {
                        assert(order@[p] == v);
                    } else {
                        assert(order@[p + 1] == v);
                    }
                }
            }
            assert forall|p: int, q: int| 0 <= p < q < order.len() implies key_before(
                keys@,
                #[trigger] order[p] as int,
                #[trigger] order[q] as int,
            ) by {
                if q < k {
                    assert(order@[p] == before[p] && order@[q] == before[q]);
                } else if q == k {
                    assert(order@[p] == before[p]);
                    assert(before[k - 1] < i);
                    assert(!key_before(keys@, i as int, before[k - 1] as int));
                    if p < k - 1 {
                        assert(key_before(keys@, before[p] as int, before[k - 1] as int));
                    }
                } else if p < k {
                    assert(order@[p] == before[p] && order@[q] == before[q - 1]);
                } else if p == k {
                    assert(order@[q] == before[q - 1]);
                } else {
                    assert(order@[p] == before[p - 1] && order@[q] == before[q - 1]);
                }
            }
        }
        i += 1;
    }
    order
}

} // verus!

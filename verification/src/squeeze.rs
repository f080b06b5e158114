//! Time compression: how far an instant of the source timeline moves towards
//! the room's opening when the gaps before it are squeezed out.

use vstd::prelude::*;

verus! {

/// Every gap is an interval whose stop is not before its start.
pub open spec fn proper_gaps(gaps: Seq<(i64, i64)>) -> bool {
    forall|i: int| 0 <= i < gaps.len() ==> (#[trigger] gaps[i]).0 <= gaps[i].1
}

/// The part of `gap` that lies before the instant `t`: nothing where the gap
/// starts at or after `t`, else `min(stop, t) - start`.
pub open spec fn overlap_before(gap: (i64, i64), t: int) -> int {
    if gap.0 < t {
        if gap.1 < t {
            gap.1 - gap.0
        } else {
            t - gap.0
        }
    } else {
        0
    }
}

/// The time that the gaps take away before the instant `t`: the sum of
/// `min(stop, t) - start` over the gaps with `start < t`.
pub open spec fn squeeze_amount(gaps: Seq<(i64, i64)>, t: int) -> int
    decreases gaps.len(),
{
    if gaps.len() == 0 {
        0
    } else {
        squeeze_amount(gaps.drop_last(), t) + overlap_before(gaps.last(), t)
    }
}

/// The instant `t` of the source timeline in the destination timeline.
pub open spec fn squeezed(gaps: Seq<(i64, i64)>, t: int) -> int {
    t - squeeze_amount(gaps, t)
}

/// Proper gaps take away a non-negative time, and more gaps take away more.
pub proof fn lemma_squeeze_amount_grows(gaps: Seq<(i64, i64)>, k: int, t: int)
    requires
        proper_gaps(gaps),
        0 <= k <= gaps.len(),
    ensures
        0 <= squeeze_amount(gaps.take(k), t) <= squeeze_amount(gaps, t),
    decreases gaps.len() - k,
{
    if k == gaps.len() {
        assert(gaps.take(k) =~= gaps);
        lemma_squeeze_amount_non_negative(gaps, t);
    } else {
        assert(gaps.take(k + 1).drop_last() =~= gaps.take(k));
        assert(gaps.take(k + 1).last() == gaps[k]);
        lemma_squeeze_amount_grows(gaps, k + 1, t);
        lemma_squeeze_amount_non_negative(gaps.take(k), t);
    }
}

/// Proper gaps take away a non-negative time.
pub proof fn lemma_squeeze_amount_non_negative(gaps: Seq<(i64, i64)>, t: int)
    requires
        proper_gaps(gaps),
    ensures
        0 <= squeeze_amount(gaps, t),
    decreases gaps.len(),
{
    if gaps.len() > 0 {
        assert(proper_gaps(gaps.drop_last()));
        lemma_squeeze_amount_non_negative(gaps.drop_last(), t);
    }
}

/// The instant `t` after the gaps before it are squeezed out, or `None`
/// where that instant is not a 64-bit number.
pub fn squeeze(gaps: &Vec<(i64, i64)>, t: i64) -> (res: Option<i64>)
    requires
        proper_gaps(gaps@),
    ensures
        squeezed(gaps@, t as int) <= t,
        match res {
            Some(moved) => moved == squeezed(gaps@, t as int),
            None => squeezed(gaps@, t as int) < i64::MIN,
        },
{
    let mut amount: i128 = 0;
    let mut i: usize = 0;
    assert(gaps@.take(0) =~= Seq::<(i64, i64)>::empty());
    while i < gaps.len()
        invariant
            0 <= i <= gaps.len(),
            proper_gaps(gaps@),
            amount == squeeze_amount(gaps@.take(i as int), t as int),
            0 <= amount <= 0x1_0000_0000_0000_0000,
        decreases gaps.len() - i,
    {
        let (start, stop) = gaps[i];
        proof {
            assert(gaps@.take(i + 1).drop_last() =~= gaps@.take(i as int));
            assert(gaps@.take(i + 1).last() == (start, stop));
        }
        if start < t {
            let end = if stop < t {
                stop
            } else {
                t
            };
            amount = amount + (end as i128 - start as i128);
        }
        i += 1;
        if amount > 0x1_0000_0000_0000_0000 {
            proof {
                lemma_squeeze_amount_grows(gaps@, i as int, t as int);
            }
            return None;
        }
    }
    assert(gaps@.take(i as int) =~= gaps@);
    let moved: i128 = t as i128 - amount;
    if moved >= i64::MIN as i128 {
        Some(moved as i64)
    } else {
        None
    }
}

} // verus!

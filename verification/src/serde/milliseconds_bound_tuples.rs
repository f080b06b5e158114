//! Segments on the wire: a list of pairs `[lt, rt)` of milliseconds.

use vstd::prelude::*;
use crate::room::Bound;

verus! {

/// A pair whose lower end lies after its upper end.
#[derive(Clone, Copy, Debug, PartialEq, Eq, Structural)]
pub struct InvalidValue {
    pub lt: i64,
    pub rt: i64,
}

/// The number of a bound, if it has one.
pub open spec fn number_of(bound: Bound) -> Option<i64> {
    match bound {
        Bound::Included(v) => Some(v),
        Bound::Excluded(v) => Some(v),
        Bound::Unbounded => None,
    }
}

/// The pairs on the wire: the numbers of the bounds.
pub open spec fn on_wire(value: Seq<(Bound, Bound)>) -> Seq<(Option<i64>, Option<i64>)> {
    Seq::new(value.len(), |i: int| (number_of(value[i].0), number_of(value[i].1)))
}

/// Whether both ends of a pair are present.
pub open spec fn is_whole(pair: (Option<i64>, Option<i64>)) -> bool {
    pair.0 is Some && pair.1 is Some
}

/// The number of pairs that are read: those before the first pair with a
/// missing end.
pub open spec fn read_length(elements: Seq<(Option<i64>, Option<i64>)>) -> int
    decreases elements.len(),
{
    if elements.len() == 0 || !is_whole(elements[0]) {
        0
    } else {
        1 + read_length(elements.drop_first())
    }
}

/// Whether the lower end of a whole pair lies after its upper end.
pub open spec fn is_inverted(pair: (Option<i64>, Option<i64>)) -> bool {
    pair.0.unwrap() > pair.1.unwrap()
}

/// Whether `i` is the first of the pairs that are read whose lower end lies
/// after its upper end.
pub open spec fn is_first_inverted(elements: Seq<(Option<i64>, Option<i64>)>, i: int) -> bool {
    &&& 0 <= i < read_length(elements)
    &&& is_inverted(elements[i])
    &&& forall|k: int| 0 <= k < i ==> !is_inverted(#[trigger] elements[k])
}

/// The interval that a whole pair stands for: lower end included, upper
/// end excluded.
pub open spec fn interval_of(pair: (Option<i64>, Option<i64>)) -> (Bound, Bound) {
    (Bound::Included(pair.0.unwrap()), Bound::Excluded(pair.1.unwrap()))
}

/// The intervals of the first `n` pairs.
pub open spec fn intervals_of(elements: Seq<(Option<i64>, Option<i64>)>, n: int) -> Seq<(Bound, Bound)> {
    Seq::new(n as nat, |k: int| interval_of(elements[k]))
}

/// No more pairs are read than there are.
pub proof fn lemma_read_length_bounds(elements: Seq<(Option<i64>, Option<i64>)>)
    ensures
        0 <= read_length(elements) <= elements.len(),
    decreases elements.len(),
{
    if elements.len() > 0 && is_whole(elements[0]) {
        lemma_read_length_bounds(elements.drop_first());
    }
}

/// Reading goes on from pair `i` as it would from the start of the rest.
pub proof fn lemma_read_on(elements: Seq<(Option<i64>, Option<i64>)>, i: int)
    requires
        0 <= i <= elements.len(),
        forall|k: int| 0 <= k < i ==> is_whole(#[trigger] elements[k]),
    ensures
        read_length(elements) == i + read_length(elements.skip(i)),
    decreases i,
{
    if i > 0 {
        lemma_read_on(elements, i - 1);
        assert(elements.skip(i - 1)[0] == elements[i - 1]);
        assert(elements.skip(i - 1).drop_first() =~= elements.skip(i));
    } else {
        assert(elements.skip(0) =~= elements);
    }
}

/// Writes intervals as pairs of numbers: the number of each bound, and
/// nothing for an end without a bound.
pub fn serialize(value: &Vec<(Bound, Bound)>) -> (res: Vec<(Option<i64>, Option<i64>)>)
    ensures
        res@ == on_wire(value@),
{
    let mut res: Vec<(Option<i64>, Option<i64>)> = Vec::new();
    let mut i: usize = 0;
    while i < value.len()
        invariant
            0 <= i <= value.len(),
            res@ == on_wire(value@.take(i as int)),
        decreases value.len() - i,
    {
        let lt = match value[i].0 {
            Bound::Included(v) => Some(v),
            Bound::Excluded(v) => Some(v),
            Bound::Unbounded => None,
        };
        let rt = match value[i].1 {
            Bound::Included(v) => Some(v),
            Bound::Excluded(v) => Some(v),
            Bound::Unbounded => None,
        };
        res.push((lt, rt));
        i += 1;
        assert(res@ =~= on_wire(value@.take(i as int)));
    }
    assert(value@.take(i as int) =~= value@);
    res
}

/// Reads intervals from pairs of numbers.
///
/// Reading stops before the first pair with a missing end. Among the pairs
/// read, the first whose lower end lies after its upper end is reported;
/// without one, each pair read gives the interval `[lt, rt)`.
pub fn deserialize(elements: &Vec<(Option<i64>, Option<i64>)>) -> (res: Result<
    Vec<(Bound, Bound)>,
    InvalidValue,
>)
    ensures
        match res {
            Ok(intervals) => {
                &&& intervals@ == intervals_of(elements@, read_length(elements@))
                &&& forall|k: int| 0 <= k < read_length(elements@) ==> !is_inverted(#[trigger] elements[k])
            },
            Err(e) => exists|i: int| #[trigger]
                is_first_inverted(elements@, i) && e == (InvalidValue {
                    lt: elements[i].0.unwrap(),
                    rt: elements[i].1.unwrap(),
                }),
        },
{
    let mut intervals: Vec<(Bound, Bound)> = Vec::new();
    let mut i: usize = 0;
    let mut reading = true;
    while reading && i < elements.len()
        invariant
            0 <= i <= elements.len(),
            forall|k: int| 0 <= k < i ==> is_whole(#[trigger] elements[k]),
            forall|k: int| 0 <= k < i ==> !is_inverted(#[trigger] elements[k]),
            !reading ==> i < elements.len() && !is_whole(elements[i as int]),
            intervals@ == intervals_of(elements@, i as int),
        decreases elements.len() - i, if reading { 1int } else { 0int },
    {
        match elements[i] {
            (Some(lt), Some(rt)) => {
                if lt <= rt {
                    intervals.push((Bound::Included(lt), Bound::Excluded(rt)));
                    i += 1;
                    assert(intervals@ =~= intervals_of(elements@, i as int));
                } else {
                    proof {
                        lemma_read_on(elements@, i as int);
                        assert(elements@.skip(i as int)[0] == elements[i as int]);
                        lemma_read_length_bounds(elements@.skip(i as int).drop_first());
                    }
                    assert(is_first_inverted(elements@, i as int));
                    return Err(InvalidValue { lt, rt });
                }
            },
            _ => {
                reading = false;
            },
        }
    }
    proof {
        lemma_read_on(elements@, i as int);
        if i < elements.len() {
            assert(elements@.skip(i as int)[0] == elements[i as int]);
        }
    }
    Ok(intervals)
}

} // verus!

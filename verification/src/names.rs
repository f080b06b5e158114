//! The order of names: texts compared by their bytes, as the standard
//! library orders strings.

use vstd::prelude::*;
use vstd::utf8::{decode_utf8, encode_utf8, encode_utf8_decode_utf8};

verus! {

/// How one name stands to another.
#[derive(Clone, Copy, Debug, PartialEq, Eq, Structural)]
pub enum NameOrder {
    Before,
    Same,
    After,
}

/// Whether the bytes `a` come before the bytes `b`: at the first place
/// where they differ `a` has the lesser byte, or `a` ends there and `b`
/// does not.
pub open spec fn bytes_before(a: Seq<u8>, b: Seq<u8>) -> bool {
    exists|k: int| differ_at(a, b, k)
}

/// Whether `k` is the first place where `a` and `b` differ, and `a` comes
/// first there.
pub open spec fn differ_at(a: Seq<u8>, b: Seq<u8>, k: int) -> bool {
    &&& 0 <= k <= a.len()
    &&& k < b.len()
    &&& forall|j: int| 0 <= j < k ==> a[j] == b[j]
    &&& k == a.len() || a[k] < b[k]
}

/// Whether the name `a` comes before the name `b`.
pub open spec fn name_before(a: Seq<char>, b: Seq<char>) -> bool {
    bytes_before(encode_utf8(a), encode_utf8(b))
}

/// No name comes before itself.
pub proof fn lemma_not_before_itself(a: Seq<char>)
    ensures
        !name_before(a, a),
{
    let x = encode_utf8(a);
    if bytes_before(x, x) {
        let k = choose|k: int| differ_at(x, x, k);
        assert(false);
    }
}

/// What comes before a name comes before everything behind that name.
pub proof fn lemma_before_is_transitive(a: Seq<char>, b: Seq<char>, c: Seq<char>)
    requires
        name_before(a, b),
        name_before(b, c),
    ensures
        name_before(a, c),
{
    let x = encode_utf8(a);
    let y = encode_utf8(b);
    let z = encode_utf8(c);
    let k = choose|k: int| differ_at(x, y, k);
    let l = choose|l: int| differ_at(y, z, l);
    if k <= l {
        assert(differ_at(x, z, k));
    } else {
        assert(differ_at(x, z, l));
    }
}

/// Names with the same bytes are the same.
pub proof fn lemma_same_bytes_same_name(a: Seq<char>, b: Seq<char>)
    requires
        encode_utf8(a) == encode_utf8(b),
    ensures
        a == b,
{
    encode_utf8_decode_utf8(a);
    encode_utf8_decode_utf8(b);
    assert(decode_utf8(encode_utf8(a)) == a);
    assert(decode_utf8(encode_utf8(b)) == b);
}

/// Compares two names by their bytes.
pub fn compare_names(a: &str, b: &str) -> (res: NameOrder)
    ensures
        res == NameOrder::Before ==> name_before(a@, b@),
        res == NameOrder::Same ==> a@ == b@,
        res == NameOrder::After ==> name_before(b@, a@),
{
    let x = a.as_bytes();
    let y = b.as_bytes();
    let mut i: usize = 0;
    while i < x.len() && i < y.len()
        invariant
            0 <= i <= x.len(),
            i <= y.len(),
            x@ == encode_utf8(a@),
            y@ == encode_utf8(b@),
            forall|j: int| 0 <= j < i ==> x@[j] == y@[j],
        decreases x.len() - i,
    {
        if x[i] < y[i] {
            assert(differ_at(x@, y@, i as int));
            return NameOrder::Before;
        }
        if x[i] > y[i] {
            assert(differ_at(y@, x@, i as int));
            return NameOrder::After;
        }
        i += 1;
    }
    if x.len() < y.len() {
        assert(differ_at(x@, y@, i as int));
        NameOrder::Before
    } else if x.len() > y.len() {
        assert(differ_at(y@, x@, i as int));
        NameOrder::After
    } else {
        proof {
            assert(x@ =~= y@);
            lemma_same_bytes_same_name(a@, b@);
        }
        NameOrder::Same
    }
}

} // verus!

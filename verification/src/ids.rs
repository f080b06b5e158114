//! Fresh identifiers for the rooms and events that a commit creates.

use vstd::prelude::*;

verus! {

/// Whether the 128-bit value has the version and variant bits of a random
/// (version 4) UUID.
pub open spec fn is_random_uuid(id: u128) -> bool {
    id & 0x0000_0000_0000_f000_c000_0000_0000_0000u128
        == 0x0000_0000_0000_4000_8000_0000_0000_0000u128
}

/// Draws a random identifier with `uuid::Uuid::new_v4` and returns its bytes
/// as one number, as `Uuid::as_u128` packs them.
///
/// Trusted: the identifier carries the version and variant bits of a random
/// UUID. Nothing is claimed of the other bits: two calls may differ.
#[verifier::external_body]
pub(crate) fn fresh_id() -> (id: u128)
    ensures
        is_random_uuid(id),
{
    uuid::Uuid::new_v4().as_u128()
}

/// Draws `n` fresh identifiers.
pub fn fresh_ids(n: usize) -> (ids: Vec<u128>)
    ensures
        ids.len() == n,
        forall|i: int| 0 <= i < n ==> is_random_uuid(#[trigger] ids[i]),
{
    let mut ids: Vec<u128> = Vec::new();
    let mut i: usize = 0;
    while i < n
        invariant
            0 <= i <= n,
            ids.len() == i,
            forall|k: int| 0 <= k < i ==> is_random_uuid(#[trigger] ids[k]),
        decreases n - i,
    {
        ids.push(fresh_id());
        i += 1;
    }
    ids
}

} // verus!

//! Dumps of a room's event log: where a dump is kept in the object store,
//! and how its outcome is reported.

use vstd::prelude::*;

verus! {

/// The place of a room's dump: the bucket `eventsdump.` and the room's
/// audience, the object the room's id and `.json`.
pub open spec fn s3_uri_of(audience: Seq<char>, room_id: Seq<char>) -> Seq<char> {
    "s3://eventsdump."@ + audience + "/"@ + room_id + ".json"@
}

/// The bucket that holds the dumps of an audience.
pub open spec fn bucket_of(audience: Seq<char>) -> Seq<char> {
    "eventsdump."@ + audience
}

/// The object that holds the dump of a room.
pub open spec fn object_of(room_id: Seq<char>) -> Seq<char> {
    room_id + ".json"@
}

/// The bucket `eventsdump.{audience}`.
pub fn bucket(audience: &str) -> (res: String)
    ensures
        res@ == bucket_of(audience@),
{
    let mut name = String::from_str("eventsdump.");
    name.append(audience);
    name
}

/// The object `{room_id}.json`; the room is given by its id as a text.
pub fn object(room_id: &str) -> (res: String)
    ensures
        res@ == object_of(room_id@),
{
    let mut name = String::from_str(room_id);
    name.append(".json");
    name
}

/// The address `s3://eventsdump.{audience}/{room_id}.json` of a room's dump:
/// the same room is always dumped to the same place.
pub fn s3_uri(audience: &str, room_id: &str) -> (res: String)
    ensures
        res@ == s3_uri_of(audience@, room_id@),
        res@ == "s3://"@ + bucket_of(audience@) + "/"@ + object_of(room_id@),
{
    let mut uri = String::from_str("s3://eventsdump.");
    uri.append(audience);
    uri.append("/");
    uri.append(room_id);
    uri.append(".json");
    proof {
        reveal_strlit("s3://eventsdump.");
        reveal_strlit("s3://");
        reveal_strlit("eventsdump.");
        assert("s3://eventsdump."@ =~= "s3://"@ + "eventsdump."@);
        assert(uri@ =~= "s3://"@ + bucket_of(audience@) + "/"@ + object_of(room_id@));
    }
    uri
}

/// The status that the broadcast of a dump carries.
pub open spec fn status_of(failed: bool) -> Seq<char> {
    if failed {
        "error"@
    } else {
        "success"@
    }
}

/// The status that the broadcast of a dump carries: `success` or `error`.
pub fn status(failed: bool) -> (res: &'static str)
    ensures
        res@ == status_of(failed),
{
    if failed {
        "error"
    } else {
        "success"
    }
}

} // verus!

//! The kinds of error that the service answers with.

use vstd::prelude::*;

verus! {

/// The kind of an error, as the problem document of an answer names it.
#[derive(Clone, Copy, Debug, PartialEq, Eq, Structural)]
pub enum ErrorKind {
    RoomNotFound,
    EditionNotFound,
    InvalidPayload,
    InvalidStateSets,
    InvalidRoomTime,
    AccessDenied,
    DbQueryFailed,
    SerializationFailed,
    PublishFailed,
    EditionCommitTaskFailed,
    NoS3Client,
    UnknownMethod,
}

/// The status code of an error kind.
pub open spec fn status_of(kind: ErrorKind) -> u16 {
    match kind {
        ErrorKind::RoomNotFound => 404,
        ErrorKind::EditionNotFound => 404,
        ErrorKind::InvalidPayload => 400,
        ErrorKind::InvalidStateSets => 422,
        ErrorKind::InvalidRoomTime => 422,
        ErrorKind::AccessDenied => 403,
        ErrorKind::DbQueryFailed => 500,
        ErrorKind::SerializationFailed => 500,
        ErrorKind::PublishFailed => 500,
        ErrorKind::EditionCommitTaskFailed => 500,
        ErrorKind::NoS3Client => 501,
        ErrorKind::UnknownMethod => 404,
    }
}

/// The name of an error kind in a problem document.
pub open spec fn name_of(kind: ErrorKind) -> Seq<char> {
    match kind {
        ErrorKind::RoomNotFound => "room_not_found"@,
        ErrorKind::EditionNotFound => "edition_not_found"@,
        ErrorKind::InvalidPayload => "invalid_payload"@,
        ErrorKind::InvalidStateSets => "invalid_state_sets"@,
        ErrorKind::InvalidRoomTime => "invalid_room_time"@,
        ErrorKind::AccessDenied => "access_denied"@,
        ErrorKind::DbQueryFailed => "db_query_failed"@,
        ErrorKind::SerializationFailed => "serialization_failed"@,
        ErrorKind::PublishFailed => "publish_failed"@,
        ErrorKind::EditionCommitTaskFailed => "edition_commit_task_failed"@,
        ErrorKind::NoS3Client => "no_s3_client"@,
        ErrorKind::UnknownMethod => "unknown_method"@,
    }
}

/// Whether an error of this status is expected in ordinary use, and so is
/// not passed on to error reporting: not found, forbidden, unprocessable.
pub open spec fn is_expected_status(status: u16) -> bool {
    status == 404 || status == 403 || status == 422
}

impl ErrorKind {
    /// The status code that an answer with this error carries.
    pub fn status(&self) -> (res: u16)
        ensures
            res == status_of(*self),
    {
        match self {
            ErrorKind::RoomNotFound => 404,
            ErrorKind::EditionNotFound => 404,
            ErrorKind::InvalidPayload => 400,
            ErrorKind::InvalidStateSets => 422,
            ErrorKind::InvalidRoomTime => 422,
            ErrorKind::AccessDenied => 403,
            ErrorKind::DbQueryFailed => 500,
            ErrorKind::SerializationFailed => 500,
            ErrorKind::PublishFailed => 500,
            ErrorKind::EditionCommitTaskFailed => 500,
            ErrorKind::NoS3Client => 501,
            ErrorKind::UnknownMethod => 404,
        }
    }

    /// The name of the kind in a problem document.
    pub fn kind(&self) -> (res: &'static str)
        ensures
            res@ == name_of(*self),
    {
        match self {
            ErrorKind::RoomNotFound => "room_not_found",
            ErrorKind::EditionNotFound => "edition_not_found",
            ErrorKind::InvalidPayload => "invalid_payload",
            ErrorKind::InvalidStateSets => "invalid_state_sets",
            ErrorKind::InvalidRoomTime => "invalid_room_time",
            ErrorKind::AccessDenied => "access_denied",
            ErrorKind::DbQueryFailed => "db_query_failed",
            ErrorKind::SerializationFailed => "serialization_failed",
            ErrorKind::PublishFailed => "publish_failed",
            ErrorKind::EditionCommitTaskFailed => "edition_commit_task_failed",
            ErrorKind::NoS3Client => "no_s3_client",
            ErrorKind::UnknownMethod => "unknown_method",
        }
    }

    /// Whether an error of this kind is passed on to error reporting: every
    /// error but the expected ones.
    pub fn is_reported(&self) -> (res: bool)
        ensures
            res == !is_expected_status(status_of(*self)),
    {
        let status = self.status();
        !(status == 404 || status == 403 || status == 422)
    }
}

} // verus!

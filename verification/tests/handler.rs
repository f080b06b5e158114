use event_timeline::change_set::find_with_room;
use event_timeline::commit::Edition;
use event_timeline::dump;
use event_timeline::editions::{self, ListQuery};
use event_timeline::error::ErrorKind;
use event_timeline::room::{Bound, Room};
use event_timeline::handler::{
    audience_topic, event_timing_name, failure, room_topic, route, unknown_method, Action, Handling, Input,
    Method, Next, Object, Query, Reply, Step, Task,
};

/// Handles a request whose steps go as `inputs` say one after the other,
/// and returns the steps that were performed and the answers that were given.
fn handle(method: Method, inputs: &[Input]) -> (Vec<Step>, Vec<Reply>) {
    let mut steps = vec![];
    let mut replies = vec![];
    let (mut handling, mut next) = Handling::start(method);
    let mut inputs = inputs.iter();
    loop {
        match next {
            Next::Perform(step) => {
                steps.push(step);
                let input = *inputs.next().expect("an input for every step");
                let (after, following) = handling.advance(input);
                handling = after;
                next = following;
            }
            Next::Answer(reply) => {
                replies.push(reply);
                // Whatever comes back later changes nothing.
                for input in [Input::Passed, Input::Refused, Input::Failed, Input::Missing] {
                    assert_eq!(handling.advance(input), (handling, Next::Nothing));
                }
                return (steps, replies);
            }
            Next::Nothing => panic!("nothing to do before an answer"),
        }
    }
}

fn outbound(reply: &Reply) -> usize {
    1 + reply.notifies as usize + reply.task.is_some() as usize
}

const PASSED: Input = Input::Passed;
const ROOM_ID: u128 = 0xA1;

fn insert_room() -> Room {
    Room {
        id: ROOM_ID,
        audience: "dev.usr.example.org".to_string(),
        time: (Bound::Included(0), Bound::Excluded(3_600_000_000_000)),
        tags: None,
        source_room_id: None,
        preserve_history: true,
    }
}

fn new_edition(id: u128, source_room_id: u128, created_at: i64) -> Edition {
    Edition { id, source_room_id, created_by: "web.user123.dev.usr.example.org".to_string(), created_at }
}

/// Handles a request against a store of rooms and editions: the steps that
/// look something up or write do so, the authorization goes as `authorized` says.
fn handle_with_store(
    method: Method,
    rooms: &Vec<Room>,
    store: &mut Vec<Edition>,
    id: u128,
    authorized: bool,
) -> (Vec<Reply>, Vec<Edition>) {
    let mut replies = vec![];
    let mut payload = vec![];
    let (mut handling, mut next) = Handling::start(method);
    loop {
        match next {
            Next::Perform(step) => {
                let input = match step {
                    Step::FindRoom if rooms.iter().all(|room| room.id != id) => Input::Missing,
                    Step::FindEdition if find_with_room(store, rooms, id).is_none() => Input::Missing,
                    Step::Authorize(_, _) if !authorized => Input::Refused,
                    Step::Query(Query::EditionInsert) => {
                        let edition = new_edition(0xE0 + store.len() as u128, id, 7);
                        payload.push(editions::duplicate(&edition));
                        editions::insert(store, edition);
                        Input::Passed
                    }
                    Step::Query(Query::EditionList) => {
                        let query = ListQuery { source_room_id: id, last_created_at: None, limit: None };
                        payload = editions::list(store, &query);
                        Input::Passed
                    }
                    Step::Query(Query::EditionDelete) => {
                        payload.extend(store.iter().filter(|e| e.id == id).map(editions::duplicate));
                        if editions::delete(store, id) {
                            Input::Passed
                        } else {
                            Input::Failed
                        }
                    }
                    _ => Input::Passed,
                };
                let (after, following) = handling.advance(input);
                handling = after;
                next = following;
            }
            Next::Answer(reply) => {
                replies.push(reply);
                return (replies, payload);
            }
            Next::Nothing => panic!("nothing to do before an answer"),
        }
    }
}

#[test]
fn create_edition() {
    let (steps, replies) = handle(Method::EditionCreate, &[PASSED, PASSED, PASSED, PASSED]);
    assert_eq!(
        steps,
        vec![
            Step::Parse,
            Step::FindRoom,
            Step::Authorize(Object::Room, Action::Update),
            Step::Query(Query::EditionInsert),
        ]
    );
    assert_eq!(replies, vec![Reply { status: 201, error: None, notifies: true, task: None }]);

    let room = insert_room();
    let mut store = vec![];
    let (replies, payload) =
        handle_with_store(Method::EditionCreate, &vec![insert_room()], &mut store, room.id, true);
    // Assert response
    assert_eq!(replies[0].status, 201);
    assert_eq!(payload[0].source_room_id, room.id);
    assert_eq!(store.len(), 1);
}

#[test]
fn create_edition_not_authorized() {
    let (_, replies) = handle(Method::EditionCreate, &[PASSED, PASSED, Input::Refused]);
    assert_eq!(replies.len(), 1);
    assert_eq!(replies[0].status, 403);

    let mut store = vec![];
    let (replies, _) =
        handle_with_store(Method::EditionCreate, &vec![insert_room()], &mut store, ROOM_ID, false);
    assert_eq!(replies[0].status, 403);
    assert!(store.is_empty());
}

#[test]
fn create_edition_missing_room() {
    let (_, replies) = handle(Method::EditionCreate, &[PASSED, Input::Missing]);
    assert_eq!(replies[0].status, 404);
    assert_eq!(replies[0].error.unwrap().kind(), "room_not_found");

    let mut store = vec![];
    let (replies, _) = handle_with_store(Method::EditionCreate, &vec![], &mut store, 0xBAD, true);
    assert_eq!(replies[0].status, 404);
    assert_eq!(replies[0].error.unwrap().kind(), "room_not_found");
}

#[test]
fn list_editions() {
    let (steps, replies) = handle(Method::EditionList, &[PASSED, PASSED, PASSED, PASSED]);
    assert_eq!(steps[2], Step::Authorize(Object::Room, Action::Update));
    assert_eq!(steps[3], Step::Query(Query::EditionList));
    assert_eq!(replies, vec![Reply { status: 200, error: None, notifies: false, task: None }]);

    let room = insert_room();
    let mut store = vec![new_edition(0xE1, room.id, 5)];
    let (replies, resp_editions) =
        handle_with_store(Method::EditionList, &vec![insert_room()], &mut store, room.id, true);
    assert_eq!(replies[0].status, 200);
    assert_eq!(resp_editions.len(), store.len());
    assert_eq!(resp_editions[0].id, store[0].id);
}

#[test]
fn list_editions_not_authorized() {
    let (_, replies) = handle(Method::EditionList, &[PASSED, PASSED, Input::Refused]);
    assert_eq!(replies[0].status, 403);
}

#[test]
fn list_editions_missing_room() {
    let (_, replies) = handle(Method::EditionList, &[PASSED, Input::Missing]);
    assert_eq!(replies[0].status, 404);
    assert_eq!(replies[0].error.unwrap().kind(), "room_not_found");
}

#[test]
fn delete_edition() {
    let (steps, replies) = handle(Method::EditionDelete, &[PASSED, PASSED, PASSED, PASSED]);
    assert_eq!(steps[1], Step::FindEdition);
    assert_eq!(steps[3], Step::Query(Query::EditionDelete));
    assert_eq!(replies.len(), 1);
    assert_eq!(replies[0].status, 200);

    let room = insert_room();
    let mut store = vec![];
    for i in 1..4 {
        editions::insert(&mut store, new_edition(0xE0 + i, room.id, i as i64));
    }
    let first = store[0].id;
    let (replies, resp_edition) =
        handle_with_store(Method::EditionDelete, &vec![insert_room()], &mut store, first, true);
    assert_eq!(replies[0].status, 200);
    assert_eq!(resp_edition[0].id, first);

    let query = ListQuery { source_room_id: room.id, last_created_at: None, limit: None };
    let db_editions = editions::list(&store, &query);
    assert_eq!(db_editions.len(), 3 - 1);
}

#[test]
fn delete_edition_not_authorized() {
    let (steps, replies) = handle(Method::EditionDelete, &[PASSED, PASSED, Input::Refused]);
    assert_eq!(replies[0].status, 403);
    // The edition is not deleted.
    assert!(!steps.contains(&Step::Query(Query::EditionDelete)));

    let room = insert_room();
    let mut store = vec![];
    for i in 1..4 {
        editions::insert(&mut store, new_edition(0xE0 + i, room.id, i as i64));
    }
    let first = store[0].id;
    let (replies, _) =
        handle_with_store(Method::EditionDelete, &vec![insert_room()], &mut store, first, false);
    assert_eq!(replies[0].status, 403);
    let query = ListQuery { source_room_id: room.id, last_created_at: None, limit: None };
    assert_eq!(editions::list(&store, &query).len(), 3);
}

#[test]
fn delete_editions_missing_room() {
    let (_, replies) = handle(Method::EditionDelete, &[PASSED, Input::Missing]);
    assert_eq!(replies[0].status, 404);
    assert_eq!(replies[0].error.unwrap().kind(), "edition_not_found");
}

#[test]
fn dump_events_not_authorized() {
    let (_, replies) = handle(Method::RoomDumpEvents, &[PASSED, PASSED, Input::Refused]);
    assert_eq!(replies[0].status, 403);
}

#[test]
fn dump_events_room_missing() {
    let (_, replies) = handle(Method::RoomDumpEvents, &[PASSED, Input::Missing]);
    assert_eq!(replies[0].status, 404);
    assert_eq!(replies[0].error.unwrap().kind(), "room_not_found");
}

#[test]
fn dump_events_no_s3_client() {
    let (steps, replies) = handle(Method::RoomDumpEvents, &[PASSED, PASSED, PASSED, Input::Missing]);
    assert_eq!(steps[2], Step::Authorize(Object::Rooms, Action::DumpEvents));
    assert_eq!(replies[0].status, 501);
    assert_eq!(replies[0].error.unwrap().kind(), "no_s3_client");
}

#[test]
fn dump_events() {
    let (_, replies) = handle(Method::RoomDumpEvents, &[PASSED, PASSED, PASSED, PASSED]);
    assert_eq!(replies.len(), 1);
    assert_eq!(replies[0].status, 202);
    assert_eq!(replies[0].task, Some(Task::DumpEvents));
    // The response, and the broadcast of the task when it is done.
    assert_eq!(outbound(&replies[0]), 2);
    assert_eq!(Method::RoomDumpEvents.name(), "room.dump_events");

    let audience = "dev.usr.example.org";
    let room_id = "0b7a4e5c-7d3f-4a58-9d3a-2f6f4c1d9e10";
    assert_eq!(dump::s3_uri(audience, room_id), format!("s3://eventsdump.{}/{}.json", audience, room_id));
    assert_eq!(
        format!("s3://{}/{}", dump::bucket(audience), dump::object(room_id)),
        dump::s3_uri(audience, room_id)
    );
    assert_eq!(dump::status(false), "success");
    assert_eq!(dump::status(true), "error");
}

#[test]
fn read_state_not_authorized() {
    let (_, replies) = handle(Method::StateRead, &[PASSED, PASSED, PASSED, Input::Refused]);
    assert_eq!(replies[0].status, 403);
}

#[test]
fn read_state_missing_room() {
    let (_, replies) = handle(Method::StateRead, &[PASSED, PASSED, Input::Missing]);
    assert_eq!(replies[0].status, 404);
    assert_eq!(replies[0].error.unwrap().kind(), "room_not_found");
}

#[test]
fn read_state_steps() {
    let (steps, replies) = handle(Method::StateRead, &[PASSED; 6]);
    assert_eq!(
        steps,
        vec![
            Step::Parse,
            Step::Validate,
            Step::FindRoom,
            Step::Authorize(Object::RoomEvents, Action::List),
            Step::ChooseCursor,
            Step::Query(Query::State),
        ]
    );
    assert_eq!(replies[0].status, 200);
    let (_, replies) = handle(Method::StateRead, &[PASSED, Input::Failed]);
    assert_eq!(replies[0].error, Some(ErrorKind::InvalidStateSets));
    assert_eq!(replies[0].status, 422);
    let (_, replies) = handle(Method::StateRead, &[PASSED, PASSED, PASSED, PASSED, Input::Failed]);
    assert_eq!(replies[0].error, Some(ErrorKind::InvalidRoomTime));
    assert_eq!(replies[0].status, 422);
}

#[test]
fn commit_is_accepted_and_runs_detached() {
    let (steps, replies) = handle(Method::EditionCommit, &[PASSED, PASSED, PASSED]);
    assert_eq!(steps, vec![Step::Parse, Step::FindEdition, Step::Authorize(Object::Room, Action::Update)]);
    assert_eq!(
        replies,
        vec![Reply { status: 202, error: None, notifies: false, task: Some(Task::CommitEdition) }]
    );
}

#[test]
fn list_events_steps() {
    let (steps, replies) = handle(Method::EventList, &[PASSED, PASSED, PASSED, PASSED]);
    assert_eq!(steps[2], Step::Authorize(Object::RoomEvents, Action::List));
    assert_eq!(steps[3], Step::Query(Query::EventList));
    assert_eq!(replies[0].status, 200);
    let (_, replies) = handle(Method::EventList, &[PASSED, PASSED, PASSED, Input::Failed]);
    assert_eq!(replies[0].error, Some(ErrorKind::DbQueryFailed));
    assert_eq!(replies[0].status, 500);
}

#[test]
fn authorization_fails_closed_for_every_method() {
    let methods = [
        Method::EditionCreate,
        Method::EditionList,
        Method::EditionDelete,
        Method::EditionCommit,
        Method::EventList,
        Method::StateRead,
        Method::RoomDumpEvents,
    ];
    for method in methods {
        for denial in [Input::Refused, Input::Failed, Input::Missing] {
            let mut inputs = vec![];
            let mut index = 0;
            while !matches!(method.step(index), Some(Step::Authorize(_, _))) {
                inputs.push(PASSED);
                index += 1;
            }
            inputs.push(denial);
            let (steps, replies) = handle(method, &inputs);
            assert_eq!(steps.len(), index + 1);
            assert_eq!(
                replies,
                vec![Reply { status: 403, error: Some(ErrorKind::AccessDenied), notifies: false, task: None }]
            );
            assert_eq!(outbound(&replies[0]), 1);
        }
    }
}

#[test]
fn a_bad_payload_is_answered_with_400() {
    let (steps, replies) = handle(Method::EditionCommit, &[Input::Failed]);
    assert_eq!(steps, vec![Step::Parse]);
    assert_eq!(replies[0].status, 400);
    assert_eq!(replies[0].error.unwrap().kind(), "invalid_payload");
}

#[test]
fn storage_failures_on_lookup() {
    let (_, replies) = handle(Method::EditionCommit, &[PASSED, Input::Failed]);
    assert_eq!(replies[0].error, Some(ErrorKind::DbQueryFailed));
    assert_eq!(failure(Step::FindRoom, Input::Refused), ErrorKind::DbQueryFailed);
    assert_eq!(failure(Step::FindEdition, Input::Missing), ErrorKind::EditionNotFound);
}

#[test]
fn methods_are_routed_by_name() {
    assert_eq!(route("edition.create"), Some(Method::EditionCreate));
    assert_eq!(route("edition.list"), Some(Method::EditionList));
    assert_eq!(route("edition.delete"), Some(Method::EditionDelete));
    assert_eq!(route("edition.commit"), Some(Method::EditionCommit));
    assert_eq!(route("event.list"), Some(Method::EventList));
    assert_eq!(route("state.read"), Some(Method::StateRead));
    assert_eq!(route("room.dump_events"), Some(Method::RoomDumpEvents));
    assert_eq!(route("edition.update"), None);
    assert_eq!(route(""), None);
    let reply = unknown_method();
    assert_eq!(reply.status, 404);
    assert_eq!(reply.error.unwrap().kind(), "unknown_method");
}

#[test]
fn error_kinds_have_their_status_and_name() {
    let table = [
        (ErrorKind::RoomNotFound, 404, "room_not_found", false),
        (ErrorKind::EditionNotFound, 404, "edition_not_found", false),
        (ErrorKind::InvalidPayload, 400, "invalid_payload", true),
        (ErrorKind::InvalidStateSets, 422, "invalid_state_sets", false),
        (ErrorKind::InvalidRoomTime, 422, "invalid_room_time", false),
        (ErrorKind::AccessDenied, 403, "access_denied", false),
        (ErrorKind::DbQueryFailed, 500, "db_query_failed", true),
        (ErrorKind::SerializationFailed, 500, "serialization_failed", true),
        (ErrorKind::PublishFailed, 500, "publish_failed", true),
        (ErrorKind::EditionCommitTaskFailed, 500, "edition_commit_task_failed", true),
        (ErrorKind::NoS3Client, 501, "no_s3_client", true),
        (ErrorKind::UnknownMethod, 404, "unknown_method", false),
    ];
    for (kind, status, name, reported) in table {
        assert_eq!(kind.status(), status);
        assert_eq!(kind.kind(), name);
        assert_eq!(kind.is_reported(), reported);
    }
}

#[test]
fn every_method_is_routed_by_its_name() {
    let methods = [
        Method::EditionCreate,
        Method::EditionList,
        Method::EditionDelete,
        Method::EditionCommit,
        Method::EventList,
        Method::StateRead,
        Method::RoomDumpEvents,
    ];
    for method in methods {
        assert_eq!(route(method.name()), Some(method));
    }
    assert_eq!(Method::EditionCommit.name(), "edition.commit");
    assert_eq!(Method::RoomDumpEvents.name(), "room.dump_events");
}

#[test]
fn topics_and_timing_names() {
    assert_eq!(audience_topic("dev.usr.example.org"), "audiences/dev.usr.example.org/events");
    assert_eq!(audience_topic(""), "audiences//events");
    assert_eq!(room_topic("1b2e", "editions"), "rooms/1b2e/editions");
    assert_eq!(room_topic("1b2e", "events"), "rooms/1b2e/events");
    assert_eq!(event_timing_name(Some("room.close")), "event-room.close");
    assert_eq!(event_timing_name(None), "event-none");
}

#[test]
fn editions_are_listed_newest_first() {
    let mut store = vec![];
    for (id, room, created_at) in [(1, ROOM_ID, 10), (2, ROOM_ID, 30), (3, 0xB2, 40), (4, ROOM_ID, 20), (5, ROOM_ID, 30)] {
        editions::insert(&mut store, new_edition(id, room, created_at));
    }
    let ids = |query: ListQuery| editions::list(&store, &query).iter().map(|e| e.id).collect::<Vec<_>>();
    let all = ListQuery { source_room_id: ROOM_ID, last_created_at: None, limit: None };
    // Of two editions of one instant, the one that was created later comes first.
    assert_eq!(ids(all), vec![5, 2, 4, 1]);
    assert_eq!(ids(ListQuery { limit: Some(3), ..all }), vec![5, 2, 4]);
    assert_eq!(ids(ListQuery { limit: Some(0), ..all }), Vec::<u128>::new());
    assert_eq!(ids(ListQuery { last_created_at: Some(30), ..all }), vec![4, 1]);
    assert_eq!(ids(ListQuery { last_created_at: Some(30), limit: Some(1), ..all }), vec![4]);
    assert_eq!(ids(ListQuery { source_room_id: 0xC3, ..all }), Vec::<u128>::new());

    assert!(editions::delete(&mut store, 2));
    assert!(!editions::delete(&mut store, 2));
    assert_eq!(store.iter().map(|e| e.id).collect::<Vec<_>>(), vec![1, 3, 4, 5]);
    assert!(editions::lists(&store[0], &ListQuery { source_room_id: ROOM_ID, last_created_at: Some(11), limit: None }));
}

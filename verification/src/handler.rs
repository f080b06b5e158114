//! Request handling as a state machine: which outside step a request needs
//! next, and what is answered when a step fails or the last one passes.
//! The caller performs the steps and hands back how each one went.

use vstd::prelude::*;
use crate::error::{status_of, ErrorKind};
use crate::state::same_text;

verus! {

/// The methods that the service answers.
#[derive(Clone, Copy, Debug, PartialEq, Eq, Structural)]
pub enum Method {
    EditionCreate,
    EditionList,
    EditionDelete,
    EditionCommit,
    EventList,
    StateRead,
    RoomDumpEvents,
}

/// What an authorization is asked about: a room, the events of a room, or
/// the rooms as a whole.
#[derive(Clone, Copy, Debug, PartialEq, Eq, Structural)]
pub enum Object {
    Room,
    RoomEvents,
    Rooms,
}

/// What an authorization is asked for.
#[derive(Clone, Copy, Debug, PartialEq, Eq, Structural)]
pub enum Action {
    Update,
    List,
    DumpEvents,
}

/// The storage operations of the handlers.
#[derive(Clone, Copy, Debug, PartialEq, Eq, Structural)]
pub enum Query {
    EditionInsert,
    EditionList,
    EditionDelete,
    EventList,
    State,
}

/// One outside step of a handler.
#[derive(Clone, Copy, Debug, PartialEq, Eq, Structural)]
pub enum Step {
    /// Parse the payload of the request.
    Parse,
    /// Check the sets that a state request names.
    Validate,
    /// Find the room that the request names.
    FindRoom,
    /// Find the edition that the request names, with its source room.
    FindEdition,
    /// Ask the authorization collaborator.
    Authorize(Object, Action),
    /// Choose the cursor of a state request from the room's time.
    ChooseCursor,
    /// Take the object store client.
    ObjectStore,
    /// Run a storage operation.
    Query(Query),
}

/// How a step went.
#[derive(Clone, Copy, Debug, PartialEq, Eq, Structural)]
pub enum Input {
    Passed,
    /// What was looked for does not exist.
    Missing,
    /// The authorization collaborator refused.
    Refused,
    /// The step failed in another way.
    Failed,
}

/// The detached tasks that a handler starts; each broadcasts its outcome
/// when it is done.
#[derive(Clone, Copy, Debug, PartialEq, Eq, Structural)]
pub enum Task {
    CommitEdition,
    DumpEvents,
}

/// The answer to a request: the response, with its status and, for an
/// error, its kind; whether a notification goes with it; and the task that
/// is started.
#[derive(Clone, Copy, Debug, PartialEq, Eq, Structural)]
pub struct Reply {
    pub status: u16,
    pub error: Option<ErrorKind>,
    pub notifies: bool,
    pub task: Option<Task>,
}

/// What the caller does next.
#[derive(Clone, Copy, Debug, PartialEq, Eq, Structural)]
pub enum Next {
    Perform(Step),
    Answer(Reply),
    Nothing,
}

/// The handling of one request: its method, the number of steps that have
/// passed, and whether it has been answered.
#[derive(Clone, Copy, Debug, PartialEq, Eq, Structural)]
pub struct Handling {
    pub method: Method,
    pub passed: usize,
    pub answered: bool,
}

/// The steps of a method, in order.
pub open spec fn plan(method: Method) -> Seq<Step> {
    match method {
        Method::EditionCreate => seq![
            Step::Parse,
            Step::FindRoom,
            Step::Authorize(Object::Room, Action::Update),
            Step::Query(Query::EditionInsert),
        ],
        Method::EditionList => seq![
            Step::Parse,
            Step::FindRoom,
            Step::Authorize(Object::Room, Action::Update),
            Step::Query(Query::EditionList),
        ],
        Method::EditionDelete => seq![
            Step::Parse,
            Step::FindEdition,
            Step::Authorize(Object::Room, Action::Update),
            Step::Query(Query::EditionDelete),
        ],
        Method::EditionCommit => seq![
            Step::Parse,
            Step::FindEdition,
            Step::Authorize(Object::Room, Action::Update),
        ],
        Method::EventList => seq![
            Step::Parse,
            Step::FindRoom,
            Step::Authorize(Object::RoomEvents, Action::List),
            Step::Query(Query::EventList),
        ],
        Method::StateRead => seq![
            Step::Parse,
            Step::Validate,
            Step::FindRoom,
            Step::Authorize(Object::RoomEvents, Action::List),
            Step::ChooseCursor,
            Step::Query(Query::State),
        ],
        Method::RoomDumpEvents => seq![
            Step::Parse,
            Step::FindRoom,
            Step::Authorize(Object::Rooms, Action::DumpEvents),
            Step::ObjectStore,
        ],
    }
}

/// The answer of a method when all its steps have passed.
pub open spec fn success_of(method: Method) -> Reply {
    match method {
        Method::EditionCreate => Reply { status: 201, error: None, notifies: true, task: None },
        Method::EditionList => Reply { status: 200, error: None, notifies: false, task: None },
        Method::EditionDelete => Reply { status: 200, error: None, notifies: false, task: None },
        Method::EditionCommit => Reply {
            status: 202,
            error: None,
            notifies: false,
            task: Some(Task::CommitEdition),
        },
        Method::EventList => Reply { status: 200, error: None, notifies: false, task: None },
        Method::StateRead => Reply { status: 200, error: None, notifies: false, task: None },
        Method::RoomDumpEvents => Reply {
            status: 202,
            error: None,
            notifies: false,
            task: Some(Task::DumpEvents),
        },
    }
}

/// The error that answers a step that did not pass. An authorization that
/// does not pass is a denial, however it went.
pub open spec fn failure_of(step: Step, input: Input) -> ErrorKind {
    match step {
        Step::Parse => ErrorKind::InvalidPayload,
        Step::Validate => ErrorKind::InvalidStateSets,
        Step::FindRoom => if input == Input::Missing {
            ErrorKind::RoomNotFound
        } else {
            ErrorKind::DbQueryFailed
        },
        Step::FindEdition => if input == Input::Missing {
            ErrorKind::EditionNotFound
        } else {
            ErrorKind::DbQueryFailed
        },
        Step::Authorize(_, _) => ErrorKind::AccessDenied,
        Step::ChooseCursor => ErrorKind::InvalidRoomTime,
        Step::ObjectStore => ErrorKind::NoS3Client,
        Step::Query(_) => ErrorKind::DbQueryFailed,
    }
}

/// The answer that carries an error: a response with the status of the
/// error, no notification and no task.
pub open spec fn error_reply(kind: ErrorKind) -> Reply {
    Reply { status: status_of(kind), error: Some(kind), notifies: false, task: None }
}

/// What comes after `passed` steps of a method have passed: the next step,
/// or the answer of the method.
pub open spec fn next_after(method: Method, passed: int) -> Next {
    if 0 <= passed < plan(method).len() {
        Next::Perform(plan(method)[passed])
    } else {
        Next::Answer(success_of(method))
    }
}

/// A handling that has taken no step yet.
pub open spec fn started(method: Method) -> Handling {
    Handling { method, passed: 0, answered: false }
}

/// The handling after the step in turn went as `input` says, and what the
/// caller does next. Once a request is answered, nothing more is done.
pub open spec fn advanced(handling: Handling, input: Input) -> (Handling, Next) {
    if handling.answered || handling.passed >= plan(handling.method).len() {
        (handling, Next::Nothing)
    } else if input == Input::Passed {
        let next = next_after(handling.method, handling.passed + 1);
        (
            Handling {
                method: handling.method,
                passed: (handling.passed + 1) as usize,
                answered: next is Answer,
            },
            next,
        )
    } else {
        (
            Handling { method: handling.method, passed: handling.passed, answered: true },
            Next::Answer(
                error_reply(failure_of(plan(handling.method)[handling.passed as int], input)),
            ),
        )
    }
}

/// The number of outbound messages that an answer amounts to: the
/// response, the notification that goes with it, and the broadcast of the
/// task that it starts.
pub open spec fn outbound(reply: Reply) -> nat {
    1 + if reply.notifies {
        1nat
    } else {
        0nat
    } + if reply.task is Some {
        1nat
    } else {
        0nat
    }
}

/// The answers given while a request is handled, the steps going as
/// `inputs` say, and the handling reached.
pub open spec fn run(method: Method, inputs: Seq<Input>) -> (Handling, Seq<Reply>)
    decreases inputs.len(),
{
    if inputs.len() == 0 {
        (started(method), Seq::empty())
    } else {
        let (handling, replies) = run(method, inputs.drop_last());
        let (after, next) = advanced(handling, inputs.last());
        match next {
            Next::Answer(reply) => (after, replies.push(reply)),
            _ => (after, replies),
        }
    }
}

/// The step in turn, if the request is not answered yet.
pub open spec fn step_in_turn(handling: Handling) -> Option<Step> {
    if !handling.answered && handling.passed < plan(handling.method).len() {
        Some(plan(handling.method)[handling.passed as int])
    } else {
        None
    }
}

/// While a request is not answered, no answer has been given; once it is,
/// exactly one has.
pub proof fn lemma_one_answer(method: Method, inputs: Seq<Input>)
    ensures
        ({
            let (handling, replies) = run(method, inputs);
            &&& handling.method == method
            &&& handling.passed <= plan(method).len()
            &&& handling.answered ==> replies.len() == 1
            &&& !handling.answered ==> replies.len() == 0 && handling.passed < plan(method).len()
        }),
    decreases inputs.len(),
{
    if inputs.len() > 0 {
        lemma_one_answer(method, inputs.drop_last());
    }
}

/// Once a request is answered, further inputs change nothing.
pub proof fn lemma_answer_is_final(method: Method, inputs: Seq<Input>, k: int)
    requires
        0 <= k <= inputs.len(),
        run(method, inputs.take(k)).0.answered,
    ensures
        run(method, inputs) == run(method, inputs.take(k)),
    decreases inputs.len() - k,
{
    if k == inputs.len() {
        assert(inputs.take(k) =~= inputs);
    } else {
        assert(inputs.take(k + 1).drop_last() =~= inputs.take(k));
        lemma_answer_is_final(method, inputs, k + 1);
    }
}

/// Authorization fails closed.
///
/// Whatever the method and however its other steps go: when the
/// authorization does not pass, the request is answered with exactly one
/// message, a response with status 403 and the error `access_denied`; no
/// notification goes out and no task is started.
pub proof fn law_authorization_fails_closed(method: Method, inputs: Seq<Input>, k: int)
    requires
        0 <= k < inputs.len(),
        step_in_turn(run(method, inputs.take(k)).0) matches Some(Step::Authorize(_, _)),
        inputs[k] != Input::Passed,
    ensures
        run(method, inputs).1 == seq![error_reply(ErrorKind::AccessDenied)],
        error_reply(ErrorKind::AccessDenied).status == 403,
        outbound(error_reply(ErrorKind::AccessDenied)) == 1,
{
    lemma_one_answer(method, inputs.take(k));
    assert(inputs.take(k + 1).drop_last() =~= inputs.take(k));
    assert(inputs.take(k + 1).last() == inputs[k]);
    let (handling, replies) = run(method, inputs.take(k));
    assert(replies =~= Seq::<Reply>::empty());
    assert(run(method, inputs.take(k + 1)).1 =~= seq![error_reply(ErrorKind::AccessDenied)]);
    lemma_answer_is_final(method, inputs, k + 1);
}

/// The method of a name such as `edition.create`, if there is one.
pub fn route(name: &str) -> (res: Option<Method>)
    ensures
        res == method_named(name@),
{
    let given = String::from_str(name);
    if same_text(&given, &String::from_str("edition.create")) {
        Some(Method::EditionCreate)
    } else if same_text(&given, &String::from_str("edition.list")) {
        Some(Method::EditionList)
    } else if same_text(&given, &String::from_str("edition.delete")) {
        Some(Method::EditionDelete)
    } else if same_text(&given, &String::from_str("edition.commit")) {
        Some(Method::EditionCommit)
    } else if same_text(&given, &String::from_str("event.list")) {
        Some(Method::EventList)
    } else if same_text(&given, &String::from_str("state.read")) {
        Some(Method::StateRead)
    } else if same_text(&given, &String::from_str("room.dump_events")) {
        Some(Method::RoomDumpEvents)
    } else {
        None
    }
}

/// The method that a name stands for.
pub open spec fn method_named(name: Seq<char>) -> Option<Method> {
    if name == "edition.create"@ {
        Some(Method::EditionCreate)
    } else if name == "edition.list"@ {
        Some(Method::EditionList)
    } else if name == "edition.delete"@ {
        Some(Method::EditionDelete)
    } else if name == "edition.commit"@ {
        Some(Method::EditionCommit)
    } else if name == "event.list"@ {
        Some(Method::EventList)
    } else if name == "state.read"@ {
        Some(Method::StateRead)
    } else if name == "room.dump_events"@ {
        Some(Method::RoomDumpEvents)
    } else {
        None
    }
}

/// The name of a method.
pub open spec fn name_of(method: Method) -> Seq<char> {
    match method {
        Method::EditionCreate => "edition.create"@,
        Method::EditionList => "edition.list"@,
        Method::EditionDelete => "edition.delete"@,
        Method::EditionCommit => "edition.commit"@,
        Method::EventList => "event.list"@,
        Method::StateRead => "state.read"@,
        Method::RoomDumpEvents => "room.dump_events"@,
    }
}

/// Every method is found again by its name.
pub proof fn law_methods_are_routed_by_name(method: Method)
    ensures
        method_named(name_of(method)) == Some(method),
{
    reveal_strlit("edition.create");
    reveal_strlit("edition.list");
    reveal_strlit("edition.delete");
    reveal_strlit("edition.commit");
    reveal_strlit("event.list");
    reveal_strlit("state.read");
    reveal_strlit("room.dump_events");
    assert("edition.create"@.len() == 14 && "edition.create"@[9] == 'r');
    assert("edition.list"@.len() == 12);
    assert("edition.delete"@.len() == 14 && "edition.delete"@[9] == 'e');
    assert("edition.commit"@.len() == 14 && "edition.commit"@[9] == 'o');
    assert("event.list"@.len() == 10 && "event.list"@[0] == 'e');
    assert("state.read"@.len() == 10 && "state.read"@[0] == 's');
    assert("room.dump_events"@.len() == 16);
}

/// The topic on which the events of an audience are broadcast.
pub open spec fn audience_topic_of(audience: Seq<char>) -> Seq<char> {
    "audiences/"@ + audience + "/events"@
}

/// The topic on which something of a room is broadcast, such as its
/// `events` or its `editions`; the room is given by its id as a text.
pub open spec fn room_topic_of(room_id: Seq<char>, entity: Seq<char>) -> Seq<char> {
    "rooms/"@ + room_id + "/"@ + entity
}

/// The topic `audiences/{audience}/events`.
pub fn audience_topic(audience: &str) -> (res: String)
    ensures
        res@ == audience_topic_of(audience@),
{
    let mut topic = String::from_str("audiences/");
    topic.append(audience);
    topic.append("/events");
    topic
}

/// The topic `rooms/{room_id}/{entity}`.
pub fn room_topic(room_id: &str, entity: &str) -> (res: String)
    ensures
        res@ == room_topic_of(room_id@, entity@),
{
    let mut topic = String::from_str("rooms/");
    topic.append(room_id);
    topic.append("/");
    topic.append(entity);
    topic
}

/// The name under which the time of handling an event is recorded:
/// `event-` and the label of the event, or `event-none` without a label.
pub open spec fn event_timing_name_of(label: Option<Seq<char>>) -> Seq<char> {
    match label {
        Some(l) => "event-"@ + l,
        None => "event-none"@,
    }
}

/// The name under which the time of handling an event is recorded.
pub fn event_timing_name(label: Option<&str>) -> (res: String)
    ensures
        res@ == event_timing_name_of(
            match label {
                Some(l) => Some(l@),
                None => None,
            },
        ),
{
    match label {
        Some(l) => {
            let mut name = String::from_str("event-");
            name.append(l);
            name
        },
        None => String::from_str("event-none"),
    }
}

/// The answer to a request whose method is not known.
pub fn unknown_method() -> (res: Reply)
    ensures
        res == error_reply(ErrorKind::UnknownMethod),
        res.status == 404,
{
    Reply { status: 404, error: Some(ErrorKind::UnknownMethod), notifies: false, task: None }
}

impl Method {
    /// The name of the method, which is also the label of its notifications.
    pub fn name(&self) -> (res: &'static str)
        ensures
            res@ == name_of(*self),
    {
        match self {
            Method::EditionCreate => "edition.create",
            Method::EditionList => "edition.list",
            Method::EditionDelete => "edition.delete",
            Method::EditionCommit => "edition.commit",
            Method::EventList => "event.list",
            Method::StateRead => "state.read",
            Method::RoomDumpEvents => "room.dump_events",
        }
    }

    /// The step of the method at `index`, if it has that many.
    pub fn step(&self, index: usize) -> (res: Option<Step>)
        ensures
            res == if index < plan(*self).len() {
                Some(plan(*self)[index as int])
            } else {
                None
            },
    {
        let find = match self {
            Method::EditionDelete => Step::FindEdition,
            Method::EditionCommit => Step::FindEdition,
            _ => Step::FindRoom,
        };
        let authorize = match self {
            Method::EventList => Step::Authorize(Object::RoomEvents, Action::List),
            Method::StateRead => Step::Authorize(Object::RoomEvents, Action::List),
            Method::RoomDumpEvents => Step::Authorize(Object::Rooms, Action::DumpEvents),
            _ => Step::Authorize(Object::Room, Action::Update),
        };
        match self {
            Method::StateRead => match index {
                0 => Some(Step::Parse),
                1 => Some(Step::Validate),
                2 => Some(find),
                3 => Some(authorize),
                4 => Some(Step::ChooseCursor),
                5 => Some(Step::Query(Query::State)),
                _ => None,
            },
            _ => match index {
                0 => Some(Step::Parse),
                1 => Some(find),
                2 => Some(authorize),
                3 => match self {
                    Method::EditionCreate => Some(Step::Query(Query::EditionInsert)),
                    Method::EditionList => Some(Step::Query(Query::EditionList)),
                    Method::EditionDelete => Some(Step::Query(Query::EditionDelete)),
                    Method::EventList => Some(Step::Query(Query::EventList)),
                    Method::RoomDumpEvents => Some(Step::ObjectStore),
                    _ => None,
                },
                _ => None,
            },
        }
    }

    /// The answer of the method when all its steps have passed.
    pub fn success(&self) -> (res: Reply)
        ensures
            res == success_of(*self),
    {
        match self {
            Method::EditionCreate => Reply { status: 201, error: None, notifies: true, task: None },
            Method::EditionCommit => Reply {
                status: 202,
                error: None,
                notifies: false,
                task: Some(Task::CommitEdition),
            },
            Method::RoomDumpEvents => Reply {
                status: 202,
                error: None,
                notifies: false,
                task: Some(Task::DumpEvents),
            },
            _ => Reply { status: 200, error: None, notifies: false, task: None },
        }
    }
}

/// The error that answers a step that did not pass.
pub fn failure(step: Step, input: Input) -> (res: ErrorKind)
    ensures
        res == failure_of(step, input),
{
    let missing = match input {
        Input::Missing => true,
        _ => false,
    };
    match step {
        Step::Parse => ErrorKind::InvalidPayload,
        Step::Validate => ErrorKind::InvalidStateSets,
        Step::FindRoom => if missing {
            ErrorKind::RoomNotFound
        } else {
            ErrorKind::DbQueryFailed
        },
        Step::FindEdition => if missing {
            ErrorKind::EditionNotFound
        } else {
            ErrorKind::DbQueryFailed
        },
        Step::Authorize(_, _) => ErrorKind::AccessDenied,
        Step::ChooseCursor => ErrorKind::InvalidRoomTime,
        Step::ObjectStore => ErrorKind::NoS3Client,
        Step::Query(_) => ErrorKind::DbQueryFailed,
    }
}

impl Handling {
    /// Starts the handling of a request, and says what to do first.
    pub fn start(method: Method) -> (res: (Handling, Next))
        ensures
            res.0 == started(method),
            res.1 == next_after(method, 0),
    {
        let first = match method.step(0) {
            Some(step) => Next::Perform(step),
            None => Next::Answer(method.success()),
        };
        (Handling { method, passed: 0, answered: false }, first)
    }

    /// Takes in how the step in turn went, and says what to do next: the
    /// next step; or the answer, when the last step has passed or a step
    /// has not; or nothing, when the request has been answered before.
    pub fn advance(self, input: Input) -> (res: (Handling, Next))
        ensures
            res == advanced(self, input),
    {
        let step = match self.method.step(self.passed) {
            Some(step) => step,
            None => {
                return (self, Next::Nothing);
            },
        };
        if self.answered {
            return (self, Next::Nothing);
        }
        match input {
            Input::Passed => {
                let passed = self.passed + 1;
                match self.method.step(passed) {
                    Some(following) => (
                        Handling { method: self.method, passed, answered: false },
                        Next::Perform(following),
                    ),
                    None => (
                        Handling { method: self.method, passed, answered: true },
                        Next::Answer(self.method.success()),
                    ),
                }
            },
            _ => {
                let kind = failure(step, input);
                (
                    Handling { method: self.method, passed: self.passed, answered: true },
                    Next::Answer(
                        Reply { status: kind.status(), error: Some(kind), notifies: false, task: None },
                    ),
                )
            },
        }
    }
}

} // verus!

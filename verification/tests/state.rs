use event_timeline::event::Event;
use event_timeline::reader::{read, ReadError, ReadRequest, SetValue, State};
use event_timeline::room::{Bound, Room};
use event_timeline::state::{set_state, state_total_count, SetStateQuery};

const USR_AUDIENCE: &str = "dev.usr.example.org";
const ROOM_ID: u128 = 0xA1;

fn insert_room() -> Room {
    Room {
        id: ROOM_ID,
        audience: USR_AUDIENCE.to_string(),
        time: (Bound::Included(0), Bound::Excluded(3_600_000_000_000)),
        tags: None,
        source_room_id: None,
        preserve_history: true,
    }
}

struct Factory {
    kind: String,
    set: String,
    label: Option<String>,
    attribute: Option<String>,
    data: String,
    occurred_at: i64,
}

impl Factory {
    fn new(kind: &str, set: &str) -> Self {
        Factory {
            kind: kind.to_string(),
            set: set.to_string(),
            label: None,
            attribute: None,
            data: "{}".to_string(),
            occurred_at: 0,
        }
    }

    fn label(mut self, label: &str) -> Self {
        self.label = Some(label.to_string());
        self
    }

    fn attribute(mut self, attribute: &str) -> Self {
        self.attribute = Some(attribute.to_string());
        self
    }

    fn data(mut self, data: &str) -> Self {
        self.data = data.to_string();
        self
    }

    fn occurred_at(mut self, occurred_at: i64) -> Self {
        self.occurred_at = occurred_at;
        self
    }

    fn insert(self, log: &mut Vec<Event>) -> u128 {
        let id = 0x1000 + log.len() as u128;
        log.push(Event {
            id,
            room_id: ROOM_ID,
            kind: self.kind,
            set: self.set,
            label: self.label,
            data: self.data,
            occurred_at: self.occurred_at,
            original_occurred_at: self.occurred_at,
            attribute: self.attribute,
            created_by: format!("web.user123.{}", USR_AUDIENCE),
            created_at: self.occurred_at,
            removed: false,
        });
        id
    }
}

fn request(sets: &[&str]) -> ReadRequest {
    ReadRequest {
        room_id: ROOM_ID,
        sets: sets.iter().map(|s| s.to_string()).collect(),
        attribute: None,
        occurred_at: None,
        original_occurred_at: None,
        limit: None,
    }
}

fn collection<'a>(state: &'a State, set: &str) -> &'a Vec<Event> {
    let entry = state.entries.iter().find(|e| e.set == set).expect("set is in the state");
    match &entry.value {
        SetValue::Collection(events) => events,
        SetValue::Single(_) => panic!("expected a collection"),
    }
}

fn single<'a>(state: &'a State, set: &str) -> &'a Event {
    let entry = state.entries.iter().find(|e| e.set == set).expect("set is in the state");
    match &entry.value {
        SetValue::Single(event) => event,
        SetValue::Collection(_) => panic!("expected a single event"),
    }
}

fn six_messages(log: &mut Vec<Event>, pin_first_label: bool) -> Vec<u128> {
    let mut ids = vec![];
    for i in 0..6 {
        let mut factory = Factory::new("message", "messages")
            .label(&format!("message-{}", i % 3 + 1))
            .data(&format!(r#"{{"text": "message {}, version {}"}}"#, i % 3 + 1, i / 3 + 1))
            .occurred_at(i * 1000);
        if pin_first_label && i % 3 == 0 {
            factory = factory.attribute("pinned");
        }
        ids.push(factory.insert(log));
    }
    ids
}

#[test]
fn read_state_multiple_sets() {
    let room = insert_room();
    let mut log = vec![];
    let message_event = Factory::new("message", "messages")
        .label("message-1")
        .data(r#"{"text": "hello"}"#)
        .occurred_at(1000)
        .insert(&mut log);
    let layout_event = Factory::new("layout", "layout")
        .data(r#"{"name": "presentation"}"#)
        .occurred_at(2000)
        .insert(&mut log);

    let payload = request(&["messages", "layout"]);
    let state = read(&room, &log, &payload).expect("State reading failed");

    let messages = collection(&state, "messages");
    assert_eq!(messages.len(), 1);
    assert_eq!(messages[0].id, message_event);
    assert_eq!(single(&state, "layout").id, layout_event);
    assert_eq!(state.has_next, None);
    assert_eq!(state.entries.len(), 2);
    assert_eq!(state.entries[0].set, "messages");
    assert_eq!(state.entries[1].set, "layout");
}

#[test]
fn read_state_collection() {
    let room = insert_room();
    let mut log = vec![];
    let db_events = six_messages(&mut log, false);

    let mut payload = request(&["messages"]);
    payload.occurred_at = Some(2001);
    payload.limit = Some(2);
    let state = read(&room, &log, &payload).expect("State reading failed (page 1)");

    // Assert last two events response.
    let messages = collection(&state, "messages");
    assert_eq!(messages.len(), 2);
    assert_eq!(messages[0].id, db_events[2]);
    assert_eq!(messages[1].id, db_events[1]);
    assert_eq!(state.has_next, Some(true));

    // Request the next page.
    let mut payload = request(&["messages"]);
    payload.occurred_at = Some(1);
    payload.original_occurred_at = Some(messages[1].original_occurred_at);
    payload.limit = Some(2);
    let state = read(&room, &log, &payload).expect("State reading failed (page 2)");

    // Assert the first event.
    let messages = collection(&state, "messages");
    assert_eq!(messages.len(), 1);
    assert_eq!(messages[0].id, db_events[0]);
    assert_eq!(state.has_next, Some(false));
}

#[test]
fn read_state_collection_with_attribute_filter() {
    let room = insert_room();
    let mut log = vec![];
    six_messages(&mut log, true);

    let mut payload = request(&["messages"]);
    payload.attribute = Some(String::from("pinned"));
    let state = read(&room, &log, &payload).expect("State reading failed");

    // Expect only an event with the expected attribute.
    let messages = collection(&state, "messages");
    assert_eq!(messages.len(), 1);
    assert_eq!(messages[0].attribute.as_deref(), Some("pinned"));
}

#[test]
fn read_state_collection_with_occurred_at_filter() {
    let room = insert_room();
    let mut log = vec![];
    let db_events = six_messages(&mut log, false);

    let mut payload = request(&["messages"]);
    payload.occurred_at = Some(2001);
    payload.limit = Some(2);
    let state = read(&room, &log, &payload).expect("State reading failed (page 1)");

    let messages = collection(&state, "messages");
    assert_eq!(messages.len(), 2);
    assert_eq!(messages[0].id, db_events[2]);
    assert_eq!(messages[1].id, db_events[1]);
    assert_eq!(state.has_next, Some(true));

    let mut payload = request(&["messages"]);
    payload.occurred_at = Some(1);
    payload.original_occurred_at = Some(messages[1].original_occurred_at);
    payload.limit = Some(2);
    let state = read(&room, &log, &payload).expect("State reading failed (page 2)");

    let messages = collection(&state, "messages");
    assert_eq!(messages.len(), 1);
    assert_eq!(messages[0].id, db_events[0]);
    assert_eq!(state.has_next, Some(false));
}

#[test]
fn read_state_pinned_messages() {
    let room = insert_room();
    let mut log = vec![];

    let base = || Factory::new("message", "messages").data(r#"{"text": "hello"}"#);

    // Create a not pinned message.
    base().label("message-1").occurred_at(1000).insert(&mut log);

    // Create a pinned message.
    base().label("message-2").occurred_at(2000).insert(&mut log);
    let pinned_message =
        base().label("message-2").occurred_at(3000).attribute("pinned").insert(&mut log);

    // Create an unpinned message.
    base().label("message-3").occurred_at(4000).insert(&mut log);
    base().label("message-3").occurred_at(5000).attribute("pinned").insert(&mut log);
    base().label("message-3").occurred_at(6000).insert(&mut log);

    let mut payload = request(&["messages"]);
    payload.attribute = Some(String::from("pinned"));
    let state = read(&room, &log, &payload).expect("State reading failed");

    let messages = collection(&state, "messages");
    assert_eq!(messages.len(), 1);
    assert_eq!(messages[0].id, pinned_message);
}

#[test]
fn read_state_rejects_bad_sets() {
    let room = insert_room();
    let log = vec![];
    assert_eq!(read(&room, &log, &request(&[])).unwrap_err(), ReadError::InvalidStateSets);
    let eleven = ["a", "b", "c", "d", "e", "f", "g", "h", "i", "j", "k"];
    assert_eq!(read(&room, &log, &request(&eleven)).unwrap_err(), ReadError::InvalidStateSets);
    assert!(read(&room, &log, &request(&eleven[..10])).is_ok());
}

#[test]
fn read_state_needs_a_cursor() {
    let mut room = insert_room();
    room.time = (Bound::Included(0), Bound::Unbounded);
    let log = vec![];
    assert_eq!(read(&room, &log, &request(&["a"])).unwrap_err(), ReadError::InvalidRoomTime);
    // The sets are checked first.
    assert_eq!(read(&room, &log, &request(&[])).unwrap_err(), ReadError::InvalidStateSets);
    // With a cursor of its own the request does not need the room's time.
    let mut payload = request(&["a"]);
    payload.original_occurred_at = Some(5);
    assert!(read(&room, &log, &payload).is_ok());
}

#[test]
fn default_cursor_lies_after_the_end_of_the_room() {
    let mut room = insert_room();
    room.time = (Bound::Included(1_000), Bound::Excluded(3_000));
    let mut log = vec![];
    let inside = Factory::new("m", "s").label("a").occurred_at(2_000).insert(&mut log);
    Factory::new("m", "s").label("b").occurred_at(2_001).insert(&mut log);
    let state = read(&room, &log, &request(&["s"])).expect("State reading failed");
    // The cursor is 2001: only what originally occurred before it counts.
    let events = collection(&state, "s");
    assert_eq!(events.len(), 1);
    assert_eq!(events[0].id, inside);
}

#[test]
fn limit_is_clamped() {
    let room = insert_room();
    let mut log = vec![];
    for i in 0..150 {
        Factory::new("m", "s").label(&format!("l{}", i)).occurred_at(i).insert(&mut log);
    }
    let mut payload = request(&["s"]);
    payload.limit = Some(1000);
    let state = read(&room, &log, &payload).unwrap();
    assert_eq!(collection(&state, "s").len(), 100);
    assert_eq!(state.has_next, Some(true));
    payload.limit = None;
    assert_eq!(collection(&read(&room, &log, &payload).unwrap(), "s").len(), 100);
    payload.limit = Some(-3);
    let state = read(&room, &log, &payload).unwrap();
    assert_eq!(collection(&state, "s").len(), 0);
    assert_eq!(state.has_next, Some(true));
    payload.limit = Some(150);
    // 150 is clamped to 100, so there is more.
    assert_eq!(read(&room, &log, &payload).unwrap().has_next, Some(true));
}

fn query(at: i64, limit: usize) -> SetStateQuery {
    SetStateQuery {
        room_id: ROOM_ID,
        set: "s".to_string(),
        original_occurred_at: at,
        occurred_at: None,
        attribute: None,
        limit,
    }
}

#[test]
fn deleted_versions_hide_their_label() {
    let mut log = vec![];
    let first = Factory::new("m", "s").label("a").occurred_at(1).insert(&mut log);
    Factory::new("m", "s").label("a").occurred_at(5).attribute("deleted").insert(&mut log);
    let other = Factory::new("m", "s").label("b").occurred_at(3).insert(&mut log);

    // Before the removal the label shows; from the removal on it does not.
    let early = set_state(&log, &query(5, 10));
    assert_eq!(early.iter().map(|e| e.id).collect::<Vec<_>>(), vec![other, first]);
    let late = set_state(&log, &query(6, 10));
    assert_eq!(late.iter().map(|e| e.id).collect::<Vec<_>>(), vec![other]);
    assert_eq!(state_total_count(&log, &query(6, 10)), 1);
    assert_eq!(state_total_count(&log, &query(5, 0)), 2);
}

#[test]
fn unlabelled_events_are_a_stream() {
    let mut log = vec![];
    let a = Factory::new("m", "s").occurred_at(1).insert(&mut log);
    let b = Factory::new("m", "s").occurred_at(2).insert(&mut log);
    let c = Factory::new("m", "s").occurred_at(2).insert(&mut log);
    Factory::new("m", "other").occurred_at(2).insert(&mut log);
    let gone = Factory::new("m", "s").occurred_at(9).insert(&mut log);
    log[4].removed = true;
    let state = set_state(&log, &query(100, 10));
    // Newest first; of two events of one time, the later in the log first.
    assert_eq!(state.iter().map(|e| e.id).collect::<Vec<_>>(), vec![c, b, a]);
    assert!(state.iter().all(|e| e.id != gone));

    // Several events without a label are a collection, a single one is given as itself.
    let room = insert_room();
    let mut payload = request(&["s"]);
    let many = read(&room, &log, &payload).unwrap();
    assert_eq!(collection(&many, "s").len(), 3);
    payload.original_occurred_at = Some(2);
    let one = read(&room, &log, &payload).unwrap();
    assert_eq!(single(&one, "s").id, a);
}

#[test]
fn pages_enumerate_the_state_once() {
    let mut log = vec![];
    // Versions of a label share their original time, as the store keeps it.
    for (label, original, versions) in [("a", 10, 3), ("b", 20, 1), ("c", 30, 2), ("d", 40, 1), ("e", 50, 4)] {
        for v in 0..versions {
            Factory::new("m", "s").label(label).occurred_at(original + v).insert(&mut log);
            let last = log.len() - 1;
            log[last].original_occurred_at = original;
        }
    }
    let mut cursor = 1_000;
    let mut seen: Vec<String> = vec![];
    loop {
        let page = set_state(&log, &query(cursor, 2));
        if page.is_empty() {
            break;
        }
        for event in &page {
            let label = event.label.clone().unwrap();
            assert!(!seen.contains(&label));
            seen.push(label);
        }
        cursor = page[page.len() - 1].original_occurred_at;
    }
    assert_eq!(seen, vec!["e", "d", "c", "b", "a"]);
}

#[test]
fn state_grows_with_the_cursor() {
    let mut log = vec![];
    Factory::new("m", "s").label("a").occurred_at(1).insert(&mut log);
    Factory::new("m", "s").label("b").occurred_at(2).insert(&mut log);
    Factory::new("m", "s").label("a").occurred_at(3).insert(&mut log);
    Factory::new("m", "s").label("b").occurred_at(4).attribute("deleted").insert(&mut log);
    for t1 in 0..6 {
        for t2 in t1..6 {
            let early = set_state(&log, &query(t1, 10));
            let late = set_state(&log, &query(t2, 10));
            for event in &early {
                let present = late.iter().any(|e| e.label == event.label);
                let tombstoned = log.iter().any(|e| {
                    e.label == event.label
                        && e.attribute.as_deref() == Some("deleted")
                        && t1 <= e.original_occurred_at
                        && e.original_occurred_at < t2
                });
                assert!(present || tombstoned);
            }
        }
    }
}

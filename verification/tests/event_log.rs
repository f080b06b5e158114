use event_timeline::event::Event;
use event_timeline::event_log::{delete, insert, list, lists, Direction, ListQuery, NegativeOccurredAt, NewEvent};

fn new_event(id: u128, kind: &str, occurred_at: i64) -> NewEvent {
    NewEvent {
        id,
        room_id: 1,
        kind: kind.to_string(),
        data: "{}".to_string(),
        occurred_at,
        created_by: "agent".to_string(),
        created_at: 1_000 + id as i64,
        set: None,
        label: None,
        attribute: None,
        original_occurred_at: None,
    }
}

fn query(direction: Direction, limit: usize) -> ListQuery {
    ListQuery {
        room_id: 1,
        kind: None,
        set: None,
        label: None,
        attribute: None,
        min_occurred_at: None,
        max_occurred_at: None,
        direction,
        cursor: None,
        limit,
    }
}

fn ids(events: &Vec<Event>) -> Vec<u128> {
    events.iter().map(|e| e.id).collect()
}

#[test]
fn insert_appends_and_fills_defaults() {
    let mut log = vec![];
    let event = insert(&mut log, new_event(1, "message", 5)).expect("valid event");
    assert_eq!(event.set, "message");
    assert_eq!(event.original_occurred_at, 5);
    assert!(!event.removed);
    assert_eq!(log.len(), 1);
    assert_eq!(log[0].id, 1);

    let mut new = new_event(2, "message", 9);
    new.set = Some("chat".to_string());
    new.label = Some("m-1".to_string());
    new.attribute = Some("pinned".to_string());
    new.original_occurred_at = Some(5);
    let event = insert(&mut log, new).expect("valid event");
    assert_eq!(event.set, "chat");
    assert_eq!(event.label.as_deref(), Some("m-1"));
    assert_eq!(event.attribute.as_deref(), Some("pinned"));
    assert_eq!(event.occurred_at, 9);
    assert_eq!(event.original_occurred_at, 5);
    // The first event is as it was.
    assert_eq!(log.len(), 2);
    assert_eq!(log[0].original_occurred_at, 5);
    assert_eq!(log[0].set, "message");

    // Not idempotent: the same event again is one more row.
    insert(&mut log, new_event(1, "message", 5)).expect("valid event");
    assert_eq!(log.len(), 3);
}

#[test]
fn insert_rejects_a_negative_time() {
    let mut log = vec![];
    insert(&mut log, new_event(1, "message", 0)).expect("valid event");
    assert_eq!(insert(&mut log, new_event(2, "message", -1)).unwrap_err(), NegativeOccurredAt);
    assert_eq!(log.len(), 1);
}

#[test]
fn original_time_survives_later_inserts() {
    let mut log = vec![];
    insert(&mut log, new_event(1, "message", 5)).unwrap();
    for i in 2..20 {
        insert(&mut log, new_event(i, "message", i as i64)).unwrap();
        assert_eq!(log[0].original_occurred_at, 5);
    }
}

#[test]
fn delete_removes_one_kind_of_one_room() {
    let mut log = vec![];
    insert(&mut log, new_event(1, "stream", 1)).unwrap();
    insert(&mut log, new_event(2, "message", 2)).unwrap();
    insert(&mut log, new_event(3, "stream", 3)).unwrap();
    let mut elsewhere = new_event(4, "stream", 4);
    elsewhere.room_id = 2;
    insert(&mut log, elsewhere).unwrap();
    assert_eq!(delete(&mut log, 1, &"stream".to_string()), 2);
    assert_eq!(ids(&log), vec![2, 4]);
    assert_eq!(delete(&mut log, 1, &"stream".to_string()), 0);
    assert_eq!(ids(&log), vec![2, 4]);
}

#[test]
fn list_orders_by_time_then_creation_then_id() {
    let mut log = vec![];
    for (id, occurred_at, created_at) in [(5, 20, 1), (4, 10, 9), (3, 10, 2), (2, 10, 2), (1, 30, 0)] {
        let mut new = new_event(id, "message", occurred_at);
        new.created_at = created_at;
        insert(&mut log, new).unwrap();
    }
    assert_eq!(ids(&list(&log, &query(Direction::Forward, 100))), vec![2, 3, 4, 5, 1]);
    assert_eq!(ids(&list(&log, &query(Direction::Backward, 100))), vec![1, 5, 4, 3, 2]);
    assert_eq!(ids(&list(&log, &query(Direction::Forward, 2))), vec![2, 3]);
    assert_eq!(ids(&list(&log, &query(Direction::Backward, 2))), vec![1, 5]);
    assert_eq!(ids(&list(&log, &query(Direction::Forward, 0))), Vec::<u128>::new());
}

#[test]
fn list_clamps_the_limit() {
    let mut log = vec![];
    for i in 0..130 {
        insert(&mut log, new_event(i, "message", i as i64)).unwrap();
    }
    let page = list(&log, &query(Direction::Forward, 1000));
    assert_eq!(page.len(), 100);
    assert_eq!(page[99].id, 99);
}

#[test]
fn list_filters() {
    let mut log = vec![];
    let mut a = new_event(1, "message", 1);
    a.label = Some("x".to_string());
    a.attribute = Some("pinned".to_string());
    insert(&mut log, a).unwrap();
    let mut b = new_event(2, "draw", 2);
    b.set = Some("page".to_string());
    insert(&mut log, b).unwrap();
    insert(&mut log, new_event(3, "message", 3)).unwrap();
    let mut other_room = new_event(4, "message", 4);
    other_room.room_id = 2;
    insert(&mut log, other_room).unwrap();
    insert(&mut log, new_event(5, "message", 5)).unwrap();
    log[4].removed = true;

    assert_eq!(ids(&list(&log, &query(Direction::Forward, 100))), vec![1, 2, 3]);
    let mut q = query(Direction::Forward, 100);
    q.kind = Some("message".to_string());
    assert_eq!(ids(&list(&log, &q)), vec![1, 3]);
    q.label = Some("x".to_string());
    assert_eq!(ids(&list(&log, &q)), vec![1]);
    let mut q = query(Direction::Forward, 100);
    q.set = Some("page".to_string());
    assert_eq!(ids(&list(&log, &q)), vec![2]);
    let mut q = query(Direction::Forward, 100);
    q.attribute = Some("pinned".to_string());
    assert_eq!(ids(&list(&log, &q)), vec![1]);
    let mut q = query(Direction::Forward, 100);
    q.min_occurred_at = Some(2);
    assert_eq!(ids(&list(&log, &q)), vec![2, 3]);
    q.max_occurred_at = Some(2);
    assert_eq!(ids(&list(&log, &q)), vec![2]);
    assert!(lists(&log[1], &q));
    assert!(!lists(&log[0], &q));
}

#[test]
fn list_pages_by_cursor() {
    let mut log = vec![];
    for (id, occurred_at) in [(1, 10), (2, 10), (3, 20), (4, 30), (5, 30)] {
        insert(&mut log, new_event(id, "message", occurred_at)).unwrap();
    }
    let mut q = query(Direction::Forward, 2);
    let mut seen = vec![];
    loop {
        let page = list(&log, &q);
        if page.is_empty() {
            break;
        }
        seen.extend(ids(&page));
        let last = &page[page.len() - 1];
        q.cursor = Some((last.occurred_at, last.id));
    }
    assert_eq!(seen, vec![1, 2, 3, 4, 5]);

    let mut q = query(Direction::Backward, 2);
    q.cursor = Some((30, 5));
    assert_eq!(ids(&list(&log, &q)), vec![4, 3]);
}

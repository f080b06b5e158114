use event_timeline::change::{Change, ChangeKind};
use event_timeline::change_set::{create, delete, find_with_room, list, owns_event};
use event_timeline::commit::Edition;
use event_timeline::event::Event;
use event_timeline::room::{Bound, Room};
use event_timeline::rows::ChangeFault;

const ROOM_ID: u128 = 0xA1;

fn event(id: u128, room_id: u128) -> Event {
    Event {
        id,
        room_id,
        kind: "message".to_string(),
        set: "message".to_string(),
        label: None,
        data: "{}".to_string(),
        occurred_at: 1,
        original_occurred_at: 1,
        attribute: None,
        created_by: "agent".to_string(),
        created_at: 1,
        removed: false,
    }
}

fn change(id: u128, edition_id: u128, kind: ChangeKind) -> Change {
    Change {
        id,
        edition_id,
        kind,
        event_id: None,
        event_kind: None,
        event_set: None,
        event_label: None,
        event_data: None,
        event_occurred_at: None,
        event_created_by: None,
    }
}

fn addition(id: u128, edition_id: u128) -> Change {
    let mut c = change(id, edition_id, ChangeKind::Addition);
    c.event_kind = Some("message".to_string());
    c.event_data = Some("{}".to_string());
    c.event_occurred_at = Some(5);
    c.event_created_by = Some("agent".to_string());
    c
}

fn room(id: u128) -> Room {
    Room {
        id,
        audience: "dev.usr.example.org".to_string(),
        time: (Bound::Included(0), Bound::Excluded(10)),
        tags: None,
        source_room_id: None,
        preserve_history: true,
    }
}

fn edition(id: u128, source_room_id: u128) -> Edition {
    Edition { id, source_room_id, created_by: "agent".to_string(), created_at: 0 }
}

#[test]
fn changes_are_staged_without_touching_events() {
    let events = vec![event(1, ROOM_ID), event(2, 0xB2)];
    let mut changes = vec![];
    assert_eq!(create(&mut changes, &events, ROOM_ID, addition(10, 7)), Ok(()));
    let mut removal = change(11, 7, ChangeKind::Removal);
    removal.event_id = Some(1);
    assert_eq!(create(&mut changes, &events, ROOM_ID, removal), Ok(()));
    let mut modification = change(12, 7, ChangeKind::Modification);
    modification.event_id = Some(1);
    modification.event_label = Some("x".to_string());
    assert_eq!(create(&mut changes, &events, ROOM_ID, modification), Ok(()));
    assert_eq!(changes.iter().map(|c| c.id).collect::<Vec<_>>(), vec![10, 11, 12]);
    assert_eq!(events[0].label, None);
    assert!(!events[0].removed);
}

#[test]
fn changes_must_keep_the_integrity_rule() {
    let events = vec![event(1, ROOM_ID), event(2, 0xB2)];
    let mut changes = vec![];

    // An event of another room, and one that does not exist.
    for id in [2, 3] {
        let mut removal = change(11, 7, ChangeKind::Removal);
        removal.event_id = Some(id);
        assert_eq!(create(&mut changes, &events, ROOM_ID, removal), Err(ChangeFault::UnknownEvent));
    }
    assert!(owns_event(&events, ROOM_ID, 1));
    assert!(!owns_event(&events, ROOM_ID, 2));

    // A modification that names no event.
    let nameless = change(12, 7, ChangeKind::Modification);
    assert_eq!(create(&mut changes, &events, ROOM_ID, nameless), Err(ChangeFault::Malformed));

    // Additions that lack one of the fields of the event they create, or name an event.
    for missing in 0..5 {
        let mut c = addition(13, 7);
        match missing {
            0 => c.event_kind = None,
            1 => c.event_data = None,
            2 => c.event_occurred_at = None,
            3 => c.event_created_by = None,
            _ => c.event_id = Some(1),
        }
        assert!(!c.is_well_formed());
        assert_eq!(create(&mut changes, &events, ROOM_ID, c), Err(ChangeFault::Malformed));
    }
    assert!(changes.is_empty());
}

#[test]
fn changes_are_listed_by_edition_and_deleted_by_id() {
    let events = vec![];
    let mut changes = vec![];
    for (id, edition_id) in [(1, 7), (2, 8), (3, 7), (4, 9)] {
        create(&mut changes, &events, ROOM_ID, addition(id, edition_id)).unwrap();
    }
    assert_eq!(list(&changes, 7).iter().map(|c| c.id).collect::<Vec<_>>(), vec![1, 3]);
    assert_eq!(list(&changes, 6).len(), 0);

    assert!(delete(&mut changes, 3));
    assert!(!delete(&mut changes, 3));
    assert_eq!(changes.iter().map(|c| c.id).collect::<Vec<_>>(), vec![1, 2, 4]);
    assert_eq!(list(&changes, 7).len(), 1);
}

#[test]
fn an_edition_is_found_with_its_room() {
    let rooms = vec![room(0xA1), room(0xA2)];
    let editions = vec![edition(1, 0xA2), edition(2, 0xA1), edition(3, 0xA3)];
    assert_eq!(find_with_room(&editions, &rooms, 1), Some((0, 1)));
    assert_eq!(find_with_room(&editions, &rooms, 2), Some((1, 0)));
    // An edition whose room is gone, and an edition that does not exist.
    assert_eq!(find_with_room(&editions, &rooms, 3), None);
    assert_eq!(find_with_room(&editions, &rooms, 4), None);
}

use event_timeline::change::{Change, ChangeKind};
use event_timeline::event::Event;
use event_timeline::gaps::{
    collect_gaps, decode_command, gaps_from_markers, sort_markers, CutCommand, CutMarker, GapError,
};

fn marker(id: u128, occurred_at: i64, command: CutCommand) -> CutMarker {
    CutMarker { id, occurred_at, command, from_change: false }
}

fn cut_event(id: u128, occurred_at: i64, data: &str) -> Event {
    Event {
        id,
        room_id: 1,
        kind: "stream".to_string(),
        set: "stream".to_string(),
        label: None,
        data: data.to_string(),
        occurred_at,
        original_occurred_at: occurred_at,
        attribute: None,
        created_by: "agent".to_string(),
        created_at: occurred_at,
        removed: false,
    }
}

fn cut_change(id: u128, occurred_at: i64, data: &str) -> Change {
    Change {
        id,
        edition_id: 1,
        kind: ChangeKind::Addition,
        event_id: None,
        event_kind: Some("stream".to_string()),
        event_set: None,
        event_label: None,
        event_data: Some(data.to_string()),
        event_occurred_at: Some(occurred_at),
        event_created_by: Some("agent".to_string()),
    }
}

#[test]
fn a_start_and_a_stop_make_a_gap() {
    let markers = vec![marker(1, 10, CutCommand::Start), marker(2, 25, CutCommand::Stop)];
    assert_eq!(gaps_from_markers(&markers), Ok(vec![(10, 25)]));
    assert_eq!(gaps_from_markers(&vec![]), Ok(vec![]));
}

#[test]
fn nested_cuts_are_accepted_and_not_counted_twice() {
    let markers = vec![
        marker(1, 10, CutCommand::Start),
        marker(2, 12, CutCommand::Start),
        marker(3, 14, CutCommand::Start),
        marker(4, 20, CutCommand::Stop),
        marker(5, 30, CutCommand::Stop),
        marker(6, 40, CutCommand::Stop),
        marker(7, 50, CutCommand::Start),
        marker(8, 50, CutCommand::Stop),
    ];
    assert_eq!(gaps_from_markers(&markers), Ok(vec![(10, 40), (50, 50)]));
}

#[test]
fn a_stop_without_a_start_is_rejected() {
    let markers = vec![
        marker(1, 10, CutCommand::Start),
        marker(2, 20, CutCommand::Stop),
        marker(3, 30, CutCommand::Stop),
        marker(4, 40, CutCommand::Unknown),
    ];
    assert_eq!(gaps_from_markers(&markers), Err(GapError::InvalidCutEvent { id: 3 }));
    let mut from_change = marker(9, 5, CutCommand::Stop);
    from_change.from_change = true;
    assert_eq!(gaps_from_markers(&vec![from_change]), Err(GapError::InvalidCutChange { id: 9 }));
}

#[test]
fn an_unknown_command_is_rejected_in_either_state() {
    assert_eq!(
        gaps_from_markers(&vec![marker(1, 10, CutCommand::Unknown)]),
        Err(GapError::InvalidCutEvent { id: 1 })
    );
    assert_eq!(
        gaps_from_markers(&vec![marker(1, 10, CutCommand::Start), marker(2, 11, CutCommand::Unknown)]),
        Err(GapError::InvalidCutEvent { id: 2 })
    );
}

#[test]
fn an_open_cut_at_the_end_is_an_error() {
    let markers = vec![marker(1, 10, CutCommand::Start)];
    assert_eq!(gaps_from_markers(&markers), Err(GapError::UnclosedCut));
    let nested = vec![
        marker(1, 10, CutCommand::Start),
        marker(2, 11, CutCommand::Start),
        marker(3, 12, CutCommand::Stop),
    ];
    assert_eq!(gaps_from_markers(&nested), Err(GapError::UnclosedCut));
}

#[test]
fn markers_are_ordered_by_time_and_keep_their_order_on_ties() {
    let markers = vec![
        marker(1, 30, CutCommand::Stop),
        marker(2, 10, CutCommand::Start),
        marker(3, 30, CutCommand::Start),
        marker(4, 10, CutCommand::Stop),
        marker(5, 20, CutCommand::Unknown),
    ];
    let sorted = sort_markers(&markers);
    assert_eq!(sorted.iter().map(|m| m.id).collect::<Vec<_>>(), vec![2, 4, 5, 1, 3]);
}

#[test]
fn commands_are_read_from_the_cut_member() {
    assert_eq!(decode_command(&Some("start".to_string())), CutCommand::Start);
    assert_eq!(decode_command(&Some("stop".to_string())), CutCommand::Stop);
    assert_eq!(decode_command(&Some("pause".to_string())), CutCommand::Unknown);
    assert_eq!(decode_command(&None), CutCommand::Unknown);
}

#[test]
fn events_and_changes_are_merged() {
    let events = vec![
        cut_event(1, 3_000_000_000, r#"{"cut": "start"}"#),
        cut_event(2, 4_000_000_000, r#"{"cut": "stop"}"#),
    ];
    let changes = vec![
        cut_change(3, 4_500_000_000, r#"{"cut": "stop"}"#),
        cut_change(4, 3_200_000_000, r#"{"cut": "start"}"#),
    ];
    // The cut of the changes starts inside the cut of the room and ends after it.
    assert_eq!(collect_gaps(&events, &changes), Ok(vec![(3_000_000_000, 4_500_000_000)]));

    // On one instant the events come before the changes.
    let events = vec![cut_event(1, 10, r#"{"cut": "stop"}"#)];
    let changes = vec![cut_change(2, 10, r#"{"cut": "start"}"#)];
    assert_eq!(collect_gaps(&events, &changes), Err(GapError::InvalidCutEvent { id: 1 }));
    let events = vec![cut_event(1, 10, r#"{"cut": "start"}"#)];
    let changes = vec![cut_change(2, 10, r#"{"cut": "stop"}"#)];
    assert_eq!(collect_gaps(&events, &changes), Ok(vec![(10, 10)]));
}

#[test]
fn payloads_are_read_as_json() {
    // The member is found wherever it stands in the object, with escapes resolved.
    let events = vec![
        cut_event(1, 1, r#"{"other": 1, "cut": "start"}"#),
        cut_event(2, 2, "{ \"cut\" :\n \"stop\" }"),
    ];
    assert_eq!(collect_gaps(&events, &vec![]), Ok(vec![(1, 2)]));

    // A member that is no string, no member, no object, no JSON: no command.
    for (id, data) in [(1, r#"{"cut": 1}"#), (2, r#"{"start": "cut"}"#), (3, r#"["cut", "start"]"#), (4, "start")] {
        let events = vec![cut_event(id, 1, data)];
        assert_eq!(collect_gaps(&events, &vec![]), Err(GapError::InvalidCutEvent { id }));
    }
    let changes = vec![cut_change(7, 1, r#"{"cut": null}"#)];
    assert_eq!(collect_gaps(&vec![], &changes), Err(GapError::InvalidCutChange { id: 7 }));
}

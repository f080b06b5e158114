use event_timeline::room::Bound;
use event_timeline::serde::milliseconds_bound_tuples::{self, InvalidValue};
use event_timeline::serde::ts_seconds_bound_tuple::{self, timestamp, TimeError};

#[test]
fn serialize_milliseconds_bound_tuples() {
    let segments = vec![
        (Bound::Included(0), Bound::Excluded(1000)),
        (Bound::Included(2000), Bound::Excluded(3000)),
    ];

    let on_wire = milliseconds_bound_tuples::serialize(&segments);
    let mut data = serde_json::Map::new();
    data.insert(
        "segments".to_string(),
        serde_json::to_value(&on_wire).expect("Failed to serialize test data"),
    );
    let serialized =
        serde_json::to_string(&serde_json::Value::Object(data)).expect("Failed to serialize test data");
    let expected = r#"{"segments":[[0,1000],[2000,3000]]}"#;
    assert_eq!(serialized, expected);
}

#[test]
fn deserialize_milliseconds_bound_tuples() {
    let data: serde_json::Value = serde_json::from_str(r#"{"segments": [[0, 1000], [2000, 3000]]}"#)
        .expect("Failed to deserialize test data");
    let on_wire: Vec<(Option<i64>, Option<i64>)> =
        serde_json::from_value(data["segments"].clone()).expect("Failed to deserialize test data");
    let segments =
        milliseconds_bound_tuples::deserialize(&on_wire).expect("Failed to deserialize test data");

    let expected = vec![
        (Bound::Included(0), Bound::Excluded(1000)),
        (Bound::Included(2000), Bound::Excluded(3000)),
    ];

    assert_eq!(segments, expected);
}

#[test]
fn bounds_without_a_number_are_written_as_nothing() {
    let segments = vec![
        (Bound::Unbounded, Bound::Included(5)),
        (Bound::Excluded(7), Bound::Unbounded),
    ];
    assert_eq!(
        milliseconds_bound_tuples::serialize(&segments),
        vec![(None, Some(5)), (Some(7), None)]
    );
    assert_eq!(milliseconds_bound_tuples::serialize(&vec![]), vec![]);
}

#[test]
fn an_inverted_pair_is_rejected() {
    let on_wire = vec![(Some(0), Some(10)), (Some(5), Some(4)), (Some(9), Some(1))];
    assert_eq!(
        milliseconds_bound_tuples::deserialize(&on_wire).unwrap_err(),
        InvalidValue { lt: 5, rt: 4 }
    );
    // An empty interval is no inverted one.
    assert_eq!(
        milliseconds_bound_tuples::deserialize(&vec![(Some(3), Some(3))]),
        Ok(vec![(Bound::Included(3), Bound::Excluded(3))])
    );
}

#[test]
fn reading_stops_at_a_pair_with_a_missing_end() {
    let on_wire = vec![(Some(0), Some(10)), (None, Some(20)), (Some(9), Some(1))];
    assert_eq!(
        milliseconds_bound_tuples::deserialize(&on_wire),
        Ok(vec![(Bound::Included(0), Bound::Excluded(10))])
    );
    assert_eq!(milliseconds_bound_tuples::deserialize(&vec![(Some(1), None)]), Ok(vec![]));
}

#[test]
fn room_time_is_written_in_seconds() {
    let second = 1_000_000_000;
    let time = (Bound::Included(10 * second), Bound::Excluded(20 * second));
    assert_eq!(ts_seconds_bound_tuple::serialize(&time), (Some(10), Some(20)));
    // The bounds are moved to a closed lower and an open upper end.
    let time = (Bound::Excluded(10 * second), Bound::Included(20 * second));
    assert_eq!(ts_seconds_bound_tuple::serialize(&time), (Some(11), Some(19)));
    let time = (Bound::Unbounded, Bound::Unbounded);
    assert_eq!(ts_seconds_bound_tuple::serialize(&time), (None, None));
    // Parts of a second are dropped towards the past.
    let time = (Bound::Included(10 * second + 999_999_999), Bound::Excluded(-1));
    assert_eq!(ts_seconds_bound_tuple::serialize(&time), (Some(10), Some(-1)));
}

#[test]
fn timestamps_round_towards_the_past() {
    assert_eq!(timestamp(0), 0);
    assert_eq!(timestamp(999_999_999), 0);
    assert_eq!(timestamp(1_000_000_000), 1);
    assert_eq!(timestamp(-1), -1);
    assert_eq!(timestamp(-1_000_000_000), -1);
    assert_eq!(timestamp(-1_000_000_001), -2);
    assert_eq!(timestamp(i64::MAX), 9_223_372_036);
    assert_eq!(timestamp(i64::MIN), -9_223_372_037);
}

#[test]
fn room_time_is_read_from_seconds() {
    let second = 1_000_000_000;
    assert_eq!(
        ts_seconds_bound_tuple::deserialize(&vec![Some(10), Some(20)]),
        Ok((Bound::Included(10 * second), Bound::Excluded(20 * second)))
    );
    assert_eq!(
        ts_seconds_bound_tuple::deserialize(&vec![None, Some(-20)]),
        Ok((Bound::Unbounded, Bound::Excluded(-20 * second)))
    );
    assert_eq!(
        ts_seconds_bound_tuple::deserialize(&vec![Some(1), None]),
        Ok((Bound::Included(second), Bound::Unbounded))
    );
}

#[test]
fn room_time_needs_two_elements() {
    assert_eq!(ts_seconds_bound_tuple::deserialize(&vec![]), Err(TimeError::InvalidLength(1)));
    assert_eq!(ts_seconds_bound_tuple::deserialize(&vec![Some(1)]), Err(TimeError::InvalidLength(2)));
    assert_eq!(
        ts_seconds_bound_tuple::deserialize(&vec![Some(1), Some(2), Some(3)]),
        Err(TimeError::InvalidLength(3))
    );
}

#[test]
fn room_time_must_fit() {
    let far = 9_223_372_037;
    assert_eq!(
        ts_seconds_bound_tuple::deserialize(&vec![Some(far), Some(1)]),
        Err(TimeError::OutOfRange(far))
    );
    assert_eq!(
        ts_seconds_bound_tuple::deserialize(&vec![Some(1), Some(-far - 1)]),
        Err(TimeError::OutOfRange(-far - 1))
    );
    // The element that is read first decides.
    assert_eq!(
        ts_seconds_bound_tuple::deserialize(&vec![Some(far)]),
        Err(TimeError::OutOfRange(far))
    );
    assert!(ts_seconds_bound_tuple::deserialize(&vec![Some(far - 1), Some(1 - far)]).is_ok());
}

#[test]
fn what_is_written_is_read_back() {
    let second = 1_000_000_000;
    let time = (Bound::Included(1_600_000_000 * second), Bound::Excluded(1_600_003_600 * second));
    let (lt, rt) = ts_seconds_bound_tuple::serialize(&time);
    assert_eq!(ts_seconds_bound_tuple::deserialize(&vec![lt, rt]), Ok(time));
}

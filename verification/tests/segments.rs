use event_timeline::segments::{invert_segments, modified_segments, to_milliseconds, Segments};
use event_timeline::squeeze::squeeze;

#[test]
fn no_gaps_leave_the_whole_room() {
    assert_eq!(invert_segments(&vec![], 10), vec![(0, 10)]);
    assert_eq!(invert_segments(&vec![], 0), vec![]);
    assert_eq!(invert_segments(&vec![], -5), vec![]);
}

#[test]
fn gaps_are_taken_out() {
    assert_eq!(invert_segments(&vec![(3, 5)], 10), vec![(0, 3), (5, 10)]);
    assert_eq!(invert_segments(&vec![(3, 4), (6, 8)], 10), vec![(0, 3), (4, 6), (8, 10)]);
    // At the edges of the room.
    assert_eq!(invert_segments(&vec![(0, 2)], 10), vec![(2, 10)]);
    assert_eq!(invert_segments(&vec![(7, 10)], 10), vec![(0, 7)]);
    assert_eq!(invert_segments(&vec![(-3, 2), (8, 30)], 10), vec![(2, 8)]);
    assert_eq!(invert_segments(&vec![(0, 10)], 10), vec![]);
    assert_eq!(invert_segments(&vec![(20, 30)], 10), vec![(0, 10)]);
}

#[test]
fn empty_adjacent_and_overlapping_gaps() {
    // An empty gap takes nothing out; adjacent gaps leave nothing between them.
    assert_eq!(invert_segments(&vec![(3, 3)], 10), vec![(0, 10)]);
    assert_eq!(invert_segments(&vec![(5, 3)], 10), vec![(0, 10)]);
    assert_eq!(invert_segments(&vec![(2, 4), (4, 6)], 10), vec![(0, 2), (6, 10)]);
    assert_eq!(invert_segments(&vec![(2, 6), (4, 8)], 10), vec![(0, 2), (8, 10)]);
    assert_eq!(invert_segments(&vec![(6, 8), (1, 2)], 10), vec![(0, 1), (2, 6), (8, 10)]);
}

#[test]
fn bounds_are_divided_into_milliseconds() {
    let segments = to_milliseconds(&vec![(0, 2_999_999), (3_000_000, 4_000_001)]);
    assert_eq!(segments.to_vec(), vec![(0, 2), (3, 4)]);
    assert_eq!(segments.len(), 2);
    let same = Segments::from(vec![(0, 2), (3, 4)]);
    assert_eq!(same.to_vec(), segments.to_vec());
}

#[test]
fn segments_complement_gaps() {
    let duration = 10_000_000_000;
    let gaps = vec![(1_000_000_000, 2_500_000_000), (4_000_000_000, 4_000_500_000)];
    let segments = modified_segments(&gaps, duration).to_vec();
    assert_eq!(segments, vec![(0, 1000), (2500, 4000), (4000, 10_000)]);
    let left: i64 = segments.iter().map(|(a, b)| b - a).sum();
    let taken: i64 = gaps.iter().map(|(a, b)| b - a).sum();
    // 8499.5 ms are left; every segment may be off by less than a millisecond.
    assert!((left * 1_000_000 - (duration - taken)).abs() < 3 * 1_000_000);
    assert_eq!(left, 8500);
}

#[test]
fn gaps_before_an_instant_are_squeezed_out() {
    let gaps = vec![(3_000_000_000, 4_000_000_000), (4_200_000_000, 4_800_000_000)];
    assert_eq!(squeeze(&gaps, 2_500_000_000), Some(2_500_000_000));
    // An instant on the start of a gap does not move; one inside collapses to the start.
    assert_eq!(squeeze(&gaps, 3_000_000_000), Some(3_000_000_000));
    assert_eq!(squeeze(&gaps, 3_500_000_000), Some(3_000_000_000));
    assert_eq!(squeeze(&gaps, 4_000_000_000), Some(3_000_000_000));
    assert_eq!(squeeze(&gaps, 4_500_000_000), Some(3_200_000_000));
    assert_eq!(squeeze(&gaps, 6_000_000_000), Some(4_400_000_000));
    assert_eq!(squeeze(&vec![], 7), Some(7));
    // Overlapping gaps are each taken in full.
    let overlapping = vec![(3_000_000_000, 4_000_000_000), (3_200_000_000, 4_500_000_000)];
    assert_eq!(squeeze(&overlapping, 5_000_000_000), Some(2_700_000_000));
}

#[test]
fn an_instant_may_leave_the_range() {
    let gaps = vec![(i64::MIN, i64::MAX), (i64::MIN, i64::MAX)];
    assert_eq!(squeeze(&gaps, i64::MAX), None);
    assert_eq!(squeeze(&vec![(i64::MIN, i64::MAX)], i64::MAX), Some(i64::MIN));
    assert_eq!(squeeze(&vec![(i64::MIN, 0)], 0), Some(i64::MIN));
    assert_eq!(squeeze(&vec![(i64::MIN, 0), (-1, 0)], 0), None);
}

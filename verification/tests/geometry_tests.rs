use fourmis::geometry::{same_point, squared_distance, tour_segment_sq_lengths, Point};

#[test]
fn squared_distance_of_three_four_five() {
    assert_eq!(squared_distance(Point::new(0, 0), Point::new(3, 4)), 25);
    assert_eq!(squared_distance(Point::new(-1, 2), Point::new(2, -2)), 25);
}

#[test]
fn squared_distance_at_the_extremes() {
    let a = Point::new(i32::MIN, i32::MIN);
    let b = Point::new(i32::MAX, i32::MAX);
    let d: u128 = (u32::MAX as u128) * (u32::MAX as u128) * 2;
    assert_eq!(squared_distance(a, b), d);
}

#[test]
fn same_point_compares_both_coordinates() {
    assert!(same_point(Point::new(1, 2), Point::new(1, 2)));
    assert!(!same_point(Point::new(1, 2), Point::new(1, 3)));
    assert!(!same_point(Point::new(1, 2), Point::new(0, 2)));
}

#[test]
fn closed_tour_joins_last_point_to_first() {
    let pts = vec![Point::new(0, 0), Point::new(3, 0), Point::new(3, 4)];
    // segments: p0-p2, p1-p0, p2-p1
    assert_eq!(tour_segment_sq_lengths(&pts), vec![25, 9, 16]);
}

#[test]
fn tour_of_one_point_has_a_zero_segment() {
    assert_eq!(tour_segment_sq_lengths(&vec![Point::new(5, -7)]), vec![0]);
}

#[test]
fn empty_tour_has_no_segment() {
    assert!(tour_segment_sq_lengths(&Vec::new()).is_empty());
}

use aoc2024::point::{Direction, Point};

#[test]
fn points_add_and_subtract() {
    let a = Point::new(3, -2);
    let b = Point::new(1, 5);
    assert_eq!(a.add(&b), Point::new(4, 3));
    assert_eq!(a.sub(&b), Point::new(2, -7));
    assert_eq!(a.mul(3), Point::new(9, -6));
    assert_eq!(a.delta(&b), Point::new(-2, 7));
}

#[test]
fn lines_through_two_points() {
    let a = Point::new(4, 3);
    let b = Point::new(5, 5);
    assert_eq!(a.positive_delta(&b, 0), Point::new(5, 5));
    assert_eq!(a.positive_delta(&b, 1), Point::new(6, 7));
    assert_eq!(a.negative_delta(&b, 0), Point::new(3, 1));
    assert_eq!(a.negative_delta(&b, 1), Point::new(2, -1));
    assert_eq!(a.antinode(&b), Point::new(6, 7));
}

#[test]
fn navigation_and_turns() {
    let p = Point::new(2, 2);
    assert_eq!(p.navigate(&Direction::North), Point::new(2, 1));
    assert_eq!(p.navigate(&Direction::East), Point::new(3, 2));
    assert_eq!(p.navigate(&Direction::South), Point::new(2, 3));
    assert_eq!(p.navigate(&Direction::West), Point::new(1, 2));
    assert_eq!(
        Direction::North.no_uturn(),
        [Direction::North, Direction::East, Direction::West]
    );
    assert_eq!(
        Direction::South.no_uturn(),
        [Direction::South, Direction::West, Direction::East]
    );
}

#[test]
fn grid_helpers() {
    let p = Point::new(3, 2);
    assert_eq!(p.index(&10), 23);
    assert!(p.inbounds(&4, &3));
    assert!(!p.inbounds(&3, &3));
    assert!(!Point::new(-1, 0).inbounds(&3, &3));
    assert_eq!(
        p.cardinal_neighbours(),
        [Point::new(3, 1), Point::new(3, 3), Point::new(2, 2), Point::new(4, 2)]
    );
    assert_eq!(Point::new(-1, 12).bounded(11, 7), Point::new(10, 5));
    assert_eq!(Point::new(24, -15).bounded(11, 7), Point::new(2, 6));
}

use aoc2024::claw::{find_target, Machine};
use aoc2024::point::Point;

fn example() -> Vec<Machine> {
    vec![
        (Point::new(94, 34), Point::new(22, 67), Point::new(8400, 5400)),
        (Point::new(26, 66), Point::new(67, 21), Point::new(12748, 12176)),
        (Point::new(17, 86), Point::new(84, 37), Point::new(7870, 6450)),
        (Point::new(69, 23), Point::new(27, 71), Point::new(18641, 10279)),
    ]
}

#[test]
fn day13_part1_example() {
    let total: usize = example().iter().filter_map(find_target).sum();
    assert_eq!(total, 480);
}

#[test]
fn day13_part2_example() {
    let offset = Point::new(10000000000000, 10000000000000);
    let total: usize = example()
        .iter()
        .map(|m| (m.0, m.1, m.2.add(&offset)))
        .filter_map(|m| find_target(&m))
        .sum();
    assert_eq!(total, 875318608908);
}

#[test]
fn single_machines() {
    let m = example();
    assert_eq!(find_target(&m[0]), Some(280));
    assert_eq!(find_target(&m[1]), None);
    assert_eq!(find_target(&m[2]), Some(200));
    assert_eq!(find_target(&m[3]), None);
}

use aoc2024::calibration::{hold_true_part_1, hold_true_part_2};

fn example() -> Vec<(u64, Vec<u64>)> {
    vec![
        (190, vec![10, 19]),
        (3267, vec![81, 40, 27]),
        (83, vec![17, 5]),
        (156, vec![15, 6]),
        (7290, vec![6, 8, 6, 15]),
        (161011, vec![16, 10, 13]),
        (192, vec![17, 8, 14]),
        (21037, vec![9, 7, 18, 13]),
        (292, vec![11, 6, 16, 20]),
    ]
}

#[test]
fn day7_part1_example() {
    let total: u64 = example()
        .iter()
        .filter(|(sum, values)| hold_true_part_1(*sum, 0, values))
        .map(|(sum, _)| sum)
        .sum();
    assert_eq!(total, 3749);
}

#[test]
fn concatting_works() {
    let a = 15u64;
    let b = 6u64;
    assert_eq!(aoc2024::calibration::concat(a, b), 156u64);
    let a = 15123u64;
    let b = 1231u64;
    assert_eq!(aoc2024::calibration::concat(a, b), 151231231u64);
}

#[test]
fn test_ops() {
    assert!(hold_true_part_2(156, 0, &[15, 6]));
    assert!(hold_true_part_2(7290, 0, &[6, 8, 6, 15]));
}

#[test]
fn day7_part2_example() {
    let total: u64 = example()
        .iter()
        .filter(|(sum, values)| hold_true_part_2(*sum, 0, values))
        .map(|(sum, _)| sum)
        .sum();
    assert_eq!(total, 11387);
}

#[test]
fn concat_edges() {
    assert_eq!(aoc2024::calibration::concat(0, 7), 7);
    assert_eq!(aoc2024::calibration::concat(12, 0), 120);
    assert_eq!(aoc2024::calibration::concat(1, 10), 110);
    assert!(!hold_true_part_1(83, 0, &[17, 5]));
    assert!(!hold_true_part_2(u64::MAX - 1, 0, &[u64::MAX - 1, u64::MAX - 1]));
    assert!(hold_true_part_2(u64::MAX, 0, &[u64::MAX]));
}

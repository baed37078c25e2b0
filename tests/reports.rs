use aoc2024::reports::{remove_at, safe};

fn example() -> Vec<Vec<i32>> {
    vec![
        vec![7, 6, 4, 2, 1],
        vec![1, 2, 7, 8, 9],
        vec![9, 7, 6, 2, 1],
        vec![1, 3, 2, 4, 5],
        vec![8, 6, 4, 4, 1],
        vec![1, 3, 6, 7, 9],
    ]
}

#[test]
fn day2_part1_example() {
    assert_eq!(example().iter().filter(|r| safe(r, false)).count(), 2);
}

#[test]
fn day2_part2_example() {
    assert_eq!(example().iter().filter(|r| safe(r, true)).count(), 4);
}

#[test]
fn removing_one_level() {
    assert_eq!(remove_at(&vec![1, 3, 2, 4, 5], 1), vec![1, 2, 4, 5]);
    assert!(safe(&vec![1, 3, 2, 4, 5], true));
    assert!(!safe(&vec![1, 3, 2, 4, 5], false));
    // The first step alone sets the direction; removing the first level can fix it.
    assert!(safe(&vec![5, 1, 2, 3], true));
    assert!(safe(&vec![1, 2], true));
    assert!(!safe(&vec![3, 3], false));
    assert!(!safe(&vec![i32::MIN, i32::MAX], false));
}

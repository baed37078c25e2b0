use aoc2024::schematic::Schematic;

fn example() -> Vec<Schematic> {
    vec![
        Schematic { is_key: false, heights: vec![1, 6, 4, 5, 4] },
        Schematic { is_key: false, heights: vec![2, 3, 1, 6, 4] },
        Schematic { is_key: true, heights: vec![6, 1, 3, 2, 4] },
        Schematic { is_key: true, heights: vec![5, 4, 5, 1, 3] },
        Schematic { is_key: true, heights: vec![4, 1, 3, 1, 2] },
    ]
}

#[test]
fn day25_part1_example() {
    let all = example();
    let (keys, locks): (Vec<&Schematic>, Vec<&Schematic>) = all.iter().partition(|s| s.is_key);
    let count: usize = keys
        .iter()
        .map(|key| locks.iter().filter(|lock| key.fits(lock)).count())
        .sum();
    assert_eq!(count, 3);
}

#[test]
fn fitting_needs_a_key_and_a_lock() {
    let all = example();
    assert!(!all[0].fits(&all[1]));
    assert!(!all[2].fits(&all[3]));
    assert!(all[1].fits(&all[4]));
    assert!(!all[0].fits(&all[2]));
    let huge = Schematic { is_key: true, heights: vec![usize::MAX] };
    assert!(!huge.fits(&all[0]));
}

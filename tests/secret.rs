use aoc2024::secret::{div_32, evolve, evolve_one, mix, mul_2048, mul_64, prune};

#[test]
fn part1_ops() {
    let next_numbers = evolve(123, 6);
    assert_eq!(
        next_numbers,
        [123, 15887950, 16495136, 527345, 704524, 1553684]
    )
}

#[test]
fn day22_part1_example() {
    let total: u64 = [1u64, 10, 100, 2024]
        .iter()
        .map(|&initial| evolve(initial, 2001)[2000])
        .sum();
    assert_eq!(total, 37327623);
}

#[test]
fn mixing_and_pruning() {
    assert_eq!(mix(42, 15), 37);
    assert_eq!(prune(100000000), 16113920);
    assert_eq!(mul_64(123), (123 ^ (123 * 64)) % 16777216);
    assert_eq!(div_32(123), (123 ^ (123 / 32)) % 16777216);
    assert_eq!(mul_2048(123), (123 ^ (123 * 2048)) % 16777216);
    assert_eq!(evolve_one(123), 15887950);
}

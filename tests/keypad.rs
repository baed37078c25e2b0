use aoc2024::keypad::{
    calc_key_costs, calc_level_costs, code_complexity, code_presses_of, code_value_of,
    directional_paths, get_paths, is_valid_code, solve, DirKey, KeypadError, Layout,
};

fn example_codes() -> Vec<Vec<u8>> {
    vec![
        b"029A".to_vec(),
        b"980A".to_vec(),
        b"179A".to_vec(),
        b"456A".to_vec(),
        b"379A".to_vec(),
    ]
}

#[test]
fn day21_part1_example() {
    assert_eq!(solve(&example_codes(), 2), Ok(126384));
}

#[test]
fn day21_part2_example() {
    assert_eq!(solve(&example_codes(), 25), Ok(154115708116294));
}

#[test]
fn example_codes_press_counts() {
    let table = calc_key_costs(2).unwrap();
    let counts: Vec<u64> = example_codes()
        .iter()
        .map(|c| code_presses_of(c, &table).unwrap())
        .collect();
    assert_eq!(counts, vec![68, 60, 68, 64, 64]);
}

#[test]
fn single_code_costs_sixty_eight() {
    let table = calc_key_costs(2).unwrap();
    assert_eq!(code_presses_of(b"029A", &table), Some(68));
    assert_eq!(code_complexity(b"029A", &table), Some(68 * 29));
    assert_eq!(solve(&vec![b"029A".to_vec()], 2), Ok(68 * 29));
}

#[test]
fn repeated_digit_code() {
    // From Activate to 0 once, then two presses of the key the arm rests on, then to Activate.
    let table = calc_key_costs(2).unwrap();
    assert_eq!(code_presses_of(b"000A", &table), Some(30));
    let to_zero = code_presses_of(b"0", &table).unwrap();
    let zero_then_a = code_presses_of(b"0A", &table).unwrap();
    assert_eq!(code_presses_of(b"000", &table), Some(to_zero + 2));
    assert_eq!(zero_then_a + 2, 30);
    // Its number is zero, so it adds nothing to the total.
    assert_eq!(solve(&vec![b"000A".to_vec()], 2), Ok(0));
    let deep = calc_key_costs(25).unwrap();
    assert_eq!(code_presses_of(b"000A", &deep), Some(36698990650));
}

#[test]
fn base_table_is_path_lengths() {
    let table = calc_key_costs(1).unwrap();
    assert_eq!(
        table,
        vec![1, 2, 3, 2, 3, 2, 1, 4, 3, 2, 3, 4, 1, 2, 3, 2, 3, 2, 1, 2, 3, 2, 3, 2, 1]
    );
}

#[test]
fn second_and_third_tables() {
    assert_eq!(
        calc_key_costs(2).unwrap(),
        vec![1, 4, 9, 6, 7, 8, 1, 10, 9, 6, 7, 8, 1, 4, 5, 4, 7, 8, 1, 4, 9, 4, 9, 8, 1]
    );
    assert_eq!(
        calc_key_costs(3).unwrap(),
        vec![1, 10, 25, 16, 17, 18, 1, 26, 21, 16, 19, 20, 1, 10, 11, 12, 19, 18, 1, 10, 21, 12, 19, 18, 1]
    );
}

#[test]
fn tables_never_shrink_with_depth_and_diagonal_is_one() {
    let mut previous = calc_key_costs(1).unwrap();
    for size in 2..=25 {
        let table = calc_key_costs(size).unwrap();
        for i in 0..25 {
            assert!(table[i] >= 1);
            assert!(table[i] >= previous[i]);
        }
        for k in 0..5 {
            assert_eq!(table[k * 5 + k], 1);
        }
        previous = table;
    }
}

#[test]
fn rebuilding_a_level_gives_the_same_table() {
    let paths = directional_paths();
    let previous = calc_key_costs(7).unwrap();
    let a = calc_level_costs(&previous, &paths).unwrap();
    let b = calc_level_costs(&previous, &paths).unwrap();
    assert_eq!(a, b);
    assert_eq!(a, calc_key_costs(8).unwrap());
}

#[test]
fn deep_chain_overflows() {
    assert!(calc_key_costs(48).is_some());
    assert_eq!(calc_key_costs(49), None);
    assert_eq!(solve(&example_codes(), 49), Err(KeypadError::Overflow));
    assert_eq!(solve(&vec![], 49), Err(KeypadError::Overflow));
}

#[test]
fn total_overflow_is_reported() {
    let table = calc_key_costs(25).unwrap();
    let big = b"99999999999999999999A".to_vec();
    assert_eq!(code_value_of(&big), None);
    assert_eq!(code_complexity(&big, &table), None);
    assert_eq!(solve(&vec![big], 25), Err(KeypadError::Overflow));
}

#[test]
fn malformed_codes_are_rejected() {
    assert!(is_valid_code(b"029A"));
    assert!(!is_valid_code(b"A"));
    assert!(!is_valid_code(b"029"));
    assert!(!is_valid_code(b"0B9A"));
    assert!(!is_valid_code(b""));
    let codes = vec![b"029A".to_vec(), b"12x4A".to_vec(), b"".to_vec()];
    assert_eq!(solve(&codes, 2), Err(KeypadError::InvalidCode { line: 1 }));
}

#[test]
fn code_value_reads_the_digits() {
    assert_eq!(code_value_of(b"029A"), Some(29));
    assert_eq!(code_value_of(b"980A"), Some(980));
    assert_eq!(code_value_of(b"000A"), Some(0));
}

#[test]
fn paths_avoid_the_hole() {
    let mut paths = Vec::new();
    // Numeric: from Activate to 1 must go up first, never left along the bottom row.
    get_paths(&mut paths, Layout::Numeric, 10, 1);
    assert_eq!(paths, vec![vec![DirKey::Up, DirKey::Left, DirKey::Left, DirKey::Activate]]);
    paths.clear();
    get_paths(&mut paths, Layout::Numeric, 1, 10);
    assert_eq!(paths, vec![vec![DirKey::Right, DirKey::Right, DirKey::Down, DirKey::Activate]]);
    paths.clear();
    // Directional: from Activate to Left must go down first.
    get_paths(&mut paths, Layout::Directional, 1, 2);
    assert_eq!(paths, vec![vec![DirKey::Down, DirKey::Left, DirKey::Left, DirKey::Activate]]);
    paths.clear();
    get_paths(&mut paths, Layout::Directional, 2, 1);
    assert_eq!(paths, vec![vec![DirKey::Right, DirKey::Right, DirKey::Up, DirKey::Activate]]);
    paths.clear();
    // Both routes where neither crosses the hole.
    get_paths(&mut paths, Layout::Numeric, 5, 9);
    assert_eq!(paths, vec![
            vec![DirKey::Up, DirKey::Right, DirKey::Activate],
            vec![DirKey::Right, DirKey::Up, DirKey::Activate],
        ]);
    paths.clear();
    get_paths(&mut paths, Layout::Numeric, 7, 7);
    assert_eq!(paths, vec![vec![DirKey::Activate]]);
}

#[test]
fn layout_lookups() {
    assert_eq!(Layout::Numeric.position(0), (1, 3));
    assert_eq!(Layout::Numeric.position(10), (2, 3));
    assert_eq!(Layout::Numeric.position(7), (0, 0));
    assert_eq!(Layout::Directional.position(1), (2, 0));
    assert_eq!(Layout::Numeric.key_at(0, 3), None);
    assert_eq!(Layout::Directional.key_at(0, 0), None);
    assert_eq!(Layout::Numeric.key_at(2, 1), Some(6));
    assert_eq!(Layout::Directional.key_at(1, 1), Some(3));
    assert_eq!(Layout::Directional.key_at(5, 1), None);
    assert_eq!(DirKey::Right.index(), 4);
}

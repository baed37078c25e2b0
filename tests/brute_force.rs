use aoc2024::keypad::{calc_key_costs, code_presses_of, get_paths, DirKey, Layout};

/// Every sequence one level down that types `seq` on the directional keypad.
fn expand_all(seq: &[DirKey]) -> Vec<Vec<DirKey>> {
    let mut results: Vec<Vec<DirKey>> = vec![vec![]];
    let mut pos = DirKey::Activate;
    for &key in seq {
        let mut paths = Vec::new();
        get_paths(&mut paths, Layout::Directional, pos.index(), key.index());
        let mut next = Vec::new();
        for prefix in &results {
            for path in &paths {
                let mut longer = prefix.clone();
                longer.extend(path.iter().copied());
                next.push(longer);
            }
        }
        results = next;
        pos = key;
    }
    results
}

/// Shortest sequence that a human types to make `depth` robots type `seq`.
fn brute_force(seq: &[DirKey], depth: usize) -> usize {
    if depth == 0 {
        return seq.len();
    }
    expand_all(seq)
        .iter()
        .map(|lower| brute_force(lower, depth - 1))
        .min()
        .unwrap()
}

fn key(i: usize) -> DirKey {
    [DirKey::Up, DirKey::Activate, DirKey::Left, DirKey::Down, DirKey::Right][i]
}

#[test]
fn tables_match_exhaustive_search() {
    for depth in 0..3 {
        let table = calc_key_costs(depth + 1).unwrap();
        for i in 0..25 {
            let mut paths = Vec::new();
            get_paths(&mut paths, Layout::Directional, i / 5, i % 5);
            let best = paths.iter().map(|p| brute_force(p, depth)).min().unwrap();
            assert_eq!(table[i] as usize, best, "entry {} ({:?} to {:?})", i, key(i / 5), key(i % 5));
        }
    }
}

#[test]
fn code_matches_exhaustive_search() {
    let code = b"029A";
    for keypads in 1..3 {
        let table = calc_key_costs(keypads).unwrap();
        let mut pos = 10;
        let mut total = 0;
        for &b in code {
            let next = if b.is_ascii_digit() { (b - b'0') as usize } else { 10 };
            let mut paths = Vec::new();
            get_paths(&mut paths, Layout::Numeric, pos, next);
            total += paths.iter().map(|p| brute_force(p, keypads)).min().unwrap();
            pos = next;
        }
        assert_eq!(code_presses_of(code, &table), Some(total as u64));
    }
}

use aoc2024::disk::{solve, Span};

/// Spans of a disk map: file and free lengths in turn; with `unit_blocks`, one span per block.
fn spans(map: &str, unit_blocks: bool) -> Vec<Span> {
    let mut out = Vec::new();
    let mut file_id = 0;
    for (i, b) in map.bytes().enumerate() {
        let id = if i % 2 == 0 {
            file_id += 1;
            file_id - 1
        } else {
            -1
        };
        let len = (b - b'0') as usize;
        if unit_blocks {
            out.extend((0..len).map(|_| (1, id)));
        } else {
            out.push((len, id));
        }
    }
    out
}

#[test]
fn day9_part1_example() {
    assert_eq!(solve(spans("2333133121414131402", true)), 1928);
}

#[test]
fn day9_part2_example() {
    assert_eq!(solve(spans("2333133121414131402", false)), 2858);
}

#[test]
fn small_disks() {
    // "12345": file 0 (1 block), 2 free, file 1 (3), 4 free, file 2 (5); nothing fits whole.
    assert_eq!(solve(spans("12345", false)), 0 * 0 + 1 * (3 + 4 + 5) + 2 * (10 + 11 + 12 + 13 + 14));
    // One file moves into the gap: [0][..][1] becomes [0][1][.].
    assert_eq!(solve(vec![(1, 0), (2, -1), (1, 1)]), 1);
    assert_eq!(solve(vec![(3, -1)]), 0);
}

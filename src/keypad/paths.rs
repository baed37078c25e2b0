//! The shortest legal ways to move an arm between two keys and press the second.
use vstd::prelude::*;
use super::layout::{lemma_layout_cells, DirKey, Layout};

verus! {

/// `n` presses of the same key.
pub open spec fn repeat(k: DirKey, n: int) -> Seq<DirKey> {
    Seq::new(n as nat, |_i: int| k)
}

/// The presses that move an arm from row `sy` to row `ey`.
pub open spec fn vertical_moves(sy: int, ey: int) -> Seq<DirKey> {
    if sy < ey {
        repeat(DirKey::Down, ey - sy)
    } else {
        repeat(DirKey::Up, sy - ey)
    }
}

/// The presses that move an arm from column `sx` to column `ex`.
pub open spec fn horizontal_moves(sx: int, ex: int) -> Seq<DirKey> {
    if sx < ex {
        repeat(DirKey::Right, ex - sx)
    } else {
        repeat(DirKey::Left, sx - ex)
    }
}

/// Going vertically first turns the corner at `(s.0, e.1)`: illegal when that cell is the hole.
pub open spec fn vertical_first_legal(layout: Layout, s: (int, int), e: (int, int)) -> bool {
    !(s.0 == 0 && e.1 == layout.hole_row())
}

/// Going horizontally first turns the corner at `(e.0, s.1)`: illegal when that cell is the hole.
pub open spec fn horizontal_first_legal(layout: Layout, s: (int, int), e: (int, int)) -> bool {
    !(s.1 == layout.hole_row() && e.0 == 0)
}

/// Going horizontally first is a second route only when both axes have to be crossed.
pub open spec fn turns_corner(s: (int, int), e: (int, int)) -> bool {
    s.0 != e.0 && s.1 != e.1
}

/// All vertical moves, then all horizontal ones, then Activate.
pub open spec fn vertical_first_path(s: (int, int), e: (int, int)) -> Seq<DirKey> {
    vertical_moves(s.1, e.1) + horizontal_moves(s.0, e.0) + seq![DirKey::Activate]
}

/// All horizontal moves, then all vertical ones, then Activate.
pub open spec fn horizontal_first_path(s: (int, int), e: (int, int)) -> Seq<DirKey> {
    horizontal_moves(s.0, e.0) + vertical_moves(s.1, e.1) + seq![DirKey::Activate]
}

/// Every minimal legal way to move from key `start` to key `end` and press it:
/// the vertical-first route, then the horizontal-first one, each where it is legal.
pub open spec fn candidate_paths(layout: Layout, start: int, end: int) -> Seq<Seq<DirKey>> {
    let s = layout.pos(start);
    let e = layout.pos(end);
    (if vertical_first_legal(layout, s, e) {
        seq![vertical_first_path(s, e)]
    } else {
        seq![]
    }) + (if turns_corner(s, e) && horizontal_first_legal(layout, s, e) {
        seq![horizontal_first_path(s, e)]
    } else {
        seq![]
    })
}

/// The paths held in a vector of vectors.
pub open spec fn paths_view(ps: Seq<Vec<DirKey>>) -> Seq<Seq<DirKey>> {
    ps.map_values(|p: Vec<DirKey>| p@)
}

/// Appends `n` presses of `k`.
fn push_repeated(path: &mut Vec<DirKey>, k: DirKey, n: usize)
    ensures
        final(path)@ == old(path)@ + repeat(k, n as int),
{
    let mut i: usize = 0;
    while i < n
        invariant
            i <= n,
            path@ == old(path)@ + repeat(k, i as int),
        decreases n - i,
    {
        path.push(k);
        i = i + 1;
        assert(path@ =~= old(path)@ + repeat(k, i as int));
    }
}

/// Appends the presses that move an arm from row `sy` to row `ey`.
fn push_vertical(path: &mut Vec<DirKey>, sy: usize, ey: usize)
    ensures
        final(path)@ == old(path)@ + vertical_moves(sy as int, ey as int),
{
    if sy < ey {
        push_repeated(path, DirKey::Down, ey - sy);
    } else {
        push_repeated(path, DirKey::Up, sy - ey);
    }
}

/// Appends the presses that move an arm from column `sx` to column `ex`.
fn push_horizontal(path: &mut Vec<DirKey>, sx: usize, ex: usize)
    ensures
        final(path)@ == old(path)@ + horizontal_moves(sx as int, ex as int),
{
    if sx < ex {
        push_repeated(path, DirKey::Right, ex - sx);
    } else {
        push_repeated(path, DirKey::Left, sx - ex);
    }
}

/// Appends to `paths` every minimal legal path from key `start` to key `end` of `layout`.
pub fn get_paths(paths: &mut Vec<Vec<DirKey>>, layout: Layout, start: usize, end: usize)
    requires
        start < layout.key_count(),
        end < layout.key_count(),
    ensures
        paths_view(final(paths)@) == paths_view(old(paths)@) + candidate_paths(
            layout,
            start as int,
            end as int,
        ),
{
    let (start_x, start_y) = layout.position(start);
    let (end_x, end_y) = layout.position(end);
    let hole_y = layout.hole_row_exec();
    let ghost s = layout.pos(start as int);
    let ghost e = layout.pos(end as int);
    let ghost first: Seq<Seq<DirKey>> = if vertical_first_legal(layout, s, e) {
        seq![vertical_first_path(s, e)]
    } else {
        seq![]
    };
    if !(start_x == 0 && end_y == hole_y) {
        let mut path = Vec::new();
        push_vertical(&mut path, start_y, end_y);
        push_horizontal(&mut path, start_x, end_x);
        path.push(DirKey::Activate);
        assert(path@ =~= vertical_first_path(s, e));
        paths.push(path);
    }
    assert(paths_view(paths@) =~= paths_view(old(paths)@) + first);
    if start_x != end_x && start_y != end_y && !(start_y == hole_y && end_x == 0) {
        let mut path = Vec::new();
        push_horizontal(&mut path, start_x, end_x);
        push_vertical(&mut path, start_y, end_y);
        path.push(DirKey::Activate);
        assert(path@ =~= horizontal_first_path(s, e));
        let ghost before = paths@;
        paths.push(path);
        assert(paths_view(paths@) =~= paths_view(before).push(horizontal_first_path(s, e)));
    }
    assert(paths_view(paths@) =~= paths_view(old(paths)@) + candidate_paths(
        layout,
        start as int,
        end as int,
    ));
}

/// Between two keys there are one or two candidate paths.
pub(crate) proof fn lemma_candidates_nonempty(layout: Layout, start: int, end: int)
    requires
        0 <= start < layout.key_count(),
        0 <= end < layout.key_count(),
    ensures
        candidate_paths(layout, start, end).len() >= 1,
        candidate_paths(layout, start, end).len() <= 2,
{
}

/// Where one press of `k` moves an arm that rests on cell `c`.
pub open spec fn step(c: (int, int), k: DirKey) -> (int, int) {
    match k {
        DirKey::Up => (c.0, c.1 - 1),
        DirKey::Down => (c.0, c.1 + 1),
        DirKey::Left => (c.0 - 1, c.1),
        DirKey::Right => (c.0 + 1, c.1),
        DirKey::Activate => c,
    }
}

/// Cell on which an arm that starts on `c` rests after the presses `p`.
pub open spec fn walk(c: (int, int), p: Seq<DirKey>) -> (int, int)
    decreases p.len(),
{
    if p.len() == 0 {
        c
    } else {
        step(walk(c, p.drop_last()), p.last())
    }
}

proof fn lemma_walk_concat(c: (int, int), a: Seq<DirKey>, b: Seq<DirKey>)
    ensures
        walk(c, a + b) == walk(walk(c, a), b),
    decreases b.len(),
{
    if b.len() == 0 {
        assert(a + b =~= a);
    } else {
        lemma_walk_concat(c, a, b.drop_last());
        assert((a + b).drop_last() =~= a + b.drop_last());
    }
}

proof fn lemma_walk_repeat(c: (int, int), k: DirKey, n: int)
    requires
        n >= 0,
    ensures
        walk(c, repeat(k, n)) == (match k {
            DirKey::Up => (c.0, c.1 - n),
            DirKey::Down => (c.0, c.1 + n),
            DirKey::Left => (c.0 - n, c.1),
            DirKey::Right => (c.0 + n, c.1),
            DirKey::Activate => c,
        }),
    decreases n,
{
    if n > 0 {
        assert(repeat(k, n).drop_last() =~= repeat(k, n - 1));
        lemma_walk_repeat(c, k, n - 1);
    }
}

/// The cells that a prefix of a straight run of presses visits.
proof fn lemma_walk_moves(c: (int, int), m: Seq<DirKey>, e: (int, int), i: int)
    requires
        m == vertical_moves(c.1, e.1) || m == horizontal_moves(c.0, e.0),
        0 <= i <= m.len(),
    ensures
        m == vertical_moves(c.1, e.1) ==> walk(c, m.take(i)).0 == c.0 && (c.1 <= walk(
            c,
            m.take(i),
        ).1 <= e.1 || e.1 <= walk(c, m.take(i)).1 <= c.1),
        m == vertical_moves(c.1, e.1) ==> walk(c, m) == (c.0, e.1),
        m == horizontal_moves(c.0, e.0) ==> walk(c, m.take(i)).1 == c.1 && (c.0 <= walk(
            c,
            m.take(i),
        ).0 <= e.0 || e.0 <= walk(c, m.take(i)).0 <= c.0),
        m == horizontal_moves(c.0, e.0) ==> walk(c, m) == (e.0, c.1),
{
    if m == vertical_moves(c.1, e.1) {
        if c.1 < e.1 {
            assert(m.take(i) =~= repeat(DirKey::Down, i));
            lemma_walk_repeat(c, DirKey::Down, i);
            lemma_walk_repeat(c, DirKey::Down, e.1 - c.1);
        } else {
            assert(m.take(i) =~= repeat(DirKey::Up, i));
            lemma_walk_repeat(c, DirKey::Up, i);
            lemma_walk_repeat(c, DirKey::Up, c.1 - e.1);
        }
    }
    if m == horizontal_moves(c.0, e.0) {
        if c.0 < e.0 {
            assert(m.take(i) =~= repeat(DirKey::Right, i));
            lemma_walk_repeat(c, DirKey::Right, i);
            lemma_walk_repeat(c, DirKey::Right, e.0 - c.0);
        } else {
            assert(m.take(i) =~= repeat(DirKey::Left, i));
            lemma_walk_repeat(c, DirKey::Left, i);
            lemma_walk_repeat(c, DirKey::Left, c.0 - e.0);
        }
    }
}

/// Cells visited by a path of two straight runs from `s` to `e`, then Activate.
proof fn lemma_walk_two_runs(s: (int, int), e: (int, int), vertical_first: bool, i: int)
    requires
        0 <= i <= (if vertical_first {
            vertical_first_path(s, e)
        } else {
            horizontal_first_path(s, e)
        }).len(),
    ensures
        ({
            let p = if vertical_first {
                vertical_first_path(s, e)
            } else {
                horizontal_first_path(s, e)
            };
            let w = walk(s, p.take(i));
            let on_column = s.1 <= w.1 <= e.1 || e.1 <= w.1 <= s.1;
            let on_row = s.0 <= w.0 <= e.0 || e.0 <= w.0 <= s.0;
            &&& walk(s, p) == e
            &&& vertical_first ==> (w.0 == s.0 && on_column) || (w.1 == e.1 && on_row)
            &&& !vertical_first ==> (w.1 == s.1 && on_row) || (w.0 == e.0 && on_column)
        }),
{
    let first = if vertical_first {
        vertical_moves(s.1, e.1)
    } else {
        horizontal_moves(s.0, e.0)
    };
    let second = if vertical_first {
        horizontal_moves(s.0, e.0)
    } else {
        vertical_moves(s.1, e.1)
    };
    let mid = if vertical_first {
        (s.0, e.1)
    } else {
        (e.0, s.1)
    };
    let p = first + second + seq![DirKey::Activate];
    assert(p == (if vertical_first {
        vertical_first_path(s, e)
    } else {
        horizontal_first_path(s, e)
    }));
    lemma_walk_moves(s, first, e, first.len() as int);
    assert(first.take(first.len() as int) =~= first);
    assert(walk(s, first) == mid);
    lemma_walk_moves(mid, second, e, second.len() as int);
    assert(second.take(second.len() as int) =~= second);
    assert(walk(mid, second) == e);
    lemma_walk_concat(s, first, second);
    lemma_walk_concat(s, first + second, seq![DirKey::Activate]);
    assert(seq![DirKey::Activate].drop_last() =~= Seq::<DirKey>::empty());
    assert(walk(e, Seq::<DirKey>::empty()) == e);
    assert(walk(e, seq![DirKey::Activate]) == e);
    assert(walk(s, p) == e);
    if i <= first.len() {
        assert(p.take(i) =~= first.take(i));
        lemma_walk_moves(s, first, e, i);
    } else if i <= first.len() + second.len() {
        let j = i - first.len();
        assert(p.take(i) =~= first + second.take(j));
        lemma_walk_concat(s, first, second.take(j));
        lemma_walk_moves(mid, second, e, j);
    } else {
        assert(p.take(i) =~= p);
    }
}

/// No path that `candidate_paths` gives, on either keypad, ever rests on the hole, and
/// every one of them ends on the key it goes to.
pub proof fn lemma_paths_avoid_hole(layout: Layout, start: int, end: int, n: int, i: int)
    requires
        0 <= start < layout.key_count(),
        0 <= end < layout.key_count(),
        0 <= n < candidate_paths(layout, start, end).len(),
        0 <= i <= candidate_paths(layout, start, end)[n].len(),
    ensures
        walk(layout.pos(start), candidate_paths(layout, start, end)[n].take(i)) != layout.hole(),
        walk(layout.pos(start), candidate_paths(layout, start, end)[n]) == layout.pos(end),
{
    let s = layout.pos(start);
    let e = layout.pos(end);
    lemma_layout_cells(layout, start);
    lemma_layout_cells(layout, end);
    let p = candidate_paths(layout, start, end)[n];
    if vertical_first_legal(layout, s, e) && n == 0 {
        assert(p == vertical_first_path(s, e));
        lemma_walk_two_runs(s, e, true, i);
    } else {
        assert(p == horizontal_first_path(s, e));
        lemma_walk_two_runs(s, e, false, i);
    }
}

/// Grid distance between two cells, moving along rows and columns.
pub open spec fn manhattan(s: (int, int), e: (int, int)) -> int {
    (if s.0 < e.0 {
        e.0 - s.0
    } else {
        s.0 - e.0
    }) + (if s.1 < e.1 {
        e.1 - s.1
    } else {
        s.1 - e.1
    })
}

proof fn lemma_walk_needs_moves(c: (int, int), p: Seq<DirKey>)
    ensures
        p.len() >= manhattan(c, walk(c, p)),
    decreases p.len(),
{
    if p.len() > 0 {
        lemma_walk_needs_moves(c, p.drop_last());
    }
}

/// The candidate paths are shortest: any presses that leave the arm on the key it goes to
/// and end by pressing Activate there are at least as many.
pub proof fn lemma_candidates_shortest(
    layout: Layout,
    start: int,
    end: int,
    n: int,
    p: Seq<DirKey>,
)
    requires
        0 <= start < layout.key_count(),
        0 <= end < layout.key_count(),
        0 <= n < candidate_paths(layout, start, end).len(),
        walk(layout.pos(start), p) == layout.pos(end),
        p.len() >= 1,
        p.last() == DirKey::Activate,
    ensures
        candidate_paths(layout, start, end)[n].len() == manhattan(layout.pos(start), layout.pos(end))
            + 1,
        candidate_paths(layout, start, end)[n].len() <= p.len(),
{
    let s = layout.pos(start);
    let e = layout.pos(end);
    assert(walk(s, p) == walk(s, p.drop_last()));
    lemma_walk_needs_moves(s, p.drop_last());
}

} // verus!

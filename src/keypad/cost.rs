//! Cost tables: presses at the bottom of a chain for each pair of directional keys.
use vstd::prelude::*;
use super::layout::{DirKey, Layout};
use super::paths::{
    candidate_paths, get_paths, lemma_candidates_nonempty, paths_view, vertical_first_path,
};

verus! {

/// Index of the pair `(a, b)` in a 5 x 5 cost table.
pub open spec fn pair_index(a: DirKey, b: DirKey) -> int {
    a.idx() * 5 + b.idx()
}

/// Key on which the arm rests before the `i`-th press of `p`: every arm starts on Activate.
pub open spec fn key_before(p: Seq<DirKey>, i: int) -> DirKey {
    if i == 0 {
        DirKey::Activate
    } else {
        p[i - 1]
    }
}

/// Presses at the bottom of the chain to type `p` one level up, given the cost table
/// `t` of the level below: the sum of `t` over consecutive pairs, starting from Activate.
pub open spec fn path_cost(t: Seq<int>, p: Seq<DirKey>) -> int
    decreases p.len(),
{
    if p.len() == 0 {
        0
    } else {
        path_cost(t, p.drop_last()) + t[pair_index(key_before(p, p.len() - 1), p.last())]
    }
}

/// The smallest element of a non-empty sequence.
pub open spec fn seq_min(s: Seq<int>) -> int
    decreases s.len(),
{
    if s.len() <= 1 {
        s[0]
    } else {
        let m = seq_min(s.drop_last());
        if s.last() < m {
            s.last()
        } else {
            m
        }
    }
}

/// Position of the element that `seq_min` picks.
pub open spec fn seq_min_at(s: Seq<int>) -> int
    decreases s.len(),
{
    if s.len() <= 1 {
        0
    } else {
        if s.last() < seq_min(s.drop_last()) {
            s.len() - 1
        } else {
            seq_min_at(s.drop_last())
        }
    }
}

pub(crate) proof fn lemma_seq_min_in(s: Seq<int>)
    requires
        s.len() >= 1,
    ensures
        0 <= seq_min_at(s) < s.len(),
        s[seq_min_at(s)] == seq_min(s),
        forall|i: int| 0 <= i < s.len() ==> seq_min(s) <= #[trigger] s[i],
    decreases s.len(),
{
    if s.len() > 1 {
        lemma_seq_min_in(s.drop_last());
        assert forall|i: int| 0 <= i < s.len() implies seq_min(s) <= #[trigger] s[i] by {
            if i < s.len() - 1 {
                assert(s[i] == s.drop_last()[i]);
            }
        }
    }
}

/// Cheapest of the paths `ps` to type one level up, given the table `t` of the level below.
pub open spec fn min_path_cost(t: Seq<int>, ps: Seq<Seq<DirKey>>) -> int {
    seq_min(ps.map_values(|p: Seq<DirKey>| path_cost(t, p)))
}

/// Length of the shortest of the paths `ps`.
pub open spec fn min_path_len(ps: Seq<Seq<DirKey>>) -> int {
    seq_min(ps.map_values(|p: Seq<DirKey>| p.len() as int))
}

/// Candidate paths on the directional pad for the table entry `i`
/// (from key `i / 5` to key `i % 5`).
pub open spec fn entry_paths(i: int) -> Seq<Seq<DirKey>> {
    candidate_paths(Layout::Directional, i / 5, i % 5)
}

/// The table one level up from `t`.
pub open spec fn level_costs(t: Seq<int>) -> Seq<int> {
    Seq::new(25, |i: int| min_path_cost(t, entry_paths(i)))
}

/// Cost table of a chain of `depth` directional keypads above the one that a human presses.
pub open spec fn cost_table(depth: nat) -> Seq<int>
    decreases depth,
{
    if depth == 0 {
        Seq::new(25, |i: int| min_path_len(entry_paths(i)))
    } else {
        level_costs(cost_table((depth - 1) as nat))
    }
}

/// A table of machine words as integers.
pub open spec fn table_view(t: Seq<u64>) -> Seq<int> {
    t.map_values(|x: u64| x as int)
}

/// `x` as a machine word, where it fits in one.
pub open spec fn fit(x: int) -> Option<u64> {
    if 0 <= x <= u64::MAX {
        Some(x as u64)
    } else {
        None
    }
}

/// Every entry fits in a `u64`.
pub open spec fn all_fit(t: Seq<int>) -> bool {
    forall|i: int| 0 <= i < t.len() ==> 0 <= #[trigger] t[i] <= u64::MAX
}

/// No entry is negative.
pub open spec fn nonneg(t: Seq<int>) -> bool {
    forall|i: int| 0 <= i < t.len() ==> 0 <= #[trigger] t[i]
}

pub(crate) proof fn lemma_path_cost_prefix(t: Seq<int>, p: Seq<DirKey>, j: int)
    requires
        t.len() == 25,
        nonneg(t),
        0 <= j <= p.len(),
    ensures
        path_cost(t, p.take(j)) <= path_cost(t, p),
        0 <= path_cost(t, p.take(j)),
    decreases p.len(),
{
    if p.len() > 0 {
        if j == p.len() {
            assert(p.take(j) =~= p);
            lemma_path_cost_prefix(t, p.drop_last(), j - 1);
            assert(p.drop_last().take(j - 1) =~= p.drop_last());
        } else {
            lemma_path_cost_prefix(t, p.drop_last(), j);
            assert(p.drop_last().take(j) =~= p.take(j));
        }
        assert(0 <= t[pair_index(key_before(p, p.len() - 1), p.last())]);
    }
}

/// Cost of typing `path` one level up, where `t` is the table of the level below;
/// `None` where that cost does not fit in a `u64`.
pub fn path_cost_of(t: &Vec<u64>, path: &Vec<DirKey>) -> (r: Option<u64>)
    requires
        t@.len() == 25,
    ensures
        r == fit(path_cost(table_view(t@), path@)),
{
    let ghost tv = table_view(t@);
    let mut pos = DirKey::Activate;
    let mut sum: u64 = 0;
    let mut j: usize = 0;
    while j < path.len()
        invariant
            j <= path@.len(),
            t@.len() == 25,
            tv == table_view(t@),
            sum == path_cost(tv, path@.take(j as int)),
            pos == key_before(path@, j as int),
        decreases path@.len() - j,
    {
        let new_pos = path[j];
        let ghost pre = path@.take(j as int + 1);
        assert(pre.drop_last() =~= path@.take(j as int));
        assert(key_before(pre, j as int) == key_before(path@, j as int));
        let cost = t[pos.index() * 5 + new_pos.index()];
        match sum.checked_add(cost) {
            Some(s) => {
                sum = s;
            },
            None => {
                proof {
                    lemma_path_cost_prefix(tv, path@, j + 1);
                }
                return None;
            },
        }
        pos = new_pos;
        j = j + 1;
    }
    assert(path@.take(j as int) =~= path@);
    Some(sum)
}

/// Cheapest of `paths` to type one level up, where `t` is the table of the level below;
/// `None` where that cost does not fit in a `u64`.
pub fn min_path_cost_of(t: &Vec<u64>, paths: &Vec<Vec<DirKey>>) -> (r: Option<u64>)
    requires
        t@.len() == 25,
        paths@.len() >= 1,
    ensures
        r == fit(min_path_cost(table_view(t@), paths_view(paths@))),
{
    let ghost tv = table_view(t@);
    let ghost costs = paths_view(paths@).map_values(|p: Seq<DirKey>| path_cost(tv, p));
    let mut best = path_cost_of(t, &paths[0]);
    let mut i: usize = 1;
    assert(costs.take(1).drop_last() =~= Seq::<int>::empty());
    while i < paths.len()
        invariant
            1 <= i <= paths@.len(),
            t@.len() == 25,
            tv == table_view(t@),
            costs == paths_view(paths@).map_values(|p: Seq<DirKey>| path_cost(tv, p)),
            best == fit(seq_min(costs.take(i as int))),
        decreases paths@.len() - i,
    {
        let c = path_cost_of(t, &paths[i]);
        assert(costs.take(i as int + 1).drop_last() =~= costs.take(i as int));
        assert(costs.take(i as int + 1).last() == path_cost(tv, paths@[i as int]@));
        assert(seq_min(costs.take(i as int)) >= 0) by {
            lemma_seq_min_in(costs.take(i as int));
            lemma_path_cost_prefix(tv, paths_view(paths@)[seq_min_at(costs.take(i as int))], 0);
        }
        proof {
            lemma_path_cost_prefix(tv, paths@[i as int]@, 0);
        }
        best = match (best, c) {
            (Some(b), Some(x)) => if x < b {
                Some(x)
            } else {
                Some(b)
            },
            (None, x) => x,
            (b, None) => b,
        };
        i = i + 1;
    }
    assert(costs.take(i as int) =~= costs);
    best
}

/// Shortest of `paths`.
fn min_path_len_of(paths: &Vec<Vec<DirKey>>) -> (r: u64)
    requires
        paths@.len() >= 1,
        forall|i: int| 0 <= i < paths@.len() ==> #[trigger] paths@[i]@.len() <= u64::MAX,
    ensures
        r == min_path_len(paths_view(paths@)),
{
    let ghost lens = paths_view(paths@).map_values(|p: Seq<DirKey>| p.len() as int);
    let mut best = paths[0].len() as u64;
    let mut i: usize = 1;
    assert(lens.take(1).drop_last() =~= Seq::<int>::empty());
    while i < paths.len()
        invariant
            1 <= i <= paths@.len(),
            lens == paths_view(paths@).map_values(|p: Seq<DirKey>| p.len() as int),
            forall|i: int| 0 <= i < paths@.len() ==> #[trigger] paths@[i]@.len() <= u64::MAX,
            best == seq_min(lens.take(i as int)),
        decreases paths@.len() - i,
    {
        let l = paths[i].len() as u64;
        assert(lens.take(i as int + 1).drop_last() =~= lens.take(i as int));
        if l < best {
            best = l;
        }
        i = i + 1;
    }
    assert(lens.take(i as int) =~= lens);
    best
}

/// The candidate paths of every entry of a directional cost table, entry `i` going
/// from key `i / 5` to key `i % 5`.
pub fn directional_paths() -> (r: Vec<Vec<Vec<DirKey>>>)
    ensures
        r@.len() == 25,
        forall|i: int| 0 <= i < 25 ==> paths_view(#[trigger] r@[i]@) == entry_paths(i),
{
    let mut all: Vec<Vec<Vec<DirKey>>> = Vec::new();
    let mut i: usize = 0;
    while i < 25
        invariant
            i <= 25,
            all@.len() == i,
            forall|j: int| 0 <= j < i ==> paths_view(#[trigger] all@[j]@) == entry_paths(j),
        decreases 25 - i,
    {
        let mut paths = Vec::new();
        get_paths(&mut paths, Layout::Directional, i / 5, i % 5);
        assert(paths_view(paths@) =~= entry_paths(i as int));
        all.push(paths);
        i = i + 1;
    }
    all
}

/// The table one level up from `previous_costs`, given the candidate paths of each entry;
/// `None` where one of its entries does not fit in a `u64`.
pub fn calc_level_costs(previous_costs: &Vec<u64>, paths: &Vec<Vec<Vec<DirKey>>>) -> (r: Option<
    Vec<u64>,
>)
    requires
        previous_costs@.len() == 25,
        paths@.len() == 25,
        forall|i: int| 0 <= i < 25 ==> paths_view(#[trigger] paths@[i]@) == entry_paths(i),
    ensures
        r.is_some() == all_fit(level_costs(table_view(previous_costs@))),
        r matches Some(v) ==> table_view(v@) == level_costs(table_view(previous_costs@)),
{
    let ghost next = level_costs(table_view(previous_costs@));
    let mut costs: Vec<u64> = Vec::new();
    let mut i: usize = 0;
    while i < 25
        invariant
            i <= 25,
            previous_costs@.len() == 25,
            paths@.len() == 25,
            forall|i: int| 0 <= i < 25 ==> paths_view(#[trigger] paths@[i]@) == entry_paths(i),
            next == level_costs(table_view(previous_costs@)),
            costs@.len() == i,
            forall|j: int| 0 <= j < i ==> costs@[j] == next[j],
        decreases 25 - i,
    {
        proof {
            lemma_candidates_nonempty(Layout::Directional, i as int / 5, i as int % 5);
        }
        match min_path_cost_of(previous_costs, &paths[i]) {
            Some(c) => costs.push(c),
            None => {
                assert(!(0 <= next[i as int] <= u64::MAX));
                return None;
            },
        }
        i = i + 1;
    }
    assert(table_view(costs@) =~= next);
    Some(costs)
}

proof fn lemma_path_cost_mono(t1: Seq<int>, t2: Seq<int>, p: Seq<DirKey>)
    requires
        t1.len() == 25,
        t2.len() == 25,
        forall|i: int| 0 <= i < 25 ==> #[trigger] t1[i] <= t2[i],
    ensures
        path_cost(t1, p) <= path_cost(t2, p),
    decreases p.len(),
{
    if p.len() > 0 {
        lemma_path_cost_mono(t1, t2, p.drop_last());
        let k = pair_index(key_before(p, p.len() - 1), p.last());
        assert(t1[k] <= t2[k]);
    }
}

proof fn lemma_path_cost_ge_len(t: Seq<int>, p: Seq<DirKey>)
    requires
        t.len() == 25,
        forall|i: int| 0 <= i < 25 ==> #[trigger] t[i] >= 1,
    ensures
        path_cost(t, p) >= p.len(),
    decreases p.len(),
{
    if p.len() > 0 {
        lemma_path_cost_ge_len(t, p.drop_last());
        let k = pair_index(key_before(p, p.len() - 1), p.last());
        assert(t[k] >= 1);
    }
}

proof fn lemma_seq_min_mono(a: Seq<int>, b: Seq<int>)
    requires
        a.len() == b.len(),
        a.len() >= 1,
        forall|i: int| 0 <= i < a.len() ==> #[trigger] a[i] <= b[i],
    ensures
        seq_min(a) <= seq_min(b),
{
    lemma_seq_min_in(a);
    lemma_seq_min_in(b);
    let j = seq_min_at(b);
    assert(a[j] <= b[j]);
}

pub(crate) proof fn lemma_entry_paths(i: int)
    requires
        0 <= i < 25,
    ensures
        1 <= entry_paths(i).len() <= 2,
        forall|k: int|
            0 <= k < entry_paths(i).len() ==> 1 <= #[trigger] entry_paths(i)[k].len() <= 4,
{
    lemma_candidates_nonempty(Layout::Directional, i / 5, i % 5);
}

/// Every entry of every cost table is at least one press.
pub proof fn lemma_cost_at_least_one(depth: nat)
    ensures
        cost_table(depth).len() == 25,
        forall|i: int| 0 <= i < 25 ==> #[trigger] cost_table(depth)[i] >= 1,
    decreases depth,
{
    if depth > 0 {
        lemma_cost_at_least_one((depth - 1) as nat);
    }
    let t = cost_table(depth);
    assert forall|i: int| 0 <= i < 25 implies #[trigger] t[i] >= 1 by {
        lemma_entry_paths(i);
        let ps = entry_paths(i);
        if depth == 0 {
            let lens = ps.map_values(|p: Seq<DirKey>| p.len() as int);
            lemma_seq_min_in(lens);
            assert(lens[seq_min_at(lens)] >= 1);
        } else {
            let prev = cost_table((depth - 1) as nat);
            let costs = ps.map_values(|p: Seq<DirKey>| path_cost(prev, p));
            lemma_seq_min_in(costs);
            let j = seq_min_at(costs);
            lemma_path_cost_ge_len(prev, ps[j]);
        }
    }
}

/// Going one level deeper never makes an entry cheaper.
pub proof fn lemma_cost_grows_one_level(depth: nat)
    ensures
        forall|i: int| 0 <= i < 25 ==> #[trigger] cost_table(depth)[i] <= cost_table(depth + 1)[i],
    decreases depth,
{
    lemma_cost_at_least_one(depth);
    lemma_cost_at_least_one(depth + 1);
    let t = cost_table(depth);
    let u = cost_table(depth + 1);
    if depth > 0 {
        lemma_cost_grows_one_level((depth - 1) as nat);
    }
    assert forall|i: int| 0 <= i < 25 implies #[trigger] t[i] <= u[i] by {
        lemma_entry_paths(i);
        let ps = entry_paths(i);
        let up = ps.map_values(|p: Seq<DirKey>| path_cost(t, p));
        if depth == 0 {
            let lens = ps.map_values(|p: Seq<DirKey>| p.len() as int);
            assert forall|k: int| 0 <= k < lens.len() implies #[trigger] lens[k] <= up[k] by {
                lemma_path_cost_ge_len(t, ps[k]);
            }
            lemma_seq_min_mono(lens, up);
        } else {
            let prev = cost_table((depth - 1) as nat);
            let down = ps.map_values(|p: Seq<DirKey>| path_cost(prev, p));
            assert forall|k: int| 0 <= k < down.len() implies #[trigger] down[k] <= up[k] by {
                lemma_path_cost_mono(prev, t, ps[k]);
            }
            lemma_seq_min_mono(down, up);
        }
    }
}

/// More indirection never reduces cost: every entry of the table for depth `a` is at
/// most the same entry of the table for any greater depth `b`.
pub proof fn lemma_cost_monotone(a: nat, b: nat, i: int)
    requires
        a <= b,
        0 <= i < 25,
    ensures
        cost_table(a)[i] <= cost_table(b)[i],
    decreases b - a,
{
    if a < b {
        lemma_cost_monotone(a, (b - 1) as nat, i);
        lemma_cost_grows_one_level((b - 1) as nat);
    }
}

/// Cost table for a chain of `size` directional keypads, the first of them pressed by a
/// human: `cost_table(size - 1)`; `None` where one of its entries does not fit in a `u64`.
pub fn calc_key_costs(size: usize) -> (r: Option<Vec<u64>>)
    requires
        size >= 1,
    ensures
        r.is_some() == all_fit(cost_table((size - 1) as nat)),
        r matches Some(v) ==> table_view(v@) == cost_table((size - 1) as nat),
{
    let paths = directional_paths();
    let mut path_costs: Vec<u64> = Vec::new();
    let mut i: usize = 0;
    let ghost base = cost_table(0);
    while i < 25
        invariant
            i <= 25,
            paths@.len() == 25,
            forall|i: int| 0 <= i < 25 ==> paths_view(#[trigger] paths@[i]@) == entry_paths(i),
            base == cost_table(0),
            path_costs@.len() == i,
            forall|j: int| 0 <= j < i ==> path_costs@[j] == base[j],
        decreases 25 - i,
    {
        proof {
            lemma_entry_paths(i as int);
            assert forall|k: int| 0 <= k < paths@[i as int]@.len() implies #[trigger] paths@[i as int]@[k]@.len() <= u64::MAX by {
                assert(paths@[i as int]@[k]@ == entry_paths(i as int)[k]);
            }
        }
        let l = min_path_len_of(&paths[i]);
        path_costs.push(l);
        i = i + 1;
    }
    assert(table_view(path_costs@) =~= cost_table(0));
    let mut level: usize = 1;
    while level < size
        invariant
            1 <= level <= size,
            paths@.len() == 25,
            forall|i: int| 0 <= i < 25 ==> paths_view(#[trigger] paths@[i]@) == entry_paths(i),
            path_costs@.len() == 25,
            table_view(path_costs@) == cost_table((level - 1) as nat),
        decreases size - level,
    {
        match calc_level_costs(&path_costs, &paths) {
            Some(next) => {
                assert(table_view(next@).len() == 25);
                path_costs = next;
            },
            None => {
                proof {
                    let t = cost_table(level as nat);
                    let i = choose|i: int| 0 <= i < t.len() && !(0 <= #[trigger] t[i] <= u64::MAX);
                    lemma_cost_at_least_one(level as nat);
                    lemma_cost_monotone(level as nat, (size - 1) as nat, i);
                    lemma_cost_at_least_one((size - 1) as nat);
                    assert(!(0 <= cost_table((size - 1) as nat)[i] <= u64::MAX));
                }
                return None;
            },
        }
        level = level + 1;
    }
    proof {
        let t = cost_table((size - 1) as nat);
        assert(t =~= table_view(path_costs@));
        assert forall|i: int| 0 <= i < t.len() implies 0 <= #[trigger] t[i] <= u64::MAX by {
            assert(t[i] == path_costs@[i] as int);
        }
    }
    Some(path_costs)
}

/// Moving from `k` to `k` needs one press of Activate at every depth.
pub proof fn lemma_same_key_costs_one(depth: nat, k: int)
    requires
        0 <= k < 5,
    ensures
        cost_table(depth)[k * 5 + k] == 1,
    decreases depth,
{
    let i = k * 5 + k;
    assert(i / 5 == k && i % 5 == k) by {
        assert(k == 0 || k == 1 || k == 2 || k == 3 || k == 4);
    }
    let only: Seq<DirKey> = seq![DirKey::Activate];
    assert(vertical_first_path(Layout::Directional.pos(k), Layout::Directional.pos(k)) =~= only);
    assert(entry_paths(i) =~= seq![only]);
    if depth == 0 {
        assert(entry_paths(i).map_values(|p: Seq<DirKey>| p.len() as int) =~= seq![1int]);
    } else {
        let prev = cost_table((depth - 1) as nat);
        assert(only.drop_last() =~= Seq::<DirKey>::empty());
        assert(path_cost(prev, Seq::<DirKey>::empty()) == 0);
        assert(path_cost(prev, only) == prev[6]);
        assert(entry_paths(i).map_values(|p: Seq<DirKey>| path_cost(prev, p)) =~= seq![prev[6]]);
        lemma_same_key_costs_one((depth - 1) as nat, 1);
    }
}

/// Every entry of every cost table is at least one press, and staying on a key costs
/// exactly one press.
pub proof fn lemma_cost_floor(depth: nat)
    ensures
        forall|i: int| 0 <= i < 25 ==> #[trigger] cost_table(depth)[i] >= 1,
        forall|k: int| 0 <= k < 5 ==> #[trigger] cost_table(depth)[k * 5 + k] == 1,
{
    lemma_cost_at_least_one(depth);
    assert forall|k: int| 0 <= k < 5 implies #[trigger] cost_table(depth)[k * 5 + k] == 1 by {
        lemma_same_key_costs_one(depth, k);
    }
}

/// Building a level is a function of the table below it alone: two tables that both
/// meet the contract of `calc_level_costs` for the same table below are identical.
pub proof fn lemma_level_rebuild_identical(previous: Seq<u64>, a: Seq<u64>, b: Seq<u64>)
    requires
        table_view(a) == level_costs(table_view(previous)),
        table_view(b) == level_costs(table_view(previous)),
    ensures
        a == b,
{
    assert(a.len() == table_view(a).len());
    assert(b.len() == table_view(b).len());
    assert forall|i: int| 0 <= i < a.len() implies a[i] == b[i] by {
        assert(table_view(a)[i] == a[i] as int);
        assert(table_view(b)[i] == b[i] as int);
        assert(table_view(a)[i] == table_view(b)[i]);
    }
    assert(a =~= b);
}

} // verus!

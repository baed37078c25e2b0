//! Compacting a disk by moving whole files into free space further left.
use vstd::prelude::*;

verus! {

/// A run of blocks: its length, and the id of the file it holds (`-1` for free space).
pub type Span = (usize, i32);

pub open spec fn is_free(x: Span) -> bool {
    x.1 == -1
}

/// Ids are file numbers, or `-1` for free space.
pub open spec fn ids_ok(files: Seq<Span>) -> bool {
    forall|k: int| 0 <= k < files.len() ==> #[trigger] files[k].1 >= -1
}

/// The first free span before position `limit`, searching from `j`, that holds `size` blocks.
pub open spec fn first_fit(files: Seq<Span>, j: int, limit: int, size: usize) -> Option<int>
    decreases limit - j,
{
    if j >= limit || j < 0 {
        None
    } else if is_free(files[j]) && size <= files[j].0 {
        Some(j)
    } else {
        first_fit(files, j + 1, limit, size)
    }
}

/// The disk after trying to move the file at position `i` into the first free span to its
/// left that holds it; what stays of that span after the file is a new free span.
pub open spec fn move_file(files: Seq<Span>, i: int) -> Seq<Span> {
    let (size, id) = files[i];
    if id == -1 {
        files
    } else {
        match first_fit(files, 0, i, size) {
            None => files,
            Some(j) => {
                let s = files[j].0;
                let moved = files.update(j, (size, id)).update(i, (size, -1i32));
                if size < s {
                    moved.insert(j + 1, ((s - size) as usize, -1i32))
                } else {
                    moved
                }
            },
        }
    }
}

/// The disk after trying to move each file from position `i` down to position 1, in turn.
pub open spec fn compact_from(files: Seq<Span>, i: int) -> Seq<Span>
    decreases i,
{
    if i <= 0 {
        files
    } else {
        compact_from(move_file(files, i), i - 1)
    }
}

/// Number of blocks that the spans cover.
pub open spec fn blocks(files: Seq<Span>) -> int
    decreases files.len(),
{
    if files.len() == 0 {
        0
    } else {
        blocks(files.drop_last()) + files.last().0
    }
}

/// Sum of position times id over the first `size` blocks of a span that starts at block
/// `start`; free blocks add nothing.
pub open spec fn span_checksum(size: int, id: int, start: int) -> int
    decreases size,
{
    if size <= 0 || id == -1 {
        0
    } else {
        span_checksum(size - 1, id, start) + (start + size - 1) * id
    }
}

/// Sum of position times id over all blocks that hold a file.
pub open spec fn checksum(files: Seq<Span>) -> int
    decreases files.len(),
{
    if files.len() == 0 {
        0
    } else {
        checksum(files.drop_last()) + span_checksum(
            files.last().0 as int,
            files.last().1 as int,
            blocks(files.drop_last()),
        )
    }
}

/// The position of the first free span before `limit` that holds `size` blocks.
fn find_fit(files: &Vec<Span>, limit: usize, size: usize) -> (r: Option<usize>)
    requires
        limit <= files@.len(),
    ensures
        r matches Some(j) ==> first_fit(files@, 0, limit as int, size) == Some(j as int),
        r is None ==> first_fit(files@, 0, limit as int, size) is None,
{
    let mut j: usize = 0;
    while j < limit
        invariant
            limit <= files@.len(),
            j <= limit,
            first_fit(files@, 0, limit as int, size) == first_fit(files@, j as int, limit as int, size),
        decreases limit - j,
    {
        if files[j].1 == -1 && size <= files[j].0 {
            return Some(j);
        }
        j = j + 1;
    }
    None
}

proof fn lemma_span_grows(size: int, t: int, id: int, start: int)
    requires
        id >= -1,
        start >= 0,
        0 <= t <= size,
    ensures
        0 <= span_checksum(t, id, start) <= span_checksum(size, id, start),
    decreases size,
{
    if size > 0 {
        if size > t {
            lemma_span_grows(size - 1, t, id, start);
        } else {
            lemma_span_grows(size - 1, size - 1, id, start);
        }
        if id != -1 {
            assert((start + size - 1) * id >= 0) by (nonlinear_arith)
                requires
                    start >= 0,
                    size >= 1,
                    id >= 0,
            ;
        }
    }
}

proof fn lemma_prefix_sums(files: Seq<Span>, k: int)
    requires
        ids_ok(files),
        0 <= k <= files.len(),
    ensures
        0 <= blocks(files.take(k)) <= blocks(files),
        0 <= checksum(files.take(k)) <= checksum(files),
    decreases files.len(),
{
    if files.len() > 0 {
        let d = files.drop_last();
        assert(ids_ok(d)) by {
            assert forall|x: int| 0 <= x < d.len() implies #[trigger] d[x].1 >= -1 by {
                assert(d[x] == files[x]);
            }
        }
        assert(files[files.len() - 1].1 >= -1);
        if k == files.len() {
            assert(files.take(k) =~= files);
            lemma_prefix_sums(d, k - 1);
            assert(d.take(k - 1) =~= d);
        } else {
            lemma_prefix_sums(d, k);
            assert(d.take(k) =~= files.take(k));
        }
        lemma_prefix_sums(d, d.len() as int);
        assert(d.take(d.len() as int) =~= d);
        lemma_span_grows(files.last().0 as int, 0, files.last().1 as int, blocks(d));
    }
}

/// The checksum of a disk.
fn disk_checksum(files: &Vec<Span>) -> (r: usize)
    requires
        ids_ok(files@),
        blocks(files@) <= usize::MAX,
        checksum(files@) <= usize::MAX,
    ensures
        r == checksum(files@),
{
    let mut total: usize = 0;
    let mut pos: usize = 0;
    let mut k: usize = 0;
    while k < files.len()
        invariant
            ids_ok(files@),
            blocks(files@) <= usize::MAX,
            checksum(files@) <= usize::MAX,
            k <= files@.len(),
            total == checksum(files@.take(k as int)),
            pos == blocks(files@.take(k as int)),
        decreases files@.len() - k,
    {
        let (size, id) = files[k];
        let ghost pre = files@.take(k as int + 1);
        assert(pre.drop_last() =~= files@.take(k as int));
        proof {
            lemma_prefix_sums(files@, k + 1);
        }
        let ghost start = pos as int;
        let mut t: usize = 0;
        while t < size
            invariant
                ids_ok(files@),
                blocks(files@) <= usize::MAX,
                checksum(files@) <= usize::MAX,
                k < files@.len(),
                files@[k as int] == (size, id),
                pre == files@.take(k as int + 1),
                pre.drop_last() == files@.take(k as int),
                start == blocks(files@.take(k as int)),
                start >= 0,
                blocks(pre) <= blocks(files@),
                checksum(pre) <= checksum(files@),
                t <= size,
                total == checksum(files@.take(k as int)) + span_checksum(t as int, id as int, start),
                pos == start + t,
            decreases size - t,
        {
            assert(id >= -1);
            proof {
                lemma_span_grows(size as int, t + 1, id as int, start);
                lemma_span_grows(size as int, t as int, id as int, start);
            }
            if id != -1 {
                assert(total + pos * id <= checksum(files@));
                total = total + pos * (id as usize);
            }
            pos = pos + 1;
            t = t + 1;
        }
        k = k + 1;
    }
    assert(files@.take(k as int) =~= files@);
    total
}

proof fn lemma_move_keeps_ids(files: Seq<Span>, i: int)
    requires
        ids_ok(files),
        0 <= i < files.len(),
    ensures
        ids_ok(move_file(files, i)),
        move_file(files, i).len() >= files.len(),
{
    let r = move_file(files, i);
    let (size, id) = files[i];
    if id != -1 {
        lemma_first_fit_in(files, 0, i, size);
        if let Some(j) = first_fit(files, 0, i, size) {
            let moved = files.update(j, (size, id)).update(i, (size, -1i32));
            assert(ids_ok(moved)) by {
                assert forall|k: int| 0 <= k < moved.len() implies #[trigger] moved[k].1 >= -1 by {
                    if k != i && k != j {
                        assert(moved[k] == files[k]);
                    }
                }
            }
            if size < files[j].0 {
                assert forall|k: int| 0 <= k < r.len() implies #[trigger] r[k].1 >= -1 by {
                    if k > j + 1 {
                        assert(r[k] == moved[k - 1]);
                    } else if k < j + 1 {
                        assert(r[k] == moved[k]);
                    }
                }
            }
        }
    }
}

proof fn lemma_first_fit_in(files: Seq<Span>, j: int, limit: int, size: usize)
    requires
        0 <= j,
        limit <= files.len(),
    ensures
        first_fit(files, j, limit, size) matches Some(f) ==> j <= f < limit && is_free(files[f])
            && size <= files[f].0,
    decreases limit - j,
{
    if j < limit && !(is_free(files[j]) && size <= files[j].0) {
        lemma_first_fit_in(files, j + 1, limit, size);
    }
}

/// The disk's checksum after each file, from the last, has moved into the first free span
/// to its left that holds it. The disk is a list of spans, at least one.
pub fn solve(files: Vec<Span>) -> (r: usize)
    requires
        files@.len() >= 1,
        ids_ok(files@),
        blocks(compact_from(files@, files@.len() - 1)) <= usize::MAX,
        checksum(compact_from(files@, files@.len() - 1)) <= usize::MAX,
    ensures
        r == checksum(compact_from(files@, files@.len() - 1)),
{
    let ghost target = compact_from(files@, files@.len() - 1);
    let mut files = files;
    let mut i = files.len() - 1;
    while i > 0
        invariant
            i < files@.len(),
            ids_ok(files@),
            compact_from(files@, i as int) == target,
        decreases i,
    {
        let (size, id) = files[i];
        proof {
            lemma_move_keeps_ids(files@, i as int);
        }
        if id == -1 {
            i = i - 1;
            continue;
        }
        let ghost before = files@;
        if let Some(j) = find_fit(&files, i, size) {
            proof {
                lemma_first_fit_in(before, 0, i as int, size);
            }
            let s = files[j].0;
            files.set(j, (size, id));
            files.set(i, (size, -1));
            if size < s {
                files.insert(j + 1, (s - size, -1));
            }
        }
        assert(files@ =~= move_file(before, i as int));
        i = i - 1;
    }
    disk_checksum(&files)
}

} // verus!

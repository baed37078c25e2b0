//! Reactor reports: levels that change steadily by one to three.
use vstd::prelude::*;

verus! {

pub open spec fn sign(d: int) -> int {
    if d > 0 {
        1
    } else if d < 0 {
        -1
    } else {
        0
    }
}

/// The step from level `i` to level `i + 1` goes in direction `direction` (never flat)
/// and changes the level by one to three.
pub open spec fn step_ok(report: Seq<i32>, i: int, direction: int) -> bool {
    let d = report[i + 1] - report[i];
    &&& direction != 0
    &&& sign(d) == direction
    &&& 1 <= (if d < 0 {
        -d
    } else {
        d
    }) <= 3
}

/// All steps of a report go the way its first step goes, by one to three each.
pub open spec fn is_safe(report: Seq<i32>) -> bool {
    let direction = sign(report[1] - report[0]);
    forall|i: int| 0 <= i < report.len() - 1 ==> #[trigger] step_ok(report, i, direction)
}

/// Safe as it is, or, where removing one level is allowed, after removing some one level.
pub open spec fn tolerated(report: Seq<i32>, can_remove: bool) -> bool {
    is_safe(report) || (can_remove && exists|j: int|
        0 <= j < report.len() && #[trigger] is_safe(report.remove(j)))
}

/// The report without its level at `index`.
pub fn remove_at(report: &Vec<i32>, index: usize) -> (r: Vec<i32>)
    requires
        index < report@.len(),
    ensures
        r@ == report@.remove(index as int),
{
    let mut new_report = report.clone();
    assert(new_report@ =~= report@);
    new_report.remove(index);
    new_report
}

/// Whether the report is safe, or, with `can_remove`, safe once one level is removed.
pub fn safe(report: &Vec<i32>, can_remove: bool) -> (r: bool)
    requires
        report@.len() >= 2,
        can_remove ==> report@.len() >= 3 || is_safe(report@),
    ensures
        r == tolerated(report@, can_remove),
    decreases (if can_remove { 1int } else { 0int }),
{
    let first = report[1] as i64 - report[0] as i64;
    let line_direction: i64 = if first > 0 {
        1
    } else if first < 0 {
        -1
    } else {
        0
    };
    let mut i: usize = 0;
    while i < report.len() - 1
        invariant
            report@.len() >= 2,
            can_remove ==> report@.len() >= 3 || is_safe(report@),
            i <= report@.len() - 1,
            line_direction == sign(report@[1] - report@[0]),
            forall|k: int| 0 <= k < i ==> #[trigger] step_ok(report@, k, line_direction as int),
        decreases report@.len() - 1 - i,
    {
        let diff = report[i + 1] as i64 - report[i] as i64;
        let diff_sign: i64 = if diff > 0 {
            1
        } else if diff < 0 {
            -1
        } else {
            0
        };
        let size = if diff < 0 {
            -diff
        } else {
            diff
        };
        if line_direction == 0 || diff_sign != line_direction || size > 3 || size < 1 {
            assert(!step_ok(report@, i as int, line_direction as int));
            assert(!is_safe(report@));
            if can_remove {
                let mut j: usize = 0;
                while j < report.len()
                    invariant
                        can_remove,
                        report@.len() >= 3,
                        !is_safe(report@),
                        j <= report@.len(),
                        forall|k: int| 0 <= k < j ==> !#[trigger] is_safe(report@.remove(k)),
                    decreases report@.len() - j,
                {
                    let shorter = remove_at(report, j);
                    if safe(&shorter, false) {
                        assert(is_safe(report@.remove(j as int)));
                        return true;
                    }
                    j = j + 1;
                }
                return false;
            }
            return false;
        }
        assert(step_ok(report@, i as int, line_direction as int));
        i = i + 1;
    }
    true
}

} // verus!

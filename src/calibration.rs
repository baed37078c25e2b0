//! Calibration equations: whether numbers combined from the left with `+`, `*` and
//! digit concatenation can reach a target.
use vstd::prelude::*;

verus! {

/// Number of decimal digits of `b` (zero has one).
pub open spec fn digit_count(b: nat) -> nat
    decreases b,
{
    if b < 10 {
        1
    } else {
        1 + digit_count(b / 10)
    }
}

pub open spec fn pow10(n: nat) -> nat
    decreases n,
{
    if n == 0 {
        1
    } else {
        10 * pow10((n - 1) as nat)
    }
}

/// The number whose decimal digits are those of `a` followed by those of `b`.
pub open spec fn concatenated(a: nat, b: nat) -> nat {
    a * pow10(digit_count(b)) + b
}

/// `x` as a machine word, where it fits in one.
pub open spec fn fit(x: int) -> Option<u64> {
    if 0 <= x <= u64::MAX {
        Some(x as u64)
    } else {
        None
    }
}

/// The `concatenated` value where it fits in a `u64`.
fn checked_concat(a: u64, b: u64) -> (r: Option<u64>)
    ensures
        r == fit(concatenated(a as nat, b as nat) as int),
{
    if a == 0 {
        assert(concatenated(0, b as nat) == b) by (nonlinear_arith);
        return Some(b);
    }
    let mut rest = b;
    let mut m: u64 = 1;
    let ghost k: nat = 0;
    while rest >= 10
        invariant
            m == pow10(k),
            digit_count(b as nat) == digit_count(rest as nat) + k,
            m * rest <= b,
            rest <= b,
        decreases rest,
    {
        assert(m * 10 <= m * rest) by (nonlinear_arith)
            requires
                rest >= 10,
                m >= 0,
        ;
        assert(m * 10 * (rest / 10) <= m * rest) by (nonlinear_arith)
            requires
                m >= 0,
                rest >= 0,
        ;
        m = m * 10;
        rest = rest / 10;
        proof {
            k = k + 1;
        }
    }
    assert(digit_count(b as nat) == k + 1);
    assert(pow10(k + 1) == 10 * m);
    let ghost v = concatenated(a as nat, b as nat);
    assert(v == a * (m * 10) + b) by (nonlinear_arith)
        requires
            v == a * (10 * m) + b,
    ;
    match a.checked_mul(m) {
        Some(am) => match am.checked_mul(10) {
            Some(am10) => {
                assert(a * m * 10 == a * (m * 10)) by (nonlinear_arith);
                am10.checked_add(b)
            },
            None => {
                assert(a * m * 10 == a * (m * 10)) by (nonlinear_arith);
                None
            },
        },
        None => {
            assert(a * (m * 10) >= a * m) by (nonlinear_arith)
                requires
                    a >= 0,
                    m >= 0,
            ;
            None
        },
    }
}

/// The digits of `a` followed by those of `b`, read as one number.
pub fn concat(a: u64, b: u64) -> (r: u64)
    requires
        concatenated(a as nat, b as nat) <= u64::MAX,
    ensures
        r == concatenated(a as nat, b as nat),
{
    match checked_concat(a, b) {
        Some(v) => v,
        None => 0,
    }
}

/// Whether the numbers `rest`, combined from the left onto `so_far` with `+` and `*`, can
/// give `target`. A running value of zero stands for "nothing yet": the next number then
/// becomes the running value whichever operator is chosen. Running values only grow, so
/// one above the target fails at once.
pub open spec fn reaches_with_two(target: int, so_far: int, rest: Seq<u64>) -> bool
    decreases rest.len(),
{
    if so_far > target {
        false
    } else if rest.len() == 0 {
        so_far == target
    } else {
        let x = rest[0] as int;
        let mul = (if so_far == 0 {
            1
        } else {
            so_far
        }) * x;
        reaches_with_two(target, so_far + x, rest.drop_first()) || reaches_with_two(
            target,
            mul,
            rest.drop_first(),
        )
    }
}

/// As `reaches_with_two`, with concatenation of decimal digits as a third operator.
pub open spec fn reaches_with_three(target: int, so_far: int, rest: Seq<u64>) -> bool
    decreases rest.len(),
{
    if so_far > target {
        false
    } else if rest.len() == 0 {
        so_far == target
    } else {
        let x = rest[0] as int;
        let mul = (if so_far == 0 {
            1
        } else {
            so_far
        }) * x;
        let cat = if so_far == 0 {
            x
        } else {
            concatenated(so_far as nat, x as nat) as int
        };
        reaches_with_three(target, so_far + x, rest.drop_first()) || reaches_with_three(
            target,
            mul,
            rest.drop_first(),
        ) || reaches_with_three(target, cat, rest.drop_first())
    }
}

proof fn lemma_overshoot_two(target: int, so_far: int, rest: Seq<u64>)
    requires
        so_far > target,
    ensures
        !reaches_with_two(target, so_far, rest),
{
}

proof fn lemma_overshoot_three(target: int, so_far: int, rest: Seq<u64>)
    requires
        so_far > target,
    ensures
        !reaches_with_three(target, so_far, rest),
{
}

/// Whether `rest` can be combined onto `so_far` with `+` and `*` to give `target`.
pub fn hold_true_part_1(target: u64, so_far: u64, rest: &[u64]) -> (r: bool)
    ensures
        r == reaches_with_two(target as int, so_far as int, rest@),
    decreases rest@.len(),
{
    if so_far > target {
        return false;
    }
    if rest.len() == 0 {
        return so_far == target;
    }
    let x = rest[0];
    let tail = vstd::slice::slice_subrange(rest, 1, rest.len());
    assert(tail@ =~= rest@.drop_first());
    let base = if so_far == 0 {
        1
    } else {
        so_far
    };
    let by_add = match so_far.checked_add(x) {
        Some(v) => hold_true_part_1(target, v, tail),
        None => {
            proof {
                lemma_overshoot_two(target as int, so_far + x, tail@);
            }
            false
        },
    };
    if by_add {
        return true;
    }
    match base.checked_mul(x) {
        Some(v) => hold_true_part_1(target, v, tail),
        None => {
            proof {
                lemma_overshoot_two(target as int, base * x, tail@);
            }
            false
        },
    }
}

/// Whether `rest` can be combined onto `so_far` with `+`, `*` and concatenation to give
/// `target`.
pub fn hold_true_part_2(target: u64, so_far: u64, rest: &[u64]) -> (r: bool)
    ensures
        r == reaches_with_three(target as int, so_far as int, rest@),
    decreases rest@.len(),
{
    if so_far > target {
        return false;
    }
    if rest.len() == 0 {
        return so_far == target;
    }
    let x = rest[0];
    let tail = vstd::slice::slice_subrange(rest, 1, rest.len());
    assert(tail@ =~= rest@.drop_first());
    let base = if so_far == 0 {
        1
    } else {
        so_far
    };
    let by_add = match so_far.checked_add(x) {
        Some(v) => hold_true_part_2(target, v, tail),
        None => {
            proof {
                lemma_overshoot_three(target as int, so_far + x, tail@);
            }
            false
        },
    };
    if by_add {
        return true;
    }
    let by_mul = match base.checked_mul(x) {
        Some(v) => hold_true_part_2(target, v, tail),
        None => {
            proof {
                lemma_overshoot_three(target as int, base * x, tail@);
            }
            false
        },
    };
    if by_mul {
        return true;
    }
    let joined = if so_far == 0 {
        Some(x)
    } else {
        checked_concat(so_far, x)
    };
    match joined {
        Some(v) => hold_true_part_2(target, v, tail),
        None => {
            proof {
                lemma_overshoot_three(
                    target as int,
                    concatenated(so_far as nat, x as nat) as int,
                    tail@,
                );
            }
            false
        },
    }
}

} // verus!

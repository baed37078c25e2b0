//! Claw machines: the presses of two buttons that land on a prize.
use vstd::prelude::*;
use crate::point::{fits_isize, Point};

verus! {

/// Button A's step, button B's step, and the prize's position.
pub type Machine = (Point, Point, Point);

/// Whether pressing button A `p` times and button B `q` times lands exactly on the prize.
pub open spec fn lands(m: Machine, p: int, q: int) -> bool {
    &&& m.0.x * p + m.1.x * q == m.2.x
    &&& m.0.y * p + m.1.y * q == m.2.y
}

pub open spec fn magnitude(a: int) -> int {
    if a < 0 {
        -a
    } else {
        a
    }
}

/// Division rounding towards zero.
pub open spec fn trunc_div(a: int, b: int) -> int {
    if (a < 0) == (b < 0) {
        magnitude(a) / magnitude(b)
    } else {
        -(magnitude(a) / magnitude(b))
    }
}

/// The two determinants of the machine's system of equations (Cramer's rule).
pub open spec fn determinant(m: Machine) -> int {
    m.1.y * m.0.x - m.1.x * m.0.y
}

pub open spec fn b_numerator(m: Machine) -> int {
    m.2.y * m.0.x - m.2.x * m.0.y
}

/// The presses of B and of A that the rounding solution of the system gives.
pub open spec fn b_presses(m: Machine) -> int {
    trunc_div(b_numerator(m), determinant(m))
}

pub open spec fn a_presses(m: Machine) -> int {
    trunc_div(m.2.x - b_presses(m) * m.1.x, m.0.x as int)
}

/// Every intermediate value of the computation fits in an `isize`.
pub open spec fn machine_fits(m: Machine) -> bool {
    let (a, b, t) = m;
    let q = b_presses(m);
    let p = a_presses(m);
    &&& fits_isize(t.y * a.x) && fits_isize(t.x * a.y) && fits_isize(b_numerator(m))
    &&& fits_isize(b.y * a.x) && fits_isize(b.x * a.y) && fits_isize(determinant(m))
    &&& fits_isize(q) && fits_isize(q * b.x) && fits_isize(t.x - q * b.x) && fits_isize(p)
    &&& b_numerator(m) > isize::MIN && determinant(m) > isize::MIN
    &&& t.x - q * b.x > isize::MIN && a.x > isize::MIN
    &&& fits_isize(a.x * p) && fits_isize(b.x * q) && fits_isize(a.x * p + b.x * q)
    &&& fits_isize(a.y * p) && fits_isize(b.y * q) && fits_isize(a.y * p + b.y * q)
    &&& fits_isize(p * 3) && fits_isize(p * 3 + q)
}

proof fn lemma_trunc_div_exact(x: int, d: int, q: int)
    requires
        d != 0,
        x == d * q,
    ensures
        trunc_div(x, d) == q,
{
    let ad = magnitude(d);
    let aq = magnitude(q);
    assert(magnitude(x) == ad * aq) by (nonlinear_arith)
        requires
            x == d * q,
            ad == magnitude(d),
            aq == magnitude(q),
    ;
    vstd::arithmetic::div_mod::lemma_div_by_multiple(aq, ad);
    assert(aq * ad == ad * aq) by (nonlinear_arith);
    if q != 0 {
        assert((x < 0) == ((d < 0) != (q < 0))) by (nonlinear_arith)
            requires
                x == d * q,
                d != 0,
                q != 0,
        ;
    }
}

/// `x / y` rounded towards zero, as Rust's `/` on signed integers does.
fn div_toward_zero(x: isize, y: isize) -> (r: isize)
    requires
        y != 0,
        x > isize::MIN,
        y > isize::MIN,
    ensures
        r == trunc_div(x as int, y as int),
{
    let ax: isize = if x < 0 {
        -x
    } else {
        x
    };
    let ay: isize = if y < 0 {
        -y
    } else {
        y
    };
    let q = ax / ay;
    assert(q == magnitude(x as int) / magnitude(y as int));
    if (x < 0) == (y < 0) {
        q
    } else {
        -q
    }
}

/// Tokens to win the prize: three per press of A and one per press of B, where some whole
/// numbers of presses land exactly on it (with a non-zero determinant there is at most one
/// such pair); `None` where none do.
pub fn find_target(machine: &Machine) -> (r: Option<usize>)
    requires
        determinant(*machine) != 0,
        machine.0.x != 0,
        machine_fits(*machine),
    ensures
        r is Some <==> exists|p: int, q: int| lands(*machine, p, q),
        forall|p: int, q: int|
            lands(*machine, p, q) ==> p == a_presses(*machine) && q == b_presses(*machine)
                && r == Some(#[verifier::truncate] ((p * 3 + q) as usize)),
{
    let (a_button, b_button, target) = *machine;
    let ghost m = *machine;
    let den = b_button.y * a_button.x - b_button.x * a_button.y;
    let num = target.y * a_button.x - target.x * a_button.y;
    let b = div_toward_zero(num, den);
    assert(b == b_presses(m));
    let rest = target.x - b * b_button.x;
    assert(rest == m.2.x - b_presses(m) * m.1.x);
    let a = div_toward_zero(rest, a_button.x);
    assert(a == a_presses(m));
    proof {
        assert forall|p: int, q: int| lands(m, p, q) implies p == a_presses(m) && q == b_presses(
            m,
        ) by {
            assert(b_numerator(m) == determinant(m) * q) by (nonlinear_arith)
                requires
                    lands(m, p, q),
            ;
            lemma_trunc_div_exact(b_numerator(m), determinant(m), q);
            assert(m.2.x - q * m.1.x == m.0.x * p) by (nonlinear_arith)
                requires
                    lands(m, p, q),
            ;
            lemma_trunc_div_exact(m.2.x - q * m.1.x, m.0.x as int, p);
        }
    }
    if (a_button.x * a + b_button.x * b) == target.x && (a_button.y * a + b_button.y * b)
        == target.y {
        assert(lands(m, a as int, b as int));
        Some(#[verifier::truncate] ((a * 3 + b) as usize))
    } else {
        None
    }
}

} // verus!

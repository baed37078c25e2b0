//! Robots that patrol a grid whose edges wrap around.
use vstd::prelude::*;
use crate::point::{fits_isize, Point};

verus! {

/// A robot on a wrapping grid: where it stands and how far it moves each second.
#[derive(Clone, Copy, Debug, PartialEq, Eq)]
pub struct Robot {
    pub pos: Point,
    pub vel: Point,
}

/// Where a robot stands after `ticks` seconds on a grid `width` by `height` that wraps
/// at its edges.
pub open spec fn position_after(r: Robot, ticks: int, width: int, height: int) -> (int, int) {
    ((r.pos.x + r.vel.x * ticks) % width, (r.pos.y + r.vel.y * ticks) % height)
}

/// Moving `ticks` seconds from the robot's position stays in `isize`.
pub open spec fn tick_fits(r: Robot, ticks: int) -> bool {
    &&& fits_isize(r.vel.x * ticks)
    &&& fits_isize(r.vel.y * ticks)
    &&& fits_isize(r.pos.x + r.vel.x * ticks)
    &&& fits_isize(r.pos.y + r.vel.y * ticks)
}

impl Robot {
    /// The robot `ticks` seconds later, its position wrapped onto the grid.
    pub fn tick(&self, ticks: isize, width: usize, height: usize) -> (r: Robot)
        requires
            0 < width <= isize::MAX,
            0 < height <= isize::MAX,
            tick_fits(*self, ticks as int),
        ensures
            (r.pos.x as int, r.pos.y as int) == position_after(
                *self,
                ticks as int,
                width as int,
                height as int,
            ),
            r.vel == self.vel,
    {
        let pos = self.pos.add(&self.vel.mul(ticks));
        Robot { pos: pos.bounded(width as isize, height as isize), vel: self.vel }
    }
}

/// Quadrant of a cell on a grid `width` by `height`: 0 top left, 1 bottom left, 2 top right,
/// 3 bottom right; `None` on the middle row or column.
pub open spec fn quadrant(p: (int, int), width: int, height: int) -> Option<int> {
    let mx = width / 2;
    let my = height / 2;
    if p.0 < mx && p.1 < my {
        Some(0)
    } else if p.0 < mx && p.1 > my {
        Some(1)
    } else if p.0 > mx && p.1 < my {
        Some(2)
    } else if p.0 > mx && p.1 > my {
        Some(3)
    } else {
        None
    }
}

/// How many of `robots` stand in quadrant `q` after a hundred seconds.
pub open spec fn count_in_quadrant(robots: Seq<Robot>, q: int, width: int, height: int) -> int
    decreases robots.len(),
{
    if robots.len() == 0 {
        0
    } else {
        count_in_quadrant(robots.drop_last(), q, width, height) + if quadrant(
            position_after(robots.last(), 100, width, height),
            width,
            height,
        ) == Some(q) {
            1int
        } else {
            0int
        }
    }
}

/// Robots in each quadrant after a hundred seconds: top left, bottom left, top right,
/// bottom right.
pub fn safety_factor(robots: &[Robot], grid_width: usize, grid_height: usize) -> (r: (
    usize,
    usize,
    usize,
    usize,
))
    requires
        0 < grid_width <= isize::MAX,
        0 < grid_height <= isize::MAX,
        forall|i: int| 0 <= i < robots@.len() ==> tick_fits(#[trigger] robots@[i], 100),
    ensures
        r.0 == count_in_quadrant(robots@, 0, grid_width as int, grid_height as int),
        r.1 == count_in_quadrant(robots@, 1, grid_width as int, grid_height as int),
        r.2 == count_in_quadrant(robots@, 2, grid_width as int, grid_height as int),
        r.3 == count_in_quadrant(robots@, 3, grid_width as int, grid_height as int),
{
    let ghost w = grid_width as int;
    let ghost h = grid_height as int;
    let quadrant_width = (grid_width / 2) as isize;
    let quadrant_height = (grid_height / 2) as isize;
    let mut quadrants: (usize, usize, usize, usize) = (0, 0, 0, 0);
    let mut i: usize = 0;
    while i < robots.len()
        invariant
            0 < grid_width <= isize::MAX,
            0 < grid_height <= isize::MAX,
            w == grid_width,
            h == grid_height,
            quadrant_width == w / 2,
            quadrant_height == h / 2,
            forall|i: int| 0 <= i < robots@.len() ==> tick_fits(#[trigger] robots@[i], 100),
            i <= robots@.len(),
            quadrants.0 == count_in_quadrant(robots@.take(i as int), 0, w, h),
            quadrants.1 == count_in_quadrant(robots@.take(i as int), 1, w, h),
            quadrants.2 == count_in_quadrant(robots@.take(i as int), 2, w, h),
            quadrants.3 == count_in_quadrant(robots@.take(i as int), 3, w, h),
            quadrants.0 <= i && quadrants.1 <= i && quadrants.2 <= i && quadrants.3 <= i,
        decreases robots@.len() - i,
    {
        let robot = robots[i];
        let end = robot.tick(100, grid_width, grid_height);
        let ghost pre = robots@.take(i as int + 1);
        assert(pre.drop_last() =~= robots@.take(i as int));
        assert(pre.last() == robot);
        let x = end.pos.x;
        let y = end.pos.y;
        if x < quadrant_width {
            if y < quadrant_height {
                quadrants.0 = quadrants.0 + 1;
            } else if y > quadrant_height {
                quadrants.1 = quadrants.1 + 1;
            }
        } else if x > quadrant_width {
            if y < quadrant_height {
                quadrants.2 = quadrants.2 + 1;
            } else if y > quadrant_height {
                quadrants.3 = quadrants.3 + 1;
            }
        }
        i = i + 1;
    }
    assert(robots@.take(i as int) =~= robots@);
    quadrants
}

/// `x % m` rounded towards zero, as Rust's `%` on signed integers does, for `m > 0`.
pub open spec fn trunc_rem(x: int, m: int) -> int {
    if x >= 0 {
        x % m
    } else {
        -((-x) % m)
    }
}

/// Where each robot stands after `steps` seconds on a grid `width` by `height`.
pub fn move_robots(robots: &[Robot], width: isize, height: isize, steps: isize) -> (r: Vec<Point>)
    requires
        width > 0,
        height > 0,
        steps > isize::MIN,
        forall|i: int|
            0 <= i < robots@.len() ==> {
                let rb = #[trigger] robots@[i];
                &&& fits_isize(trunc_rem(steps as int, width as int) * rb.vel.x)
                &&& fits_isize(trunc_rem(steps as int, height as int) * rb.vel.y)
                &&& fits_isize(rb.pos.x + trunc_rem(steps as int, width as int) * rb.vel.x)
                &&& fits_isize(rb.pos.y + trunc_rem(steps as int, height as int) * rb.vel.y)
            },
    ensures
        r@.len() == robots@.len(),
        forall|i: int|
            0 <= i < robots@.len() ==> (#[trigger] r@[i].x as int, r@[i].y as int)
                == position_after(robots@[i], steps as int, width as int, height as int),
{
    let steps_x = if steps >= 0 {
        steps % width
    } else {
        -((-steps) % width)
    };
    let steps_y = if steps >= 0 {
        steps % height
    } else {
        -((-steps) % height)
    };
    let mut out: Vec<Point> = Vec::new();
    let mut i: usize = 0;
    while i < robots.len()
        invariant
            width > 0,
            height > 0,
            steps_x == trunc_rem(steps as int, width as int),
            steps_y == trunc_rem(steps as int, height as int),
            forall|i: int|
                0 <= i < robots@.len() ==> {
                    let rb = #[trigger] robots@[i];
                    &&& fits_isize(trunc_rem(steps as int, width as int) * rb.vel.x)
                    &&& fits_isize(trunc_rem(steps as int, height as int) * rb.vel.y)
                    &&& fits_isize(rb.pos.x + trunc_rem(steps as int, width as int) * rb.vel.x)
                    &&& fits_isize(rb.pos.y + trunc_rem(steps as int, height as int) * rb.vel.y)
                },
            i <= robots@.len(),
            out@.len() == i,
            forall|j: int|
                0 <= j < i ==> (#[trigger] out@[j].x as int, out@[j].y as int) == position_after(
                    robots@[j],
                    steps as int,
                    width as int,
                    height as int,
                ),
        decreases robots@.len() - i,
    {
        let robot = robots[i];
        let moved = Point::new(
            robot.pos.x + steps_x * robot.vel.x,
            robot.pos.y + steps_y * robot.vel.y,
        );
        let p = moved.bounded(width, height);
        proof {
            lemma_wrap_steps(robot.pos.x as int, robot.vel.x as int, steps as int, width as int);
            lemma_wrap_steps(robot.pos.y as int, robot.vel.y as int, steps as int, height as int);
        }
        out.push(p);
        i = i + 1;
    }
    out
}

/// Taking the steps modulo the grid's size first lands on the same cell.
proof fn lemma_wrap_steps(p: int, v: int, s: int, m: int)
    requires
        m > 0,
    ensures
        (p + trunc_rem(s, m) * v) % m == (p + v * s) % m,
{
    let r = trunc_rem(s, m);
    let k = if s >= 0 {
        s / m
    } else {
        -((-s) / m)
    };
    assert(s == k * m + r) by {
        if s >= 0 {
            vstd::arithmetic::div_mod::lemma_fundamental_div_mod(s, m);
            assert(m * (s / m) == (s / m) * m) by (nonlinear_arith);
        } else {
            vstd::arithmetic::div_mod::lemma_fundamental_div_mod(-s, m);
            assert(m * ((-s) / m) == -(k * m)) by (nonlinear_arith)
                requires
                    k == -((-s) / m),
            ;
        }
    }
    assert(p + v * s == (p + r * v) + (k * v) * m) by (nonlinear_arith)
        requires
            s == k * m + r,
    ;
    vstd::arithmetic::div_mod::lemma_mod_multiples_vanish(k * v, p + r * v, m);
}

} // verus!

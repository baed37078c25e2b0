//! Grid cells and headings.
use vstd::prelude::*;

verus! {

/// A heading on a grid whose rows grow downwards.
#[derive(Clone, Copy, Debug, PartialEq, Eq, Structural)]
pub enum Direction {
    North,
    East,
    South,
    West,
}

impl Direction {
    /// The headings that do not turn back: straight on first, then the two turns.
    pub fn no_uturn(&self) -> (r: [Direction; 3])
        ensures
            r@ == (match *self {
                Direction::North => seq![Direction::North, Direction::East, Direction::West],
                Direction::East => seq![Direction::East, Direction::North, Direction::South],
                Direction::West => seq![Direction::West, Direction::North, Direction::South],
                Direction::South => seq![Direction::South, Direction::West, Direction::East],
            }),
    {
        let r = match self {
            Direction::North => [Direction::North, Direction::East, Direction::West],
            Direction::East => [Direction::East, Direction::North, Direction::South],
            Direction::West => [Direction::West, Direction::North, Direction::South],
            Direction::South => [Direction::South, Direction::West, Direction::East],
        };
        assert(r@ =~= (match *self {
            Direction::North => seq![Direction::North, Direction::East, Direction::West],
            Direction::East => seq![Direction::East, Direction::North, Direction::South],
            Direction::West => seq![Direction::West, Direction::North, Direction::South],
            Direction::South => seq![Direction::South, Direction::West, Direction::East],
        }));
        r
    }

    /// The unit step of a heading, as `(dx, dy)`.
    pub open spec fn offset(self) -> (int, int) {
        match self {
            Direction::North => (0, -1),
            Direction::East => (1, 0),
            Direction::South => (0, 1),
            Direction::West => (-1, 0),
        }
    }
}

/// A cell of a grid, `y` counted downwards.
#[derive(Clone, Copy, Debug, PartialEq, Eq, Structural, PartialOrd, Ord, Hash)]
pub struct Point {
    pub x: isize,
    pub y: isize,
}

pub open spec fn fits_isize(v: int) -> bool {
    isize::MIN <= v <= isize::MAX
}

impl Point {
    pub fn new(x: isize, y: isize) -> (r: Point)
        ensures
            r.x == x,
            r.y == y,
    {
        Point { x, y }
    }

    /// Componentwise sum.
    pub fn add(&self, rhs: &Point) -> (r: Point)
        requires
            fits_isize(self.x + rhs.x),
            fits_isize(self.y + rhs.y),
        ensures
            r.x == self.x + rhs.x,
            r.y == self.y + rhs.y,
    {
        Point { x: self.x + rhs.x, y: self.y + rhs.y }
    }

    /// Componentwise difference.
    pub fn sub(&self, rhs: &Point) -> (r: Point)
        requires
            fits_isize(self.x - rhs.x),
            fits_isize(self.y - rhs.y),
        ensures
            r.x == self.x - rhs.x,
            r.y == self.y - rhs.y,
    {
        Point { x: self.x - rhs.x, y: self.y - rhs.y }
    }

    /// Both coordinates times `rhs`.
    pub fn mul(&self, rhs: isize) -> (r: Point)
        requires
            fits_isize(self.x * rhs),
            fits_isize(self.y * rhs),
        ensures
            r.x == self.x * rhs,
            r.y == self.y * rhs,
    {
        Point { x: self.x * rhs, y: self.y * rhs }
    }

    /// The step from `self` to `other`.
    pub fn delta(&self, other: &Self) -> (r: Point)
        requires
            fits_isize(other.x - self.x),
            fits_isize(other.y - self.y),
        ensures
            r.x == other.x - self.x,
            r.y == other.y - self.y,
    {
        other.sub(self)
    }

    /// The `k`-th point, counted from zero, of the line that leaves `self` away from
    /// `other` in steps of the distance between them: `self - (k + 1) * (other - self)`.
    pub fn negative_delta(&self, other: &Self, k: usize) -> (r: Point)
        requires
            fits_isize(other.x - self.x),
            fits_isize(other.y - self.y),
            forall|j: int|
                0 <= j <= k ==> #[trigger] fits_isize(self.x - (j + 1) * (other.x - self.x))
                    && fits_isize(self.y - (j + 1) * (other.y - self.y)),
        ensures
            r.x == self.x - (k + 1) * (other.x - self.x),
            r.y == self.y - (k + 1) * (other.y - self.y),
    {
        let d = self.delta(other);
        assert(fits_isize(self.x - (0 + 1) * (other.x - self.x)));
        assert(fits_isize(self.y - (0 + 1) * (other.y - self.y)));
        assert((0 + 1) * (other.x - self.x) == d.x && (0 + 1) * (other.y - self.y) == d.y) by (nonlinear_arith)
            requires
                d.x == other.x - self.x,
                d.y == other.y - self.y,
        ;
        let mut p = self.sub(&d);
        let mut i: usize = 0;
        while i < k
            invariant
                i <= k,
                d.x == other.x - self.x,
                d.y == other.y - self.y,
                forall|j: int|
                    0 <= j <= k ==> #[trigger] fits_isize(self.x - (j + 1) * (other.x - self.x))
                        && fits_isize(self.y - (j + 1) * (other.y - self.y)),
                p.x == self.x - (i + 1) * (other.x - self.x),
                p.y == self.y - (i + 1) * (other.y - self.y),
            decreases k - i,
        {
            assert(fits_isize(self.x - (i + 1 + 1) * (other.x - self.x)));
            assert(p.x - d.x == self.x - (i + 1 + 1) * (other.x - self.x)) by (nonlinear_arith)
                requires
                    d.x == other.x - self.x,
                    p.x == self.x - (i + 1) * (other.x - self.x),
            ;
            assert(p.y - d.y == self.y - (i + 1 + 1) * (other.y - self.y)) by (nonlinear_arith)
                requires
                    d.y == other.y - self.y,
                    p.y == self.y - (i + 1) * (other.y - self.y),
            ;
            p = p.sub(&d);
            i = i + 1;
        }
        p
    }

    /// The `k`-th point, counted from zero, of the line that leaves `self` through
    /// `other` in steps of the distance between them: `self + (k + 1) * (other - self)`.
    pub fn positive_delta(&self, other: &Self, k: usize) -> (r: Point)
        requires
            fits_isize(other.x - self.x),
            fits_isize(other.y - self.y),
            forall|j: int|
                0 <= j <= k ==> #[trigger] fits_isize(self.x + (j + 1) * (other.x - self.x))
                    && fits_isize(self.y + (j + 1) * (other.y - self.y)),
        ensures
            r.x == self.x + (k + 1) * (other.x - self.x),
            r.y == self.y + (k + 1) * (other.y - self.y),
    {
        let d = self.delta(other);
        assert(fits_isize(self.x + (0 + 1) * (other.x - self.x)));
        assert(fits_isize(self.y + (0 + 1) * (other.y - self.y)));
        assert((0 + 1) * (other.x - self.x) == d.x && (0 + 1) * (other.y - self.y) == d.y) by (nonlinear_arith)
            requires
                d.x == other.x - self.x,
                d.y == other.y - self.y,
        ;
        let mut p = self.add(&d);
        let mut i: usize = 0;
        while i < k
            invariant
                i <= k,
                d.x == other.x - self.x,
                d.y == other.y - self.y,
                forall|j: int|
                    0 <= j <= k ==> #[trigger] fits_isize(self.x + (j + 1) * (other.x - self.x))
                        && fits_isize(self.y + (j + 1) * (other.y - self.y)),
                p.x == self.x + (i + 1) * (other.x - self.x),
                p.y == self.y + (i + 1) * (other.y - self.y),
            decreases k - i,
        {
            assert(fits_isize(self.x + (i + 1 + 1) * (other.x - self.x)));
            assert(p.x + d.x == self.x + (i + 1 + 1) * (other.x - self.x)) by (nonlinear_arith)
                requires
                    d.x == other.x - self.x,
                    p.x == self.x + (i + 1) * (other.x - self.x),
            ;
            assert(p.y + d.y == self.y + (i + 1 + 1) * (other.y - self.y)) by (nonlinear_arith)
                requires
                    d.y == other.y - self.y,
                    p.y == self.y + (i + 1) * (other.y - self.y),
            ;
            p = p.add(&d);
            i = i + 1;
        }
        p
    }

    /// One step towards `direction`.
    pub fn navigate(&self, direction: &Direction) -> (r: Self)
        requires
            fits_isize(self.x + direction.offset().0),
            fits_isize(self.y + direction.offset().1),
        ensures
            r.x == self.x + direction.offset().0,
            r.y == self.y + direction.offset().1,
    {
        match direction {
            Direction::North => self.add(&Point::new(0, -1)),
            Direction::East => self.add(&Point::new(1, 0)),
            Direction::South => self.add(&Point::new(0, 1)),
            Direction::West => self.add(&Point::new(-1, 0)),
        }
    }

    /// The point beyond `other`, as far from it as `other` is from `self`.
    pub fn antinode(&self, other: &Self) -> (r: Point)
        requires
            fits_isize(2 * (other.x - self.x)),
            fits_isize(2 * (other.y - self.y)),
            fits_isize(self.x + 2 * (other.x - self.x)),
            fits_isize(self.y + 2 * (other.y - self.y)),
        ensures
            r.x == self.x + 2 * (other.x - self.x),
            r.y == self.y + 2 * (other.y - self.y),
    {
        let twice_distance = self.delta(other).mul(2);
        self.add(&twice_distance)
    }

    /// Position of the cell in a row-major grid `width` cells wide.
    pub fn index(&self, width: &usize) -> (r: usize)
        requires
            *width <= isize::MAX,
            fits_isize(self.y * *width),
            0 <= self.y * *width + self.x <= isize::MAX,
        ensures
            r == self.y * *width + self.x,
    {
        (self.y * *width as isize + self.x) as usize
    }

    /// Whether the cell lies on a grid `width` by `height`.
    pub fn inbounds(&self, width: &usize, height: &usize) -> (r: bool)
        ensures
            r == (0 <= self.x < *width && 0 <= self.y < *height),
    {
        self.x >= 0 && (self.x as usize) < *width && self.y >= 0 && (self.y as usize) < *height
    }

    /// The four cells that share a side with this one: above, below, left, right.
    pub fn cardinal_neighbours(&self) -> (r: [Point; 4])
        requires
            isize::MIN < self.x < isize::MAX,
            isize::MIN < self.y < isize::MAX,
        ensures
            r@ == seq![
                Point { x: self.x, y: (self.y - 1) as isize },
                Point { x: self.x, y: (self.y + 1) as isize },
                Point { x: (self.x - 1) as isize, y: self.y },
                Point { x: (self.x + 1) as isize, y: self.y },
            ],
    {
        let r = [
            Point::new(self.x, self.y - 1),
            Point::new(self.x, self.y + 1),
            Point::new(self.x - 1, self.y),
            Point::new(self.x + 1, self.y),
        ];
        assert(r@ =~= seq![
            Point { x: self.x, y: (self.y - 1) as isize },
            Point { x: self.x, y: (self.y + 1) as isize },
            Point { x: (self.x - 1) as isize, y: self.y },
            Point { x: (self.x + 1) as isize, y: self.y },
        ]);
        r
    }

    /// The cell wrapped onto a torus `width` by `height`.
    pub fn bounded(&self, width: isize, height: isize) -> (r: Self)
        requires
            width > 0,
            height > 0,
        ensures
            r.x == self.x % width,
            r.y == self.y % height,
            0 <= r.x < width,
            0 <= r.y < height,
    {
        let x = match self.x.checked_rem_euclid(width) {
            Some(v) => v,
            None => 0,
        };
        let y = match self.y.checked_rem_euclid(height) {
            Some(v) => v,
            None => 0,
        };
        Point { x, y }
    }
}

} // verus!

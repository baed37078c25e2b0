//! The two keypad shapes, and the keys on them.
use vstd::prelude::*;

verus! {

/// A button on the directional keypad that every actuator above the bottom one presses.
#[derive(Clone, Copy, PartialEq, Eq, Debug)]
pub enum DirKey {
    Up,
    Activate,
    Left,
    Down,
    Right,
}

impl DirKey {
    /// Position of the key in a cost table's rows and columns.
    pub open spec fn idx(self) -> int {
        match self {
            DirKey::Up => 0,
            DirKey::Activate => 1,
            DirKey::Left => 2,
            DirKey::Down => 3,
            DirKey::Right => 4,
        }
    }

    /// Position of the key in a cost table's rows and columns.
    pub fn index(&self) -> (r: usize)
        ensures
            r == self.idx(),
    {
        match self {
            DirKey::Up => 0,
            DirKey::Activate => 1,
            DirKey::Left => 2,
            DirKey::Down => 3,
            DirKey::Right => 4,
        }
    }
}

/// One of the two fixed keypad shapes. Keys are numbered: on the numeric pad the
/// digits are their own numbers and Activate is 10; on the directional pad the
/// numbers are those of `DirKey::idx`.
#[derive(Clone, Copy, PartialEq, Eq, Debug)]
pub enum Layout {
    Numeric,
    Directional,
}

impl Layout {
    /// Number of keys: they are numbered from 0.
    pub open spec fn key_count(self) -> int {
        match self {
            Layout::Numeric => 11,
            Layout::Directional => 5,
        }
    }

    /// Row of the missing cell; it always lies in column 0.
    pub open spec fn hole_row(self) -> int {
        match self {
            Layout::Numeric => 3,
            Layout::Directional => 0,
        }
    }

    pub open spec fn hole(self) -> (int, int) {
        (0, self.hole_row())
    }

    /// Number of rows of the keypad's rectangle (it is always three columns wide).
    pub open spec fn rows(self) -> int {
        match self {
            Layout::Numeric => 4,
            Layout::Directional => 2,
        }
    }

    /// Grid coordinate `(column, row)` of key `k`, rows counted from the top. The numeric
    /// pad reads `7 8 9 / 4 5 6 / 1 2 3 / _ 0 A`, the directional pad `_ ^ A / < v >`,
    /// `_` being the hole.
    pub open spec fn pos(self, k: int) -> (int, int) {
        match self {
            Layout::Numeric => if k == 0 {
                (1, 3)
            } else if k == 10 {
                (2, 3)
            } else {
                ((k - 1) % 3, 2 - (k - 1) / 3)
            },
            Layout::Directional => if k == 0 {
                (1, 0)
            } else if k == 1 {
                (2, 0)
            } else {
                (k - 2, 1)
            },
        }
    }

    /// Number of keys on this keypad.
    pub fn key_count_exec(&self) -> (r: usize)
        ensures
            r == self.key_count(),
    {
        match self {
            Layout::Numeric => 11,
            Layout::Directional => 5,
        }
    }

    /// Row of this keypad's hole.
    pub fn hole_row_exec(&self) -> (r: usize)
        ensures
            r == self.hole_row(),
    {
        match self {
            Layout::Numeric => 3,
            Layout::Directional => 0,
        }
    }

    /// Coordinate of key `k` on this keypad.
    pub fn position(&self, k: usize) -> (r: (usize, usize))
        requires
            k < self.key_count(),
        ensures
            r.0 == self.pos(k as int).0,
            r.1 == self.pos(k as int).1,
    {
        match self {
            Layout::Numeric => if k == 0 {
                (1, 3)
            } else if k == 10 {
                (2, 3)
            } else {
                ((k - 1) % 3, 2 - (k - 1) / 3)
            },
            Layout::Directional => if k == 0 {
                (1, 0)
            } else if k == 1 {
                (2, 0)
            } else {
                (k - 2, 1)
            },
        }
    }
}

impl Layout {
    /// Whether `(x, y)` is a cell of the keypad's rectangle other than the hole.
    pub open spec fn is_key_cell(self, x: int, y: int) -> bool {
        0 <= x < 3 && 0 <= y < self.rows() && (x, y) != self.hole()
    }

    /// The key at cell `(x, y)`, or `None` for the hole and for cells off the keypad.
    pub fn key_at(&self, x: usize, y: usize) -> (r: Option<usize>)
        ensures
            r matches Some(k) ==> k < self.key_count() && self.pos(k as int) == (x as int, y as int),
            r is None ==> forall|k: int|
                0 <= k < self.key_count() ==> #[trigger] self.pos(k) != (x as int, y as int),
            r is None <==> !self.is_key_cell(x as int, y as int),
    {
        proof {
            if self.is_key_cell(x as int, y as int) {
                lemma_layout_covers(*self, x as int, y as int);
            }
        }
        let n = self.key_count_exec();
        let mut k: usize = 0;
        while k < n
            invariant
                n == self.key_count(),
                k <= n,
                forall|j: int| 0 <= j < k ==> #[trigger] self.pos(j) != (x as int, y as int),
            decreases n - k,
        {
            let (px, py) = self.position(k);
            if px == x && py == y {
                return Some(k);
            }
            k = k + 1;
        }
        None
    }
}

pub(crate) proof fn lemma_layout_cells(layout: Layout, k: int)
    requires
        0 <= k < layout.key_count(),
    ensures
        0 <= layout.pos(k).0 <= 2,
        0 <= layout.pos(k).1 < layout.rows(),
        layout.pos(k) != layout.hole(),
        layout.hole_row() == 0 || layout.hole_row() == layout.rows() - 1,
{
    if layout == Layout::Numeric {
        assert(k == 0 || k == 1 || k == 2 || k == 3 || k == 4 || k == 5 || k == 6 || k == 7 || k
            == 8 || k == 9 || k == 10);
    }
}

/// Each key of a keypad has a cell of its own, and the hole has none.
pub proof fn lemma_layout_bijection(layout: Layout, a: int, b: int)
    requires
        0 <= a < layout.key_count(),
        0 <= b < layout.key_count(),
    ensures
        layout.pos(a) != layout.hole(),
        layout.pos(a) == layout.pos(b) ==> a == b,
{
    lemma_layout_cells(layout, a);
    if layout == Layout::Numeric {
        assert(a == 0 || a == 1 || a == 2 || a == 3 || a == 4 || a == 5 || a == 6 || a == 7 || a
            == 8 || a == 9 || a == 10);
        assert(b == 0 || b == 1 || b == 2 || b == 3 || b == 4 || b == 5 || b == 6 || b == 7 || b
            == 8 || b == 9 || b == 10);
    }
}

/// Every cell of a keypad's rectangle but the hole holds a key.
pub proof fn lemma_layout_covers(layout: Layout, x: int, y: int)
    requires
        layout.is_key_cell(x, y),
    ensures
        exists|k: int| 0 <= k < layout.key_count() && #[trigger] layout.pos(k) == (x, y),
{
    let k = match layout {
        Layout::Numeric => if y == 3 {
            if x == 1 {
                0
            } else {
                10
            }
        } else {
            (2 - y) * 3 + x + 1
        },
        Layout::Directional => if y == 0 {
            x - 1
        } else {
            x + 2
        },
    };
    if layout == Layout::Numeric && y < 3 {
        assert((k - 1) % 3 == x && (k - 1) / 3 == 2 - y) by {
            assert(y == 0 || y == 1 || y == 2);
            assert(x == 0 || x == 1 || x == 2);
        }
    }
    assert(layout.pos(k) == (x, y));
}

} // verus!

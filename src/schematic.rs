//! Lock and key schematics as column heights.
use vstd::prelude::*;

verus! {

/// A lock or a key, as the height of each of its pin columns.
pub struct Schematic {
    pub is_key: bool,
    pub heights: Vec<usize>,
}

/// Column heights that a lock and a key may add up to without overlapping.
pub const SPACE: usize = 7;

impl Schematic {
    /// Whether one of the two is a key and the other a lock, and in every column that both
    /// have the two heights add up to at most `SPACE`.
    pub fn fits(&self, other: &Schematic) -> (r: bool)
        ensures
            r == ((self.is_key != other.is_key) && forall|i: int|
                0 <= i < self.heights@.len() && 0 <= i < other.heights@.len()
                    ==> #[trigger] self.heights@[i] + other.heights@[i] <= SPACE),
    {
        if self.is_key == other.is_key {
            return false;
        }
        let mut i: usize = 0;
        while i < self.heights.len() && i < other.heights.len()
            invariant
                i <= self.heights@.len(),
                i <= other.heights@.len(),
                forall|k: int| 0 <= k < i ==> #[trigger] self.heights@[k] + other.heights@[k] <= SPACE,
            decreases self.heights@.len() - i,
        {
            let a = self.heights[i];
            let b = other.heights[i];
            if a > SPACE || b > SPACE - a {
                return false;
            }
            i = i + 1;
        }
        true
    }
}

} // verus!

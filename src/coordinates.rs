use vstd::prelude::*;

verus! {

/// A cell of the grid: zero-based row and column.
#[derive(Clone, Copy, Debug, PartialEq, Eq, Structural)]
pub struct Coordinates {
    pub row: usize,
    pub col: usize,
}

/// The distance between two integers.
pub open spec fn dist(a: int, b: int) -> int {
    if a >= b {
        a - b
    } else {
        b - a
    }
}

impl Coordinates {
    /// The two cells differ by one step along a row or along a column, not both:
    /// the only pairs between which a tile may slide.
    pub open spec fn orthogonal_neighbours(self, other: Coordinates) -> bool {
        (self.row == other.row && dist(self.col as int, other.col as int) == 1) || (self.col
            == other.col && dist(self.row as int, other.row as int) == 1)
    }

    /// The cell at `row`, `col`.
    pub fn new(row: usize, col: usize) -> (r: Coordinates)
        ensures
            r.row == row,
            r.col == col,
    {
        Coordinates { row, col }
    }

    pub fn is_same_row(&self, other: Self) -> (r: bool)
        ensures
            r == (self.row == other.row),
    {
        self.row == other.row
    }

    pub fn is_same_col(&self, other: Self) -> (r: bool)
        ensures
            r == (self.col == other.col),
    {
        self.col == other.col
    }

    /// The rows differ by exactly one, whatever the columns.
    pub fn is_adjacent_row(&self, other: Self) -> (r: bool)
        ensures
            r == (dist(self.row as int, other.row as int) == 1),
    {
        if self.row >= other.row {
            self.row - other.row == 1
        } else {
            other.row - self.row == 1
        }
    }

    /// The columns differ by exactly one, whatever the rows.
    pub fn is_adjacent_col(&self, other: Self) -> (r: bool)
        ensures
            r == (dist(self.col as int, other.col as int) == 1),
    {
        if self.col >= other.col {
            self.col - other.col == 1
        } else {
            other.col - self.col == 1
        }
    }
}

} // verus!

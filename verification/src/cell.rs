//! Cells of the board and the two horizontal directions.

use vstd::prelude::*;

verus! {

/// Number of rows of the board. Row 0 is the floor.
pub const ROWS: usize = 10;

/// Number of columns of the board.
pub const COLUMNS: usize = 5;

/// A cell, by column `x` and row `y`.
#[derive(Clone, Copy, PartialEq, Eq, Structural, Debug)]
pub struct Position {
    pub x: usize,
    pub y: usize,
}

/// A horizontal direction, named after the key that asks for it: `Right`
/// leads towards column 0 and `Left` towards the last column.
#[derive(Clone, Copy, PartialEq, Eq, Structural, Debug)]
pub enum Direction {
    Right,
    Left,
}

impl Position {
    /// Whether the cell lies on the board.
    pub open spec fn on_board(self) -> bool {
        self.x < COLUMNS && self.y < ROWS
    }

    /// Tests whether the cell lies on the board.
    pub fn is_on_board(&self) -> (b: bool)
        ensures
            b == self.on_board(),
    {
        self.x < COLUMNS && self.y < ROWS
    }
}

} // verus!

use vstd::prelude::*;

verus! {

/// Orientation of a move on the board.
#[derive(Clone, Copy, Debug, PartialEq, Eq, Structural)]
pub enum Direction {
    Horizontal,
    Vertical,
}

/// A player action: place `word` starting at `(x, y)` in `direction`.
/// Coordinates are zero-based; `(0, 0)` is the top-left cell.
pub struct Move {
    /// Column of the first letter of the word.
    pub x: u8,
    /// Row of the first letter of the word.
    pub y: u8,
    /// The word itself.
    pub word: String,
    /// The direction the word is being placed in.
    pub direction: Direction,
}

impl Move {
    /// Create a move.
    pub fn new(x: u8, y: u8, word: String, direction: Direction) -> (m: Move)
        ensures
            m.x == x,
            m.y == y,
            m.word@ == word@,
            m.direction == direction,
    {
        Move { x, y, word, direction }
    }

    /// Get the word.
    pub fn word(&self) -> (w: &str)
        ensures
            w@ == self.word@,
    {
        self.word.as_str()
    }

    /// Get the direction.
    pub fn direction(&self) -> (d: Direction)
        ensures
            d == self.direction,
    {
        self.direction
    }

    /// Get the column of the anchor.
    pub fn x(&self) -> (x: u8)
        ensures
            x == self.x,
    {
        self.x
    }

    /// Get the row of the anchor.
    pub fn y(&self) -> (y: u8)
        ensures
            y == self.y,
    {
        self.y
    }
}

} // verus!

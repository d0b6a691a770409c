use vstd::prelude::*;

verus! {

/// A game piece: a letter, the points it is worth, and whether it is a
/// wildcard (blank) whose displayed letter is bound when it is placed.
#[derive(Clone, Copy, Debug, PartialEq, Eq, Structural)]
pub struct Tile {
    pub letter: char,
    pub wildcard: bool,
    pub points: u8,
}

/// Point value a tile contributes to any sum: a wildcard always counts 0,
/// any other tile counts its printed point value.
pub open spec fn tile_value(t: Tile) -> int {
    if t.wildcard {
        0
    } else {
        t.points as int
    }
}

/// The tile as it sits on the board once placed as letter `c`: a wildcard
/// takes `c` as its bound letter, any other tile is unchanged.
pub open spec fn bind_tile(t: Tile, c: char) -> Tile {
    if t.wildcard {
        Tile { letter: c, ..t }
    } else {
        t
    }
}

impl Tile {
    /// Create a tile.
    pub fn new(letter: char, points: u8, wildcard: bool) -> (t: Tile)
        ensures
            t == (Tile { letter, wildcard, points }),
    {
        Tile { letter, wildcard, points }
    }

    /// Get the letter.
    pub fn letter(&self) -> (c: char)
        ensures
            c == self.letter,
    {
        self.letter
    }

    /// Get the wildcard flag.
    pub fn wildcard(&self) -> (w: bool)
        ensures
            w == self.wildcard,
    {
        self.wildcard
    }

    /// Get the amount of points it gives.
    pub fn points(&self) -> (p: u8)
        ensures
            p == self.points,
    {
        self.points
    }

    /// Bind the displayed letter; only a wildcard tile is changed.
    pub fn set_wildcard(&mut self, c: char)
        ensures
            *final(self) == bind_tile(*old(self), c),
    {
        if self.wildcard {
            self.letter = c;
        }
    }
}

} // verus!

use vstd::prelude::*;

use crate::bonuses::{LetterBonus, WordBonus, letter_factor, word_factor};
use crate::tile::Tile;

verus! {

/// One cell of the board: an optional placed tile and the two bonus classes
/// fixed at board construction.
#[derive(Clone, Copy, Debug)]
pub struct Spot {
    /// It might have a tile on it.
    pub tile: Option<Tile>,
    /// Bonus applicable to the letter placed here.
    pub bonus_letter: LetterBonus,
    /// Bonus applicable to a word covering this cell.
    pub bonus_word: WordBonus,
}

impl Spot {
    /// Create a new empty spot with no bonuses.
    pub fn new() -> (s: Spot)
        ensures
            s.tile is None,
            s.bonus_letter == LetterBonus::Plain,
            s.bonus_word == WordBonus::Plain,
    {
        Spot { tile: None, bonus_letter: LetterBonus::Plain, bonus_word: WordBonus::Plain }
    }

    /// Get the integer factors of the two bonuses, as `(letter, word)`.
    pub fn get_bonuses_value(&self) -> (r: (u32, u32))
        ensures
            r.0 == letter_factor(self.bonus_letter),
            r.1 == word_factor(self.bonus_word),
    {
        let letter: u32 = match self.bonus_letter {
            LetterBonus::Plain => 1,
            LetterBonus::Double => 2,
            LetterBonus::Triple => 3,
        };
        let word: u32 = match self.bonus_word {
            WordBonus::Plain => 1,
            WordBonus::Double => 2,
            WordBonus::Triple => 3,
        };
        (letter, word)
    }

    /// Get the two bonus classes, as `(letter, word)`.
    pub fn get_bonuses(&self) -> (r: (LetterBonus, WordBonus))
        ensures
            r.0 == self.bonus_letter,
            r.1 == self.bonus_word,
    {
        (self.bonus_letter, self.bonus_word)
    }
}

} // verus!

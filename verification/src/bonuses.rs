use vstd::prelude::*;

verus! {

/// Multiplier class applied to the letter placed on a cell.
#[derive(Clone, Copy, Debug, PartialEq, Eq, Structural)]
pub enum LetterBonus {
    Plain,
    Double,
    Triple,
}

/// Multiplier class applied to the whole word covering a cell.
#[derive(Clone, Copy, Debug, PartialEq, Eq, Structural)]
pub enum WordBonus {
    Plain,
    Double,
    Triple,
}

/// Integer factor of a letter bonus.
pub open spec fn letter_factor(b: LetterBonus) -> int {
    match b {
        LetterBonus::Plain => 1,
        LetterBonus::Double => 2,
        LetterBonus::Triple => 3,
    }
}

/// Integer factor of a word bonus.
pub open spec fn word_factor(b: WordBonus) -> int {
    match b {
        WordBonus::Plain => 1,
        WordBonus::Double => 2,
        WordBonus::Triple => 3,
    }
}

} // verus!

use vstd::prelude::*;

use crate::board::Board;
use crate::dico::Dico;
use crate::hand::{supply, Hand};
use crate::smove::Move;
use crate::tile::Tile;

verus! {

/// Why a proposed move was rejected.  Every rejection is retryable: the
/// board, the dictionary and the hand are left untouched.
#[derive(Clone, Copy, Debug, PartialEq, Eq, Structural)]
pub enum MoveError {
    /// The word is not in the dictionary.
    NotInDictionary,
    /// The word does not fit on the board or clashes with a placed letter.
    CannotPlace,
    /// The hand cannot supply the letters the move needs.
    MissingLetters,
    /// The move places no new tile at all.
    NoEffect,
}

/// Validate one proposed move through the whole pipeline: dictionary
/// membership, then board geometry and overlap, then the hand's letters.
/// On success the needed tiles are removed from the hand and returned,
/// ready for scoring and committing; on any rejection the hand is left
/// exactly as it was.
pub fn player_turn(board: &Board, dico: &Dico, hand: &mut Hand, mv: &Move) -> (r: Result<
    Vec<Tile>,
    MoveError,
>)
    requires
        board.wf(),
        dico.wf(),
        mv.x < 15,
        mv.y < 15,
    ensures
        ({
            let needed = board.needed_letters_spec(*mv);
            let resolved = supply(old(hand)@, needed);
            &&& !dico@.contains(mv.word@) ==> r == Err::<Vec<Tile>, MoveError>(
                MoveError::NotInDictionary,
            ) && final(hand)@ == old(hand)@
            &&& dico@.contains(mv.word@) && !board.can_place_spec(*mv) ==> r == Err::<
                Vec<Tile>,
                MoveError,
            >(MoveError::CannotPlace) && final(hand)@ == old(hand)@
            &&& dico@.contains(mv.word@) && board.can_place_spec(*mv) && resolved is None ==> r
                == Err::<Vec<Tile>, MoveError>(MoveError::MissingLetters) && final(hand)@ == old(
                hand,
            )@
            &&& dico@.contains(mv.word@) && board.can_place_spec(*mv) && resolved is Some
                && needed.len() == 0 ==> r == Err::<Vec<Tile>, MoveError>(MoveError::NoEffect)
                && final(hand)@ == old(hand)@
            &&& dico@.contains(mv.word@) && board.can_place_spec(*mv) && resolved is Some
                && needed.len() > 0 ==> r is Ok && r->Ok_0@ == resolved.unwrap().0 && final(hand)@
                == resolved.unwrap().1
        }),
{
    if !dico.exists_word(mv.word()) {
        return Err(MoveError::NotInDictionary);
    }
    if !board.can_place(mv) {
        return Err(MoveError::CannotPlace);
    }
    let letters = board.needed_letters(mv);
    if !hand.contains(&letters) {
        return Err(MoveError::MissingLetters);
    }
    match hand.remove(&letters) {
        None => Err(MoveError::NoEffect),
        Some(tiles) => Ok(tiles),
    }
}

} // verus!

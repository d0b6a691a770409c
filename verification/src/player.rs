use vstd::prelude::*;

use crate::board::Board;
use crate::hand::Hand;
use crate::smove::Move;

verus! {

/// What a player implementation provides: a name, a move for the current
/// position, and two one-way score notifications.  Implementations live
/// outside the engine (an interactive player, a scripted one); the turn
/// loop depends only on this interface.
pub trait PlayerTrait {
    /// The player's name.
    fn name(&self) -> &str;

    /// Produce the move to play against the given board with the given
    /// hand.
    fn play(&self, board: &Board, hand: &Hand) -> Move;

    /// Report the score the last move made.
    fn move_score(&self, score: u32);

    /// Report the player's running total.
    fn total_score(&self, score: u32);
}

/// A player's state in the game: its behaviour, its hand and its score.
pub struct Player {
    /// The player implementation.
    pub player: Box<dyn PlayerTrait>,
    /// The player's hand.
    pub hand: Hand,
    /// The player's score.
    pub score: u32,
}

impl Player {
    /// Create a player with an empty hand and a score of 0.
    pub fn new(player: Box<dyn PlayerTrait>) -> (p: Player)
        ensures
            p.hand@ == Seq::<crate::tile::Tile>::empty(),
            p.score == 0,
    {
        Player { player, hand: Hand::new(), score: 0 }
    }
}

} // verus!

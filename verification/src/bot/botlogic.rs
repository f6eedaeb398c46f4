//! What every algorithm that plays has in common.

use vstd::prelude::*;
use crate::common::Size;
use crate::game::Game;
use crate::grid::{empty_cells, is_legal};

verus! {

/// An algorithm that chooses moves.
pub trait BotLogic {
    /// What the algorithm needs of a game to choose a move in it.
    spec fn can_play(&self, game: &Game) -> bool;

    /// The algorithm's name.
    spec fn name(&self) -> Seq<char>;

    /// Chooses a move for the player `id` on the board of `game`: a legal
    /// one where there is one, and (0, 0) where there is none. The game is
    /// not changed.
    fn generate_move(&self, id: i32, game: &Game) -> (pos: Size)
        requires
            self.can_play(game),
        ensures
            empty_cells(game@.log, game@.size).len() > 0 ==> is_legal(game@.log, game@.size, pos),
            empty_cells(game@.log, game@.size).len() == 0 ==> pos == (Size { x: 0, y: 0 }),
    ;

    /// The algorithm's name.
    fn get_name(&self) -> (name: String)
        ensures
            name@ == self.name(),
    ;
}

} // verus!

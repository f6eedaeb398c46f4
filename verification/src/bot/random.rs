//! A bot that plays any legal move, and the source of chance that the other
//! bots share.

use vstd::prelude::*;
use crate::bot::botlogic::BotLogic;
use crate::common::Size;
use crate::game::Game;
use crate::grid::{empty_cells, is_legal, lemma_empty_cells, possible_moves, Grid};
use crate::player_move::PlayerMove;

verus! {

/// Draws a number below `bound` with `rand::Rng::gen_range` on the thread's
/// generator, `rand::thread_rng`. Not proved: that the number drawn from the
/// range `0..bound` lies in it. Nothing is said of which number comes.
#[verifier::external_body]
pub(crate) fn random_index(bound: usize) -> (index: usize)
    requires
        bound > 0,
    ensures
        index < bound,
{
    rand::Rng::gen_range(&mut rand::thread_rng(), 0..bound)
}

/// A bot that chooses among the legal moves by chance.
pub struct RandomBot {}

impl RandomBot {
    pub fn new() -> Self {
        Self {  }
    }

    /// Where the move at `index` of `moves` goes, or `None` where `moves` has
    /// no such move.
    pub fn pick_move(moves: &Vec<PlayerMove>, index: usize) -> (pos: Option<Size>)
        ensures
            pos == if index < moves@.len() {
                Some(moves@[index as int].position)
            } else {
                None
            },
    {
        if index < moves.len() {
            Some(moves[index].position)
        } else {
            None
        }
    }

    /// A legal move on `grid`, drawn by chance from all of them, or `None`
    /// where no move is legal.
    pub fn get_random_move(id: i32, grid: &Grid) -> (pos: Option<Size>)
        ensures
            pos is None <==> empty_cells(grid@, grid.extent()).len() == 0,
            pos matches Some(p) ==> empty_cells(grid@, grid.extent()).contains(p) && is_legal(
                grid@,
                grid.extent(),
                p,
            ),
    {
        let moves = grid.get_possible_moves(id);
        if moves.len() < 1 {
            return None;
        }
        let index = random_index(moves.len());
        proof {
            lemma_empty_cells(grid@, grid.extent());
            assert(empty_cells(grid@, grid.extent())[index as int] == moves@[index as int].position);
        }
        Self::pick_move(&moves, index)
    }
}

impl BotLogic for RandomBot {
    open spec fn can_play(&self, game: &Game) -> bool {
        true
    }

    open spec fn name(&self) -> Seq<char> {
        "random"@
    }

    fn generate_move(&self, id: i32, game: &Game) -> (pos: Size) {
        match Self::get_random_move(id, &game.grid) {
            Some(p) => p,
            None => Size::new(0, 0),
        }
    }

    fn get_name(&self) -> (name: String) {
        "random".to_owned()
    }
}

} // verus!

//! Moves: who owns which cell.

use vstd::prelude::*;
use crate::common::Size;

verus! {

/// The owner recorded for a cell that took part in a completed line. It is
/// never the identifier of a participant.
pub const BLOCKED: i32 = -2;

/// One entry of a board's log: `player` now owns `position`.
#[derive(Clone, Copy, Debug, PartialEq, Eq, Structural)]
pub struct PlayerMove {
    pub player: i32,
    pub position: Size,
}

impl PlayerMove {
    pub fn new(player: i32, pos: Size) -> (m: Self)
        ensures
            m.player == player,
            m.position == pos,
    {
        Self { player, position: pos }
    }

    /// A marker that blocks `pos`.
    pub fn blocked(pos: Size) -> (m: Self)
        ensures
            m.player == BLOCKED,
            m.position == pos,
    {
        Self { player: BLOCKED, position: pos }
    }
}

} // verus!

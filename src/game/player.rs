use crate::game::game_result::GameResult;
use vstd::prelude::*;

verus! {

/// One of the two sides of the game.
#[derive(Copy, Clone, PartialEq, Eq, Debug, Structural)]
pub enum Player {
    Player1,
    Player2,
}

impl Player {
    /// The opponent of this player.
    pub open spec fn opponent(self) -> Player {
        match self {
            Player::Player1 => Player::Player2,
            Player::Player2 => Player::Player1,
        }
    }

    /// The outcome in which this player has won.
    pub open spec fn victory(self) -> GameResult {
        match self {
            Player::Player1 => GameResult::Player1Wins,
            Player::Player2 => GameResult::Player2Wins,
        }
    }

    pub fn next(self) -> (r: Player)
        ensures
            r == self.opponent(),
    {
        if self == Player::Player1 {
            Player::Player2
        } else {
            Player::Player1
        }
    }

    pub fn num(self) -> (r: usize)
        ensures
            r == (if self == Player::Player1 { 1usize } else { 2usize }),
    {
        if self == Player::Player1 {
            1
        } else {
            2
        }
    }

    pub fn wins(self) -> (r: GameResult)
        ensures
            r == self.victory(),
    {
        if self == Player::Player1 {
            GameResult::Player1Wins
        } else {
            GameResult::Player2Wins
        }
    }
}

} // verus!

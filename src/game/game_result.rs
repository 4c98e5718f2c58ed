use crate::game::player::Player;
use vstd::prelude::*;

verus! {

/// The outcome of a finished game, or of a decided sub-board.
///
/// A cell of the board also holds a `GameResult`: the mark of the player who
/// took it (`Player1Wins` or `Player2Wins`).
#[derive(Copy, Clone, PartialEq, Eq, Debug, Structural)]
pub enum GameResult {
    Player1Wins,
    Player2Wins,
    Draw,
}

/// A full point, counted in half-points.
pub const FULL_POINT: u64 = 2;

/// The reward of `result` for `player`, in half-points: a win is worth two,
/// a draw one and a loss nothing.
pub open spec fn reward(result: GameResult, player: Player) -> nat {
    match result {
        GameResult::Draw => 1,
        GameResult::Player1Wins => if player == Player::Player1 { 2 } else { 0 },
        GameResult::Player2Wins => if player == Player::Player2 { 2 } else { 0 },
    }
}

impl GameResult {
    pub fn to_string(self) -> (r: String)
        ensures
            self == GameResult::Player1Wins ==> r@ == "Player 1 wins!"@,
            self == GameResult::Player2Wins ==> r@ == "Player 2 wins!"@,
            self == GameResult::Draw ==> r@ == "Draw!"@,
    {
        match self {
            GameResult::Player1Wins => "Player 1 wins!".to_owned(),
            GameResult::Player2Wins => "Player 2 wins!".to_owned(),
            GameResult::Draw => "Draw!".to_owned(),
        }
    }

    /// The reward of this result for `player`, in half-points (see `reward`):
    /// 2 for a win, 1 for a draw, 0 for a loss.
    pub fn score(self, player: Player) -> (r: u64)
        ensures
            r == reward(self, player),
            r <= FULL_POINT,
    {
        match (self, player) {
            (GameResult::Player1Wins, Player::Player1) => 2,
            (GameResult::Player1Wins, Player::Player2) => 0,
            (GameResult::Player2Wins, Player::Player1) => 0,
            (GameResult::Player2Wins, Player::Player2) => 2,
            (GameResult::Draw, _) => 1,
        }
    }
}

} // verus!

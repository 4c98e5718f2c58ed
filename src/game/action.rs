use crate::game::board::Owned;
use crate::game::game_result::GameResult;
use crate::game::game_state::GameState;
use vstd::prelude::*;

verus! {

/// A move: cell (`x`, `y`) of sub-board (`sub_x`, `sub_y`).
///
/// `full_board` records that the mover could choose any sub-board, which is
/// what undoing the move must restore.
#[derive(Copy, Clone, PartialEq, Eq, Hash, Debug, Structural)]
pub struct Action {
    pub sub_x: usize,
    pub sub_y: usize,
    pub x: usize,
    pub y: usize,
    pub full_board: bool,
}

impl Action {
    /// The index of the sub-board of this move, row by row.
    pub open spec fn sub_index(self) -> int {
        3 * self.sub_y + self.sub_x
    }

    /// The index of the cell of this move inside its sub-board, row by row.
    pub open spec fn cell_index(self) -> int {
        3 * self.y + self.x
    }

    /// The index of the cell of this move among all 81 cells.
    pub open spec fn flat(self) -> int {
        9 * self.sub_index() + self.cell_index()
    }

    /// All four coordinates are on the board.
    pub open spec fn on_board(self) -> bool {
        self.sub_x < 3 && self.sub_y < 3 && self.x < 3 && self.y < 3
    }

    pub fn new(sub_x: usize, sub_y: usize, x: usize, y: usize, full_board: bool) -> (r: Action)
        ensures
            r == (Action { sub_x, sub_y, x, y, full_board }),
    {
        Action { sub_x, sub_y, x, y, full_board }
    }

    /// Plays this move on `game_state`, and returns the result of the game if it
    /// ended with it.
    pub fn apply(&self, game_state: &mut GameState) -> (r: Option<GameResult>)
        requires
            old(game_state).wf(),
            old(game_state).is_legal(*self),
        ensures
            old(game_state).after_move(*final(game_state), *self, r),
            r is None ==> final(game_state).live(),
    {
        game_state.make_move(self.sub_x, self.sub_y, self.x, self.y)
    }

    /// Takes this move back: empties its cell, clears the result of its
    /// sub-board, gives the turn back and restores where the move had to go.
    pub fn unapply(&self, game_state: &mut GameState)
        requires
            self.on_board(),
            old(game_state).moves > 0,
        ensures
            old(game_state).taken_back(*final(game_state), *self),
    {
        let ghost g = old(game_state).grid();
        game_state.board_mut().make_move(None, self.sub_x, self.sub_y, self.x, self.y);
        assert(game_state.grid() =~= g.update(self.flat(), None));
        if self.full_board {
            game_state.current_sub_x = None;
            game_state.current_sub_y = None;
        } else {
            game_state.current_sub_x = Some(self.sub_x);
            game_state.current_sub_y = Some(self.sub_y);
        }
        let ghost g1 = game_state.grid();
        let sub = game_state.board_mut().get_mut(self.sub_x, self.sub_y);
        sub.set_result(None);
        assert(game_state.grid() =~= g1);
        game_state.moves = game_state.moves - 1;
        game_state.current_player = game_state.current_player.next();
        assert(game_state.grid() =~= g.update(self.flat(), None));
        assert(game_state.board.results() =~= old(game_state).board.results().update(
            self.sub_index(),
            None,
        ));
    }
}

} // verus!

use crate::game::board::Owned;
use crate::game::game_result::GameResult;
use crate::game::game_state::GameState;
use vstd::prelude::*;
use vstd::string::StringExecFns;

verus! {

/// How a cell is drawn: `O` for player 1, `X` for player 2, blank if empty.
pub open spec fn mark_text(o: Option<GameResult>) -> Seq<char> {
    match o {
        Some(GameResult::Player1Wins) => seq!['O'],
        Some(GameResult::Player2Wins) => seq!['X'],
        _ => seq![' '],
    }
}

/// The next move must go to sub-board (`sub_x`, `sub_y`).
pub open spec fn is_target(state: GameState, sub_x: int, sub_y: int) -> bool {
    state.current_sub_x == Some(sub_x as usize) && state.current_sub_y == Some(sub_y as usize)
}

/// The border beside a sub-board: `|` around the target, else blank.
pub open spec fn frame_text(target: bool) -> Seq<char> {
    if target {
        seq!['|']
    } else {
        seq![' ']
    }
}

/// The first `n` cells of row `y` of sub-board (`sub_x`, `sub_y`), each after
/// a `|`.
pub open spec fn cells_text(state: GameState, sub_x: int, sub_y: int, y: int, n: int) -> Seq<char>
    decreases n,
{
    if n <= 0 {
        Seq::empty()
    } else {
        cells_text(state, sub_x, sub_y, y, n - 1) + seq!['|'] + mark_text(
            state.cell(3 * sub_y + sub_x, 3 * y + n - 1),
        )
    }
}

/// Row `y` of sub-board (`sub_x`, `sub_y`) with its borders.
pub open spec fn sub_row_text(state: GameState, sub_x: int, sub_y: int, y: int) -> Seq<char> {
    let f = frame_text(is_target(state, sub_x, sub_y));
    f + cells_text(state, sub_x, sub_y, y, 3) + seq!['|'] + f
}

/// Row `y` of the first `n` sub-boards of band `sub_y`.
pub open spec fn line_text(state: GameState, sub_y: int, y: int, n: int) -> Seq<char>
    decreases n,
{
    if n <= 0 {
        Seq::empty()
    } else {
        line_text(state, sub_y, y, n - 1) + sub_row_text(state, n - 1, sub_y, y)
    }
}

/// The first `n` lines of band `sub_y`, each ended by a newline.
pub open spec fn band_text(state: GameState, sub_y: int, n: int) -> Seq<char>
    decreases n,
{
    if n <= 0 {
        Seq::empty()
    } else {
        band_text(state, sub_y, n - 1) + line_text(state, sub_y, n - 1, 3) + seq!['\n']
    }
}

/// The first `n` bands of sub-boards, each after an empty line.
pub open spec fn board_text(state: GameState, n: int) -> Seq<char>
    decreases n,
{
    if n <= 0 {
        Seq::empty()
    } else {
        board_text(state, n - 1) + seq!['\n'] + band_text(state, n - 1, 3)
    }
}

fn frame(target: bool) -> (r: &'static str)
    ensures
        r@ == frame_text(target),
{
    proof {
        reveal_strlit("|");
        reveal_strlit(" ");
    }
    if target {
        "|"
    } else {
        " "
    }
}

fn mark(o: Option<GameResult>) -> (r: &'static str)
    ensures
        r@ == mark_text(o),
{
    proof {
        reveal_strlit("O");
        reveal_strlit("X");
        reveal_strlit(" ");
    }
    match o {
        Some(GameResult::Player1Wins) => "O",
        Some(GameResult::Player2Wins) => "X",
        _ => " ",
    }
}

/// The board as text: for each band of sub-boards an empty line and then three
/// lines, one per row of cells; the sub-board the next move must go to is
/// framed with `|`.
pub fn display(game_state: &GameState) -> (r: String)
    ensures
        r@ == board_text(*game_state, 3),
{
    let mut string: String = String::new();
    let mut sub_y: usize = 0;
    while sub_y < 3
        invariant
            sub_y <= 3,
            string@ == board_text(*game_state, sub_y as int),
        decreases 3 - sub_y,
    {
        proof {
            reveal_strlit("\n");
        }
        string.append("\n");
        let ghost head = string@;
        let mut y: usize = 0;
        while y < 3
            invariant
                sub_y < 3,
                y <= 3,
                string@ == head + band_text(*game_state, sub_y as int, y as int),
            decreases 3 - y,
        {
            let ghost line_start = string@;
            let mut sub_x: usize = 0;
            while sub_x < 3
                invariant
                    sub_y < 3,
                    y < 3,
                    sub_x <= 3,
                    string@ == line_start + line_text(*game_state, sub_y as int, y as int, sub_x as int),
                decreases 3 - sub_x,
            {
                let target = match (game_state.current_sub_x, game_state.current_sub_y) {
                    (Some(cx), Some(cy)) => cx == sub_x && cy == sub_y,
                    _ => false,
                };
                assert(target == is_target(*game_state, sub_x as int, sub_y as int));
                let ghost row_start = string@;
                string.append(frame(target));
                let ghost cells_start = string@;
                let mut x: usize = 0;
                while x < 3
                    invariant
                        sub_x < 3,
                        sub_y < 3,
                        y < 3,
                        x <= 3,
                        string@ == cells_start + cells_text(
                            *game_state,
                            sub_x as int,
                            sub_y as int,
                            y as int,
                            x as int,
                        ),
                    decreases 3 - x,
                {
                    proof {
                        reveal_strlit("|");
                    }
                    string.append("|");
                    let result = game_state.board.structure().get(sub_x, sub_y).structure().get(
                        x,
                        y,
                    ).result();
                    assert(result == game_state.cell(3 * sub_y + sub_x, 3 * y + x));
                    string.append(mark(result));
                    x = x + 1;
                    assert(string@ =~= cells_start + cells_text(
                        *game_state,
                        sub_x as int,
                        sub_y as int,
                        y as int,
                        x as int,
                    ));
                }
                proof {
                    reveal_strlit("|");
                }
                string.append("|");
                string.append(frame(target));
                sub_x = sub_x + 1;
                assert(string@ =~= line_start + line_text(
                    *game_state,
                    sub_y as int,
                    y as int,
                    sub_x as int,
                ));
            }
            proof {
                reveal_strlit("\n");
            }
            string.append("\n");
            y = y + 1;
            assert(string@ =~= head + band_text(*game_state, sub_y as int, y as int));
        }
        sub_y = sub_y + 1;
        assert(string@ =~= board_text(*game_state, sub_y as int));
    }
    string
}

/// Holds the position of a match played on the terminal.
pub struct GUI {
    game_state: GameState,
}

impl GUI {
    /// The position held.
    pub closed spec fn position(self) -> GameState {
        self.game_state
    }

    pub fn new() -> (r: GUI)
        ensures
            r.position().wf(),
            r.position().moves == 0,
            r.position().target() is None,
    {
        GUI { game_state: GameState::new() }
    }

    pub fn game_state(&mut self) -> (r: &mut GameState)
        ensures
            *r == old(self).position(),
            final(self).position() == *final(r),
    {
        &mut self.game_state
    }

    /// The position as text (see `display`).
    pub fn display(&self) -> (r: String)
        ensures
            r@ == board_text(self.position(), 3),
    {
        display(&self.game_state)
    }
}

} // verus!

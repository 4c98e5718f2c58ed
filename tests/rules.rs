use rand::SeedableRng;
use ultimate_ttt::game::action::Action;
use ultimate_ttt::game::board::{Board, BoardStructure, Owned, Square, SubBoard};
use ultimate_ttt::game::game_result::GameResult;
use ultimate_ttt::game::game_state::GameState;
use ultimate_ttt::game::player::Player;
use ultimate_ttt::gui::{display, GUI};

fn cells(state: &GameState) -> Vec<Option<GameResult>> {
    let mut v = Vec::new();
    for s in 0..9 {
        for c in 0..9 {
            v.push(state.board.get(s % 3, s / 3).get(c % 3, c / 3).result());
        }
    }
    v
}

fn squares(marks: &[(usize, usize, GameResult)]) -> BoardStructure<Square> {
    let mut b = <BoardStructure<Square>>::new();
    for &(x, y, m) in marks {
        b.set_result_at(x, y, Some(m));
    }
    b
}

/// Marks of a full sub-board with no line: X O X / X O O / O X X.
fn draw_pattern() -> Vec<(usize, usize, GameResult)> {
    let x = GameResult::Player1Wins;
    let o = GameResult::Player2Wins;
    vec![
        (0, 0, x),
        (1, 0, o),
        (2, 0, x),
        (0, 1, x),
        (1, 1, o),
        (2, 1, o),
        (0, 2, o),
        (1, 2, x),
        (2, 2, x),
    ]
}

/// Every cell taken in a drawn pattern but cell (2, 2) of sub-board (2, 2).
fn one_move_from_full() -> GameState {
    let mut state = GameState::new();
    for s in 0..9 {
        for &(x, y, m) in draw_pattern().iter() {
            if s == 8 && x == 2 && y == 2 {
                continue;
            }
            state.board.make_move(Some(m), s % 3, s / 3, x, y);
        }
    }
    state.moves = 80;
    state.current_player = Player::Player1;
    state.current_sub_x = Some(2);
    state.current_sub_y = Some(2);
    state
}

#[test]
fn player_next_num_wins() {
    assert!(Player::Player1.next() == Player::Player2);
    assert!(Player::Player2.next() == Player::Player1);
    assert_eq!(Player::Player1.num(), 1);
    assert_eq!(Player::Player2.num(), 2);
    assert_eq!(Player::Player1.wins(), GameResult::Player1Wins);
    assert_eq!(Player::Player2.wins(), GameResult::Player2Wins);
}

#[test]
fn result_to_string() {
    assert_eq!(GameResult::Player1Wins.to_string(), "Player 1 wins!");
    assert_eq!(GameResult::Player2Wins.to_string(), "Player 2 wins!");
    assert_eq!(GameResult::Draw.to_string(), "Draw!");
}

#[test]
fn result_score_in_half_points() {
    assert_eq!(GameResult::Player1Wins.score(Player::Player1), 2);
    assert_eq!(GameResult::Player1Wins.score(Player::Player2), 0);
    assert_eq!(GameResult::Player2Wins.score(Player::Player1), 0);
    assert_eq!(GameResult::Player2Wins.score(Player::Player2), 2);
    assert_eq!(GameResult::Draw.score(Player::Player1), 1);
    assert_eq!(GameResult::Draw.score(Player::Player2), 1);
}

#[test]
fn check_result_row_column_diagonals() {
    let p = GameResult::Player1Wins;
    let row = squares(&[(0, 1, p), (1, 1, p), (2, 1, p)]);
    assert_eq!(row.check_result(2, 1), Some(p));
    let col = squares(&[(2, 0, p), (2, 1, p), (2, 2, p)]);
    assert_eq!(col.check_result(2, 0), Some(p));
    let diag = squares(&[(0, 0, p), (1, 1, p), (2, 2, p)]);
    assert_eq!(diag.check_result(1, 1), Some(p));
    let anti = squares(&[(2, 0, p), (1, 1, p), (0, 2, p)]);
    assert_eq!(anti.check_result(0, 2), Some(p));
    // A diagonal is only looked at from a cell on it.
    assert_eq!(diag.check_result(1, 0), None);
}

#[test]
fn check_result_undecided_and_draw() {
    let p = GameResult::Player1Wins;
    let q = GameResult::Player2Wins;
    let two = squares(&[(0, 0, p), (1, 0, p), (2, 0, q)]);
    assert_eq!(two.check_result(2, 0), None);
    let full = squares(&draw_pattern());
    assert_eq!(full.check_result(2, 2), Some(GameResult::Draw));
}

#[test]
fn sub_board_and_square_start_empty() {
    let s = SubBoard::new();
    assert_eq!(s.result(), None);
    for c in 0..9 {
        assert_eq!(s.get(c % 3, c / 3).result(), None);
    }
    assert_eq!(Square::new().result(), None);
    let b = Board::new();
    for i in 0..9 {
        assert_eq!(b.get(i % 3, i / 3).result(), None);
    }
}

#[test]
fn board_make_move_decides_sub_board_and_targets() {
    let p = GameResult::Player1Wins;
    let mut b = Board::new();
    assert_eq!(b.make_move(Some(p), 1, 1, 0, 0), (Some(0), Some(0), None));
    assert_eq!(b.make_move(Some(p), 1, 1, 1, 0), (Some(1), Some(0), None));
    // Completing the top row of the centre sub-board decides it.
    assert_eq!(b.make_move(Some(p), 1, 1, 2, 0), (Some(2), Some(0), None));
    assert_eq!(b.get(1, 1).result(), Some(p));
    // A move whose cell names the decided centre sub-board frees the next move.
    assert_eq!(b.make_move(Some(p), 0, 0, 1, 1), (None, None, None));
}

#[test]
fn board_make_move_wins_the_game() {
    let p = GameResult::Player2Wins;
    let mut b = Board::new();
    for s in 0..3 {
        b.make_move(Some(p), s, 0, 0, 0);
        b.make_move(Some(p), s, 0, 1, 0);
        let r = b.make_move(Some(p), s, 0, 2, 0);
        if s < 2 {
            assert_eq!(r.2, None);
        } else {
            assert_eq!(r.2, Some(p));
        }
    }
}

#[test]
fn board_structure_get_mut_writes_through() {
    let mut b = <BoardStructure<Square>>::new();
    b.get_mut(1, 2).set_result(Some(GameResult::Draw));
    assert_eq!(b.get(1, 2).result(), Some(GameResult::Draw));
    assert_eq!(b.items[7].result(), Some(GameResult::Draw));
    let mut board = Board::new();
    board.get_mut(2, 0).get_mut(0, 1).set_result(Some(GameResult::Player1Wins));
    assert_eq!(board.structure().get(2, 0).structure().get(0, 1).result(), Some(GameResult::Player1Wins));
    assert_eq!(board.get(2, 0).result(), None);
}

#[test]
fn new_state_has_all_81_moves_in_order() {
    let state = GameState::new();
    assert!(state.current_player() == Player::Player1);
    let actions = state.possible_actions();
    assert_eq!(actions.len(), 81);
    assert_eq!(actions[0], Action::new(0, 0, 0, 0, true));
    assert_eq!(actions[1], Action::new(0, 0, 1, 0, true));
    assert_eq!(actions[9], Action::new(1, 0, 0, 0, true));
    assert_eq!(actions[80], Action::new(2, 2, 2, 2, true));
}

#[test]
fn constrained_moves_stay_in_target() {
    let mut state = GameState::new();
    assert_eq!(state.make_move(0, 0, 2, 1), None);
    assert_eq!(state.current_sub_x, Some(2));
    assert_eq!(state.current_sub_y, Some(1));
    assert!(state.current_player() == Player::Player2);
    assert_eq!(state.moves, 1);
    let actions = state.possible_actions();
    assert_eq!(actions.len(), 9);
    for (i, a) in actions.iter().enumerate() {
        assert_eq!(*a, Action::new(2, 1, i % 3, i / 3, false));
    }
}

#[test]
fn possible_actions_twice_is_the_same() {
    let mut state = GameState::new();
    state.make_move(1, 1, 1, 1);
    state.make_move(1, 1, 0, 0);
    let first = state.possible_actions();
    let second = state.possible_actions();
    assert_eq!(first, second);
    // The second move sent the mover to the empty top-left sub-board.
    assert_eq!(first.len(), 9);
    assert_eq!(first[0], Action::new(0, 0, 0, 0, false));
}

#[test]
fn distinct_legal_moves_give_distinct_grids() {
    let state = GameState::new();
    let actions = state.possible_actions();
    let grids: Vec<Vec<Option<GameResult>>> = actions
        .iter()
        .map(|a| {
            let mut s = state;
            a.apply(&mut s);
            cells(&s)
        })
        .collect();
    for i in 0..grids.len() {
        for j in 0..grids.len() {
            if i != j {
                assert_ne!(grids[i], grids[j]);
            }
        }
    }
}

#[test]
fn apply_then_unapply_restores_position() {
    let mut state = GameState::new();
    state.make_move(0, 0, 1, 2);
    let before = state;
    let a = state.possible_actions()[3];
    assert_eq!(a, Action::new(1, 2, 0, 1, false));
    a.apply(&mut state);
    assert_ne!(cells(&state), cells(&before));
    a.unapply(&mut state);
    assert_eq!(cells(&state), cells(&before));
    assert_eq!(state.current_sub_x, before.current_sub_x);
    assert_eq!(state.current_sub_y, before.current_sub_y);
    assert!(state.current_player == before.current_player);
    assert_eq!(state.moves, before.moves);
}

#[test]
fn initialize_actions_lists_empty_cells() {
    let mut state = GameState::new();
    state.make_move(2, 0, 1, 1);
    let lists = state.initialize_actions();
    assert_eq!(lists[2].len(), 8);
    assert!(!lists[2].contains(&Action::new(2, 0, 1, 1, false)));
    assert_eq!(lists[0].len(), 9);
    assert_eq!(lists[8][8], Action::new(2, 2, 2, 2, false));
}

#[test]
fn last_move_of_full_board_is_a_draw() {
    let mut state = one_move_from_full();
    let actions = state.possible_actions();
    assert_eq!(actions, vec![Action::new(2, 2, 2, 2, false)]);
    let result = actions[0].apply(&mut state);
    assert_eq!(result, Some(GameResult::Draw));
    assert_eq!(state.moves, 81);
}

#[test]
fn rollout_ends_within_remaining_moves() {
    let mut rng = rand::rngs::StdRng::seed_from_u64(11);
    let state = GameState::new();
    for _ in 0..20 {
        let (_, played) = state.rollout(&mut rng);
        assert!(played >= 1 && played <= 81);
    }
    let last = one_move_from_full();
    assert_eq!(last.rollout(&mut rng), (GameResult::Draw, 1));
    assert_eq!(last.play_randomly(&mut rng), GameResult::Draw);
}

#[test]
fn make_nth_move_plays_listed_move() {
    let mut state = GameState::new();
    assert_eq!(state.make_nth_move(40), None);
    // Move 40 is the centre cell of the centre sub-board.
    assert_eq!(state.board.get(1, 1).get(1, 1).result(), Some(GameResult::Player1Wins));
    assert_eq!(state.current_sub_x, Some(1));
    assert_eq!(state.current_sub_y, Some(1));
}

const EMPTY_LINE: &str = " | | | |  | | | |  | | | | \n";

#[test]
fn display_empty_board() {
    let text = display(&GameState::new());
    let band = format!("\n{}{}{}", EMPTY_LINE, EMPTY_LINE, EMPTY_LINE);
    assert_eq!(text, format!("{}{}{}", band, band, band));
    assert_eq!(GUI::new().display(), text);
}

#[test]
fn display_marks_and_target() {
    let mut state = GameState::new();
    state.make_move(0, 0, 2, 1);
    state.make_move(2, 1, 0, 0);
    let text = display(&state);
    let lines: Vec<&str> = text.split('\n').collect();
    assert_eq!(lines.len(), 13);
    assert_eq!(lines[0], "");
    // The second move sends the next one to the top-left sub-board.
    assert_eq!(lines[1], "|| | | || | | | |  | | | | ");
    assert_eq!(lines[2], "|| | |O|| | | | |  | | | | ");
    assert_eq!(lines[4], "");
    assert_eq!(lines[5], " | | | |  | | | |  |X| | | ");
    assert_eq!(lines[9], " | | | |  | | | |  | | | | ");
}

#[test]
fn gui_holds_a_fresh_game() {
    let mut gui = GUI::new();
    assert_eq!(gui.game_state().moves, 0);
    assert_eq!(gui.game_state().possible_actions().len(), 81);
}

#[test]
fn three_drawn_sub_boards_do_not_end_the_game() {
    let mut state = GameState::new();
    for s in 0..2 {
        for &(x, y, m) in draw_pattern().iter() {
            state.board.make_move(Some(m), s, 0, x, y);
        }
    }
    // Fill sub-board (2, 0) but for its last cell, which Player 1 now plays.
    for &(x, y, m) in draw_pattern().iter() {
        if x == 2 && y == 2 {
            continue;
        }
        state.board.make_move(Some(m), 2, 0, x, y);
    }
    state.moves = 26;
    state.current_player = Player::Player1;
    state.current_sub_x = Some(2);
    state.current_sub_y = Some(0);
    let r = state.make_move(2, 0, 2, 2);
    assert_eq!(state.board.get(2, 0).result(), Some(GameResult::Draw));
    assert_eq!(r, None);
    let drawn = squares(&[(0, 0, GameResult::Draw), (1, 0, GameResult::Draw), (2, 0, GameResult::Draw)]);
    assert_eq!(drawn.check_result(0, 0), None);
}

#[test]
fn play_picks_follows_the_picks() {
    let state = GameState::new();
    // Two opening moves do not end the game.
    assert_eq!(state.play_picks(&vec![0, 0]), None);
    assert_eq!(state.play_picks(&vec![]), None);
    assert_eq!(state.play_picks(&vec![0, 200]), None);
    let last = one_move_from_full();
    assert_eq!(last.play_picks(&vec![0]), Some(GameResult::Draw));
    assert_eq!(last.play_picks(&vec![0, 5, 7]), Some(GameResult::Draw));
    assert_eq!(last.play_picks(&vec![1]), None);
}

#[test]
fn consistency_check() {
    let mut state = GameState::new();
    assert!(state.is_consistent());
    state.make_move(1, 1, 0, 2);
    assert!(state.is_consistent());
    let mut wrong = state;
    wrong.moves = 5;
    assert!(!wrong.is_consistent());
    let mut wrong = state;
    wrong.current_sub_y = None;
    assert!(!wrong.is_consistent());
    assert!(one_move_from_full().is_consistent());
}

use rand::rngs::StdRng;
use rand::SeedableRng;
use ultimate_ttt::ai::mcts::{build_tree, mcts_rec, new_root, recommend, search, search_round, MCTSActor, Node, SCALE};
use ultimate_ttt::game::action::Action;
use ultimate_ttt::game::board::Owned;
use ultimate_ttt::game::game_result::GameResult;
use ultimate_ttt::game::game_state::GameState;
use ultimate_ttt::game::player::Player;

/// The UCT exploration bonus sqrt(2 ln(parent) / visits), in fixed point.
fn uct(parent: u64, visits: u64) -> u64 {
    if visits == 0 {
        return u64::MAX;
    }
    let b = (2.0 * (parent as f64).ln() / visits as f64).sqrt();
    (b * SCALE as f64) as u64
}

fn cells_taken(state: &GameState) -> usize {
    let mut n = 0;
    for s in 0..9 {
        for c in 0..9 {
            if state.board.get(s % 3, s / 3).get(c % 3, c / 3).result().is_some() {
                n += 1;
            }
        }
    }
    n
}

/// Player 1 owns sub-boards (0, 2) and (1, 2), and has the top-left and centre
/// cells of sub-board (2, 2); any sub-board may be played.
fn winning_line_open() -> GameState {
    let p = GameResult::Player1Wins;
    let q = GameResult::Player2Wins;
    let mut state = GameState::new();
    for s in 0..2 {
        for x in 0..3 {
            state.board.make_move(Some(p), s, 2, x, 0);
        }
    }
    state.board.make_move(Some(p), 2, 2, 0, 0);
    state.board.make_move(Some(p), 2, 2, 1, 1);
    for &(sx, sy, x, y) in [(1, 1, 0, 0), (1, 1, 2, 0), (1, 1, 1, 2), (0, 0, 1, 1), (2, 0, 1, 1), (0, 1, 2, 2), (2, 1, 0, 1)].iter() {
        state.board.make_move(Some(q), sx, sy, x, y);
    }
    state.moves = 15;
    state.current_player = Player::Player1;
    state.current_sub_x = None;
    state.current_sub_y = None;
    state
}

fn only_one_move_left() -> GameState {
    let x = GameResult::Player1Wins;
    let o = GameResult::Player2Wins;
    let pattern = [
        (0, 0, x), (1, 0, o), (2, 0, x),
        (0, 1, x), (1, 1, o), (2, 1, o),
        (0, 2, o), (1, 2, x), (2, 2, x),
    ];
    let mut state = GameState::new();
    for s in 0..9 {
        for &(cx, cy, m) in pattern.iter() {
            if s == 8 && cx == 2 && cy == 2 {
                continue;
            }
            state.board.make_move(Some(m), s % 3, s / 3, cx, cy);
        }
    }
    state.moves = 80;
    state.current_player = Player::Player1;
    state.current_sub_x = None;
    state.current_sub_y = None;
    state
}

#[test]
fn node_weight_is_zero_before_visits() {
    let node = Node::new(Player::Player1, GameState::new(), None);
    assert_eq!(node.visits, 0);
    assert_eq!(node.weight(), 0);
    assert_eq!(node.search_weight(5), 5);
}

#[test]
fn node_update_counts_score() {
    let mut node = Node::new(Player::Player2, GameState::new(), None);
    node.update(GameResult::Player2Wins);
    assert_eq!(node.visits, 1);
    assert_eq!(node.value, 2);
    assert_eq!(node.weight(), SCALE);
    node.update(GameResult::Player1Wins);
    assert_eq!(node.visits, 2);
    assert_eq!(node.value, 2);
    assert_eq!(node.weight(), SCALE / 2);
    node.update(GameResult::Draw);
    assert_eq!(node.visits, 3);
    assert_eq!(node.value, 3);
    assert_eq!(node.weight(), SCALE / 2);
    node.update(GameResult::Player1Wins);
    assert_eq!(node.weight(), 3 * SCALE / 8);
    assert!(node.weight() <= SCALE);
}

#[test]
fn expand_fills_children_in_order() {
    let mut node = Node::new(Player::Player2, GameState::new(), None);
    assert!(!node.fully_expanded());
    assert_eq!(node.expand(), 0);
    assert_eq!(node.children().len(), 81);
    assert_eq!(node.unexpanded, 80);
    assert_eq!(node.expand(), 1);
    let child = node.children()[1].1.as_ref().unwrap();
    assert!(child.player == Player::Player1);
    assert_eq!(child.visits, 0);
    assert_eq!(child.state().moves, 1);
    assert_eq!(node.children()[1].0, Action::new(0, 0, 1, 0, true));
    assert!(node.children()[2].1.is_none());
    for _ in 2..81 {
        node.expand();
    }
    assert!(node.fully_expanded());
}

#[test]
fn best_child_takes_first_maximum() {
    let mut node = Node::new(Player::Player2, GameState::new(), None);
    for _ in 0..3 {
        node.expand();
    }
    let mut node = node;
    let kids = node.children_mut();
    kids[0].1.as_mut().unwrap().update(GameResult::Player2Wins);
    kids[1].1.as_mut().unwrap().update(GameResult::Player1Wins);
    kids[2].1.as_mut().unwrap().update(GameResult::Player1Wins);
    let bonuses = |first: u64, third: u64| {
        let mut v = vec![0u64; 81];
        v[0] = first;
        v[2] = third;
        v
    };
    assert_eq!(node.best_child(&bonuses(0, 0)), 1);
    assert_eq!(node.best_child(&bonuses(SCALE + 1, 0)), 0);
    assert_eq!(node.best_child(&bonuses(0, 1)), 2);
    assert_eq!(node.best_child_final(), Action::new(0, 0, 1, 0, true));
}

#[test]
fn mcts_rec_counts_one_playout_below_root() {
    let mut rng = StdRng::seed_from_u64(3);
    let mut root = new_root(&GameState::new());
    assert!(root.player == Player::Player2);
    let r = mcts_rec(&mut root, &uct, &mut rng);
    assert_eq!(root.visits, 0);
    assert_eq!(root.value, 0);
    let child = root.children()[0].1.as_ref().unwrap();
    assert_eq!(child.visits, 1);
    assert_eq!(child.value, r.score(Player::Player1));
    assert!(root.children()[1].1.is_none());
}

#[test]
fn search_round_counts_root_and_children() {
    let mut rng = StdRng::seed_from_u64(3);
    let mut root = new_root(&GameState::new());
    for i in 0..100u64 {
        let before = root.value;
        let r = search_round(&mut root, &uct, &mut rng);
        assert_eq!(root.visits, i + 1);
        assert_eq!(root.value, before + r.score(Player::Player2));
        let total: u64 = root.children().iter().map(|(_, c)| c.as_ref().map_or(0, |c| c.visits)).sum();
        assert_eq!(total, i + 1);
    }
    // The first 81 rounds tried each move once.
    assert!(root.fully_expanded());
}

#[test]
fn build_tree_then_recommend() {
    let mut rng = StdRng::seed_from_u64(8);
    let mut tree = build_tree(&GameState::new(), 120, &uct, &mut rng);
    assert_eq!(tree.visits, 120);
    let a = recommend(&mut tree);
    assert!(GameState::new().possible_actions().contains(&a));
    let mut empty = build_tree(&GameState::new(), 0, &uct, &mut rng);
    assert!(!empty.children_constructed);
    assert_eq!(recommend(&mut empty), Action::new(0, 0, 0, 0, true));
}

#[test]
fn search_from_start_plays_one_free_move() {
    let mut rng = StdRng::seed_from_u64(1);
    let start = GameState::new();
    let action = search(&start, 5000, &uct, &mut rng);
    assert!(action.full_board);
    assert!(action.sub_x < 3 && action.sub_y < 3 && action.x < 3 && action.y < 3);
    let mut after = start;
    assert_eq!(action.apply(&mut after), None);
    assert_eq!(cells_taken(&after), 1);
}

#[test]
fn search_completes_open_line() {
    let state = winning_line_open();
    let winning = Action::new(2, 2, 2, 2, true);
    let mut hits = 0;
    for seed in 0..3 {
        let mut rng = StdRng::seed_from_u64(seed);
        if search(&state, 3000, &uct, &mut rng) == winning {
            hits += 1;
        }
    }
    assert!(hits >= 2);
}

#[test]
fn search_is_reproducible_with_a_seed() {
    let state = winning_line_open();
    let mut a = StdRng::seed_from_u64(42);
    let mut b = StdRng::seed_from_u64(42);
    assert_eq!(search(&state, 400, &uct, &mut a), search(&state, 400, &uct, &mut b));
    let start = GameState::new();
    let mut a = StdRng::seed_from_u64(9);
    let mut b = StdRng::seed_from_u64(9);
    assert_eq!(search(&start, 300, &uct, &mut a), search(&start, 300, &uct, &mut b));
}

#[test]
fn search_with_single_move_returns_it() {
    let state = only_one_move_left();
    let only = Action::new(2, 2, 2, 2, true);
    assert_eq!(state.possible_actions(), vec![only]);
    let mut rng = StdRng::seed_from_u64(5);
    assert_eq!(search(&state, 0, &uct, &mut rng), only);
    assert_eq!(search(&state, 1, &uct, &mut rng), only);
    assert_eq!(search(&state, 50, &uct, &mut rng), only);
}

#[test]
fn engine_keeps_its_time_limit() {
    let actor = MCTSActor::new(1000);
    assert_eq!(actor.time_limit(), 1000);
}

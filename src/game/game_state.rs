use crate::game::action::Action;
use crate::game::board::{outcome_at, Board, Owned};
use crate::game::game_result::GameResult;
use crate::game::player::Player;
use crate::game::random::random_below;
use rand::rngs::StdRng;
use vstd::prelude::*;

verus! {

/// The number of empty entries among the first `n` of `g`.
pub open spec fn count_empty(g: Seq<Option<GameResult>>, n: int) -> int
    decreases n,
{
    if n <= 0 {
        0
    } else {
        count_empty(g, n - 1) + (if g[n - 1] is None {
            1int
        } else {
            0int
        })
    }
}

proof fn lemma_count_bounds(g: Seq<Option<GameResult>>, n: int)
    requires
        0 <= n,
    ensures
        0 <= count_empty(g, n) <= n,
    decreases n,
{
    if n > 0 {
        lemma_count_bounds(g, n - 1);
    }
}

proof fn lemma_count_agree(g: Seq<Option<GameResult>>, h: Seq<Option<GameResult>>, n: int)
    requires
        forall|i: int| 0 <= i < n ==> g[i] == h[i],
    ensures
        count_empty(g, n) == count_empty(h, n),
    decreases n,
{
    if n > 0 {
        lemma_count_agree(g, h, n - 1);
    }
}

proof fn lemma_count_all_empty(g: Seq<Option<GameResult>>, n: int)
    requires
        0 <= n,
        forall|i: int| 0 <= i < n ==> g[i] is None,
    ensures
        count_empty(g, n) == n,
    decreases n,
{
    if n > 0 {
        lemma_count_all_empty(g, n - 1);
    }
}

proof fn lemma_count_fill(g: Seq<Option<GameResult>>, k: int, v: Option<GameResult>, n: int)
    requires
        0 <= k < n <= g.len(),
        g[k] is None,
        v is Some,
    ensures
        count_empty(g.update(k, v), n) == count_empty(g, n) - 1,
    decreases n,
{
    if n - 1 == k {
        lemma_count_agree(g, g.update(k, v), n - 1);
    } else {
        lemma_count_fill(g, k, v, n - 1);
    }
}

/// A grid whose outcome is undecided still has an empty entry.
proof fn lemma_undecided_has_empty(r: Seq<Option<GameResult>>, x: int, y: int)
    requires
        r.len() == 9,
        0 <= x < 3,
        0 <= y < 3,
        outcome_at(r, x, y) is None,
    ensures
        exists|i: int| 0 <= i < 9 && #[trigger] r[i] is None,
{
}

/// Following `picks` from `s` plays a whole game ending with `g`: at each
/// step the move `picks[i]` of the legal moves is played, the last pick ends
/// the game with `g`, and no earlier one ends it.
pub open spec fn plays_picks(s: GameState, picks: Seq<usize>, g: GameResult) -> bool
    decreases picks.len(),
{
    if picks.len() == 0 {
        false
    } else {
        let k = picks[0] as int;
        &&& 0 <= k < s.legal_actions().len()
        &&& exists|t: GameState, rr: Option<GameResult>|
            #[trigger] s.after_move(t, s.legal_actions()[k], rr) && if picks.len() == 1 {
                rr == Some(g)
            } else {
                rr is None && plays_picks(t, picks.drop_first(), g)
            }
    }
}

/// Following `picks` from `s` stops before the game ends: the picks run out,
/// or one names no legal move, while the game goes on.
pub open spec fn stops_short(s: GameState, picks: Seq<usize>) -> bool
    decreases picks.len(),
{
    if picks.len() == 0 {
        true
    } else {
        let k = picks[0] as int;
        ||| !(0 <= k < s.legal_actions().len())
        ||| exists|t: GameState|
            #[trigger] s.after_move(t, s.legal_actions()[k], None) && stops_short(
                t,
                picks.drop_first(),
            )
    }
}

/// A position: the board, whose turn it is, where the next move must go
/// (anywhere when both coordinates are `None`) and how many moves were made.
#[derive(Copy, Clone)]
pub struct GameState {
    pub board: Board,
    pub current_player: Player,
    pub current_sub_x: Option<usize>,
    pub current_sub_y: Option<usize>,
    pub moves: usize,
}

impl GameState {
    /// The owner of cell `c` of sub-board `s`.
    pub open spec fn cell(self, s: int, c: int) -> Option<GameResult> {
        self.board.sub(s).cells()[c]
    }

    /// All 81 cells: the nine cells of sub-board 0, then those of sub-board 1, ...
    pub open spec fn grid(self) -> Seq<Option<GameResult>> {
        Seq::new(81, |k: int| self.cell(k / 9, k % 9))
    }

    /// Sub-board `s` has a result.
    pub open spec fn decided(self, s: int) -> bool {
        self.board.results()[s] is Some
    }

    /// Sub-board `s` has an empty cell.
    pub open spec fn has_empty(self, s: int) -> bool {
        exists|c: int| 0 <= c < 9 && #[trigger] self.cell(s, c) is None
    }

    /// The sub-board the next move must go to, if the mover has no free choice.
    pub open spec fn target(self) -> Option<int> {
        match (self.current_sub_x, self.current_sub_y) {
            (Some(x), Some(y)) => Some(3 * y + x),
            _ => None,
        }
    }

    /// Some sub-board is still undecided, so the game goes on.
    pub open spec fn live(self) -> bool {
        exists|s: int| 0 <= s < 9 && !#[trigger] self.decided(s)
    }

    /// The position is consistent: the target is given by both coordinates or
    /// by neither, is on the board and is undecided; every undecided sub-board
    /// has an empty cell; and `moves` counts the cells taken.
    pub open spec fn wf(self) -> bool {
        &&& (self.current_sub_x is Some <==> self.current_sub_y is Some)
        &&& (self.current_sub_x matches Some(x) ==> x < 3)
        &&& (self.current_sub_y matches Some(y) ==> y < 3)
        &&& (self.target() matches Some(t) ==> !self.decided(t))
        &&& forall|s: int| 0 <= s < 9 && !#[trigger] self.decided(s) ==> self.has_empty(s)
        &&& self.moves + count_empty(self.grid(), 81) == 81
    }

    /// `a` may be played now.
    pub open spec fn is_legal(self, a: Action) -> bool {
        &&& a.on_board()
        &&& !self.decided(a.sub_index())
        &&& self.cell(a.sub_index(), a.cell_index()) is None
        &&& (self.target() matches Some(t) ==> t == a.sub_index())
    }

    /// `next` is this position after `a` was played by the player to move, and
    /// `r` is what the game is then worth.
    ///
    /// The mover's mark fills the cell. If that decides the sub-board, the
    /// sub-board takes its result and `r` is the outcome of the whole board
    /// around it; else `r` is `None`. The turn passes, and the next move must
    /// go to the sub-board named by the cell just played, unless that one is
    /// decided.
    pub open spec fn after_move(self, next: GameState, a: Action, r: Option<GameResult>) -> bool {
        let local = outcome_at(next.board.sub(a.sub_index()).cells(), a.x as int, a.y as int);
        &&& next.wf()
        &&& next.grid() == self.grid().update(a.flat(), Some(self.current_player.victory()))
        &&& next.current_player == self.current_player.opponent()
        &&& next.moves == self.moves + 1
        &&& if local is Some {
            &&& next.board.results() == self.board.results().update(a.sub_index(), local)
            &&& r == outcome_at(next.board.results(), a.sub_x as int, a.sub_y as int)
        } else {
            &&& next.board.results() == self.board.results()
            &&& r is None
        }
        &&& if next.decided(a.cell_index()) {
            next.current_sub_x is None && next.current_sub_y is None
        } else {
            next.current_sub_x == Some(a.x) && next.current_sub_y == Some(a.y)
        }
    }

    /// `prev` is this position with move `a` taken back: its cell emptied, the
    /// result of its sub-board cleared, the turn given back, the move count
    /// lowered, and the next move sent where it had to go before `a`: anywhere
    /// if `a` was a free choice, else to the sub-board of `a`.
    pub open spec fn taken_back(self, prev: GameState, a: Action) -> bool {
        &&& prev.grid() == self.grid().update(a.flat(), None)
        &&& prev.board.results() == self.board.results().update(a.sub_index(), None)
        &&& prev.current_player == self.current_player.opponent()
        &&& prev.moves == self.moves - 1
        &&& if a.full_board {
            prev.current_sub_x is None && prev.current_sub_y is None
        } else {
            prev.current_sub_x == Some(a.sub_x) && prev.current_sub_y == Some(a.sub_y)
        }
    }

    pub fn new() -> (r: GameState)
        ensures
            r.wf(),
            r.live(),
            r.current_player == Player::Player1,
            r.target() is None,
            r.moves == 0,
            forall|k: int| 0 <= k < 81 ==> #[trigger] r.grid()[k] is None,
            forall|s: int| 0 <= s < 9 ==> !#[trigger] r.decided(s),
    {
        let r = GameState {
            board: Board::new(),
            current_player: Player::Player1,
            current_sub_x: None,
            current_sub_y: None,
            moves: 0,
        };
        proof {
            assert forall|k: int| 0 <= k < 81 implies #[trigger] r.grid()[k] is None by {
                assert(r.board.sub(k / 9).is_blank());
            }
            lemma_count_all_empty(r.grid(), 81);
            assert forall|s: int| 0 <= s < 9 implies !#[trigger] r.decided(s) && r.has_empty(s) by {
                assert(r.board.sub(s).is_blank());
                assert(r.cell(s, 0) is None);
            }
            assert(!r.decided(0));
        }
        r
    }

    /// Whether the position is consistent (see `wf`).
    pub fn is_consistent(&self) -> (r: bool)
        ensures
            r == self.wf(),
    {
        let target_ok = match (self.current_sub_x, self.current_sub_y) {
            (Some(x), Some(y)) => x < 3 && y < 3 && self.board.get(x, y).result().is_none(),
            (None, None) => true,
            _ => false,
        };
        if !target_ok {
            return false;
        }
        let ghost g = self.grid();
        let mut empty: usize = 0;
        let mut s: usize = 0;
        while s < 9
            invariant
                s <= 9,
                g == self.grid(),
                empty == count_empty(g, 9 * s),
                empty <= 9 * s,
                forall|t: int| 0 <= t < s && !#[trigger] self.decided(t) ==> self.has_empty(t),
            decreases 9 - s,
        {
            let sub = self.board.get(s % 3, s / 3);
            let mut found: bool = false;
            let mut c: usize = 0;
            while c < 9
                invariant
                    s < 9,
                    c <= 9,
                    g == self.grid(),
                    *sub == self.board.sub(s as int),
                    empty == count_empty(g, 9 * s + c),
                    empty <= 9 * s + c,
                    found == exists|d: int| 0 <= d < c && #[trigger] self.cell(s as int, d) is None,
                decreases 9 - c,
            {
                assert((9 * s + c) / 9 == s && (9 * s + c) % 9 == c);
                assert(g[9 * s + c] == self.cell(s as int, c as int));
                if sub.get(c % 3, c / 3).result().is_none() {
                    empty = empty + 1;
                    found = true;
                }
                c = c + 1;
            }
            if !found && sub.result().is_none() {
                assert(!self.decided(s as int) && !self.has_empty(s as int));
                return false;
            }
            s = s + 1;
        }
        self.moves <= 81 && self.moves + empty == 81
    }

    pub fn board(&self) -> (r: &Board)
        ensures
            *r == self.board,
    {
        &self.board
    }

    pub fn board_mut(&mut self) -> (r: &mut Board)
        ensures
            *r == old(self).board,
            *final(self) == (GameState { board: *final(r), ..*old(self) }),
    {
        &mut self.board
    }

    pub fn current_player(&self) -> (r: Player)
        ensures
            r == self.current_player,
    {
        self.current_player
    }

    /// Plays cell (`x`, `y`) of sub-board (`sub_x`, `sub_y`) for the player to
    /// move, and returns the result of the game if it ended with this move.
    pub fn make_move(&mut self, sub_x: usize, sub_y: usize, x: usize, y: usize) -> (r: Option<
        GameResult,
    >)
        requires
            old(self).wf(),
            old(self).is_legal(Action { sub_x, sub_y, x, y, full_board: false }),
        ensures
            old(self).after_move(
                *final(self),
                Action { sub_x, sub_y, x, y, full_board: false },
                r,
            ),
            r is None ==> final(self).live(),
    {
        let ghost a = Action { sub_x, sub_y, x, y, full_board: false };
        let ghost s = a.sub_index();
        let ghost g = old(self).grid();
        let current_player = self.current_player();
        let (new_x, new_y, result) = self.board_mut().make_move(
            Some(current_player.wins()),
            sub_x,
            sub_y,
            x,
            y,
        );
        self.current_sub_x = new_x;
        self.current_sub_y = new_y;
        self.current_player = current_player.next();
        proof {
            lemma_count_bounds(g, 81);
        }
        self.moves = self.moves + 1;
        proof {
            let mark = Some(current_player.victory());
            assert(self.grid() =~= g.update(a.flat(), mark));
            lemma_count_fill(g, a.flat(), mark, 81);
            let local = outcome_at(self.board.sub(s).cells(), x as int, y as int);
            if local is None {
                lemma_undecided_has_empty(self.board.sub(s).cells(), x as int, y as int);
                let c = choose|c: int| 0 <= c < 9 && #[trigger] self.board.sub(s).cells()[c] is None;
                assert(self.cell(s, c) is None);
                assert(self.has_empty(s));
                assert(!self.decided(s));
            } else if result is None {
                lemma_undecided_has_empty(self.board.results(), sub_x as int, sub_y as int);
                let t = choose|t: int| 0 <= t < 9 && #[trigger] self.board.results()[t] is None;
                assert(!self.decided(t));
            }
            assert forall|t: int| 0 <= t < 9 && !#[trigger] self.decided(t) implies self.has_empty(
                t,
            ) by {
                if t != s {
                    assert(self.board.results()[t] == old(self).board.results()[t]);
                    assert(!old(self).decided(t));
                    assert(old(self).has_empty(t));
                    let c = choose|c: int| 0 <= c < 9 && #[trigger] old(self).cell(t, c) is None;
                    assert(self.cell(t, c) is None);
                }
            }
        }
        result
    }

    /// Cell `k % 9` of sub-board `k / 9` may be played now.
    pub open spec fn allowed(self, k: int) -> bool {
        &&& self.cell(k / 9, k % 9) is None
        &&& match self.target() {
            Some(t) => k / 9 == t,
            None => !self.decided(k / 9),
        }
    }

    /// The move onto cell `k % 9` of sub-board `k / 9`.
    pub open spec fn action_at(self, k: int) -> Action {
        Action {
            sub_x: ((k / 9) % 3) as usize,
            sub_y: ((k / 9) / 3) as usize,
            x: ((k % 9) % 3) as usize,
            y: ((k % 9) / 3) as usize,
            full_board: self.target() is None,
        }
    }

    /// The moves allowed now onto the first `n` of the 81 cells, in order.
    pub open spec fn actions_upto(self, n: int) -> Seq<Action>
        decreases n,
    {
        if n <= 0 {
            Seq::empty()
        } else if self.allowed(n - 1) {
            self.actions_upto(n - 1).push(self.action_at(n - 1))
        } else {
            self.actions_upto(n - 1)
        }
    }

    /// Every move allowed now: sub-board by sub-board, cell by cell, each row
    /// by row.
    pub open spec fn legal_actions(self) -> Seq<Action> {
        self.actions_upto(81)
    }

    /// The moves onto the empty cells of sub-board `s` among its first `n`
    /// cells, in order, as moves without free choice.
    pub open spec fn empty_cells_upto(self, s: int, n: int) -> Seq<Action>
        decreases n,
    {
        if n <= 0 {
            Seq::empty()
        } else if self.cell(s, n - 1) is None {
            self.empty_cells_upto(s, n - 1).push(
                Action {
                    sub_x: (s % 3) as usize,
                    sub_y: (s / 3) as usize,
                    x: ((n - 1) % 3) as usize,
                    y: ((n - 1) / 3) as usize,
                    full_board: false,
                },
            )
        } else {
            self.empty_cells_upto(s, n - 1)
        }
    }

    pub proof fn lemma_action_at(self, k: int)
        requires
            0 <= k < 81,
        ensures
            self.action_at(k).flat() == k,
            self.action_at(k).sub_index() == k / 9,
            self.action_at(k).cell_index() == k % 9,
            self.action_at(k).on_board(),
    {
    }

    proof fn lemma_skip(self, a: int, b: int)
        requires
            0 <= a <= b,
            forall|k: int| a <= k < b ==> !#[trigger] self.allowed(k),
        ensures
            self.actions_upto(b) == self.actions_upto(a),
        decreases b - a,
    {
        if a < b {
            self.lemma_skip(a, b - 1);
        }
    }

    /// The moves of `actions_upto(n)` are allowed, each is the move onto its
    /// own cell, and their cells come in increasing order.
    pub proof fn lemma_actions_upto(self, n: int)
        requires
            0 <= n <= 81,
        ensures
            forall|i: int|
                0 <= i < self.actions_upto(n).len() ==> {
                    let a = #[trigger] self.actions_upto(n)[i];
                    &&& 0 <= a.flat() < n
                    &&& self.allowed(a.flat())
                    &&& a == self.action_at(a.flat())
                },
            forall|i: int, j: int|
                0 <= i < j < self.actions_upto(n).len() ==> #[trigger] self.actions_upto(n)[i].flat()
                    < #[trigger] self.actions_upto(n)[j].flat(),
        decreases n,
    {
        if n > 0 {
            self.lemma_actions_upto(n - 1);
            self.lemma_action_at(n - 1);
            let prev = self.actions_upto(n - 1);
            let cur = self.actions_upto(n);
            if self.allowed(n - 1) {
                assert(cur == prev.push(self.action_at(n - 1)));
                assert forall|i: int| 0 <= i < cur.len() implies {
                    let a = #[trigger] cur[i];
                    &&& 0 <= a.flat() < n
                    &&& self.allowed(a.flat())
                    &&& a == self.action_at(a.flat())
                } by {
                    if i < prev.len() {
                        assert(cur[i] == prev[i]);
                    }
                }
                assert forall|i: int, j: int| 0 <= i < j < cur.len() implies #[trigger] cur[i].flat()
                    < #[trigger] cur[j].flat() by {
                    assert(cur[i] == prev[i]);
                    if j < prev.len() {
                        assert(cur[j] == prev[j]);
                    }
                }
            }
        }
    }

    /// Every move of `legal_actions` may be played.
    pub proof fn lemma_legal_actions_are_legal(self)
        requires
            self.wf(),
        ensures
            forall|i: int|
                0 <= i < self.legal_actions().len() ==> self.is_legal(
                    #[trigger] self.legal_actions()[i],
                ),
    {
        self.lemma_actions_upto(81);
        assert forall|i: int| 0 <= i < self.legal_actions().len() implies self.is_legal(
            #[trigger] self.legal_actions()[i],
        ) by {
            let k = self.legal_actions()[i].flat();
            self.lemma_action_at(k);
        }
    }

    proof fn lemma_allowed_listed(self, k: int, n: int)
        requires
            0 <= k < n <= 81,
            self.allowed(k),
        ensures
            self.actions_upto(n).len() > 0,
        decreases n,
    {
        if k < n - 1 {
            self.lemma_allowed_listed(k, n - 1);
        }
    }

    /// While the game goes on there is a legal move.
    pub proof fn lemma_live_has_actions(self)
        requires
            self.wf(),
            self.live(),
        ensures
            self.legal_actions().len() > 0,
    {
        let s = match self.target() {
            Some(t) => t,
            None => choose|s: int| 0 <= s < 9 && !#[trigger] self.decided(s),
        };
        assert(self.has_empty(s));
        let c = choose|c: int| 0 <= c < 9 && #[trigger] self.cell(s, c) is None;
        assert((9 * s + c) / 9 == s && (9 * s + c) % 9 == c);
        assert(self.allowed(9 * s + c));
        self.lemma_allowed_listed(9 * s + c, 81);
    }

    pub fn possible_actions(&self) -> (r: Vec<Action>)
        requires
            self.wf(),
        ensures
            r@ == self.legal_actions(),
    {
        match self.current_sub_x {
            Some(sub_x) => {
                let sub_y = self.current_sub_y.unwrap();
                let ghost t = 3 * sub_y + sub_x;
                proof {
                    self.lemma_skip(0, 9 * t);
                }
                let sub_board_items = &self.board().get(sub_x, sub_y).structure().items;
                let mut vec: Vec<Action> = Vec::new();
                let mut i: usize = 0;
                while i < 9
                    invariant
                        self.wf(),
                        self.target() == Some(t),
                        t == 3 * sub_y + sub_x,
                        sub_x < 3,
                        sub_y < 3,
                        i <= 9,
                        *sub_board_items == self.board.sub(t).structure.items,
                        vec@ == self.actions_upto(9 * t + i),
                    decreases 9 - i,
                {
                    assert((9 * t + i) / 9 == t && (9 * t + i) % 9 == i);
                    if sub_board_items[i].result().is_none() {
                        vec.push(Action::new(sub_x, sub_y, i % 3, i / 3, false));
                    }
                    i = i + 1;
                }
                proof {
                    self.lemma_skip(9 * t + 9, 81);
                }
                vec
            },
            None => {
                let mut vec: Vec<Action> = Vec::new();
                let board_items = &self.board().structure().items;
                let mut i: usize = 0;
                while i < 9
                    invariant
                        self.wf(),
                        self.target() is None,
                        i <= 9,
                        *board_items == self.board.structure.items,
                        vec@ == self.actions_upto(9 * i),
                    decreases 9 - i,
                {
                    let sub_board = &board_items[i];
                    if sub_board.result().is_some() {
                        proof {
                            self.lemma_skip(9 * i, 9 * i + 9);
                        }
                    } else {
                        let sub_board_items = &sub_board.structure().items;
                        let (sub_x, sub_y) = (i % 3, i / 3);
                        let mut j: usize = 0;
                        while j < 9
                            invariant
                                self.target() is None,
                                i < 9,
                                j <= 9,
                                !self.decided(i as int),
                                sub_x == i % 3,
                                sub_y == i / 3,
                                *sub_board_items == self.board.sub(i as int).structure.items,
                                vec@ == self.actions_upto(9 * i + j),
                            decreases 9 - j,
                        {
                            assert((9 * i + j) / 9 == i && (9 * i + j) % 9 == j);
                            if sub_board_items[j].result().is_none() {
                                vec.push(Action::new(sub_x, sub_y, j % 3, j / 3, true));
                            }
                            j = j + 1;
                        }
                    }
                    i = i + 1;
                }
                vec
            },
        }
    }

    /// The moves onto the empty cells of sub-board (`sub_x`, `sub_y`), in order.
    fn empty_cells(&self, sub_x: usize, sub_y: usize) -> (r: Vec<Action>)
        requires
            sub_x < 3,
            sub_y < 3,
        ensures
            r@ == self.empty_cells_upto(3 * sub_y + sub_x, 9),
    {
        let items = &self.board.get(sub_x, sub_y).structure().items;
        let mut vec: Vec<Action> = Vec::new();
        let mut i: usize = 0;
        while i < 9
            invariant
                sub_x < 3,
                sub_y < 3,
                i <= 9,
                *items == self.board.sub(3 * sub_y + sub_x).structure.items,
                vec@ == self.empty_cells_upto(3 * sub_y + sub_x, i as int),
            decreases 9 - i,
        {
            if items[i].result().is_none() {
                vec.push(Action::new(sub_x, sub_y, i % 3, i / 3, false));
            }
            i = i + 1;
        }
        vec
    }

    /// For each sub-board (row by row), the moves onto its empty cells.
    pub fn initialize_actions(&self) -> (r: [Vec<Action>; 9])
        ensures
            forall|s: int| 0 <= s < 9 ==> (#[trigger] r@[s])@ == self.empty_cells_upto(s, 9),
    {
        [
            self.empty_cells(0, 0),
            self.empty_cells(1, 0),
            self.empty_cells(2, 0),
            self.empty_cells(0, 1),
            self.empty_cells(1, 1),
            self.empty_cells(2, 1),
            self.empty_cells(0, 2),
            self.empty_cells(1, 2),
            self.empty_cells(2, 2),
        ]
    }

    /// While the position is consistent, at most 81 moves were made.
    pub proof fn lemma_moves_bounded(self)
        requires
            self.wf(),
        ensures
            self.moves <= 81,
    {
        lemma_count_bounds(self.grid(), 81);
    }

    /// Plays move `k` of `legal_actions`, and returns the result of the game
    /// if it ended with it.
    pub fn make_nth_move(&mut self, k: usize) -> (r: Option<GameResult>)
        requires
            old(self).wf(),
            k < old(self).legal_actions().len(),
        ensures
            old(self).after_move(*final(self), old(self).legal_actions()[k as int], r),
            r is None ==> final(self).live(),
    {
        let actions = self.possible_actions();
        proof {
            self.lemma_legal_actions_are_legal();
        }
        let action = actions[k];
        action.apply(self)
    }

    /// Plays uniformly random legal moves from this position until the game
    /// ends. Returns the result and the number of moves played; the moves
    /// played are those of some list of picks (see `plays_picks`).
    pub fn rollout(&self, rng: &mut StdRng) -> (r: (GameResult, usize))
        requires
            self.wf(),
            self.live(),
        ensures
            1 <= r.1 <= 81 - self.moves,
            exists|p: Seq<usize>| p.len() == r.1 && #[trigger] plays_picks(*self, p, r.0),
        decreases 81 - self.moves,
    {
        proof {
            self.lemma_live_has_actions();
            self.lemma_moves_bounded();
        }
        let n = self.possible_actions().len();
        let k = random_below(rng, n);
        let mut next = *self;
        let outcome = next.make_nth_move(k);
        proof {
            next.lemma_moves_bounded();
        }
        match outcome {
            Some(g) => {
                proof {
                    let p = seq![k];
                    assert(p[0] == k);
                    assert(p.drop_first() =~= Seq::<usize>::empty());
                    assert(plays_picks(*self, p, g));
                }
                let r = (g, 1usize);
                assert(plays_picks(*self, seq![k], r.0));
                assert(exists|p: Seq<usize>| p.len() == r.1 && #[trigger] plays_picks(*self, p, r.0));
                r
            },
            None => {
                proof {
                    next.lemma_moves_bounded();
                }
                let (g, m) = next.rollout(rng);
                let ghost p = choose|p: Seq<usize>| p.len() == m && #[trigger] plays_picks(next, p, g);
                let ghost q = seq![k].add(p);
                assert(q[0] == k);
                assert(q.drop_first() =~= p);
                assert(plays_picks(*self, q, g));
                assert(q.len() == m + 1);
                let r = (g, m + 1);
                assert(r.0 == g && r.1 == q.len());
                assert(plays_picks(*self, q, r.0));
                assert(exists|p: Seq<usize>| p.len() == r.1 && #[trigger] plays_picks(*self, p, r.0));
                r
            },
        }
    }

    /// The result of one random playout from this position (see `rollout`).
    pub fn play_randomly(&self, rng: &mut StdRng) -> (r: GameResult)
        requires
            self.wf(),
            self.live(),
        ensures
            exists|p: Seq<usize>| 1 <= p.len() <= 81 - self.moves && #[trigger] plays_picks(*self, p, r),
    {
        self.rollout(rng).0
    }

    /// Plays, from this position, move `picks[i]` of `possible_actions` at
    /// step `i`, until the game ends. Returns the result, or `None` when the
    /// picks run out first or a pick names no legal move.
    pub fn play_picks(&self, picks: &Vec<usize>) -> (r: Option<GameResult>)
        requires
            self.wf(),
            self.live(),
        ensures
            r matches Some(g) ==> exists|m: int|
                1 <= m <= picks@.len() && #[trigger] plays_picks(*self, picks@.take(m), g),
            r is None ==> stops_short(*self, picks@),
    {
        let r = self.play_picks_from(picks, 0);
        proof {
            assert(picks@.subrange(0, picks@.len() as int) =~= picks@);
            if let Some(g) = r {
                let m = choose|m: int|
                    1 <= m <= picks@.len() && #[trigger] plays_picks(*self, picks@.subrange(0, m), g);
                assert(picks@.take(m) =~= picks@.subrange(0, m));
            }
        }
        r
    }

    fn play_picks_from(&self, picks: &Vec<usize>, i: usize) -> (r: Option<GameResult>)
        requires
            self.wf(),
            self.live(),
            i <= picks@.len(),
        ensures
            r matches Some(g) ==> exists|m: int|
                1 <= m <= picks@.len() - i && #[trigger] plays_picks(
                    *self,
                    picks@.subrange(i as int, i + m),
                    g,
                ),
            r is None ==> stops_short(*self, picks@.subrange(i as int, picks@.len() as int)),
        decreases picks@.len() - i,
    {
        let ghost rest = picks@.subrange(i as int, picks@.len() as int);
        if i == picks.len() {
            return None;
        }
        let n = self.possible_actions().len();
        let k = picks[i];
        assert(rest[0] == k);
        if k >= n {
            return None;
        }
        let mut next = *self;
        let outcome = next.make_nth_move(k);
        match outcome {
            Some(g) => {
                proof {
                    let p = picks@.subrange(i as int, i + 1);
                    assert(p[0] == k);
                    assert(p.drop_first() =~= Seq::<usize>::empty());
                    assert(plays_picks(*self, p, g));
                }
                Some(g)
            },
            None => {
                let r = next.play_picks_from(picks, i + 1);
                proof {
                    assert(rest.drop_first() =~= picks@.subrange(i + 1, picks@.len() as int));
                    if let Some(g) = r {
                        let m = choose|m: int|
                            1 <= m <= picks@.len() - (i + 1) && #[trigger] plays_picks(
                                next,
                                picks@.subrange(i + 1, i + 1 + m),
                                g,
                            );
                        let q = picks@.subrange(i as int, i + (m + 1));
                        assert(q[0] == k);
                        assert(q.drop_first() =~= picks@.subrange(i + 1, i + 1 + m));
                        assert(plays_picks(*self, q, g));
                    }
                }
                r
            },
        }
    }
}

/// Taking back a legal move just played, whose free-choice flag says whether
/// the mover could choose the sub-board, gives back the position it was
/// played from: the same cells, sub-board results, player to move, move count
/// and target.
pub proof fn lemma_take_back_restores(
    state: GameState,
    a: Action,
    next: GameState,
    r: Option<GameResult>,
    back: GameState,
)
    requires
        state.wf(),
        state.is_legal(a),
        a.full_board == (state.target() is None),
        state.after_move(next, a, r),
        next.taken_back(back, a),
    ensures
        back.grid() == state.grid(),
        back.board.results() == state.board.results(),
        back.current_player == state.current_player,
        back.moves == state.moves,
        back.current_sub_x == state.current_sub_x,
        back.current_sub_y == state.current_sub_y,
{
    assert(back.grid() =~= state.grid());
    assert(back.board.results() =~= state.board.results());
}

/// Two different legal moves from one position never leave the same cells.
pub proof fn lemma_distinct_moves_distinct_grids(
    state: GameState,
    i: int,
    j: int,
    next1: GameState,
    r1: Option<GameResult>,
    next2: GameState,
    r2: Option<GameResult>,
)
    requires
        state.wf(),
        0 <= i < state.legal_actions().len(),
        0 <= j < state.legal_actions().len(),
        i != j,
        state.after_move(next1, state.legal_actions()[i], r1),
        state.after_move(next2, state.legal_actions()[j], r2),
    ensures
        next1.grid() != next2.grid(),
{
    state.lemma_actions_upto(81);
    let a = state.legal_actions()[i];
    let b = state.legal_actions()[j];
    assert(a.flat() != b.flat());
    assert(next1.grid()[a.flat()] is Some);
    assert(next2.grid()[a.flat()] == state.grid()[a.flat()]);
}

} // verus!

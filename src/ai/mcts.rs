use crate::game::action::Action;
use crate::game::game_result::{reward, GameResult};
use crate::game::game_state::{plays_picks, GameState};
use crate::game::player::Player;
use rand::rngs::StdRng;
use vstd::prelude::*;

verus! {

/// Weights are fixed-point numbers: a weight of one is `SCALE`.
pub const SCALE: u64 = 4294967296;

/// The most visits a node may count, so that its value, in half-points,
/// stays within a `u64`.
pub const MAX_VISITS: u64 = 4611686018427387903;

/// The mean reward `value / visits` (value in half-points) as a fixed-point
/// number, rounded down; zero for a node never visited.
pub open spec fn weight_of(value: int, visits: int) -> int {
    if visits == 0 {
        0
    } else {
        (value * SCALE) / (2 * visits)
    }
}

/// The number of children among the first `n` entries of `c` that are not
/// built yet.
pub open spec fn count_unexpanded(c: Seq<(Action, Option<Node>)>, n: int) -> int
    decreases n,
{
    if n <= 0 {
        0
    } else {
        count_unexpanded(c, n - 1) + (if c[n - 1].1 is None {
            1int
        } else {
            0int
        })
    }
}


proof fn lemma_count_unexpanded_bounds(c: Seq<(Action, Option<Node>)>, n: int)
    requires
        0 <= n,
    ensures
        0 <= count_unexpanded(c, n) <= n,
    decreases n,
{
    if n > 0 {
        lemma_count_unexpanded_bounds(c, n - 1);
    }
}

proof fn lemma_count_all_unexpanded(c: Seq<(Action, Option<Node>)>, n: int)
    requires
        0 <= n <= c.len(),
        forall|i: int| 0 <= i < n ==> (#[trigger] c[i]).1 is None,
    ensures
        count_unexpanded(c, n) == n,
    decreases n,
{
    if n > 0 {
        lemma_count_all_unexpanded(c, n - 1);
    }
}

proof fn lemma_count_none_free(c: Seq<(Action, Option<Node>)>, n: int)
    requires
        0 <= n <= c.len(),
        forall|i: int| 0 <= i < n ==> (#[trigger] c[i]).1 is Some,
    ensures
        count_unexpanded(c, n) == 0,
    decreases n,
{
    if n > 0 {
        lemma_count_none_free(c, n - 1);
    }
}

proof fn lemma_count_zero(c: Seq<(Action, Option<Node>)>, n: int)
    requires
        0 <= n <= c.len(),
        count_unexpanded(c, n) == 0,
    ensures
        forall|i: int| 0 <= i < n ==> (#[trigger] c[i]).1 is Some,
    decreases n,
{
    if n > 0 {
        lemma_count_unexpanded_bounds(c, n - 1);
        lemma_count_zero(c, n - 1);
    }
}

proof fn lemma_count_same_shape(c: Seq<(Action, Option<Node>)>, d: Seq<(Action, Option<Node>)>, n: int)
    requires
        forall|i: int| 0 <= i < n ==> (c[i].1 is None <==> d[i].1 is None),
    ensures
        count_unexpanded(c, n) == count_unexpanded(d, n),
    decreases n,
{
    if n > 0 {
        lemma_count_same_shape(c, d, n - 1);
    }
}

proof fn lemma_count_unexpanded_fill(
    c: Seq<(Action, Option<Node>)>,
    k: int,
    v: (Action, Option<Node>),
    n: int,
)
    requires
        0 <= k < n <= c.len(),
        c[k].1 is None,
        v.1 is Some,
    ensures
        count_unexpanded(c.update(k, v), n) == count_unexpanded(c, n) - 1,
    decreases n,
{
    if n - 1 == k {
        lemma_count_same_shape(c, c.update(k, v), n - 1);
    } else {
        lemma_count_unexpanded_fill(c, k, v, n - 1);
    }
}

/// A bonus of zero for each of `n` children.
pub open spec fn no_bonus(n: nat) -> Seq<u64> {
    Seq::new(n, |j: int| 0u64)
}

/// The visits of the child in slot `e`; zero while it is not built.
pub open spec fn slot_visits(e: (Action, Option<Node>)) -> int {
    match e.1 {
        Some(x) => x.visits as int,
        None => 0,
    }
}

/// The visits of the built children among the first `n` entries of `c`.
pub open spec fn visit_sum(c: Seq<(Action, Option<Node>)>, n: int) -> int
    decreases n,
{
    if n <= 0 {
        0
    } else {
        visit_sum(c, n - 1) + slot_visits(c[n - 1])
    }
}

proof fn lemma_visit_sum_bounds(c: Seq<(Action, Option<Node>)>, n: int)
    requires
        0 <= n <= c.len(),
    ensures
        0 <= visit_sum(c, n),
        forall|i: int| 0 <= i < n ==> slot_visits(#[trigger] c[i]) <= visit_sum(c, n),
    decreases n,
{
    if n > 0 {
        lemma_visit_sum_bounds(c, n - 1);
    }
}

proof fn lemma_visit_sum_update(c: Seq<(Action, Option<Node>)>, i: int, v: (Action, Option<Node>), n: int)
    requires
        0 <= i < n <= c.len(),
    ensures
        visit_sum(c.update(i, v), n) == visit_sum(c, n) - slot_visits(c[i]) + slot_visits(v),
    decreases n,
{
    if n - 1 == i {
        lemma_visit_sum_agree(c, c.update(i, v), n - 1);
    } else {
        lemma_visit_sum_update(c, i, v, n - 1);
    }
}

proof fn lemma_visit_sum_agree(c: Seq<(Action, Option<Node>)>, d: Seq<(Action, Option<Node>)>, n: int)
    requires
        forall|i: int| 0 <= i < n ==> c[i] == d[i],
    ensures
        visit_sum(c, n) == visit_sum(d, n),
    decreases n,
{
    if n > 0 {
        lemma_visit_sum_agree(c, d, n - 1);
    }
}

proof fn lemma_visit_sum_unbuilt(c: Seq<(Action, Option<Node>)>, n: int)
    requires
        0 <= n <= c.len(),
        forall|i: int| 0 <= i < n ==> (#[trigger] c[i]).1 is None,
    ensures
        visit_sum(c, n) == 0,
    decreases n,
{
    if n > 0 {
        lemma_visit_sum_unbuilt(c, n - 1);
    }
}

/// A node of the search tree.
///
/// `player` made the move that led here; `visits` and `value` (in
/// half-points, from `player`'s side) sum up the playouts through this node.
/// `children` lists every legal move of `state`, in the order of
/// `possible_actions`, once `children_constructed` is set; a child is built
/// the first time its move is tried. `unexpanded` counts the moves not tried
/// yet. `result` is set when the move that led here ended the game.
///
/// Below the root, a node still in play has one visit for its own first
/// playout plus one for each round through one of its children (or none at
/// all, while it was built and never played from).
pub struct Node {
    pub visits: u64,
    pub value: u64,
    pub player: Player,
    pub children: Vec<(Action, Option<Node>)>,
    pub children_constructed: bool,
    pub unexpanded: usize,
    pub state: GameState,
    pub result: Option<GameResult>,
}

impl Node {
    /// `child` is a consistent child of this node for move `a`.
    pub open spec fn child_ok(self, a: Action, child: Node) -> bool {
        &&& child.player == self.player.opponent()
        &&& self.state.after_move(child.state, a, child.result)
        &&& (child.result is None ==> (child.visits == 0 && !child.children_constructed)
            || child.visits == 1 + child.total_child_visits())
    }

    /// The visits of all the built children together.
    pub open spec fn total_child_visits(self) -> int {
        visit_sum(self.children@, self.children@.len() as int)
    }

    /// With bonuses `bs`, child `i` has the highest weight plus bonus, and is
    /// the first such child.
    pub open spec fn first_best(self, bs: Seq<u64>, i: int) -> bool {
        &&& 0 <= i < self.children@.len()
        &&& forall|j: int|
            0 <= j < self.children@.len() ==> self.child_weight(j) + bs[j] <= self.child_weight(i)
                + bs[i]
        &&& forall|j: int| 0 <= j < i ==> self.child_weight(j) + bs[j] < self.child_weight(i) + bs[i]
    }

    /// Child `i` is the one selection takes when each child gets the bonus that
    /// `bonus(visits of this node, visits of the child)` returned.
    pub open spec fn chosen_by<F: Fn(u64, u64) -> u64>(self, bonus: F, i: int) -> bool {
        exists|bs: Seq<u64>|
            #[trigger] self.first_best(bs, i) && bs.len() == self.children@.len() && forall|j: int|
                0 <= j < bs.len() ==> bonus.ensures((self.visits, self.child_visits(j)), bs[j])
    }

    /// `a` is the move of the first child with the highest plain weight.
    pub open spec fn final_choice(self, a: Action) -> bool {
        exists|i: int|
            #[trigger] self.first_best(no_bonus(self.children@.len()), i) && a
                == self.children@[i].0
    }

    /// `after` is this node after one round of search that went through child
    /// slot `i` and ended with `r`.
    ///
    /// Only slot `i` changes. If it was not built, it is the first such slot,
    /// which is the case exactly when some move had no child yet; its new child
    /// has one visit, carries `r` as its reward, and `r` is the result cached
    /// in it or the result of a playout from it. If it was built, its child
    /// counts one more visit and `r` as its reward, and returns its cached
    /// result if it has one.
    pub open spec fn round_at(self, after: Node, i: int, r: GameResult) -> bool {
        let s = self.slots();
        &&& 0 <= i < s.len()
        &&& after.children@.len() == s.len()
        &&& forall|j: int| 0 <= j < s.len() && j != i ==> after.children@[j] == s[j]
        &&& after.children@[i].0 == s[i].0
        &&& (s[i].1 is None <==> !(self.children_constructed && self.unexpanded == 0))
        &&& (s[i].1 is None ==> forall|j: int| 0 <= j < i ==> (#[trigger] s[j]).1 is Some)
        &&& match (s[i].1, after.children@[i].1) {
            (Some(o), Some(c)) => {
                &&& c.visits == o.visits + 1
                &&& c.value == o.value + reward(r, o.player)
                &&& c.player == o.player
                &&& c.state == o.state
                &&& c.result == o.result
                &&& (o.result matches Some(g) ==> r == g && c.children == o.children)
            },
            (None, Some(c)) => {
                &&& c.visits == 1
                &&& c.value == reward(r, c.player)
                &&& c.player == self.player.opponent()
                &&& self.state.after_move(c.state, s[i].0, c.result)
                &&& !c.children_constructed
                &&& match c.result {
                    Some(g) => r == g,
                    None => exists|p: Seq<usize>| #[trigger] plays_picks(c.state, p, r),
                }
            },
            _ => false,
        }
    }

    /// The node and all the nodes below it are consistent.
    pub open spec fn wf(self) -> bool
        decreases self,
    {
        &&& self.value <= 2 * self.visits
        &&& self.visits <= MAX_VISITS
        &&& (self.result is None ==> self.state.wf() && self.state.live())
        &&& (self.result is Some ==> !self.children_constructed)
        &&& (self.children_constructed ==> {
            &&& self.children@.len() == self.state.legal_actions().len()
            &&& forall|i: int|
                0 <= i < self.children@.len() ==> (#[trigger] self.children@[i]).0
                    == self.state.legal_actions()[i]
        })
        &&& (!self.children_constructed ==> self.children@.len() == 0)
        &&& self.unexpanded == count_unexpanded(self.children@, self.children@.len() as int)
        &&& forall|i: int|
            0 <= i < self.children@.len() ==> match (#[trigger] self.children@[i]).1 {
                Some(c) => self.child_ok(self.children@[i].0, c) && c.wf(),
                None => true,
            }
    }

    pub fn new(player: Player, state: GameState, result: Option<GameResult>) -> (r: Node)
        ensures
            r.visits == 0,
            r.value == 0,
            r.player == player,
            r.state == state,
            r.result == result,
            !r.children_constructed,
            r.children@.len() == 0,
            (result is None ==> state.wf() && state.live()) ==> r.wf(),
    {
        Node {
            visits: 0,
            value: 0,
            player,
            children: Vec::new(),
            children_constructed: false,
            unexpanded: 0,
            state,
            result,
        }
    }

    pub fn children(&self) -> (r: &Vec<(Action, Option<Node>)>)
        ensures
            *r == self.children,
    {
        &self.children
    }

    pub fn children_mut(&mut self) -> (r: &mut Vec<(Action, Option<Node>)>)
        ensures
            *r == old(self).children,
            final(self).children == *final(r),
            final(self).visits == old(self).visits,
            final(self).value == old(self).value,
            final(self).state == old(self).state,
    {
        &mut self.children
    }

    pub fn state(&self) -> (r: &GameState)
        ensures
            *r == self.state,
    {
        &self.state
    }

    pub fn state_mut(&mut self) -> (r: &mut GameState)
        ensures
            *r == old(self).state,
            final(self).state == *final(r),
            final(self).children == old(self).children,
            final(self).visits == old(self).visits,
            final(self).value == old(self).value,
    {
        &mut self.state
    }

    /// The mean reward of the playouts through this node, as a fixed-point
    /// number (see `weight_of`): zero before the first visit, and at most
    /// `SCALE`, that is one.
    pub fn weight(&self) -> (r: u64)
        requires
            self.value <= 2 * self.visits,
        ensures
            r == weight_of(self.value as int, self.visits as int),
            self.visits == 0 ==> r == 0,
            r <= SCALE,
    {
        if self.visits == 0 {
            0
        } else {
            let v = self.value as u128;
            let n = self.visits as u128;
            proof {
                assert(v * SCALE <= 2 * n * SCALE) by (nonlinear_arith)
                    requires
                        v <= 2 * n,
                ;
                assert((v * SCALE) / (2 * n) <= SCALE) by (nonlinear_arith)
                    requires
                        v * SCALE <= 2 * n * SCALE,
                        n > 0,
                ;
            }
            ((v * (SCALE as u128)) / (2 * n)) as u64
        }
    }

    /// The weight of this node plus an exploration bonus (a fixed-point number
    /// like the weight), which ranks it among its siblings during selection.
    pub fn search_weight(&self, exploration: u64) -> (r: u128)
        requires
            self.value <= 2 * self.visits,
        ensures
            r == weight_of(self.value as int, self.visits as int) + exploration,
    {
        self.weight() as u128 + exploration as u128
    }

    /// Every legal move of this node has a child.
    pub fn fully_expanded(&self) -> (r: bool)
        ensures
            r == (self.children_constructed && self.unexpanded == 0),
    {
        self.children_constructed && self.unexpanded == 0
    }

    /// Counts one more playout through this node, which ended with `result`.
    pub fn update(&mut self, result: GameResult)
        requires
            old(self).visits < MAX_VISITS,
            old(self).value <= 2 * old(self).visits,
        ensures
            final(self).visits == old(self).visits + 1,
            final(self).value == old(self).value + reward(result, old(self).player),
            final(self).player == old(self).player,
            final(self).children == old(self).children,
            final(self).children_constructed == old(self).children_constructed,
            final(self).unexpanded == old(self).unexpanded,
            final(self).state == old(self).state,
            final(self).result == old(self).result,
            old(self).wf() ==> final(self).wf(),
    {
        self.visits = self.visits + 1;
        self.value = self.value + result.score(self.player);
    }

    /// The child list as `expand` sees it: the built list, or else one unbuilt
    /// entry for each legal move.
    pub open spec fn slots(self) -> Seq<(Action, Option<Node>)> {
        if self.children_constructed {
            self.children@
        } else {
            self.state.legal_actions().map_values(|a: Action| (a, None::<Node>))
        }
    }

    /// The visits of child `j`; zero while it is not built.
    pub open spec fn child_visits(self, j: int) -> u64 {
        match self.children@[j].1 {
            Some(c) => c.visits,
            None => 0,
        }
    }

    /// The weight of child `j`; zero while it is not built.
    pub open spec fn child_weight(self, j: int) -> int {
        match self.children@[j].1 {
            Some(c) => weight_of(c.value as int, c.visits as int),
            None => 0,
        }
    }

    /// Builds the child for the first legal move that has none yet, and
    /// returns its index in `children`.
    ///
    /// On the first call the list of children is made from
    /// `possible_actions`.
    pub fn expand(&mut self) -> (r: usize)
        requires
            old(self).wf(),
            old(self).result is None,
            !(old(self).children_constructed && old(self).unexpanded == 0),
        ensures
            final(self).wf(),
            final(self).children_constructed,
            r < old(self).slots().len(),
            old(self).slots()[r as int].1 is None,
            forall|j: int| 0 <= j < r ==> (#[trigger] old(self).slots()[j]).1 is Some,
            final(self).children@ == old(self).slots().update(
                r as int,
                (old(self).slots()[r as int].0, final(self).children@[r as int].1),
            ),
            final(self).children@[r as int].1 matches Some(c) && c.visits == 0 && c.value == 0
                && !c.children_constructed,
            final(self).unexpanded == old(self).unexpanded + (if old(
                self,
            ).children_constructed {
                0int
            } else {
                old(self).slots().len() as int
            }) - 1,
            final(self).visits == old(self).visits,
            final(self).value == old(self).value,
            final(self).player == old(self).player,
            final(self).state == old(self).state,
            final(self).result == old(self).result,
    {
        if !self.children_constructed {
            let actions = self.state.possible_actions();
            let mut children: Vec<(Action, Option<Node>)> = Vec::new();
            let mut k: usize = 0;
            while k < actions.len()
                invariant
                    k <= actions@.len(),
                    children@ == actions@.subrange(0, k as int).map_values(
                        |a: Action| (a, None::<Node>),
                    ),
                decreases actions@.len() - k,
            {
                children.push((actions[k], None));
                k = k + 1;
                assert(children@ =~= actions@.subrange(0, k as int).map_values(
                    |a: Action| (a, None::<Node>),
                ));
            }
            assert(actions@.subrange(0, actions@.len() as int) =~= actions@);
            proof {
                lemma_count_all_unexpanded(children@, children@.len() as int);
            }
            self.children = children;
            self.children_constructed = true;
            self.unexpanded = actions.len();
        }
        assert(self.children@ =~= old(self).slots());
        proof {
            lemma_count_unexpanded_bounds(self.children@, self.children@.len() as int);
            if self.unexpanded == 0 {
                lemma_count_zero(self.children@, self.children@.len() as int);
                self.state.lemma_live_has_actions();
            }
        }
        let mut i: usize = 0;
        while i < self.children.len() && self.children[i].1.is_some()
            invariant
                i <= self.children@.len(),
                self.children@ == old(self).slots(),
                self.unexpanded == count_unexpanded(self.children@, self.children@.len() as int),
                self.unexpanded > 0,
                forall|j: int| 0 <= j < i ==> (#[trigger] self.children@[j]).1 is Some,
            decreases self.children@.len() - i,
        {
            i = i + 1;
        }
        if i == self.children.len() {
            proof {
                lemma_count_none_free(self.children@, i as int);
            }
        }
        let action = self.children[i].0;
        proof {
            self.state.lemma_legal_actions_are_legal();
            assert(self.children@[i as int].0 == self.state.legal_actions()[i as int]);
        }
        let mut next_state = self.state;
        let result = action.apply(&mut next_state);
        let child = Node::new(self.player.next(), next_state, result);
        let ghost before = self.children@;
        self.children.set(i, (action, Some(child)));
        proof {
            lemma_count_unexpanded_fill(before, i as int, (action, Some(child)), before.len() as int);
            lemma_count_unexpanded_bounds(before, before.len() as int);
        }
        self.unexpanded = self.unexpanded - 1;
        proof {
            assert forall|j: int| 0 <= j < self.children@.len() implies match (
            #[trigger] self.children@[j]).1 {
                Some(c) => self.child_ok(self.children@[j].0, c) && c.wf(),
                None => true,
            } by {
                if j != i {
                    assert(self.children@[j] == old(self).slots()[j]);
                    if !old(self).children_constructed {
                        assert(old(self).slots()[j].1 is None);
                    }
                }
            }
        }
        i
    }

    /// The index of the child with the highest `search_weight`, given the
    /// exploration bonus of each child; the first such child on ties.
    pub fn best_child(&self, bonuses: &Vec<u64>) -> (r: usize)
        requires
            self.wf(),
            self.children@.len() > 0,
            bonuses@.len() == self.children@.len(),
        ensures
            self.first_best(bonuses@, r as int),
    {
        let mut best: usize = 0;
        let mut best_key: u128 = self.child_search_weight(0, bonuses[0]);
        let mut j: usize = 1;
        while j < self.children.len()
            invariant
                self.wf(),
                bonuses@.len() == self.children@.len(),
                1 <= j <= self.children@.len(),
                best < j,
                best_key == self.child_weight(best as int) + bonuses@[best as int],
                forall|k: int|
                    0 <= k < j ==> self.child_weight(k) + bonuses@[k] <= best_key,
                forall|k: int| 0 <= k < best ==> self.child_weight(k) + bonuses@[k] < best_key,
            decreases self.children@.len() - j,
        {
            let key = self.child_search_weight(j, bonuses[j]);
            if key > best_key {
                best = j;
                best_key = key;
            }
            j = j + 1;
        }
        best
    }

    /// The weight of child `j` plus `exploration`.
    fn child_search_weight(&self, j: usize, exploration: u64) -> (r: u128)
        requires
            self.wf(),
            j < self.children@.len(),
        ensures
            r == self.child_weight(j as int) + exploration,
    {
        assert(match self.children@[j as int].1 {
            Some(c) => c.wf(),
            None => true,
        });
        match &self.children[j].1 {
            Some(c) => c.search_weight(exploration),
            None => exploration as u128,
        }
    }

    /// The move whose child has the highest plain weight; the first such move
    /// on ties. Moves not tried yet weigh zero.
    pub fn best_child_final(&self) -> (r: Action)
        requires
            self.wf(),
            self.children@.len() > 0,
        ensures
            self.final_choice(r),
    {
        let mut zeros: Vec<u64> = Vec::new();
        let mut k: usize = 0;
        while k < self.children.len()
            invariant
                k <= self.children@.len(),
                zeros@.len() == k,
                forall|j: int| 0 <= j < k ==> zeros@[j] == 0,
            decreases self.children@.len() - k,
        {
            zeros.push(0);
            k = k + 1;
        }
        let i = self.best_child(&zeros);
        assert(zeros@ =~= no_bonus(self.children@.len()));
        self.children[i].0
    }

    /// The exploration bonus of each child, as `bonus(visits of this node,
    /// visits of the child)` returns it.
    fn exploration_bonuses<F: Fn(u64, u64) -> u64>(&self, bonus: &F) -> (r: Vec<u64>)
        requires
            forall|p: u64, v: u64| bonus.requires((p, v)),
        ensures
            r@.len() == self.children@.len(),
            forall|j: int|
                0 <= j < r@.len() ==> bonus.ensures((self.visits, self.child_visits(j)), #[trigger] r@[j]),
    {
        let mut r: Vec<u64> = Vec::new();
        let mut j: usize = 0;
        while j < self.children.len()
            invariant
                forall|p: u64, v: u64| bonus.requires((p, v)),
                j <= self.children@.len(),
                r@.len() == j,
                forall|k: int|
                    0 <= k < j ==> bonus.ensures((self.visits, self.child_visits(k)), #[trigger] r@[k]),
            decreases self.children@.len() - j,
        {
            let v = match &self.children[j].1 {
                Some(c) => c.visits,
                None => 0,
            };
            r.push(bonus(self.visits, v));
            j = j + 1;
        }
        r
    }
}

/// Putting child `i` back, after a round through it, into a node keeps the
/// tree consistent.
proof fn lemma_put_back(before: Node, after: Node, i: int, child: Node)
    requires
        before.wf(),
        0 <= i < before.children@.len(),
        before.children@[i].1 matches Some(c) && child.player == c.player && child.state
            == c.state && child.result == c.result,
        child.result is None ==> child.visits == 1 + child.total_child_visits(),
        child.wf(),
        after.visits == before.visits,
        after.value == before.value,
        after.player == before.player,
        after.state == before.state,
        after.result == before.result,
        after.children_constructed == before.children_constructed,
        after.unexpanded == before.unexpanded,
        after.children@ == before.children@.update(i, (before.children@[i].0, Some(child))),
    ensures
        after.wf(),
{
    lemma_count_same_shape(before.children@, after.children@, before.children@.len() as int);
    assert forall|j: int| 0 <= j < after.children@.len() implies match (
    #[trigger] after.children@[j]).1 {
        Some(c) => after.child_ok(after.children@[j].0, c) && c.wf(),
        None => true,
    } by {
        if j != i {
            assert(after.children@[j] == before.children@[j]);
        }
    }
}

/// One round of the search below `root`, which counts it in the child it goes
/// through, not in `root` itself.
///
/// While every move of a node has a child, the round goes into the child that
/// `best_child` picks, each child getting the exploration bonus that
/// `bonus(visits of the node, visits of the child)` returns. At the first node
/// with an untried move it builds that child and plays a random game from it,
/// unless the move ended the game. A built child never visited also gets a
/// random game. The result is counted in every node on the way back up, below
/// `root`, and returned.
pub fn mcts_rec<F: Fn(u64, u64) -> u64>(root: &mut Node, bonus: &F, rng: &mut StdRng) -> (r:
    GameResult)
    requires
        old(root).wf(),
        old(root).result is None,
        old(root).total_child_visits() < MAX_VISITS,
        forall|p: u64, v: u64| bonus.requires((p, v)),
    ensures
        final(root).wf(),
        final(root).visits == old(root).visits,
        final(root).value == old(root).value,
        final(root).player == old(root).player,
        final(root).state == old(root).state,
        final(root).result == old(root).result,
        final(root).children_constructed,
        final(root).total_child_visits() == old(root).total_child_visits() + 1,
        exists|i: int|
            #[trigger] old(root).round_at(*final(root), i, r) && (old(root).children_constructed
                && old(root).unexpanded == 0 ==> old(root).chosen_by(*bonus, i)),
    decreases 81 - old(root).state.moves,
{
    proof {
        root.state.lemma_moves_bounded();
        lemma_visit_sum_bounds(root.children@, root.children@.len() as int);
    }
    let ghost start = *root;
    let expanding = !root.fully_expanded();
    let i: usize;
    if expanding {
        i = root.expand();
        proof {
            let s = start.slots();
            if !start.children_constructed {
                lemma_visit_sum_unbuilt(s, s.len() as int);
                lemma_visit_sum_unbuilt(start.children@, start.children@.len() as int);
            }
            assert(start.children_constructed ==> s == start.children@);
            lemma_visit_sum_update(s, i as int, root.children@[i as int], s.len() as int);
            assert(root.children@ =~= s.update(i as int, root.children@[i as int]));
        }
    } else {
        proof {
            lemma_count_zero(root.children@, root.children@.len() as int);
            root.state.lemma_live_has_actions();
        }
        let bonuses = root.exploration_bonuses(bonus);
        i = root.best_child(&bonuses);
        proof {
            assert(root.first_best(bonuses@, i as int));
        }
    }
    let ghost before = *root;
    assert(match before.children@[i as int].1 {
        Some(c) => before.child_ok(before.children@[i as int].0, c) && c.wf(),
        None => false,
    });
    proof {
        lemma_visit_sum_bounds(before.children@, before.children@.len() as int);
        assert(slot_visits(before.children@[i as int]) <= visit_sum(
            before.children@,
            before.children@.len() as int,
        ));
    }
    let action = root.children[i].0;
    let mut slot: (Action, Option<Node>) = (action, None);
    std::mem::swap(&mut root.children[i], &mut slot);
    let mut child = slot.1.unwrap();
    let ghost first = child;
    let result = match child.result {
        Some(outcome) => {
            child.update(outcome);
            outcome
        },
        None => {
            if expanding || child.visits == 0 {
                let outcome = child.state.play_randomly(rng);
                child.update(outcome);
                outcome
            } else {
                proof {
                    child.state.lemma_moves_bounded();
                }
                let outcome = mcts_rec(&mut child, bonus, rng);
                child.update(outcome);
                outcome
            }
        },
    };
    let ghost new_child = child;
    root.children.set(i, (action, Some(child)));
    proof {
        assert(root.children@ =~= before.children@.update(i as int, (action, Some(new_child))));
        if first.result is None && first.visits == 0 {
            lemma_visit_sum_bounds(first.children@, first.children@.len() as int);
            assert(!first.children_constructed);
            assert(new_child.children@.len() == 0);
        }
        lemma_put_back(before, *root, i as int, new_child);
        lemma_visit_sum_update(
            before.children@,
            i as int,
            (action, Some(new_child)),
            before.children@.len() as int,
        );
        assert(start.round_at(*root, i as int, result));
    }
    result
}

/// A root for a search from `game_state`. It is counted for the player who
/// moved last, so that each child weighs its move for the player to move now.
pub fn new_root(game_state: &GameState) -> (r: Node)
    requires
        game_state.wf(),
        game_state.live(),
    ensures
        r.wf(),
        r.result is None,
        r.state == *game_state,
        r.player == game_state.current_player.opponent(),
        r.visits == 0,
        r.value == 0,
        !r.children_constructed,
        r.total_child_visits() == 0,
{
    Node::new(game_state.current_player().next(), *game_state, None)
}

/// One round of the search (see `mcts_rec`), then counted at the root too.
pub fn search_round<F: Fn(u64, u64) -> u64>(root: &mut Node, bonus: &F, rng: &mut StdRng) -> (r:
    GameResult)
    requires
        old(root).wf(),
        old(root).result is None,
        old(root).visits == old(root).total_child_visits(),
        old(root).visits < MAX_VISITS,
        forall|p: u64, v: u64| bonus.requires((p, v)),
    ensures
        final(root).wf(),
        final(root).visits == old(root).visits + 1,
        final(root).value == old(root).value + reward(r, old(root).player),
        final(root).visits == final(root).total_child_visits(),
        final(root).player == old(root).player,
        final(root).state == old(root).state,
        final(root).result == old(root).result,
        final(root).children_constructed,
        exists|i: int|
            #[trigger] old(root).round_at(*final(root), i, r) && (old(root).children_constructed
                && old(root).unexpanded == 0 ==> old(root).chosen_by(*bonus, i)),
{
    let ghost start = *root;
    let result = mcts_rec(root, bonus, rng);
    let ghost mid = *root;
    root.update(result);
    proof {
        let i = choose|i: int|
            #[trigger] start.round_at(mid, i, result) && (start.children_constructed
                && start.unexpanded == 0 ==> start.chosen_by(*bonus, i));
        assert(start.round_at(*root, i, result));
    }
    result
}

/// The move recommended at `root`: the move whose child has the highest
/// plain weight, the first such on ties. A root never searched first gets its
/// list of moves, so that its first legal move is recommended.
pub fn recommend(root: &mut Node) -> (r: Action)
    requires
        old(root).wf(),
        old(root).result is None,
    ensures
        final(root).wf(),
        final(root).final_choice(r),
        final(root).children_constructed,
        final(root).visits == old(root).visits,
        final(root).value == old(root).value,
        final(root).player == old(root).player,
        final(root).state == old(root).state,
        final(root).result == old(root).result,
        final(root).total_child_visits() == old(root).total_child_visits(),
        old(root).children_constructed ==> final(root).children == old(root).children,
{
    if !root.children_constructed {
        let ghost start = *root;
        let i = root.expand();
        proof {
            let s = start.slots();
            lemma_visit_sum_unbuilt(s, s.len() as int);
            lemma_visit_sum_update(s, i as int, root.children@[i as int], s.len() as int);
            assert(root.children@ =~= s.update(i as int, root.children@[i as int]));
        }
    }
    proof {
        root.state.lemma_live_has_actions();
    }
    root.best_child_final()
}

/// The tree after `iterations` rounds of search from `game_state`.
pub fn build_tree<F: Fn(u64, u64) -> u64>(
    game_state: &GameState,
    iterations: u64,
    bonus: &F,
    rng: &mut StdRng,
) -> (t: Node)
    requires
        game_state.wf(),
        game_state.live(),
        iterations < MAX_VISITS,
        forall|p: u64, v: u64| bonus.requires((p, v)),
    ensures
        t.wf(),
        t.result is None,
        t.state == *game_state,
        t.player == game_state.current_player.opponent(),
        t.visits == iterations,
        t.total_child_visits() == iterations,
        iterations > 0 ==> t.children_constructed,
{
    let mut root = new_root(game_state);
    let mut count: u64 = 0;
    while count < iterations
        invariant
            root.wf(),
            root.result is None,
            root.state == *game_state,
            root.player == game_state.current_player.opponent(),
            root.visits == count,
            root.total_child_visits() == count,
            count <= iterations,
            iterations < MAX_VISITS,
            count > 0 ==> root.children_constructed,
            forall|p: u64, v: u64| bonus.requires((p, v)),
        decreases iterations - count,
    {
        search_round(&mut root, bonus, rng);
        count = count + 1;
    }
    root
}

/// Runs `iterations` rounds of search from `game_state` (see `build_tree`) and
/// returns the move recommended at the root (see `recommend`).
pub fn search<F: Fn(u64, u64) -> u64>(
    game_state: &GameState,
    iterations: u64,
    bonus: &F,
    rng: &mut StdRng,
) -> (r: Action)
    requires
        game_state.wf(),
        game_state.live(),
        iterations < MAX_VISITS,
        forall|p: u64, v: u64| bonus.requires((p, v)),
    ensures
        game_state.legal_actions().contains(r),
        game_state.legal_actions().len() == 1 ==> r == game_state.legal_actions()[0],
        exists|t: Node|
            #[trigger] t.final_choice(r) && t.wf() && t.state == *game_state && t.player
                == game_state.current_player.opponent() && t.visits == iterations
                && t.total_child_visits() == iterations && t.children_constructed,
{
    let mut root = build_tree(game_state, iterations, bonus, rng);
    let action = recommend(&mut root);
    proof {
        let i = choose|i: int|
            #[trigger] root.first_best(no_bonus(root.children@.len()), i) && action
                == root.children@[i].0;
        assert(game_state.legal_actions()[i] == action);
    }
    action
}

/// The engine as a player: it searches for a fixed time on each move.
pub struct MCTSActor {
    time_limit: u128,
}

impl MCTSActor {
    pub fn new(time_limit: u128) -> (r: MCTSActor)
        ensures
            r.limit() == time_limit,
    {
        MCTSActor { time_limit }
    }

    /// The time the engine may think on each move, in milliseconds.
    pub closed spec fn limit(self) -> u128 {
        self.time_limit
    }

    pub fn time_limit(&self) -> (r: u128)
        ensures
            r == self.limit(),
    {
        self.time_limit
    }
}

} // verus!

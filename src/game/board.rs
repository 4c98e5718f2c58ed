use crate::game::game_result::GameResult;
use vstd::prelude::*;

verus! {

/// Something on a 3x3 grid that a player can own, or that can be drawn.
pub trait Owned: Sized {
    /// Who owns this item, if anyone.
    spec fn owner(&self) -> Option<GameResult>;

    fn result(&self) -> (r: Option<GameResult>)
        ensures
            r == self.owner(),
    ;

    fn set_result(&mut self, owner: Option<GameResult>)
        ensures
            final(self).owner() == owner,
    ;
}

/// The entry at column `x` and row `y` of a 3x3 grid stored row by row.
pub open spec fn at(r: Seq<Option<GameResult>>, x: int, y: int) -> Option<GameResult> {
    r[3 * y + x]
}

/// Whether the three entries at the given positions are the same win.
pub open spec fn same3(
    r: Seq<Option<GameResult>>,
    a: (int, int),
    b: (int, int),
    c: (int, int),
) -> bool {
    &&& at(r, a.0, a.1) == at(r, b.0, b.1)
    &&& at(r, a.0, a.1) == at(r, c.0, c.1)
    &&& is_win(at(r, a.0, a.1))
}

/// A player owns this entry.
pub open spec fn is_win(o: Option<GameResult>) -> bool {
    o == Some(GameResult::Player1Wins) || o == Some(GameResult::Player2Wins)
}

/// What a 3x3 grid of owners `r` is worth after its entry at column `x`, row `y`
/// was last written.
///
/// A line through that entry owned thrice by one player decides the grid for
/// that player (diagonals first, then the column, then the row); a line of
/// drawn entries decides nothing. Otherwise the grid is undecided while an
/// entry is empty, and drawn once all are taken.
pub open spec fn outcome_at(r: Seq<Option<GameResult>>, x: int, y: int) -> Option<GameResult> {
    let on_diagonals = (x == 1) == (y == 1);
    if on_diagonals && x == y && same3(r, (0, 0), (1, 1), (2, 2)) {
        at(r, 0, 0)
    } else if on_diagonals && x == 2 - y && same3(r, (0, 2), (1, 1), (2, 0)) {
        at(r, 0, 2)
    } else if same3(r, (x, 0), (x, 1), (x, 2)) {
        at(r, x, 0)
    } else if same3(r, (0, y), (1, y), (2, y)) {
        at(r, 0, y)
    } else if exists|i: int| 0 <= i < 9 && #[trigger] r[i] is None {
        None
    } else {
        Some(GameResult::Draw)
    }
}

fn same(a: Option<GameResult>, b: Option<GameResult>) -> (r: bool)
    ensures
        r == (a == b),
{
    match (a, b) {
        (None, None) => true,
        (Some(p), Some(q)) => p == q,
        _ => false,
    }
}

fn won(a: Option<GameResult>) -> (r: bool)
    ensures
        r == is_win(a),
{
    match a {
        Some(GameResult::Player1Wins) => true,
        Some(GameResult::Player2Wins) => true,
        _ => false,
    }
}

/// The whole board: a 3x3 grid of sub-boards.
#[derive(Copy, Clone)]
pub struct Board {
    pub structure: BoardStructure<SubBoard>,
}

impl Board {
    /// The sub-board at index `s` (row by row).
    pub open spec fn sub(self, s: int) -> SubBoard {
        self.structure.items@[s]
    }

    /// The results of the nine sub-boards, row by row.
    pub open spec fn results(self) -> Seq<Option<GameResult>> {
        self.structure.owners()
    }

    pub fn new() -> (r: Board)
        ensures
            forall|s: int| 0 <= s < 9 ==> #[trigger] r.sub(s).is_blank(),
    {
        Board { structure: <BoardStructure<SubBoard>>::new() }
    }

    pub fn structure(&self) -> (r: &BoardStructure<SubBoard>)
        ensures
            *r == self.structure,
    {
        &self.structure
    }

    pub fn structure_mut(&mut self) -> (r: &mut BoardStructure<SubBoard>)
        ensures
            *r == old(self).structure,
            final(self).structure == *final(r),
    {
        &mut self.structure
    }

    pub fn get(&self, x: usize, y: usize) -> (r: &SubBoard)
        requires
            x < 3,
            y < 3,
        ensures
            *r == self.sub(3 * y + x),
    {
        self.structure().get(x, y)
    }

    pub fn get_mut(&mut self, x: usize, y: usize) -> (r: &mut SubBoard)
        requires
            x < 3,
            y < 3,
        ensures
            *r == old(self).sub(3 * y + x),
            final(self).structure.items@ == old(self).structure.items@.update(
                3 * y + x,
                *final(r),
            ),
    {
        self.structure_mut().get_mut(x, y)
    }

    /// Writes `result` into cell (`x`, `y`) of sub-board (`sub_x`, `sub_y`).
    ///
    /// When a mark is written and it decides that sub-board, the sub-board takes
    /// that result, and the third component is what the whole board is then
    /// worth. The first two components are where the next move must go: the
    /// sub-board at (`x`, `y`) if it is still undecided, else anywhere.
    pub fn make_move(
        &mut self,
        result: Option<GameResult>,
        sub_x: usize,
        sub_y: usize,
        x: usize,
        y: usize,
    ) -> (r: (Option<usize>, Option<usize>, Option<GameResult>))
        requires
            sub_x < 3,
            sub_y < 3,
            x < 3,
            y < 3,
        ensures
            final(self).sub(3 * sub_y + sub_x).cells() == old(self).sub(
                3 * sub_y + sub_x,
            ).cells().update(3 * y + x, result),
            forall|s: int|
                0 <= s < 9 && s != 3 * sub_y + sub_x ==> #[trigger] final(self).sub(s) == old(
                    self,
                ).sub(s),
            ({
                let local = outcome_at(final(self).sub(3 * sub_y + sub_x).cells(), x as int, y as int);
                if result is Some && local is Some {
                    &&& final(self).results() == old(self).results().update(3 * sub_y + sub_x, local)
                    &&& r.2 == outcome_at(final(self).results(), sub_x as int, sub_y as int)
                } else {
                    &&& final(self).results() == old(self).results()
                    &&& r.2 is None
                }
            }),
            final(self).results()[3 * y + x] is None ==> r.0 == Some(x) && r.1 == Some(y),
            final(self).results()[3 * y + x] is Some ==> r.0 is None && r.1 is None,
    {
        self.get_mut(sub_x, sub_y).structure_mut().set_result_at(x, y, result);
        let mut game_result: Option<GameResult> = None;
        if result.is_some() {
            match self.get(sub_x, sub_y).structure().check_result(x, y) {
                None => {},
                Some(local) => {
                    self.get_mut(sub_x, sub_y).set_result(Some(local));
                    game_result = self.structure().check_result(sub_x, sub_y);
                },
            }
        }
        match self.get(x, y).result() {
            None => (Some(x), Some(y), game_result),
            Some(_) => (None, None, game_result),
        }
    }
}

/// A grid of nine items, stored row by row.
#[derive(Copy, Clone)]
pub struct BoardStructure<T: Owned> {
    pub items: [T; 9],
}

impl<T: Owned> BoardStructure<T> {
    /// The owners of the nine items, row by row.
    pub open spec fn owners(self) -> Seq<Option<GameResult>> {
        Seq::new(9, |i: int| self.items@[i].owner())
    }

    pub fn get(&self, x: usize, y: usize) -> (r: &T)
        requires
            x < 3,
            y < 3,
        ensures
            *r == self.items@[3 * y + x],
    {
        &self.items[3 * y + x]
    }

    pub fn get_mut(&mut self, x: usize, y: usize) -> (r: &mut T)
        requires
            x < 3,
            y < 3,
        ensures
            *r == old(self).items@[3 * y + x],
            final(self).items@ == old(self).items@.update(3 * y + x, *final(r)),
    {
        &mut self.items[3 * y + x]
    }

    pub fn set_result_at(&mut self, x: usize, y: usize, result: Option<GameResult>)
        requires
            x < 3,
            y < 3,
        ensures
            final(self).owners() == old(self).owners().update(3 * y + x, result),
            forall|i: int|
                0 <= i < 9 && i != 3 * y + x ==> final(self).items@[i] == old(self).items@[i],
    {
        let item = self.get_mut(x, y);
        item.set_result(result);
        assert(self.owners() =~= old(self).owners().update(3 * y + x, result));
    }

    pub fn check_result(&self, last_x: usize, last_y: usize) -> (r: Option<GameResult>)
        requires
            last_x < 3,
            last_y < 3,
        ensures
            r == outcome_at(self.owners(), last_x as int, last_y as int),
    {
        let ghost r = self.owners();
        if (last_x == 1) == (last_y == 1) {
            if last_x == last_y && same(self.get(0, 0).result(), self.get(1, 1).result()) && same(
                self.get(0, 0).result(),
                self.get(2, 2).result(),
            ) && won(self.get(0, 0).result()) {
                return self.get(0, 0).result();
            }
            if last_x == 2 - last_y && same(self.get(0, 2).result(), self.get(1, 1).result())
                && same(self.get(0, 2).result(), self.get(2, 0).result()) && won(
                self.get(0, 2).result(),
            ) {
                return self.get(0, 2).result();
            }
        }
        if same(self.get(last_x, 0).result(), self.get(last_x, 1).result()) && same(
            self.get(last_x, 0).result(),
            self.get(last_x, 2).result(),
        ) && won(self.get(last_x, 0).result()) {
            return self.get(last_x, 0).result();
        }
        if same(self.get(0, last_y).result(), self.get(1, last_y).result()) && same(
            self.get(0, last_y).result(),
            self.get(2, last_y).result(),
        ) && won(self.get(0, last_y).result()) {
            return self.get(0, last_y).result();
        }
        let ghost tail = if exists|i: int| 0 <= i < 9 && #[trigger] r[i] is None {
            None
        } else {
            Some(GameResult::Draw)
        };
        assert(outcome_at(r, last_x as int, last_y as int) == tail);
        let mut i: usize = 0;
        while i < 9
            invariant
                i <= 9,
                r == self.owners(),
                outcome_at(r, last_x as int, last_y as int) == tail,
                tail == (if exists|i: int| 0 <= i < 9 && #[trigger] r[i] is None {
                    None
                } else {
                    Some(GameResult::Draw)
                }),
                forall|j: int| 0 <= j < i ==> r[j] is Some,
            decreases 9 - i,
        {
            if self.items[i].result().is_none() {
                assert(r[i as int] is None);
                return None;
            }
            i = i + 1;
        }
        Some(GameResult::Draw)
    }
}

impl BoardStructure<SubBoard> {
    pub fn new() -> (r: BoardStructure<SubBoard>)
        ensures
            forall|i: int| 0 <= i < 9 ==> #[trigger] r.items@[i].is_blank(),
    {
        let s = SubBoard::new();
        BoardStructure { items: [s, s, s, s, s, s, s, s, s] }
    }
}

impl BoardStructure<Square> {
    pub fn new() -> (r: BoardStructure<Square>)
        ensures
            forall|i: int| 0 <= i < 9 ==> #[trigger] r.items@[i].owner() is None,
    {
        let s = Square::new();
        BoardStructure { items: [s, s, s, s, s, s, s, s, s] }
    }
}

/// One cell of a sub-board.
#[derive(Copy, Clone)]
pub struct Square {
    pub result: Option<GameResult>,
}

impl Square {
    pub fn new() -> (r: Square)
        ensures
            r.owner() is None,
    {
        Square { result: None }
    }
}

impl Owned for Square {
    open spec fn owner(&self) -> Option<GameResult> {
        self.result
    }

    fn result(&self) -> (r: Option<GameResult>) {
        self.result
    }

    fn set_result(&mut self, result: Option<GameResult>) {
        self.result = result;
    }
}

/// One of the nine small boards.
#[derive(Copy, Clone)]
pub struct SubBoard {
    pub structure: BoardStructure<Square>,
    pub result: Option<GameResult>,
}

impl SubBoard {
    /// The owners of the nine cells, row by row.
    pub open spec fn cells(self) -> Seq<Option<GameResult>> {
        self.structure.owners()
    }

    /// No cell of this sub-board is taken and it has no result.
    pub open spec fn is_blank(self) -> bool {
        &&& self.owner() is None
        &&& forall|i: int| 0 <= i < 9 ==> #[trigger] self.cells()[i] is None
    }

    pub fn new() -> (r: SubBoard)
        ensures
            r.is_blank(),
    {
        SubBoard { structure: <BoardStructure<Square>>::new(), result: None }
    }

    pub fn structure(&self) -> (r: &BoardStructure<Square>)
        ensures
            *r == self.structure,
    {
        &self.structure
    }

    pub fn structure_mut(&mut self) -> (r: &mut BoardStructure<Square>)
        ensures
            *r == old(self).structure,
            *final(self) == (SubBoard { structure: *final(r), ..*old(self) }),
    {
        &mut self.structure
    }

    pub fn get(&self, x: usize, y: usize) -> (r: &Square)
        requires
            x < 3,
            y < 3,
        ensures
            *r == self.structure.items@[3 * y + x],
    {
        self.structure().get(x, y)
    }

    pub fn get_mut(&mut self, x: usize, y: usize) -> (r: &mut Square)
        requires
            x < 3,
            y < 3,
        ensures
            *r == old(self).structure.items@[3 * y + x],
            final(self).structure.items@ == old(self).structure.items@.update(
                3 * y + x,
                *final(r),
            ),
            final(self).owner() == old(self).owner(),
    {
        self.structure_mut().get_mut(x, y)
    }
}

impl Owned for SubBoard {
    open spec fn owner(&self) -> Option<GameResult> {
        self.result
    }

    fn result(&self) -> (r: Option<GameResult>) {
        self.result
    }

    fn set_result(&mut self, result: Option<GameResult>)
        ensures
            final(self).structure == old(self).structure,
    {
        self.result = result;
    }
}

} // verus!

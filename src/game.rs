use vstd::prelude::*;

use crate::board::Board;
use crate::grid::{grid_width, is_rectangular, live_count, toggle_at};
use crate::cell_state::CellState;
use crate::coord::Coord;
use crate::rules::Rules;

verus! {

/// Whether the cell of `g` at `c` changes state in the next generation under `rules`: a live
/// cell that does not survive, or a dead cell that is born
pub open spec fn flips(g: Seq<Seq<CellState>>, rules: Rules, c: Coord) -> bool {
    let n = live_count(g, c) as u8;
    if g[c.y as int][c.x as int] == CellState::Alive {
        !rules.spec_survives(n)
    } else {
        rules.spec_birthed(n)
    }
}

/// The next generation of `g` under `rules`, every cell decided from the current generation
pub open spec fn step(g: Seq<Seq<CellState>>, rules: Rules) -> Seq<Seq<CellState>> {
    Seq::new(
        g.len(),
        |y: int|
            Seq::new(
                g[y].len(),
                |x: int|
                    if flips(g, rules, Coord { x: x as usize, y: y as usize }) {
                        g[y][x].toggled()
                    } else {
                        g[y][x]
                    },
            ),
    )
}

/// The grid after `n` generations
pub open spec fn generations(g: Seq<Seq<CellState>>, rules: Rules, n: nat) -> Seq<
    Seq<CellState>,
>
    decreases n,
{
    if n == 0 {
        g
    } else {
        step(generations(g, rules, (n - 1) as nat), rules)
    }
}

/// `g` with the cells at `cs` toggled one after the other
pub open spec fn toggle_all(g: Seq<Seq<CellState>>, cs: Seq<Coord>) -> Seq<Seq<CellState>>
    decreases cs.len(),
{
    if cs.len() == 0 {
        g
    } else {
        toggle_at(toggle_all(g, cs.drop_last()), cs.last())
    }
}

/// The coordinates that a list of references points at
pub open spec fn targets(cs: Seq<&Coord>) -> Seq<Coord> {
    cs.map_values(|c: &Coord| *c)
}

/// `g` with the cells whose coordinates are in `cs` toggled and the others kept
pub open spec fn toggled_where(g: Seq<Seq<CellState>>, cs: Seq<Coord>) -> Seq<Seq<CellState>> {
    Seq::new(
        g.len(),
        |y: int|
            Seq::new(
                g[y].len(),
                |x: int|
                    if cs.contains(Coord { x: x as usize, y: y as usize }) {
                        g[y][x].toggled()
                    } else {
                        g[y][x]
                    },
            ),
    )
}

/// Toggling the cells of a list without duplicates, one after the other, toggles exactly the
/// cells of the list, whatever their order.
pub proof fn lemma_toggle_all_pointwise(g: Seq<Seq<CellState>>, cs: Seq<Coord>)
    requires
        cs.no_duplicates(),
        forall|i: int|
            0 <= i < cs.len() ==> (#[trigger] cs[i]).y < g.len() && cs[i].x < g[cs[i].y as int].len(),
        g.len() <= usize::MAX,
        forall|y: int| 0 <= y < g.len() ==> #[trigger] g[y].len() <= usize::MAX,
    ensures
        toggle_all(g, cs) == toggled_where(g, cs),
    decreases cs.len(),
{
    if cs.len() == 0 {
        assert(toggled_where(g, cs) =~= g) by {
            assert forall|y: int| 0 <= y < g.len() implies #[trigger] toggled_where(g, cs)[y] =~= g[y] by {}
        }
    } else {
        let t = cs.drop_last();
        let last = cs.last();
        assert forall|i: int| 0 <= i < t.len() implies (#[trigger] t[i]).y < g.len() && t[i].x < g[t[i].y as int].len() by {
            assert(t[i] == cs[i]);
        }
        assert(t.no_duplicates());
        lemma_toggle_all_pointwise(g, t);
        assert(cs[cs.len() - 1] == last);
        assert(!t.contains(last));
        let a = toggle_all(g, cs);
        let b = toggled_where(g, cs);
        assert forall|y: int| 0 <= y < g.len() implies #[trigger] a[y] =~= b[y] by {
            assert forall|x: int| 0 <= x < g[y].len() implies a[y][x] == b[y][x] by {
                let c = Coord { x: x as usize, y: y as usize };
                if c == last {
                    assert(cs.contains(c));
                } else {
                    if cs.contains(c) {
                        let i = choose|i: int| 0 <= i < cs.len() && cs[i] == c;
                        assert(t[i] == c);
                    }
                    if t.contains(c) {
                        let i = choose|i: int| 0 <= i < t.len() && t[i] == c;
                        assert(cs[i] == c);
                    }
                }
            }
        }
        assert(a =~= b);
    }
}

/// A life-like game
#[derive(Debug, Clone, PartialEq, Eq)]
pub struct Game {
    board: Board,
    rules: Rules,
}

impl Game {
    /// The game's board
    pub closed spec fn spec_board(&self) -> Board {
        self.board
    }

    /// The game's rules
    pub closed spec fn spec_rules(&self) -> Rules {
        self.rules
    }

    /// Whether the cell at `c` changes state in the next generation
    pub open spec fn spec_toggles(&self, c: Coord) -> bool {
        flips(self.spec_board()@, self.spec_rules(), c)
    }

    /// Creates a new Game
    pub fn new(board: Board, rules: Rules) -> (r: Game)
        ensures
            r.spec_board() == board,
            r.spec_rules() == rules,
    {
        Game { board, rules }
    }

    /// Gets a reference to the game's board
    pub fn board(&self) -> (r: &Board)
        ensures
            *r == self.spec_board(),
    {
        &self.board
    }

    /// Gets a reference to the game's rules
    pub fn rules(&self) -> (r: &Rules)
        ensures
            *r == self.spec_rules(),
    {
        &self.rules
    }

    /// Gets a mutable reference to the game's board
    pub fn mut_board(&mut self) -> (r: &mut Board)
        ensures
            *r == old(self).spec_board(),
            final(self).spec_board() == *final(r),
            final(self).spec_rules() == old(self).spec_rules(),
    {
        &mut self.board
    }

    /// Lists the coordinates of all cells that change state in the next generation, each once,
    /// in the order of the board's coordinates
    pub fn next_gen_toggles(&self) -> (r: Vec<&Coord>)
        requires
            self.spec_board().wf(),
        ensures
            targets(r@) == self.spec_board().coords().filter(|c: Coord| self.spec_toggles(c)),
            targets(r@).no_duplicates(),
            forall|c: Coord|
                #[trigger] targets(r@).contains(c) <==> (self.spec_board().in_bounds(c)
                    && self.spec_toggles(c)),
    {
        let board = self.board();
        let coords = board.cell_coords();
        let ghost pred = |c: Coord| self.spec_toggles(c);
        let mut r: Vec<&Coord> = Vec::new();
        let mut i: usize = 0;
        while i < coords.len()
            invariant
                board == self.spec_board(),
                board.wf(),
                coords@ == board.coords(),
                pred == (|c: Coord| self.spec_toggles(c)),
                i <= coords@.len(),
                targets(r@) == coords@.take(i as int).filter(pred),
            decreases coords.len() - i,
        {
            let c = &coords[i];
            assert(board.in_bounds(*c));
            let live_neighbours = board.get_live_neighbours_of(c);
            let change = match board.get_cell_state(c) {
                CellState::Alive => !self.rules().survives(live_neighbours),
                CellState::Dead => self.rules().birthed(live_neighbours),
            };
            assert(change == pred(*c));
            proof {
                coords@.lemma_take_succ_push(i as int);
                reveal(Seq::filter);
                assert(coords@.take(i + 1).drop_last() =~= coords@.take(i as int));
            }
            let ghost before = r@;
            if change {
                r.push(c);
                assert(targets(r@) =~= targets(before).push(*c));
            }
            i = i + 1;
        }
        assert(coords@.take(i as int) =~= coords@);
        proof {
            lemma_filter_of_enumeration(coords@, pred);
        }
        r
    }

    /// Toggles the cells at the given coordinates on the game's board, one after the other
    pub fn apply_toggles(&mut self, toggles: &Vec<&Coord>)
        requires
            old(self).spec_board().wf(),
            forall|i: int|
                0 <= i < toggles@.len() ==> old(self).spec_board().in_bounds(*#[trigger] toggles@[i]),
        ensures
            final(self).spec_board().wf(),
            final(self).spec_board()@ == toggle_all(old(self).spec_board()@, targets(toggles@)),
            final(self).spec_board().coords() == old(self).spec_board().coords(),
            final(self).spec_rules() == old(self).spec_rules(),
    {
        let ghost start = self.board@;
        let mut i: usize = 0;
        while i < toggles.len()
            invariant
                i <= toggles@.len(),
                self.board.wf(),
                self.board.spec_width() == old(self).spec_board().spec_width(),
                self.board.spec_height() == old(self).spec_board().spec_height(),
                forall|j: int|
                    0 <= j < toggles@.len() ==> old(self).spec_board().in_bounds(*#[trigger] toggles@[j]),
                start == old(self).spec_board()@,
                self.board@ == toggle_all(start, targets(toggles@).take(i as int)),
                self.board.coords() == old(self).spec_board().coords(),
                self.rules == old(self).spec_rules(),
            decreases toggles.len() - i,
        {
            assert(self.board.in_bounds(*toggles@[i as int]));
            self.board.toggle_cell(toggles[i]);
            assert(targets(toggles@).take(i + 1).drop_last() =~= targets(toggles@).take(i as int));
            i = i + 1;
        }
        assert(targets(toggles@).take(i as int) =~= targets(toggles@));
    }

    /// Advances the game to the next generation: every cell is decided from the current one
    pub fn advance_to_next_gen(&mut self)
        requires
            old(self).spec_board().wf(),
        ensures
            final(self).spec_board().wf(),
            final(self).spec_board()@ == step(old(self).spec_board()@, old(self).spec_rules()),
            final(self).spec_board().coords() == old(self).spec_board().coords(),
            final(self).spec_rules() == old(self).spec_rules(),
    {
        let width = self.board.width();
        let height = self.board.height();
        let toggles = self.next_gen_toggles();
        // `toggles` borrows from `self`, so the coordinates are copied before the board changes
        let mut coords: Vec<Coord> = Vec::new();
        let mut i: usize = 0;
        while i < toggles.len()
            invariant
                i <= toggles@.len(),
                coords@ == targets(toggles@).take(i as int),
            decreases toggles.len() - i,
        {
            coords.push(*toggles[i]);
            assert(coords@ =~= targets(toggles@).take(i + 1));
            i = i + 1;
        }
        assert(coords@ =~= targets(toggles@));
        let ghost g = self.board@;
        let ghost rules = self.rules;
        let ghost board = self.board;
        let mut refs: Vec<&Coord> = Vec::new();
        let mut j: usize = 0;
        while j < coords.len()
            invariant
                j <= coords@.len(),
                refs@.len() == j,
                targets(refs@) == coords@.take(j as int),
            decreases coords.len() - j,
        {
            let ghost before = refs@;
            refs.push(&coords[j]);
            assert forall|k: int| 0 <= k < j implies #[trigger] targets(refs@)[k] == coords@[k] by {
                assert(targets(before)[k] == coords@.take(j as int)[k]);
            }
            assert(targets(refs@) =~= coords@.take(j + 1));
            j = j + 1;
        }
        assert(targets(refs@) =~= coords@);
        assert forall|k: int| 0 <= k < refs@.len() implies board.in_bounds(*#[trigger] refs@[k]) by {
            assert(targets(refs@)[k] == *refs@[k]);
            assert(coords@.contains(*refs@[k]));
        }
        self.apply_toggles(&refs);
        proof {
            assert forall|k: int| 0 <= k < coords@.len() implies (#[trigger] coords@[k]).y < g.len()
                && coords@[k].x < g[coords@[k].y as int].len() by {
                assert(coords@.contains(coords@[k]));
            }
            lemma_toggle_all_pointwise(g, coords@);
            let n = toggled_where(g, coords@);
            let m = step(g, rules);
            assert forall|y: int| 0 <= y < g.len() implies #[trigger] n[y] =~= m[y] by {
                assert forall|x: int| 0 <= x < g[y].len() implies n[y][x] == m[y][x] by {
                    let c = Coord { x: x as usize, y: y as usize };
                    assert(board.in_bounds(c));
                    assert(coords@.contains(c) == flips(g, rules, c));
                }
            }
            assert(n =~= m);
        }
    }
}

/// A grid in which no cell changes in the next generation is left as it is by a step, and so by
/// any number of steps.
pub proof fn lemma_stable_stays_stable(g: Seq<Seq<CellState>>, rules: Rules, n: nat)
    requires
        forall|c: Coord|
            c.y < g.len() && c.x < g[c.y as int].len() ==> !#[trigger] flips(g, rules, c),
        g.len() <= usize::MAX,
        forall|y: int| 0 <= y < g.len() ==> #[trigger] g[y].len() <= usize::MAX,
    ensures
        step(g, rules) == g,
        generations(g, rules, n) == g,
    decreases n,
{
    let s = step(g, rules);
    assert forall|y: int| 0 <= y < g.len() implies #[trigger] s[y] =~= g[y] by {
        assert forall|x: int| 0 <= x < g[y].len() implies s[y][x] == g[y][x] by {
            let c = Coord { x: x as usize, y: y as usize };
            assert(!flips(g, rules, c));
        }
    }
    assert(s =~= g);
    if n > 0 {
        lemma_stable_stays_stable(g, rules, (n - 1) as nat);
    }
}

/// A live cell with no live neighbours dies in the next generation, under rules in which no
/// cell survives with 0 live neighbours.
pub proof fn lemma_lonely_cell_dies(g: Seq<Seq<CellState>>, rules: Rules, c: Coord)
    requires
        is_rectangular(g),
        c.y < g.len(),
        c.x < grid_width(g),
        g[c.y as int][c.x as int] == CellState::Alive,
        live_count(g, c) == 0,
        !rules.spec_survives(0),
    ensures
        step(g, rules)[c.y as int][c.x as int] == CellState::Dead,
{
    assert(g[c.y as int].len() == grid_width(g));
    assert(flips(g, rules, c));
}

/// Keeping the elements of a duplicate-free sequence that meet `p` keeps it duplicate-free, and
/// holds exactly its elements that meet `p`.
proof fn lemma_filter_of_enumeration(s: Seq<Coord>, p: spec_fn(Coord) -> bool)
    requires
        s.no_duplicates(),
    ensures
        s.filter(p).no_duplicates(),
        forall|c: Coord| #[trigger] s.filter(p).contains(c) <==> (s.contains(c) && p(c)),
    decreases s.len(),
{
    reveal(Seq::filter);
    if s.len() > 0 {
        let t = s.drop_last();
        assert(t.no_duplicates());
        lemma_filter_of_enumeration(t, p);
        let f = t.filter(p);
        assert forall|c: Coord| #[trigger] s.filter(p).contains(c) <==> (s.contains(c) && p(c)) by {
            if s.contains(c) && c != s.last() {
                let i = choose|i: int| 0 <= i < s.len() && s[i] == c;
                assert(t[i] == c);
            }
            if t.contains(c) {
                let i = choose|i: int| 0 <= i < t.len() && t[i] == c;
                assert(s[i] == c);
            }
            if s.contains(c) && c == s.last() {
                assert(s[s.len() - 1] == c);
            }
            if p(s.last()) {
                let g = f.push(s.last());
                assert(s.filter(p) == g);
                if f.contains(c) {
                    let i = choose|i: int| 0 <= i < f.len() && f[i] == c;
                    assert(g[i] == c);
                }
                if c == s.last() {
                    assert(g[g.len() - 1] == c);
                }
                if g.contains(c) && c != s.last() {
                    let i = choose|i: int| 0 <= i < g.len() && g[i] == c;
                    assert(f[i] == c);
                }
            } else {
                assert(s.filter(p) == f);
            }
        }
        if p(s.last()) {
            assert(!t.contains(s.last()));
            assert(!t.filter(p).contains(s.last()));
        }
    }
}

} // verus!

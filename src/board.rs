use vstd::prelude::*;

use crate::cell_state::CellState;
use crate::coord::Coord;
use crate::grid::{
    alive_in, dead_grid, enumerates_cells, grid_width, is_rectangular, lemma_max_row_len,
    live_count, max_row_len, neighbours, padded, rows_view, set_at, toggle_at,
};
use crate::text::{parse_rows, render, row_chars};

verus! {

/// Why a board could not be made
#[derive(Debug, Clone, Copy, PartialEq, Eq, Structural)]
pub enum BoardError {
    /// The board would have no columns or no rows
    InvalidDimension,
}

/// A rectangular board for a life-like game
#[derive(Debug, Clone, PartialEq, Eq)]
pub struct Board {
    /// The cells on the board, row by row
    cells: Vec<Vec<CellState>>,
    /// Coordinates of all cells on the board
    cell_coords: Vec<Coord>,
}

impl View for Board {
    type V = Seq<Seq<CellState>>;

    /// The cells, row by row
    closed spec fn view(&self) -> Seq<Seq<CellState>> {
        self.cells@.map_values(|r: Vec<CellState>| r@)
    }
}

impl Board {
    /// The cached coordinates of all cells
    pub closed spec fn coords(&self) -> Seq<Coord> {
        self.cell_coords@
    }

    pub open spec fn spec_width(&self) -> nat {
        grid_width(self@)
    }

    pub open spec fn spec_height(&self) -> nat {
        self@.len()
    }

    pub open spec fn in_bounds(&self, c: Coord) -> bool {
        c.x < self.spec_width() && c.y < self.spec_height()
    }

    pub open spec fn state_at(&self, c: Coord) -> CellState {
        self@[c.y as int][c.x as int]
    }

    /// A rectangular board of at least one cell, whose cached coordinates are exactly its cells
    pub open spec fn wf(&self) -> bool {
        &&& is_rectangular(self@)
        &&& enumerates_cells(self.coords(), self.spec_width(), self.spec_height())
    }

    /// Whether the cell at a coordinate is alive
    pub open spec fn is_alive(&self) -> spec_fn(Coord) -> bool {
        alive_in(self@)
    }

    /// The number of live cells among the neighbours of `c`
    pub open spec fn live_neighbour_count(&self, c: Coord) -> nat {
        live_count(self@, c)
    }

    /// Creates a new board with the desired size, initializing all cells as dead. Fails if
    /// width or height is 0.
    pub fn new(width: usize, height: usize) -> (r: Result<Board, BoardError>)
        ensures
            match r {
                Ok(b) => {
                    &&& width > 0 && height > 0
                    &&& b.wf()
                    &&& b@ == dead_grid(width as nat, height as nat)
                    &&& b.spec_width() == width && b.spec_height() == height
                    &&& forall|c: Coord| b.in_bounds(c) ==> b.state_at(c) == CellState::Dead
                },
                Err(e) => (width == 0 || height == 0) && e == BoardError::InvalidDimension,
            },
    {
        if width == 0 || height == 0 {
            return Err(BoardError::InvalidDimension);
        }
        let mut rows: Vec<Vec<CellState>> = Vec::new();
        let mut cell_coords: Vec<Coord> = Vec::new();
        let mut y: usize = 0;
        while y < height
            invariant
                0 < width,
                y <= height,
                rows@.len() == y,
                forall|j: int| 0 <= j < y ==> #[trigger] rows@[j]@ == Seq::new(width as nat, |x: int| CellState::Dead),
                cell_coords@.no_duplicates(),
                forall|i: int| 0 <= i < cell_coords@.len() ==>
                    (#[trigger] cell_coords@[i]).y < y && cell_coords@[i].x < width,
                forall|c: Coord| c.y < y && c.x < width ==> #[trigger] cell_coords@.contains(c),
            decreases height - y,
        {
            let mut row: Vec<CellState> = Vec::new();
            let mut x: usize = 0;
            while x < width
                invariant
                    x <= width,
                    y < height,
                    row@ == Seq::new(x as nat, |i: int| CellState::Dead),
                    cell_coords@.no_duplicates(),
                    forall|i: int| 0 <= i < cell_coords@.len() ==>
                        ((#[trigger] cell_coords@[i]).y < y && cell_coords@[i].x < width)
                        || (cell_coords@[i].y == y && cell_coords@[i].x < x),
                    forall|c: Coord| (c.y < y && c.x < width) || (c.y == y && c.x < x)
                        ==> #[trigger] cell_coords@.contains(c),
                decreases width - x,
            {
                let ghost before = cell_coords@;
                row.push(CellState::Dead);
                cell_coords.push(Coord::new(x, y));
                assert(cell_coords@[cell_coords@.len() - 1] == Coord { x, y });
                assert forall|c: Coord| (c.y < y && c.x < width) || (c.y == y && c.x < x + 1)
                    implies #[trigger] cell_coords@.contains(c) by {
                    if c.y == y && c.x == x {
                        assert(cell_coords@[cell_coords@.len() - 1] == c);
                    } else {
                        assert(before.contains(c));
                        let i = choose|i: int| 0 <= i < before.len() && before[i] == c;
                        assert(cell_coords@[i] == c);
                    }
                }
                assert(row@ =~= Seq::new((x + 1) as nat, |i: int| CellState::Dead));
                x = x + 1;
            }
            rows.push(row);
            y = y + 1;
        }
        let b = Board { cells: rows, cell_coords };
        assert(b@ =~= dead_grid(width as nat, height as nat));
        assert(b@[0].len() == width);
        assert(is_rectangular(b@));
        assert(enumerates_cells(b.coords(), b.spec_width(), b.spec_height()));
        assert(forall|c: Coord| b.in_bounds(c) ==> b.state_at(c) == CellState::Dead);
        Ok(b)
    }

    /// Creates a new board from a grid of cell states. Rows are padded with dead cells to have
    /// the same length as the longest row. Fails if there are no rows or no columns.
    pub fn from_grid(grid: &Vec<Vec<CellState>>) -> (r: Result<Board, BoardError>)
        ensures
            match r {
                Ok(b) => {
                    &&& grid@.len() > 0 && max_row_len(rows_view(grid@)) > 0
                    &&& b.wf()
                    &&& b@ == padded(rows_view(grid@))
                },
                Err(e) => {
                    &&& grid@.len() == 0 || max_row_len(rows_view(grid@)) == 0
                    &&& e == BoardError::InvalidDimension
                },
            },
    {
        let ghost g = rows_view(grid@);
        // Figure out the board's dimensions
        let height = grid.len();
        let mut width: usize = 0;
        let mut i: usize = 0;
        while i < height
            invariant
                height == grid@.len(),
                g == rows_view(grid@),
                i <= height,
                width == max_row_len(g.take(i as int)),
            decreases height - i,
        {
            assert(g.take(i + 1).drop_last() =~= g.take(i as int));
            if grid[i].len() > width {
                width = grid[i].len();
            }
            i = i + 1;
        }
        assert(g.take(height as int) =~= g);
        proof {
            lemma_max_row_len(g);
        }
        // Create the board itself
        let mut board = match Board::new(width, height) {
            Ok(b) => b,
            Err(e) => return Err(e),
        };
        // Make all live cells alive
        let mut y: usize = 0;
        while y < height
            invariant
                height == grid@.len(),
                g == rows_view(grid@),
                width == max_row_len(g),
                forall|j: int| 0 <= j < g.len() ==> #[trigger] g[j].len() <= width,
                y <= height,
                board.wf(),
                board.spec_width() == width,
                board.spec_height() == height,
                forall|c: Coord| #[trigger] board.in_bounds(c) ==> board.state_at(c) == (
                    if c.y < y && c.x < g[c.y as int].len() {
                        g[c.y as int][c.x as int]
                    } else {
                        CellState::Dead
                    }),
            decreases height - y,
        {
            let row = &grid[y];
            let mut x: usize = 0;
            while x < row.len()
                invariant
                    height == grid@.len(),
                    g == rows_view(grid@),
                    row@ == g[y as int],
                    forall|j: int| 0 <= j < g.len() ==> #[trigger] g[j].len() <= width,
                    y < height,
                    x <= row@.len(),
                    board.wf(),
                    board.spec_width() == width,
                    board.spec_height() == height,
                    forall|c: Coord| #[trigger] board.in_bounds(c) ==> board.state_at(c) == (
                        if (c.y < y || (c.y == y && c.x < x)) && c.x < g[c.y as int].len() {
                            g[c.y as int][c.x as int]
                        } else {
                            CellState::Dead
                        }),
                decreases row@.len() - x,
            {
                assert(g[y as int].len() <= width);
                let ghost before = board;
                if row[x] == CellState::Alive {
                    board.revive_cell(&Coord::new(x, y));
                }
                assert forall|c: Coord| #[trigger] board.in_bounds(c) implies board.state_at(c) == (
                    if (c.y < y || (c.y == y && c.x < x + 1)) && c.x < g[c.y as int].len() {
                        g[c.y as int][c.x as int]
                    } else {
                        CellState::Dead
                    }) by {
                    assert(before.in_bounds(c));
                }
                x = x + 1;
            }
            y = y + 1;
        }
        assert(board@ =~= padded(g)) by {
            assert forall|yy: int| 0 <= yy < height implies #[trigger] board@[yy] =~= padded(g)[yy] by {
                assert forall|xx: int| 0 <= xx < width implies board@[yy][xx] == padded(g)[yy][xx] by {
                    assert(board.in_bounds(Coord { x: xx as usize, y: yy as usize }));
                }
            }
        }
        Ok(board)
    }

    /// Creates a new board from a string. Newlines separate the rows, carriage returns are
    /// ignored, and all other characters except the alive character count as dead. Lines are
    /// padded with dead cells to have the same length as the longest line, and a trailing newline
    /// counts as a dead row. Fails if there are no columns.
    pub fn from_str(string: &str, alive: char) -> (r: Result<Board, BoardError>)
        requires
            alive != '\n',
            alive != '\r',
        ensures
            match r {
                Ok(b) => {
                    &&& max_row_len(parse_rows(string@, alive)) > 0
                    &&& b.wf()
                    &&& b@ == padded(parse_rows(string@, alive))
                },
                Err(e) => {
                    &&& max_row_len(parse_rows(string@, alive)) == 0
                    &&& e == BoardError::InvalidDimension
                },
            },
    {
        // Convert the string to a grid
        let mut grid: Vec<Vec<CellState>> = Vec::new();
        grid.push(Vec::new());
        assert(rows_view(grid@) =~= parse_rows(Seq::empty(), alive));
        let ghost mut read: int = 0;
        for c in it: string.chars()
            invariant
                alive != '\n',
                alive != '\r',
                it.seq() == string@,
                read == it.index(),
                grid@.len() >= 1,
                rows_view(grid@) == parse_rows(string@.take(read), alive),
        {
            let ghost done = string@.take(read);
            assert(string@.take(read + 1).drop_last() =~= done);
            assert(string@[read] == c);
            if c == '\n' {
                grid.push(Vec::new());
                assert(rows_view(grid@) =~= parse_rows(done, alive).push(Seq::empty()));
            } else if c != '\r' {
                let cell_state = if c == alive {
                    CellState::Alive
                } else {
                    CellState::Dead
                };
                let last = grid.len() - 1;
                grid[last].push(cell_state);
                let ghost rows = parse_rows(done, alive);
                assert(rows_view(grid@) =~= rows.update(rows.len() - 1, rows.last().push(cell_state)));
            }
            proof {
                read = read + 1;
            }
        }
        assert(string@.take(read) =~= string@);
        Board::from_grid(&grid)
    }

    /// Creates a string representation of the board: `alive` for each live cell, `dead` for
    /// each dead one, rows separated by newlines, no trailing newline
    pub fn to_str(&self, alive: char, dead: char) -> (r: String)
        requires
            self.wf(),
            alive != '\n',
            alive != '\r',
            dead != '\n',
            dead != '\r',
        ensures
            r@ == render(self@, alive, dead),
    {
        let mut out = String::new();
        let mut y: usize = 0;
        while y < self.cells.len()
            invariant
                y <= self@.len(),
                self@.len() == self.cells@.len(),
                out@ == render(self@.take(y as int), alive, dead),
            decreases self.cells.len() - y,
        {
            let ghost g = self@.take(y + 1);
            assert(g.drop_last() =~= self@.take(y as int));
            if y > 0 {
                out.push('\n');
            }
            let ghost start = out@;
            let row = &self.cells[y];
            assert(row@ == self@[y as int]);
            let mut x: usize = 0;
            while x < row.len()
                invariant
                    x <= row@.len(),
                    out@ == start + row_chars(row@.take(x as int), alive, dead),
                decreases row.len() - x,
            {
                let c = if row[x] == CellState::Alive {
                    alive
                } else {
                    dead
                };
                out.push(c);
                assert(row_chars(row@.take(x + 1), alive, dead) =~= row_chars(
                    row@.take(x as int),
                    alive,
                    dead,
                ).push(c));
                x = x + 1;
            }
            assert(row@.take(x as int) =~= row@);
            assert(out@ =~= render(g, alive, dead));
            y = y + 1;
        }
        assert(self@.take(y as int) =~= self@);
        out
    }

    /// The width of the board
    pub fn width(&self) -> (r: usize)
        requires
            self.wf(),
        ensures
            r == self.spec_width(),
            r >= 1,
    {
        self.cells[0].len()
    }

    /// The height of the board
    pub fn height(&self) -> (r: usize)
        requires
            self.wf(),
        ensures
            r == self.spec_height(),
            r >= 1,
    {
        self.cells.len()
    }

    /// All cell coordinates on the board, each once
    pub fn cell_coords(&self) -> (r: &Vec<Coord>)
        requires
            self.wf(),
        ensures
            r@ == self.coords(),
            enumerates_cells(r@, self.spec_width(), self.spec_height()),
    {
        &self.cell_coords
    }

    /// Gets a reference to the state of the cell at the given coordinate
    pub fn get_cell_state(&self, coord: &Coord) -> (r: &CellState)
        requires
            self.wf(),
            self.in_bounds(*coord),
        ensures
            *r == self.state_at(*coord),
    {
        &self.cells[coord.y][coord.x]
    }

    /// Gets a mutable reference to the state of the cell at the given coordinate
    fn get_cell_state_mut(&mut self, coord: &Coord) -> (r: &mut CellState)
        requires
            old(self).wf(),
            old(self).in_bounds(*coord),
        ensures
            *r == old(self).state_at(*coord),
            final(self)@ == set_at(old(self)@, *coord, *final(r)),
            final(self).coords() == old(self).coords(),
    {
        &mut self.cells[coord.y][coord.x]
    }

    /// Kills the cell at the given coordinate, making sure it is dead
    pub fn kill_cell(&mut self, coord: &Coord)
        requires
            old(self).wf(),
            old(self).in_bounds(*coord),
        ensures
            final(self).wf(),
            final(self)@ == set_at(old(self)@, *coord, CellState::Dead),
            final(self).coords() == old(self).coords(),
    {
        self.get_cell_state_mut(coord).kill();
    }

    /// Revives the cell at the given coordinate, making sure it is alive
    pub fn revive_cell(&mut self, coord: &Coord)
        requires
            old(self).wf(),
            old(self).in_bounds(*coord),
        ensures
            final(self).wf(),
            final(self)@ == set_at(old(self)@, *coord, CellState::Alive),
            final(self).coords() == old(self).coords(),
    {
        self.get_cell_state_mut(coord).revive();
    }

    /// Toggles the state of the cell at the given coordinate
    pub fn toggle_cell(&mut self, coord: &Coord)
        requires
            old(self).wf(),
            old(self).in_bounds(*coord),
        ensures
            final(self).wf(),
            final(self)@ == toggle_at(old(self)@, *coord),
            final(self).coords() == old(self).coords(),
    {
        self.get_cell_state_mut(coord).toggle();
    }

    /// Gets the neighbours of a given coord, wrapping around if it is on an edge
    pub fn get_neighbour_coords(&self, coord: &Coord) -> (r: Vec<Coord>)
        requires
            self.wf(),
            self.in_bounds(*coord),
        ensures
            r@ == neighbours(*coord, self.spec_width(), self.spec_height()),
            r@.len() == 8,
            forall|i: int| 0 <= i < 8 ==> self.in_bounds(#[trigger] r@[i]),
    {
        let width = self.width();
        let height = self.height();
        let x = coord.x;
        let xa = if coord.x == width - 1 {
            0
        } else {
            coord.x + 1
        };
        let xs = if coord.x == 0 {
            width - 1
        } else {
            coord.x - 1
        };
        let y = coord.y;
        let ya = if coord.y == height - 1 {
            0
        } else {
            coord.y + 1
        };
        let ys = if coord.y == 0 {
            height - 1
        } else {
            coord.y - 1
        };
        proof {
            lemma_wrap(x as int, width as int);
            lemma_wrap(y as int, height as int);
        }
        let r = vec![
            Coord::new(xs, y),  // West
            Coord::new(xa, y),  // East
            Coord::new(x, ys),  // North
            Coord::new(x, ya),  // South
            Coord::new(xs, ys), // North West
            Coord::new(xa, ys), // North East
            Coord::new(xs, ya), // South West
            Coord::new(xa, ya), // South East
        ];
        assert(r@ =~= neighbours(*coord, self.spec_width(), self.spec_height()));
        r
    }

    /// Gets the count of live neighbours of a cell
    pub fn get_live_neighbours_of(&self, coord: &Coord) -> (r: u8)
        requires
            self.wf(),
            self.in_bounds(*coord),
        ensures
            r == self.live_neighbour_count(*coord),
            r <= 8,
    {
        let ns = self.get_neighbour_coords(coord);
        let ghost alive = self.is_alive();
        let mut count: u8 = 0;
        let mut i: usize = 0;
        while i < ns.len()
            invariant
                self.wf(),
                alive == self.is_alive(),
                ns@.len() == 8,
                forall|j: int| 0 <= j < 8 ==> self.in_bounds(#[trigger] ns@[j]),
                i <= 8,
                count == ns@.take(i as int).filter(alive).len(),
                count <= i,
            decreases ns.len() - i,
        {
            proof {
                ns@.lemma_take_succ_push(i as int);
                ns@.take(i as int).lemma_filter_len_push(alive, ns@[i as int]);
            }
            assert(alive(ns@[i as int]) == (self.state_at(ns@[i as int]) == CellState::Alive));
            if *self.get_cell_state(&ns[i]) == CellState::Alive {
                count = count + 1;
            }
            i = i + 1;
        }
        assert(ns@.take(8) =~= ns@);
        count
    }
}

/// On a cycle of `n` positions, stepping forward from the last wraps to the first and stepping
/// back from the first wraps to the last.
proof fn lemma_wrap(i: int, n: int)
    requires
        0 <= i < n,
    ensures
        (i + 1) % n == (if i == n - 1 { 0 } else { i + 1 }),
        (i + n - 1) % n == (if i == 0 { n - 1 } else { i - 1 }),
{
    if i == n - 1 {
        vstd::arithmetic::div_mod::lemma_mod_self_0(n);
    } else {
        vstd::arithmetic::div_mod::lemma_small_mod((i + 1) as nat, n as nat);
    }
    if i == 0 {
        vstd::arithmetic::div_mod::lemma_small_mod((n - 1) as nat, n as nat);
    } else {
        vstd::arithmetic::div_mod::lemma_mod_add_multiples_vanish(i - 1, n);
        vstd::arithmetic::div_mod::lemma_small_mod((i - 1) as nat, n as nat);
    }
}

} // verus!

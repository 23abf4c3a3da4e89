//! The grid model: a board's cells as rows of states, and what is said of them
use vstd::prelude::*;

use crate::cell_state::CellState;
use crate::coord::Coord;

verus! {

/// The number of columns of a grid: the length of its first row
pub open spec fn grid_width(g: Seq<Seq<CellState>>) -> nat {
    if g.len() > 0 {
        g[0].len()
    } else {
        0
    }
}

/// A grid with at least one row and one column, all rows of one length
pub open spec fn is_rectangular(g: Seq<Seq<CellState>>) -> bool {
    &&& g.len() >= 1
    &&& g[0].len() >= 1
    &&& forall|y: int| 0 <= y < g.len() ==> #[trigger] g[y].len() == g[0].len()
}

/// A `width` by `height` grid of dead cells
pub open spec fn dead_grid(width: nat, height: nat) -> Seq<Seq<CellState>> {
    Seq::new(height, |y: int| Seq::new(width, |x: int| CellState::Dead))
}

/// `cs` holds every coordinate of a `width` by `height` board exactly once, and nothing else
pub open spec fn enumerates_cells(cs: Seq<Coord>, width: nat, height: nat) -> bool {
    &&& cs.no_duplicates()
    &&& forall|i: int| 0 <= i < cs.len() ==> #[trigger] cs[i].x < width && cs[i].y < height
    &&& forall|c: Coord| c.x < width && c.y < height ==> #[trigger] cs.contains(c)
}

/// The grid `g` with the cell at `c` toggled
pub open spec fn toggle_at(g: Seq<Seq<CellState>>, c: Coord) -> Seq<Seq<CellState>> {
    g.update(c.y as int, g[c.y as int].update(c.x as int, g[c.y as int][c.x as int].toggled()))
}

/// The grid `g` with the cell at `c` set to `s`
pub open spec fn set_at(g: Seq<Seq<CellState>>, c: Coord, s: CellState) -> Seq<Seq<CellState>> {
    g.update(c.y as int, g[c.y as int].update(c.x as int, s))
}

/// The eight neighbours of `c` on a `width` by `height` torus: west, east, north, south,
/// north-west, north-east, south-west, south-east
pub open spec fn neighbours(c: Coord, width: nat, height: nat) -> Seq<Coord> {
    let xs = ((c.x + width - 1) % (width as int)) as usize;
    let xa = ((c.x + 1) % (width as int)) as usize;
    let ys = ((c.y + height - 1) % (height as int)) as usize;
    let ya = ((c.y + 1) % (height as int)) as usize;
    seq![
        Coord { x: xs, y: c.y },
        Coord { x: xa, y: c.y },
        Coord { x: c.x, y: ys },
        Coord { x: c.x, y: ya },
        Coord { x: xs, y: ys },
        Coord { x: xa, y: ys },
        Coord { x: xs, y: ya },
        Coord { x: xa, y: ya },
    ]
}

/// The rows of a grid of vectors, as sequences
pub open spec fn rows_view(g: Seq<Vec<CellState>>) -> Seq<Seq<CellState>> {
    g.map_values(|r: Vec<CellState>| r@)
}

/// The length of the longest row of `g`, or 0 if it has no rows
pub open spec fn max_row_len(g: Seq<Seq<CellState>>) -> nat
    decreases g.len(),
{
    if g.len() == 0 {
        0
    } else {
        let m = max_row_len(g.drop_last());
        if g.last().len() > m {
            g.last().len()
        } else {
            m
        }
    }
}

/// `g` with every row padded on the right with dead cells to the length of the longest row
pub open spec fn padded(g: Seq<Seq<CellState>>) -> Seq<Seq<CellState>> {
    Seq::new(
        g.len(),
        |y: int|
            Seq::new(
                max_row_len(g),
                |x: int|
                    if x < g[y].len() {
                        g[y][x]
                    } else {
                        CellState::Dead
                    },
            ),
    )
}

/// No row is longer than `max_row_len`, and when there are rows, one of them is that long.
pub proof fn lemma_max_row_len(g: Seq<Seq<CellState>>)
    ensures
        forall|y: int| 0 <= y < g.len() ==> #[trigger] g[y].len() <= max_row_len(g),
        g.len() > 0 ==> exists|y: int| 0 <= y < g.len() && #[trigger] g[y].len() == max_row_len(g),
    decreases g.len(),
{
    if g.len() > 0 {
        lemma_max_row_len(g.drop_last());
        assert forall|y: int| 0 <= y < g.len() implies #[trigger] g[y].len() <= max_row_len(g) by {
            if y < g.len() - 1 {
                assert(g.drop_last()[y] == g[y]);
            }
        }
        if g.last().len() > max_row_len(g.drop_last()) || g.len() == 1 {
            assert(g[g.len() - 1].len() == max_row_len(g));
        } else {
            let y = choose|y: int| 0 <= y < g.drop_last().len() && #[trigger] g.drop_last()[y].len() == max_row_len(g.drop_last());
            assert(g[y].len() == max_row_len(g));
        }
    }
}

/// Whether the cell of `g` at a coordinate is alive
pub open spec fn alive_in(g: Seq<Seq<CellState>>) -> spec_fn(Coord) -> bool {
    |n: Coord| g[n.y as int][n.x as int] == CellState::Alive
}

/// The number of live cells of `g` among the neighbours of `c`
pub open spec fn live_count(g: Seq<Seq<CellState>>, c: Coord) -> nat {
    neighbours(c, grid_width(g), g.len()).filter(alive_in(g)).len()
}

/// Toggling a cell twice gives the grid back.
pub proof fn lemma_toggle_at_twice(g: Seq<Seq<CellState>>, c: Coord)
    requires
        c.y < g.len(),
        c.x < g[c.y as int].len(),
    ensures
        toggle_at(toggle_at(g, c), c) == g,
{
    crate::cell_state::lemma_toggle_twice(g[c.y as int][c.x as int]);
    assert(toggle_at(toggle_at(g, c), c)[c.y as int] =~= g[c.y as int]);
    assert(toggle_at(toggle_at(g, c), c) =~= g);
}

/// Padding a rectangular grid leaves it as it is.
pub proof fn lemma_padded_rectangular(g: Seq<Seq<CellState>>)
    requires
        is_rectangular(g),
    ensures
        max_row_len(g) == g[0].len(),
        padded(g) == g,
{
    lemma_max_row_len(g);
    assert(g[0].len() <= max_row_len(g));
    let y = choose|y: int| 0 <= y < g.len() && #[trigger] g[y].len() == max_row_len(g);
    assert(g[y].len() == g[0].len());
    assert forall|y: int| 0 <= y < g.len() implies #[trigger] padded(g)[y] =~= g[y] by {
        assert(g[y].len() == g[0].len());
    }
    assert(padded(g) =~= g);
}

} // verus!

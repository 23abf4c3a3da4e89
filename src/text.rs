//! The text form of a board: one line per row, one character per cell
use vstd::prelude::*;

use crate::cell_state::CellState;
use crate::grid::{is_rectangular, lemma_padded_rectangular, max_row_len, padded};

verus! {

/// The rows that a text gives: lines are separated by '\n', carriage returns are left out, and
/// each other character is a live cell if it is `alive` and a dead one otherwise
pub open spec fn parse_rows(s: Seq<char>, alive: char) -> Seq<Seq<CellState>>
    decreases s.len(),
{
    if s.len() == 0 {
        seq![Seq::empty()]
    } else {
        let rows = parse_rows(s.drop_last(), alive);
        let c = s.last();
        if c == '\r' {
            rows
        } else if c == '\n' {
            rows.push(Seq::empty())
        } else {
            rows.update(rows.len() - 1, rows.last().push(cell_of_char(c, alive)))
        }
    }
}

/// The state that a character of a text stands for
pub open spec fn cell_of_char(c: char, alive: char) -> CellState {
    if c == alive {
        CellState::Alive
    } else {
        CellState::Dead
    }
}

/// A text gives at least one row.
pub proof fn lemma_parse_rows_nonempty(s: Seq<char>, alive: char)
    ensures
        parse_rows(s, alive).len() >= 1,
    decreases s.len(),
{
    if s.len() > 0 {
        lemma_parse_rows_nonempty(s.drop_last(), alive);
    }
}

/// The characters that stand for a row: `alive` for each live cell, `dead` for each dead one
pub open spec fn row_chars(r: Seq<CellState>, alive: char, dead: char) -> Seq<char> {
    r.map_values(
        |s: CellState|
            if s == CellState::Alive {
                alive
            } else {
                dead
            },
    )
}

/// The text of a grid: its rows' characters joined by '\n', with no newline at the end
pub open spec fn render(g: Seq<Seq<CellState>>, alive: char, dead: char) -> Seq<char>
    decreases g.len(),
{
    if g.len() == 0 {
        Seq::empty()
    } else if g.len() == 1 {
        row_chars(g[0], alive, dead)
    } else {
        render(g.drop_last(), alive, dead) + seq!['\n'] + row_chars(g.last(), alive, dead)
    }
}

/// Relies on String::push: the character is appended at the end of the string.
pub assume_specification[ String::push ](s: &mut String, ch: char)
    ensures
        final(s)@ == old(s)@.push(ch),
;

/// Rendering the rows read from a text that holds only the two markers and newlines gives the
/// text back.
proof fn lemma_render_parse_rows(s: Seq<char>, alive: char, dead: char)
    requires
        alive != dead,
        alive != '\n' && alive != '\r',
        dead != '\n' && dead != '\r',
        forall|i: int| 0 <= i < s.len() ==> #[trigger] s[i] == alive || s[i] == dead || s[i] == '\n',
    ensures
        render(parse_rows(s, alive), alive, dead) == s,
    decreases s.len(),
{
    if s.len() == 0 {
        assert(render(parse_rows(s, alive), alive, dead) =~= s);
    } else {
        let t = s.drop_last();
        let c = s.last();
        assert(s[s.len() - 1] == c);
        assert(s =~= t.push(c));
        assert forall|i: int| 0 <= i < t.len() implies #[trigger] t[i] == alive || t[i] == dead || t[i] == '\n' by {
            assert(t[i] == s[i]);
        }
        lemma_render_parse_rows(t, alive, dead);
        lemma_parse_rows_nonempty(t, alive);
        let p = parse_rows(t, alive);
        let q = parse_rows(s, alive);
        if c == '\n' {
            assert(q == p.push(Seq::empty()));
            assert(q.drop_last() =~= p);
            assert(row_chars(Seq::empty(), alive, dead) =~= Seq::<char>::empty());
            assert(render(q, alive, dead) =~= s);
        } else {
            let st = cell_of_char(c, alive);
            assert(q == p.update(p.len() - 1, p.last().push(st)));
            assert(row_chars(p.last().push(st), alive, dead) =~= row_chars(p.last(), alive, dead).push(c));
            if p.len() == 1 {
                assert(render(q, alive, dead) =~= s);
            } else {
                assert(q.drop_last() =~= p.drop_last());
                assert(q.last() == p.last().push(st));
                let head = render(p.drop_last(), alive, dead) + seq!['\n'];
                assert(render(p, alive, dead) == head + row_chars(p.last(), alive, dead));
                assert(render(q, alive, dead) == head + row_chars(p.last(), alive, dead).push(c));
                assert(render(q, alive, dead) =~= s);
            }
        }
    }
}

/// Writing out the board read from a text, with the same alive marker, gives the text back when
/// the text holds only the two markers and newlines, and its lines are non-empty and all of one
/// length (so there is no trailing newline).
pub proof fn lemma_text_round_trip(s: Seq<char>, alive: char, dead: char)
    requires
        alive != dead,
        alive != '\n' && alive != '\r',
        dead != '\n' && dead != '\r',
        forall|i: int| 0 <= i < s.len() ==> #[trigger] s[i] == alive || s[i] == dead || s[i] == '\n',
        is_rectangular(parse_rows(s, alive)),
    ensures
        max_row_len(parse_rows(s, alive)) > 0,
        render(padded(parse_rows(s, alive)), alive, dead) == s,
{
    lemma_padded_rectangular(parse_rows(s, alive));
    lemma_render_parse_rows(s, alive, dead);
}

} // verus!

use vstd::prelude::*;

verus! {

/// Possible states for a cell
#[derive(Debug, Clone, Copy, PartialEq, Eq, Structural)]
pub enum CellState {
    /// A cell which is alive
    Alive,
    /// A cell which is dead
    Dead,
}

impl CellState {
    /// The state a cell has after being toggled
    pub open spec fn toggled(self) -> CellState {
        match self {
            CellState::Alive => CellState::Dead,
            CellState::Dead => CellState::Alive,
        }
    }

    /// The human-readable name of a state
    pub open spec fn label(self) -> Seq<char> {
        match self {
            CellState::Alive => "Alive"@,
            CellState::Dead => "Dead"@,
        }
    }

    /// Revives the cell, making sure it is alive
    pub fn revive(&mut self)
        ensures
            *final(self) == CellState::Alive,
    {
        *self = CellState::Alive;
    }

    /// Kills the cell, making sure it is dead
    pub fn kill(&mut self)
        ensures
            *final(self) == CellState::Dead,
    {
        *self = CellState::Dead;
    }

    /// Toggles the state of the cell, making a dead one come alive, and a live one dead
    pub fn toggle(&mut self)
        ensures
            *final(self) == old(self).toggled(),
    {
        match self {
            CellState::Alive => self.kill(),
            CellState::Dead => self.revive(),
        }
    }

    /// Names the state: "Alive" or "Dead"
    pub fn to_string(&self) -> (r: String)
        ensures
            r@ == self.label(),
    {
        match self {
            CellState::Alive => String::from_str("Alive"),
            CellState::Dead => String::from_str("Dead"),
        }
    }
}

/// Toggling is its own inverse: toggling a state twice gives the state back.
pub proof fn lemma_toggle_twice(s: CellState)
    ensures
        s.toggled().toggled() == s,
{
}

} // verus!

use vstd::prelude::*;

verus! {

/// Rules for a Game of Life
#[derive(Debug, Clone, PartialEq, Eq)]
pub struct Rules {
    /// Number of neighbour cells which must be alive for a cell to be born
    pub b: Vec<u8>,
    /// Number of neighbour cells which must be alive for a cell to survive
    pub s: Vec<u8>,
}

/// Whether `n` is one of the entries of `counts`
fn holds_count(counts: &Vec<u8>, n: u8) -> (r: bool)
    ensures
        r == counts@.contains(n),
{
    let mut i: usize = 0;
    while i < counts.len()
        invariant
            i <= counts.len(),
            forall|j: int| 0 <= j < i ==> counts@[j] != n,
        decreases counts.len() - i,
    {
        if counts[i] == n {
            return true;
        }
        i = i + 1;
    }
    false
}

impl Rules {
    /// A live cell with `n` live neighbours stays alive
    pub open spec fn spec_survives(&self, n: u8) -> bool {
        self.s@.contains(n)
    }

    /// A dead cell with `n` live neighbours comes alive
    pub open spec fn spec_birthed(&self, n: u8) -> bool {
        self.b@.contains(n)
    }

    /// Whether under these rules a live cell with the given number of live neighbours survives to
    /// the next generation
    pub fn survives(&self, live_neighbours: u8) -> (r: bool)
        ensures
            r == self.spec_survives(live_neighbours),
    {
        holds_count(&self.s, live_neighbours)
    }

    /// Whether under these rules a dead cell with the given number of live neighbours is born
    /// in the next generation
    pub fn birthed(&self, live_neighbours: u8) -> (r: bool)
        ensures
            r == self.spec_birthed(live_neighbours),
    {
        holds_count(&self.b, live_neighbours)
    }
}

/// Rules for Conway's classic Game of Life: born with 3 live neighbours, survives with
/// 2 or 3
pub fn conways() -> (r: Rules)
    ensures
        r.b@ == seq![3u8],
        r.s@ == seq![2u8, 3u8],
        forall|n: u8| r.spec_survives(n) <==> (n == 2 || n == 3),
        forall|n: u8| r.spec_birthed(n) <==> n == 3,
{
    let r = Rules { b: vec![3], s: vec![2, 3] };
    assert forall|n: u8| r.spec_survives(n) <==> (n == 2 || n == 3) by {
        if n == 2 {
            assert(r.s@[0] == n);
        }
        if n == 3 {
            assert(r.s@[1] == n);
        }
    }
    assert forall|n: u8| r.spec_birthed(n) <==> n == 3 by {
        if n == 3 {
            assert(r.b@[0] == n);
        }
    }
    r
}

} // verus!

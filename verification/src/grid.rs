use vstd::prelude::*;
use vstd::pervasive::VecAdditionalExecFns;
use crate::square::Square;

verus! {

/// Mathematical model of the playing surface: a sequence of rows, each a
/// sequence of cells. `g[x][y]` is the cell in row `x`, column `y`.
pub open spec fn grid_wf(g: Seq<Seq<Square>>) -> bool {
    &&& g.len() == 19
    &&& forall|i: int| 0 <= i < 19 ==> (#[trigger] g[i]).len() == 19
}

pub open spec fn in_bounds(x: int, y: int) -> bool {
    0 <= x < 19 && 0 <= y < 19
}

/// The cell at (x, y).
pub open spec fn at(g: Seq<Seq<Square>>, x: int, y: int) -> Square {
    g[x][y]
}

/// The grid with the cell at (x, y) replaced by `v`.
pub open spec fn put(g: Seq<Seq<Square>>, x: int, y: int, v: Square) -> Seq<Seq<Square>> {
    g.update(x, g[x].update(y, v))
}

/// The grid described by an executable vector of rows.
pub open spec fn view_of(state: Seq<Vec<Square>>) -> Seq<Seq<Square>> {
    state.map_values(|row: Vec<Square>| row@)
}

pub proof fn lemma_put_at(g: Seq<Seq<Square>>, x: int, y: int, v: Square)
    requires
        grid_wf(g),
        in_bounds(x, y),
    ensures
        grid_wf(put(g, x, y, v)),
        at(put(g, x, y, v), x, y) == v,
        forall|i: int, j: int|
            in_bounds(i, j) && !(i == x && j == y) ==> at(
                put(g, x, y, v),
                i,
                j,
            ) == at(g, i, j),
{
}

pub fn grid_get(state: &Vec<Vec<Square>>, x: usize, y: usize) -> (r: Square)
    requires
        grid_wf(view_of(state@)),
        x < 19,
        y < 19,
    ensures
        r == at(view_of(state@), x as int, y as int),
{
    state[x][y]
}

pub fn grid_set(state: &mut Vec<Vec<Square>>, x: usize, y: usize, v: Square)
    requires
        grid_wf(view_of(old(state)@)),
        x < 19,
        y < 19,
    ensures
        view_of(final(state)@) == put(view_of(old(state)@), x as int, y as int, v),
{
    proof {
        assert(view_of(state@)[x as int] == state@[x as int]@);
    }
    let row = &mut state[x];
    row.set(y, v);
    proof {
        assert(view_of(state@) =~~= put(view_of(old(state)@), x as int, y as int, v));
    }
}

/// A fresh 19x19 grid of `Empty` cells, as a vector of rows.
pub fn empty_state() -> (state: Vec<Vec<Square>>)
    ensures
        grid_wf(view_of(state@)),
        forall|i: int, j: int| in_bounds(i, j) ==> at(view_of(state@), i, j) == Square::Empty,
{
    let mut state: Vec<Vec<Square>> = Vec::new();
    let mut i: usize = 0;
    while i < 19
        invariant
            i <= 19,
            state@.len() == i,
            forall|a: int| 0 <= a < i ==> (#[trigger] state@[a])@.len() == 19,
            forall|a: int, b: int|
                0 <= a < i && 0 <= b < 19 ==> #[trigger] state@[a]@[b] == Square::Empty,
        decreases 19 - i,
    {
        let mut row: Vec<Square> = Vec::new();
        let mut j: usize = 0;
        while j < 19
            invariant
                j <= 19,
                row@.len() == j,
                forall|b: int| 0 <= b < j ==> row@[b] == Square::Empty,
            decreases 19 - j,
        {
            row.push(Square::Empty);
            j = j + 1;
        }
        state.push(row);
        i = i + 1;
    }
    state
}

/// A copy of a vector-of-rows state whose grid is the same.
pub fn clone_state(state: &Vec<Vec<Square>>) -> (r: Vec<Vec<Square>>)
    ensures
        view_of(r@) == view_of(state@),
{
    let n = state.len();
    let mut out: Vec<Vec<Square>> = Vec::new();
    let mut i: usize = 0;
    while i < n
        invariant
            i <= n,
            n == state@.len(),
            out@.len() == i,
            forall|a: int| 0 <= a < i ==> (#[trigger] out@[a])@ == state@[a]@,
        decreases n - i,
    {
        let src: &Vec<Square> = &state[i];
        let m = src.len();
        let mut row: Vec<Square> = Vec::new();
        let mut j: usize = 0;
        while j < m
            invariant
                j <= m,
                m == src@.len(),
                row@.len() == j,
                forall|b: int| 0 <= b < j ==> row@[b] == src@[b],
            decreases m - j,
        {
            row.push(src[j]);
            j = j + 1;
        }
        proof {
            assert(row@ =~= src@);
        }
        out.push(row);
        i = i + 1;
    }
    proof {
        assert(view_of(out@) =~~= view_of(state@));
    }
    out
}

} // verus!

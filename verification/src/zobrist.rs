use vstd::prelude::*;
use crate::grid::{at, grid_wf, in_bounds, put};
use crate::square::Square;

verus! {

/// The table of per-(color, cell) random 64-bit values that defines the
/// incremental position hash. Entries `0..361` belong to Black stones,
/// entries `361..722` to White stones, in row-major cell order.
#[derive(Clone)]
pub struct ZobristTable {
    pub data: Vec<u64>,
}

impl ZobristTable {
    pub open spec fn wf(&self) -> bool {
        self.data@.len() == 722
    }

    /// The hash contribution of a stone `sq` standing at cell (x, y).
    /// An empty cell contributes nothing.
    pub open spec fn contribution(&self, sq: Square, x: int, y: int) -> u64 {
        match sq {
            Square::Black => self.data@[x * 19 + y],
            Square::White => self.data@[361 + x * 19 + y],
            Square::Empty => 0u64,
        }
    }

    pub fn contribution_at(&self, sq: Square, x: usize, y: usize) -> (r: u64)
        requires
            self.wf(),
            x < 19,
            y < 19,
        ensures
            r == self.contribution(sq, x as int, y as int),
    {
        match sq {
            Square::Black => self.data[x * 19 + y],
            Square::White => self.data[361 + x * 19 + y],
            Square::Empty => 0u64,
        }
    }

    /// A fresh table of randomly drawn entries. Generated once per session
    /// and shared read-only afterwards, so that hashes computed during one
    /// session are comparable with each other.
    pub fn generate() -> (t: ZobristTable)
        ensures
            t.wf(),
    {
        let mut data: Vec<u64> = Vec::new();
        let mut i: usize = 0;
        while i < 722
            invariant
                i <= 722,
                data@.len() == i,
            decreases 722 - i,
        {
            data.push(random_u64());
            i = i + 1;
        }
        ZobristTable { data }
    }

    /// A table built from caller-chosen entries; `None` unless exactly
    /// 722 values are supplied.
    pub fn from_values(values: Vec<u64>) -> (r: Option<ZobristTable>)
        ensures
            values@.len() == 722 ==> (r matches Some(t) && t.data@ == values@),
            values@.len() != 722 ==> r is None,
    {
        if values.len() == 722 {
            Some(ZobristTable { data: values })
        } else {
            None
        }
    }
}

/// Relies on rand::random: draws one value from the thread-local generator.
/// Nothing is assumed of the result.
#[verifier::external_body]
pub(crate) fn random_u64() -> u64 {
    rand::random::<u64>()
}

/// XOR of the contributions of the first `n` cells of row `x`.
pub open spec fn row_hash_upto(t: ZobristTable, row: Seq<Square>, x: int, n: int) -> u64
    decreases n,
{
    if n <= 0 {
        0u64
    } else {
        row_hash_upto(t, row, x, n - 1) ^ t.contribution(row[n - 1], x, n - 1)
    }
}

/// XOR of the contributions of all cells of the first `m` rows.
pub open spec fn grid_hash_upto(t: ZobristTable, g: Seq<Seq<Square>>, m: int) -> u64
    decreases m,
{
    if m <= 0 {
        0u64
    } else {
        grid_hash_upto(t, g, m - 1) ^ row_hash_upto(t, g[m - 1], m - 1, 19)
    }
}

/// The position hash of a grid: the XOR of the per-stone contributions of
/// every non-empty cell. It depends only on the final cell contents, never
/// on the order in which stones arrived.
pub open spec fn grid_hash(t: ZobristTable, g: Seq<Seq<Square>>) -> u64 {
    grid_hash_upto(t, g, 19)
}

proof fn lemma_row_hash_update(t: ZobristTable, row1: Seq<Square>, row2: Seq<Square>, x: int, y: int, n: int)
    requires
        0 <= y < 19,
        row2.len() == row1.len(),
        forall|j: int| 0 <= j < row1.len() && j != y ==> row2[j] == row1[j],
        n <= row1.len(),
    ensures
        y < n ==> row_hash_upto(t, row2, x, n) == row_hash_upto(t, row1, x, n)
            ^ t.contribution(row1[y], x, y) ^ t.contribution(row2[y], x, y),
        y >= n ==> row_hash_upto(t, row2, x, n) == row_hash_upto(t, row1, x, n),
    decreases n,
{
    if n > 0 {
        lemma_row_hash_update(t, row1, row2, x, y, n - 1);
        let h1 = row_hash_upto(t, row1, x, n - 1);
        let c1 = t.contribution(row1[y], x, y);
        let c2 = t.contribution(row2[y], x, y);
        let c = t.contribution(row1[n - 1], x, n - 1);
        if n - 1 == y {
            assert((h1 ^ c1) ^ (c1 ^ c2) == h1 ^ c2) by (bit_vector);
            assert(row_hash_upto(t, row1, x, n) == h1 ^ c1);
            assert(row_hash_upto(t, row2, x, n) == h1 ^ c2);
            assert(h1 ^ c2 == (h1 ^ c1) ^ c1 ^ c2) by (bit_vector);
        } else if y < n - 1 {
            assert(((h1 ^ c1 ^ c2) ^ c) == ((h1 ^ c) ^ c1 ^ c2)) by (bit_vector);
        }
    }
}

proof fn lemma_grid_hash_update_upto(t: ZobristTable, g1: Seq<Seq<Square>>, g2: Seq<Seq<Square>>, x: int, y: int, m: int)
    requires
        grid_wf(g1),
        grid_wf(g2),
        in_bounds(x, y),
        forall|i: int| 0 <= i < 19 && i != x ==> g2[i] == g1[i],
        forall|j: int| 0 <= j < 19 && j != y ==> g2[x][j] == g1[x][j],
        m <= 19,
    ensures
        x < m ==> grid_hash_upto(t, g2, m) == grid_hash_upto(t, g1, m)
            ^ t.contribution(g1[x][y], x, y) ^ t.contribution(g2[x][y], x, y),
        x >= m ==> grid_hash_upto(t, g2, m) == grid_hash_upto(t, g1, m),
    decreases m,
{
    if m > 0 {
        lemma_grid_hash_update_upto(t, g1, g2, x, y, m - 1);
        let h1 = grid_hash_upto(t, g1, m - 1);
        let c1 = t.contribution(g1[x][y], x, y);
        let c2 = t.contribution(g2[x][y], x, y);
        let r = row_hash_upto(t, g1[m - 1], m - 1, 19);
        if m - 1 == x {
            lemma_row_hash_update(t, g1[x], g2[x], x, y, 19);
            assert((h1 ^ (r ^ c1 ^ c2)) == ((h1 ^ r) ^ c1 ^ c2)) by (bit_vector);
        } else if x < m - 1 {
            assert(g2[m - 1] == g1[m - 1]);
            assert(((h1 ^ c1 ^ c2) ^ r) == ((h1 ^ r) ^ c1 ^ c2)) by (bit_vector);
        } else {
            assert(g2[m - 1] == g1[m - 1]);
        }
    }
}

/// Changing one cell changes the grid hash by exactly the XOR of the old
/// and new contributions of that cell.
pub proof fn lemma_grid_hash_put(t: ZobristTable, g: Seq<Seq<Square>>, x: int, y: int, v: Square)
    requires
        grid_wf(g),
        in_bounds(x, y),
    ensures
        grid_hash(t, put(g, x, y, v)) == grid_hash(t, g)
            ^ t.contribution(at(g, x, y), x, y) ^ t.contribution(v, x, y),
{
    let g2 = put(g, x, y, v);
    lemma_grid_hash_update_upto(t, g, g2, x, y, 19);
}

/// The hash of a grid is a function of its cell contents alone: two grids
/// that hold the same stones hash identically, however they were reached.
pub proof fn lemma_grid_hash_only_cells(t: ZobristTable, g1: Seq<Seq<Square>>, g2: Seq<Seq<Square>>)
    requires
        grid_wf(g1),
        grid_wf(g2),
        forall|i: int, j: int| in_bounds(i, j) ==> at(g1, i, j) == at(g2, i, j),
    ensures
        grid_hash(t, g1) == grid_hash(t, g2),
{
    assert forall|i: int| 0 <= i < 19 implies g1[i] == g2[i] by {
        assert forall|j: int| 0 <= j < 19 implies g1[i][j] == g2[i][j] by {
            assert(in_bounds(i, j));
            assert(at(g1, i, j) == at(g2, i, j));
        }
        assert(g1[i] =~= g2[i]);
    }
    assert(g1 =~= g2);
}

} // verus!

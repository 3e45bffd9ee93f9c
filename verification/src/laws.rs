use vstd::prelude::*;
use crate::board::{Board, BoardState, Move};
use crate::check::{
    aligned_unbreakable, capture_count, capture_count_upto, captured_cell, captured_cell_upto,
    captures_dir, classify, dir_dx, dir_dy, double_free_three, five_in_row,
    lemma_remove_cell_fresh, move_into_capture,
};
use crate::grid::{at, grid_wf, in_bounds, put};
use crate::square::Square;
use crate::zobrist::{grid_hash, lemma_grid_hash_only_cells, lemma_grid_hash_put, ZobristTable};

verus! {

proof fn lemma_count_one(g: Seq<Seq<Square>>, c: Square, x: int, y: int, d: int, n: int)
    requires
        0 <= d < 8,
        n <= 8,
        captures_dir(g, c, x, y, d),
        forall|dd: int| 0 <= dd < 8 && dd != d ==> !captures_dir(g, c, x, y, dd),
    ensures
        capture_count_upto(g, c, x, y, n) == if d < n {
            1int
        } else {
            0int
        },
    decreases n,
{
    if n > 0 {
        lemma_count_one(g, c, x, y, d, n - 1);
    }
}

/// A capture removes exactly two opponent stones and raises the mover's
/// counter by exactly two. When one direction `d` alone matches the
/// bracket window around the placement (x, y), the removed cells are
/// exactly that direction's bracketed pair, both holding opponent
/// stones, and the capture count is exactly one; the board that
/// `check_capture` promises therefore empties those two cells, keeps
/// every other cell, adds two to the mover's counter, and — since its
/// hash still equals the grid hash — no longer carries the removed
/// stones' hash contributions.
pub proof fn lemma_single_capture(g: Seq<Seq<Square>>, c: Square, x: int, y: int, d: int)
    requires
        grid_wf(g),
        in_bounds(x, y),
        0 <= d < 8,
        captures_dir(g, c, x, y, d),
        forall|dd: int| 0 <= dd < 8 && dd != d ==> !captures_dir(g, c, x, y, dd),
    ensures
        capture_count(g, c, x, y) == 1,
        at(g, x + dir_dx(d), y + dir_dy(d)) == c.opposite_spec(),
        at(g, x + 2 * dir_dx(d), y + 2 * dir_dy(d)) == c.opposite_spec(),
        forall|i: int, j: int|
            captured_cell(g, c, x, y, i, j) <==> ((i == x + dir_dx(d) && j == y + dir_dy(d)) || (i
                == x + 2 * dir_dx(d) && j == y + 2 * dir_dy(d))),
{
    lemma_count_one(g, c, x, y, d, 8);
    assert forall|i: int, j: int|
        captured_cell(g, c, x, y, i, j) <==> ((i == x + dir_dx(d) && j == y + dir_dy(d)) || (i == x
            + 2 * dir_dx(d) && j == y + 2 * dir_dy(d))) by {
        if captured_cell(g, c, x, y, i, j) {
            let dd = choose|dd: int|
                0 <= dd < 8 && captures_dir(g, c, x, y, dd) && ((i == x + dir_dx(dd) && j == y
                    + dir_dy(dd)) || (i == x + 2 * dir_dx(dd) && j == y + 2 * dir_dy(dd)));
            assert(dd == d);
        }
        if (i == x + dir_dx(d) && j == y + dir_dy(d)) || (i == x + 2 * dir_dx(d) && j == y + 2
            * dir_dy(d)) {
            assert(captured_cell(g, c, x, y, i, j));
        }
    }
}

/// The placed stone itself is never among the removed cells: every
/// capture removes cells strictly beside the move, so after a legal
/// placement the mover's stone stands on the move cell.
pub proof fn lemma_mover_not_captured(g: Seq<Seq<Square>>, c: Square, x: int, y: int)
    ensures
        !captured_cell(g, c, x, y, x, y),
{
    if captured_cell(g, c, x, y, x, y) {
        let dd = choose|dd: int|
            0 <= dd < 8 && captures_dir(g, c, x, y, dd) && ((x == x + dir_dx(dd) && y == y
                + dir_dy(dd)) || (x == x + 2 * dir_dx(dd) && y == y + 2 * dir_dy(dd)));
        assert(false);
    }
}

/// Black standing at ten or more captures is classified an immediate
/// victory by the very next classification, whatever else the board
/// holds.
pub proof fn lemma_black_capture_victory(
    g: Seq<Seq<Square>>,
    bcap: int,
    wcap: int,
    x: int,
    y: int,
    c: Square,
)
    requires
        bcap >= 10,
    ensures
        classify(g, bcap, wcap, x, y, c) == BoardState::Victory(Square::Black),
{
}

/// White standing at ten or more captures is classified an immediate
/// victory by the next classification, unless Black is below ten and the
/// classified move is a Black stone completing a five-in-a-row — the
/// mover's alignment is examined before the opponent's captures.
pub proof fn lemma_white_capture_victory(
    g: Seq<Seq<Square>>,
    bcap: int,
    wcap: int,
    x: int,
    y: int,
    c: Square,
)
    requires
        wcap >= 10,
        bcap < 10,
        !(c == Square::Black && five_in_row(g, c, x, y)),
    ensures
        classify(g, bcap, wcap, x, y, c) == BoardState::Victory(Square::White),
{
}

/// The two-stage win rule: a five-in-a-row through the move just made is
/// only a provisional `FiveAligned` while an immediate capture could
/// break it — that is, while removing the board's capturable pairs
/// destroys the alignment; once no such capture exists, it is a final
/// `Victory`.
pub proof fn lemma_alignment_two_stage(
    g: Seq<Seq<Square>>,
    bcap: int,
    wcap: int,
    x: int,
    y: int,
    c: Square,
)
    requires
        c == Square::Black || c == Square::White,
        five_in_row(g, c, x, y),
        bcap < 10,
        c == Square::White ==> wcap < 10,
    ensures
        aligned_unbreakable(g, c, x, y) ==> classify(g, bcap, wcap, x, y, c)
            == BoardState::Victory(c),
        !aligned_unbreakable(g, c, x, y) ==> classify(g, bcap, wcap, x, y, c)
            == BoardState::FiveAligned(c),
{
}

/// A placement that would create open threes in two orientations at
/// once is answered with `DoubleThrees` and no new board: the asked
/// board stays as it was.
pub proof fn lemma_double_three_rejected(
    b: Board,
    p: (usize, usize),
    c: Square,
    t: ZobristTable,
    m: Move,
)
    requires
        b.play_spec(Some(p), c, t, m),
        p.0 < 19,
        p.1 < 19,
        at(b.grid(), p.0 as int, p.1 as int) == Square::Empty,
        !move_into_capture(put(b.grid(), p.0 as int, p.1 as int, c), c, p.0 as int, p.1 as int),
        double_free_three(put(b.grid(), p.0 as int, p.1 as int, c), c, p.0 as int, p.1 as int),
    ensures
        m is DoubleThrees,
{
}

/// The grid after the captures of the first `n` directions around the
/// placement of `c` at (x, y) are applied: each matching direction's
/// bracketed pair is emptied in turn.
pub open spec fn captured_grid_upto(
    g: Seq<Seq<Square>>,
    c: Square,
    x: int,
    y: int,
    n: int,
) -> Seq<Seq<Square>>
    decreases n,
{
    if n <= 0 {
        g
    } else {
        let prev = captured_grid_upto(g, c, x, y, n - 1);
        if captures_dir(g, c, x, y, n - 1) {
            put(
                put(prev, x + dir_dx(n - 1), y + dir_dy(n - 1), Square::Empty),
                x + 2 * dir_dx(n - 1),
                y + 2 * dir_dy(n - 1),
                Square::Empty,
            )
        } else {
            prev
        }
    }
}

/// XOR of the hash contributions of every opponent stone that the first
/// `n` directions' captures remove.
pub open spec fn removed_xor_upto(
    t: ZobristTable,
    g: Seq<Seq<Square>>,
    c: Square,
    x: int,
    y: int,
    n: int,
) -> u64
    decreases n,
{
    if n <= 0 {
        0u64
    } else {
        let prev = removed_xor_upto(t, g, c, x, y, n - 1);
        if captures_dir(g, c, x, y, n - 1) {
            prev ^ t.contribution(c.opposite_spec(), x + dir_dx(n - 1), y + dir_dy(n - 1))
                ^ t.contribution(c.opposite_spec(), x + 2 * dir_dx(n - 1), y + 2 * dir_dy(n - 1))
        } else {
            prev
        }
    }
}

proof fn lemma_captured_grid_cells(g: Seq<Seq<Square>>, c: Square, x: int, y: int, n: int)
    requires
        grid_wf(g),
        in_bounds(x, y),
        0 <= n <= 8,
    ensures
        grid_wf(captured_grid_upto(g, c, x, y, n)),
        forall|i: int, j: int|
            in_bounds(i, j) ==> at(captured_grid_upto(g, c, x, y, n), i, j) == (
            if captured_cell_upto(g, c, x, y, n, i, j) {
                Square::Empty
            } else {
                at(g, i, j)
            }),
    decreases n,
{
    if n > 0 {
        lemma_captured_grid_cells(g, c, x, y, n - 1);
        let prev = captured_grid_upto(g, c, x, y, n - 1);
        let d = n - 1;
        if captures_dir(g, c, x, y, d) {
            let i1 = x + dir_dx(d);
            let j1 = y + dir_dy(d);
            let i2 = x + 2 * dir_dx(d);
            let j2 = y + 2 * dir_dy(d);
            lemma_remove_cell_fresh(g, c, x, y, d, 1, i1, j1);
            lemma_remove_cell_fresh(g, c, x, y, d, 2, i2, j2);
            let mid = put(prev, i1, j1, Square::Empty);
            crate::grid::lemma_put_at(prev, i1, j1, Square::Empty);
            crate::grid::lemma_put_at(mid, i2, j2, Square::Empty);
            assert forall|i: int, j: int| in_bounds(i, j) implies at(
                captured_grid_upto(g, c, x, y, n),
                i,
                j,
            ) == (if captured_cell_upto(g, c, x, y, n, i, j) {
                Square::Empty
            } else {
                at(g, i, j)
            }) by {
                if (i == i1 && j == j1) || (i == i2 && j == j2) {
                    assert(captured_cell_upto(g, c, x, y, n, i, j));
                } else {
                    if captured_cell_upto(g, c, x, y, n, i, j) {
                        let dd = choose|dd: int|
                            0 <= dd < n && captures_dir(g, c, x, y, dd) && ((i == x + dir_dx(dd)
                                && j == y + dir_dy(dd)) || (i == x + 2 * dir_dx(dd) && j == y + 2
                                * dir_dy(dd)));
                        if dd == d {
                            assert(false);
                        } else {
                            assert(captured_cell_upto(g, c, x, y, d, i, j));
                        }
                    } else {
                        assert(!captured_cell_upto(g, c, x, y, d, i, j));
                    }
                }
            }
        } else {
            assert forall|i: int, j: int| in_bounds(i, j) implies at(
                captured_grid_upto(g, c, x, y, n),
                i,
                j,
            ) == (if captured_cell_upto(g, c, x, y, n, i, j) {
                Square::Empty
            } else {
                at(g, i, j)
            }) by {
                if captured_cell_upto(g, c, x, y, n, i, j) {
                    let dd = choose|dd: int|
                        0 <= dd < n && captures_dir(g, c, x, y, dd) && ((i == x + dir_dx(dd) && j
                            == y + dir_dy(dd)) || (i == x + 2 * dir_dx(dd) && j == y + 2 * dir_dy(
                            dd,
                        )));
                    assert(dd < d);
                    assert(captured_cell_upto(g, c, x, y, d, i, j));
                } else {
                    if captured_cell_upto(g, c, x, y, d, i, j) {
                        assert(captured_cell_upto(g, c, x, y, n, i, j));
                    }
                }
            }
        }
    }
}

proof fn lemma_captured_grid_hash(
    t: ZobristTable,
    g: Seq<Seq<Square>>,
    c: Square,
    x: int,
    y: int,
    n: int,
)
    requires
        grid_wf(g),
        in_bounds(x, y),
        0 <= n <= 8,
    ensures
        grid_hash(t, captured_grid_upto(g, c, x, y, n)) == grid_hash(t, g) ^ removed_xor_upto(
            t,
            g,
            c,
            x,
            y,
            n,
        ),
    decreases n,
{
    let hg = grid_hash(t, g);
    if n <= 0 {
        assert(hg ^ 0u64 == hg) by (bit_vector);
    } else {
        lemma_captured_grid_hash(t, g, c, x, y, n - 1);
        lemma_captured_grid_cells(g, c, x, y, n - 1);
        let d = n - 1;
        let prev = captured_grid_upto(g, c, x, y, d);
        let xx = removed_xor_upto(t, g, c, x, y, d);
        if captures_dir(g, c, x, y, d) {
            let i1 = x + dir_dx(d);
            let j1 = y + dir_dy(d);
            let i2 = x + 2 * dir_dx(d);
            let j2 = y + 2 * dir_dy(d);
            lemma_remove_cell_fresh(g, c, x, y, d, 1, i1, j1);
            lemma_remove_cell_fresh(g, c, x, y, d, 2, i2, j2);
            assert(at(prev, i1, j1) == c.opposite_spec());
            let mid = put(prev, i1, j1, Square::Empty);
            crate::grid::lemma_put_at(prev, i1, j1, Square::Empty);
            assert(!(i1 == i2 && j1 == j2));
            assert(at(mid, i2, j2) == c.opposite_spec());
            lemma_grid_hash_put(t, prev, i1, j1, Square::Empty);
            lemma_grid_hash_put(t, mid, i2, j2, Square::Empty);
            let k1 = t.contribution(c.opposite_spec(), i1, j1);
            let k2 = t.contribution(c.opposite_spec(), i2, j2);
            assert(t.contribution(Square::Empty, i1, j1) == 0u64);
            assert(t.contribution(Square::Empty, i2, j2) == 0u64);
            assert((((hg ^ xx) ^ k1 ^ 0u64) ^ k2 ^ 0u64) == hg ^ ((xx ^ k1) ^ k2))
                by (bit_vector);
        }
    }
}

/// A capture's hash bookkeeping as an XOR law: the board that
/// `check_capture` promises — every bracketed pair around the placement
/// emptied — carries the old hash with exactly the removed stones'
/// contributions XORed out.
pub proof fn lemma_capture_hash_xor(
    t: ZobristTable,
    b: Board,
    r: Board,
    c: Square,
    x: int,
    y: int,
)
    requires
        b.wf(),
        b.hash_ok(t),
        r.wf(),
        r.hash_ok(t),
        in_bounds(x, y),
        forall|i: int, j: int|
            in_bounds(i, j) ==> at(r.grid(), i, j) == (if captured_cell(b.grid(), c, x, y, i, j) {
                Square::Empty
            } else {
                at(b.grid(), i, j)
            }),
    ensures
        r.hash == b.hash ^ removed_xor_upto(t, b.grid(), c, x, y, 8),
{
    lemma_captured_grid_cells(b.grid(), c, x, y, 8);
    lemma_captured_grid_hash(t, b.grid(), c, x, y, 8);
    assert forall|i: int, j: int| in_bounds(i, j) implies at(r.grid(), i, j) == at(
        captured_grid_upto(b.grid(), c, x, y, 8),
        i,
        j,
    ) by {
        assert(captured_cell(b.grid(), c, x, y, i, j) == captured_cell_upto(
            b.grid(),
            c,
            x,
            y,
            8,
            i,
            j,
        ));
    }
    lemma_grid_hash_only_cells(t, r.grid(), captured_grid_upto(b.grid(), c, x, y, 8));
}

/// Hash order-independence: two boards that hold the same stones carry
/// the same hash, under the same table, however their placements were
/// ordered — the hash is the XOR of the per-stone contributions of the
/// final stones alone, and XOR does not care about order.
pub proof fn lemma_hash_order_independent(t: ZobristTable, b1: Board, b2: Board)
    requires
        b1.wf(),
        b2.wf(),
        b1.hash_ok(t),
        b2.hash_ok(t),
        forall|i: int, j: int| in_bounds(i, j) ==> at(b1.grid(), i, j) == at(b2.grid(), i, j),
    ensures
        b1.hash == b2.hash,
{
    lemma_grid_hash_only_cells(t, b1.grid(), b2.grid());
}

} // verus!

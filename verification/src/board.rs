use itertools::Itertools;
use vstd::prelude::*;
use crate::check::{
    capture_count, captured_cell, capture_pos_cat, classify, double_free_three,
    move_into_capture, threat_cat,
};
use crate::scan::scan_hit;
use crate::clock::{duration_millis, instant_elapsed};
use crate::grid::{at, grid_wf, in_bounds, put, view_of, clone_state, empty_state, grid_get,
    grid_set};
use crate::scan::{line_cells, line_data};
use crate::square::Square;
use crate::zobrist::{grid_hash, grid_hash_upto, row_hash_upto, ZobristTable};

verus! {

/// One maximal scan line of the board: the cells' contents in scan order,
/// beside the board coordinates they came from.
pub struct Right {
    pub data: Vec<Square>,
    pub cells: Vec<(usize, usize)>,
}

/// How a finished or running game stands. `FiveAligned` is a provisional
/// win: five stones are aligned but the alignment can still be broken by an
/// immediate capture, so play continues.
#[derive(Clone, Copy, Debug, PartialEq, Eq, Structural)]
pub enum BoardState {
    InProgress,
    Draw,
    Victory(Square),
    FiveAligned(Square),
}

/// The outcome of asking to place a stone. Rule violations are reported as
/// variants; the board itself is never changed by a rejected placement.
#[derive(Debug)]
pub enum Move {
    Illegal,
    DoubleThrees,
    Legal(Board, (usize, usize), Square, u128),
    OutOfBounds,
    MoveIntoCapture,
    Other,
}

/// Why a textual board description was rejected.
#[derive(Clone, Copy, Debug, PartialEq, Eq, Structural)]
pub enum ParseError {
    TooManyRows,
    RowTooLong,
}

/// A 19x19 board: the grid of cells, one capture counter per color, the
/// incremental position hash, and the current game-state tag.
#[derive(Debug)]
pub struct Board {
    pub state: Vec<Vec<Square>>,
    pub b_capture: usize,
    pub w_capture: usize,
    pub game_state: BoardState,
    pub hash: u64,
}

impl Board {
    /// The mathematical grid this board holds.
    pub open spec fn grid(&self) -> Seq<Seq<Square>> {
        view_of(self.state@)
    }

    /// Shape and counter invariant: a 19x19 grid and even capture counters
    /// (stones are always captured in bracketed pairs).
    pub open spec fn wf(&self) -> bool {
        &&& grid_wf(self.grid())
        &&& self.b_capture % 2 == 0
        &&& self.w_capture % 2 == 0
    }

    /// The hash field agrees with the grid: it is the XOR of the per-stone
    /// contributions of every non-empty cell under table `t`.
    pub open spec fn hash_ok(&self, t: ZobristTable) -> bool {
        self.hash == grid_hash(t, self.grid())
    }

    /// The capture counter of `color` (`Empty` scores zero).
    pub open spec fn score_of(&self, color: Square) -> int {
        match color {
            Square::Black => self.b_capture as int,
            Square::White => self.w_capture as int,
            Square::Empty => 0,
        }
    }

    /// A fresh, empty, in-progress board with hash zero.
    pub fn new() -> (b: Board)
        ensures
            b.wf(),
            b.b_capture == 0,
            b.w_capture == 0,
            b.game_state == BoardState::InProgress,
            b.hash == 0u64,
            forall|i: int, j: int| in_bounds(i, j) ==> at(b.grid(), i, j) == Square::Empty,
            forall|t: ZobristTable| b.hash_ok(t),
    {
        let b = Board {
            state: empty_state(),
            b_capture: 0,
            w_capture: 0,
            game_state: BoardState::InProgress,
            hash: 0,
        };
        proof {
            assert forall|t: ZobristTable| b.hash_ok(t) by {
                lemma_empty_grid_hash(t, b.grid(), 19);
            }
        }
        b
    }

    /// The 112 maximal scan lines of the board: 19 rows, 19 columns, 37
    /// rising diagonals and 37 falling ones, with both contents and
    /// coordinates, in the order that `line_data`/`line_cells` fix.
    pub fn explode(&self) -> (r: Vec<Right>)
        requires
            grid_wf(self.grid()),
        ensures
            r@.len() == 112,
            forall|k: int| 0 <= k < 112 ==> (#[trigger] r@[k]).data@ == line_data(self.grid(), k),
            forall|k: int| 0 <= k < 112 ==> (#[trigger] r@[k]).cells@ == line_cells(k),
    {
        let ghost g = self.grid();
        let mut r: Vec<Right> = Vec::new();
        // rows
        let mut i: usize = 0;
        while i < 19
            invariant
                i <= 19,
                g == self.grid(),
                grid_wf(g),
                r@.len() == i,
                forall|k: int| 0 <= k < i ==> (#[trigger] r@[k]).data@ == line_data(g, k),
                forall|k: int| 0 <= k < i ==> (#[trigger] r@[k]).cells@ == line_cells(k),
            decreases 19 - i,
        {
            let mut data: Vec<Square> = Vec::new();
            let mut cells: Vec<(usize, usize)> = Vec::new();
            let mut j: usize = 0;
            while j < 19
                invariant
                    i < 19,
                    j <= 19,
                    g == self.grid(),
                    grid_wf(g),
                    data@.len() == j,
                    cells@.len() == j,
                    forall|t: int| 0 <= t < j ==> data@[t] == line_data(g, i as int)[t],
                    forall|t: int| 0 <= t < j ==> cells@[t] == line_cells(i as int)[t],
                decreases 19 - j,
            {
                data.push(grid_get(&self.state, i, j));
                cells.push((i, j));
                j = j + 1;
            }
            proof {
                assert(data@ =~= line_data(g, i as int));
                assert(cells@ =~= line_cells(i as int));
            }
            r.push(Right { data, cells });
            i = i + 1;
        }
        // columns
        let mut i: usize = 0;
        while i < 19
            invariant
                i <= 19,
                g == self.grid(),
                grid_wf(g),
                r@.len() == 19 + i,
                forall|k: int| 0 <= k < 19 + i ==> (#[trigger] r@[k]).data@ == line_data(g, k),
                forall|k: int| 0 <= k < 19 + i ==> (#[trigger] r@[k]).cells@ == line_cells(k),
            decreases 19 - i,
        {
            let ghost k = 19 + i as int;
            let mut data: Vec<Square> = Vec::new();
            let mut cells: Vec<(usize, usize)> = Vec::new();
            let mut j: usize = 0;
            while j < 19
                invariant
                    i < 19,
                    j <= 19,
                    g == self.grid(),
                    grid_wf(g),
                    k == 19 + i as int,
                    data@.len() == j,
                    cells@.len() == j,
                    forall|t: int| 0 <= t < j ==> data@[t] == line_data(g, k)[t],
                    forall|t: int| 0 <= t < j ==> cells@[t] == line_cells(k)[t],
                decreases 19 - j,
            {
                data.push(grid_get(&self.state, j, i));
                cells.push((j, i));
                j = j + 1;
            }
            proof {
                assert(data@ =~= line_data(g, k));
                assert(cells@ =~= line_cells(k));
            }
            r.push(Right { data, cells });
            i = i + 1;
        }
        // rising diagonals (x and y both increase along the line)
        let mut i: usize = 0;
        while i < 37
            invariant
                i <= 37,
                g == self.grid(),
                grid_wf(g),
                r@.len() == 38 + i,
                forall|k: int| 0 <= k < 38 + i ==> (#[trigger] r@[k]).data@ == line_data(g, k),
                forall|k: int| 0 <= k < 38 + i ==> (#[trigger] r@[k]).cells@ == line_cells(k),
            decreases 37 - i,
        {
            let ghost k = 38 + i as int;
            let sx: usize = if i > 18 { i - 18 } else { 0 };
            let sy: usize = if i <= 18 { 18 - i } else { 0 };
            let len: usize = if i <= 18 { i + 1 } else { 37 - i };
            let mut data: Vec<Square> = Vec::new();
            let mut cells: Vec<(usize, usize)> = Vec::new();
            let mut j: usize = 0;
            while j < len
                invariant
                    i < 37,
                    j <= len,
                    g == self.grid(),
                    grid_wf(g),
                    k == 38 + i as int,
                    i > 18 ==> sx == i - 18,
                    i <= 18 ==> sx == 0,
                    i <= 18 ==> sy == 18 - i,
                    i > 18 ==> sy == 0,
                    i <= 18 ==> len == i + 1,
                    i > 18 ==> len == 37 - i,
                    data@.len() == j,
                    cells@.len() == j,
                    forall|t: int| 0 <= t < j ==> data@[t] == line_data(g, k)[t],
                    forall|t: int| 0 <= t < j ==> cells@[t] == line_cells(k)[t],
                decreases len - j,
            {
                data.push(grid_get(&self.state, sx + j, sy + j));
                cells.push((sx + j, sy + j));
                j = j + 1;
            }
            proof {
                assert(data@ =~= line_data(g, k));
                assert(cells@ =~= line_cells(k));
            }
            r.push(Right { data, cells });
            i = i + 1;
        }
        // falling diagonals (x increases while y decreases)
        let mut i: usize = 0;
        while i < 37
            invariant
                i <= 37,
                g == self.grid(),
                grid_wf(g),
                r@.len() == 75 + i,
                forall|k: int| 0 <= k < 75 + i ==> (#[trigger] r@[k]).data@ == line_data(g, k),
                forall|k: int| 0 <= k < 75 + i ==> (#[trigger] r@[k]).cells@ == line_cells(k),
            decreases 37 - i,
        {
            let ghost k = 75 + i as int;
            let sx: usize = if i > 18 { i - 18 } else { 0 };
            let sy: usize = if i <= 18 { i } else { 18 };
            let len: usize = if i <= 18 { i + 1 } else { 37 - i };
            let mut data: Vec<Square> = Vec::new();
            let mut cells: Vec<(usize, usize)> = Vec::new();
            let mut j: usize = 0;
            while j < len
                invariant
                    i < 37,
                    j <= len,
                    g == self.grid(),
                    grid_wf(g),
                    k == 75 + i as int,
                    i > 18 ==> sx == i - 18,
                    i <= 18 ==> sx == 0,
                    i <= 18 ==> sy == i,
                    i > 18 ==> sy == 18,
                    i <= 18 ==> len == i + 1,
                    i > 18 ==> len == 37 - i,
                    data@.len() == j,
                    cells@.len() == j,
                    forall|t: int| 0 <= t < j ==> data@[t] == line_data(g, k)[t],
                    forall|t: int| 0 <= t < j ==> cells@[t] == line_cells(k)[t],
                decreases len - j,
            {
                data.push(grid_get(&self.state, sx + j, sy - j));
                cells.push((sx + j, sy - j));
                j = j + 1;
            }
            proof {
                assert(data@ =~= line_data(g, k));
                assert(cells@ =~= line_cells(k));
            }
            r.push(Right { data, cells });
            i = i + 1;
        }
        r
    }

    /// XOR the contribution of a stone of `color` at `pos` into the hash.
    /// Adding and removing a stone are the same operation, since XOR is its
    /// own inverse.
    pub fn add_move(&mut self, pos: (usize, usize), color: &Square, t: &ZobristTable)
        requires
            t.wf(),
            pos.0 < 19,
            pos.1 < 19,
        ensures
            final(self).hash == old(self).hash ^ t.contribution(*color, pos.0 as int, pos.1 as int),
            final(self).state == old(self).state,
            final(self).b_capture == old(self).b_capture,
            final(self).w_capture == old(self).w_capture,
            final(self).game_state == old(self).game_state,
    {
        let (x, y) = pos;
        self.hash = self.hash ^ t.contribution_at(*color, x, y);
    }

    /// XOR the whole grid's hash into the hash field. Called on a board
    /// whose hash field is zero, this establishes `hash_ok`.
    pub fn generate_hash(&mut self, t: &ZobristTable)
        requires
            t.wf(),
            grid_wf(old(self).grid()),
        ensures
            final(self).hash == old(self).hash ^ grid_hash(*t, old(self).grid()),
            final(self).state == old(self).state,
            final(self).b_capture == old(self).b_capture,
            final(self).w_capture == old(self).w_capture,
            final(self).game_state == old(self).game_state,
    {
        let ghost g = self.grid();
        let ghost h0 = self.hash;
        proof {
            assert(h0 ^ 0u64 == h0) by (bit_vector);
        }
        let mut i: usize = 0;
        while i < 19
            invariant
                i <= 19,
                t.wf(),
                grid_wf(g),
                self.state == old(self).state,
                self.b_capture == old(self).b_capture,
                self.w_capture == old(self).w_capture,
                self.game_state == old(self).game_state,
                g == self.grid(),
                h0 == old(self).hash,
                self.hash == h0 ^ grid_hash_upto(*t, g, i as int),
            decreases 19 - i,
        {
            proof {
                let a0 = grid_hash_upto(*t, g, i as int);
                assert((h0 ^ a0) ^ 0u64 == h0 ^ a0) by (bit_vector);
            }
            let mut j: usize = 0;
            while j < 19
                invariant
                    i < 19,
                    j <= 19,
                    t.wf(),
                    grid_wf(g),
                    self.state == old(self).state,
                    self.b_capture == old(self).b_capture,
                    self.w_capture == old(self).w_capture,
                    self.game_state == old(self).game_state,
                    g == self.grid(),
                    h0 == old(self).hash,
                    self.hash == h0 ^ grid_hash_upto(*t, g, i as int)
                        ^ row_hash_upto(*t, g[i as int], i as int, j as int),
                decreases 19 - j,
            {
                let ghost pre = self.hash;
                let ghost a = grid_hash_upto(*t, g, i as int);
                let ghost r = row_hash_upto(*t, g[i as int], i as int, j as int);
                let sq = crate::grid::grid_get(&self.state, i, j);
                let c = t.contribution_at(sq, i, j);
                self.hash = self.hash ^ c;
                proof {
                    let cg = c;
                    assert(((h0 ^ a ^ r) ^ cg) == (h0 ^ a ^ (r ^ cg))) by (bit_vector);
                }
                j = j + 1;
            }
            proof {
                let a0 = grid_hash_upto(*t, g, i as int);
                let r0 = row_hash_upto(*t, g[i as int], i as int, 19);
                assert(a0 ^ r0 == grid_hash_upto(*t, g, i + 1));
                assert((h0 ^ a0) ^ r0 == h0 ^ (a0 ^ r0)) by (bit_vector);
            }
            i = i + 1;
        }
    }

    /// The outcome that `play_at` owes for a request by `c` at `pos`:
    /// which rejection comes on which inputs, and, for a legal placement,
    /// how the returned board relates to this one.
    pub open spec fn play_spec(
        &self,
        pos: Option<(usize, usize)>,
        c: Square,
        t: ZobristTable,
        m: Move,
    ) -> bool {
        match pos {
            Option::None => m is Other,
            Option::Some(p) => {
                let x = p.0 as int;
                let y = p.1 as int;
                if !(p.0 < 19 && p.1 < 19) {
                    m is OutOfBounds
                } else if at(self.grid(), x, y) != Square::Empty {
                    m is Illegal
                } else {
                    let g1 = put(self.grid(), x, y, c);
                    if move_into_capture(g1, c, x, y) {
                        m is MoveIntoCapture
                    } else if double_free_three(g1, c, x, y) {
                        m is DoubleThrees
                    } else {
                        match m {
                            Move::Legal(nb, q, col, _) => {
                                let cc = capture_count(g1, c, x, y);
                                &&& q == p
                                &&& col == c
                                &&& nb.wf()
                                &&& nb.hash_ok(t)
                                &&& forall|i: int, j: int|
                                    in_bounds(i, j) ==> at(nb.grid(), i, j) == (if captured_cell(
                                        g1,
                                        c,
                                        x,
                                        y,
                                        i,
                                        j,
                                    ) {
                                        Square::Empty
                                    } else {
                                        at(g1, i, j)
                                    })
                                &&& nb.b_capture as int == self.b_capture + (if c
                                    == Square::Black {
                                    2 * cc
                                } else {
                                    0int
                                })
                                &&& nb.w_capture as int == self.w_capture + (if c
                                    == Square::White {
                                    2 * cc
                                } else {
                                    0int
                                })
                                &&& nb.game_state == classify(
                                    nb.grid(),
                                    nb.b_capture as int,
                                    nb.w_capture as int,
                                    x,
                                    y,
                                    c,
                                )
                            },
                            _ => false,
                        }
                    }
                }
            },
        }
    }

    /// Ask to place a stone of `color` at `pos`. Out-of-range and
    /// occupied cells are rejected, as are placements into an
    /// already-bracketed pair and placements creating a double open
    /// three; this board itself is never changed. Otherwise the stone is
    /// placed, captures are resolved, and the new board is classified.
    /// The `u128` of `Legal` is the time since `now` in milliseconds.
    pub fn play_at(
        &self,
        pos: Option<(usize, usize)>,
        color: &Square,
        now: &std::time::Instant,
        t: &ZobristTable,
    ) -> (m: Move)
        requires
            self.wf(),
            self.hash_ok(*t),
            t.wf(),
            self.b_capture + 16 <= usize::MAX,
            self.w_capture + 16 <= usize::MAX,
        ensures
            self.play_spec(pos, *color, *t, m),
    {
        match pos {
            Option::None => Move::Other,
            Option::Some((x, y)) => {
                if x >= 19 || y >= 19 {
                    Move::OutOfBounds
                } else if grid_get(&self.state, x, y) != Square::Empty {
                    Move::Illegal
                } else {
                    let ghost g0 = self.grid();
                    let mut placed = self.clone();
                    grid_set(&mut placed.state, x, y, *color);
                    placed.add_move((x, y), color, t);
                    proof {
                        crate::zobrist::lemma_grid_hash_put(*t, g0, x as int, y as int, *color);
                        crate::grid::lemma_put_at(g0, x as int, y as int, *color);
                        let h = grid_hash(*t, g0);
                        let cn = t.contribution(*color, x as int, y as int);
                        assert(t.contribution(Square::Empty, x as int, y as int) == 0u64);
                        assert((h ^ 0u64) ^ cn == h ^ cn) by (bit_vector);
                        assert(placed.hash_ok(*t));
                        assert(placed.wf());
                    }
                    if placed.check_moveintocapture(color, (x, y)) {
                        Move::MoveIntoCapture
                    } else if placed.check_free_threes(x as i32, y as i32, color) {
                        Move::DoubleThrees
                    } else {
                        let mut b2 = placed.check_capture(color, (x, y), t);
                        b2.game_state = b2.get_game_state((x, y), color);
                        let d = instant_elapsed(now);
                        let elapsed = duration_millis(&d);
                        Move::Legal(b2, (x, y), *color, elapsed)
                    }
                }
            },
        }
    }

    /// The heuristic value of the board for `player` when
    /// `current_player` is the side on move.
    pub fn evaluation(&self, player: &Square, current_player: &Square) -> (r: i32)
        requires
            grid_wf(self.grid()),
            self.b_capture <= 0x7fff_ffff,
            self.w_capture <= 0x7fff_ffff,
        ensures
            r as int == crate::check::eval_spec(
                self.grid(),
                self.b_capture as int,
                self.w_capture as int,
                *player,
                *current_player,
            ),
    {
        self.check_patterns(player, current_player)
    }

    /// Every empty cell among the eight neighbours of (x, y).
    pub fn get_square_surroundings(&self, x: i32, y: i32) -> (r: Vec<(usize, usize)>)
        requires
            grid_wf(self.grid()),
            0 <= x < 19,
            0 <= y < 19,
        ensures
            forall|q: (usize, usize)|
                #[trigger] r@.contains(q) <==> empty_neighbor(self.grid(), x as int, y as int, q),
    {
        broadcast use vstd::seq_lib::lemma_seq_contains_after_push;

        let ghost g = self.grid();
        let mut r: Vec<(usize, usize)> = Vec::new();
        let mut d: usize = 0;
        while d < 8
            invariant
                d <= 8,
                g == self.grid(),
                grid_wf(g),
                0 <= x < 19,
                0 <= y < 19,
                forall|q: (usize, usize)|
                    #[trigger] r@.contains(q) <==> exists|dd: int|
                        0 <= dd < d && neighbor_dir(g, x as int, y as int, dd, q),
            decreases 8 - d,
        {
            let dx = crate::check::dir_dx_e(d);
            let dy = crate::check::dir_dy_e(d);
            let nx = x + dx;
            let ny = y + dy;
            let ghost pre = r@;
            let ghost nq = ((nx as int) as usize, (ny as int) as usize);
            let mut pushed = false;
            if crate::check::on_board(nx, ny) {
                if grid_get(&self.state, nx as usize, ny as usize) == Square::Empty {
                    r.push((nx as usize, ny as usize));
                    pushed = true;
                }
            }
            proof {
                assert forall|q: (usize, usize)|
                    #[trigger] r@.contains(q) <==> exists|dd: int|
                        0 <= dd < d + 1 && neighbor_dir(g, x as int, y as int, dd, q) by {
                    if pushed {
                        assert(r@ == pre.push(nq));
                        vstd::seq_lib::lemma_seq_contains_after_push(pre, nq, q);
                    }
                    if r@.contains(q) && !pre.contains(q) {
                        assert(neighbor_dir(g, x as int, y as int, d as int, q));
                    }
                    if exists|dd: int|
                        0 <= dd < d + 1 && neighbor_dir(g, x as int, y as int, dd, q) {
                        let dd = choose|dd: int|
                            0 <= dd < d + 1 && neighbor_dir(g, x as int, y as int, dd, q);
                        if dd < d {
                            assert(pre.contains(q));
                            assert(r@.contains(q));
                        } else {
                            assert(q == nq);
                            assert(pushed);
                            assert(r@.contains(q));
                        }
                    }
                }
            }
            d = d + 1;
        }
        proof {
            assert forall|q: (usize, usize)|
                #[trigger] r@.contains(q) <==> empty_neighbor(g, x as int, y as int, q) by {
                if r@.contains(q) {
                    let dd = choose|dd: int|
                        0 <= dd < 8 && neighbor_dir(g, x as int, y as int, dd, q);
                    assert(empty_neighbor(g, x as int, y as int, q));
                }
                if empty_neighbor(g, x as int, y as int, q) {
                    lemma_neighbor_has_dir(g, x as int, y as int, q);
                    let dd = choose|dd: int|
                        0 <= dd < 8 && neighbor_dir(g, x as int, y as int, dd, q);
                    assert(0 <= dd < 8 && neighbor_dir(g, x as int, y as int, dd, q));
                }
            }
        }
        r
    }

    /// Every empty cell adjacent to some stone of `color`.
    pub fn get_surroundings(&self, color: &Square) -> (r: Vec<(usize, usize)>)
        requires
            grid_wf(self.grid()),
        ensures
            forall|q: (usize, usize)| #[trigger] r@.contains(q) <==> surrounds(self.grid(), *color, q),
    {
        let ghost g = self.grid();
        let mut r: Vec<(usize, usize)> = Vec::new();
        let mut i: usize = 0;
        while i < 19
            invariant
                i <= 19,
                g == self.grid(),
                grid_wf(g),
                forall|q: (usize, usize)|
                    #[trigger] r@.contains(q) <==> exists|a: int, b: int|
                        stone_neighbor(g, *color, a, b, q) && a < i,
            decreases 19 - i,
        {
            let mut j: usize = 0;
            while j < 19
                invariant
                    i < 19,
                    j <= 19,
                    g == self.grid(),
                    grid_wf(g),
                    forall|q: (usize, usize)|
                        #[trigger] r@.contains(q) <==> exists|a: int, b: int|
                            stone_neighbor(g, *color, a, b, q) && (a < i || (a == i && b < j)),
                decreases 19 - j,
            {
                let ghost pre = r@;
                let cell = grid_get(&self.state, i, j);
                if cell != Square::Empty && cell == *color {
                    let mut more = self.get_square_surroundings(i as i32, j as i32);
                    append_positions(&mut r, more);
                }
                proof {
                    assert forall|q: (usize, usize)|
                        #[trigger] r@.contains(q) <==> exists|a: int, b: int|
                            stone_neighbor(g, *color, a, b, q) && (a < i || (a == i && b < j + 1)) by {
                        if r@.contains(q) && !pre.contains(q) {
                            assert(stone_neighbor(g, *color, i as int, j as int, q));
                        }
                        if exists|a: int, b: int|
                            stone_neighbor(g, *color, a, b, q) && (a < i || (a == i && b < j + 1)) {
                            let (a, b) = choose|a: int, b: int|
                                stone_neighbor(g, *color, a, b, q) && (a < i || (a == i && b < j
                                    + 1));
                            if a < i || (a == i && b < j) {
                                assert(pre.contains(q));
                                assert(r@.contains(q));
                            } else {
                                assert(a == i && b == j);
                                assert(r@.contains(q));
                            }
                        }
                    }
                }
                j = j + 1;
            }
            proof {
                assert forall|q: (usize, usize)|
                    #[trigger] r@.contains(q) <==> exists|a: int, b: int|
                        stone_neighbor(g, *color, a, b, q) && a < i + 1 by {
                    if r@.contains(q) {
                        let (a, b) = choose|a: int, b: int|
                            stone_neighbor(g, *color, a, b, q) && (a < i || (a == i && b < 19));
                        assert(stone_neighbor(g, *color, a, b, q) && a < i + 1);
                    }
                    if exists|a: int, b: int| stone_neighbor(g, *color, a, b, q) && a < i + 1 {
                        let (a, b) = choose|a: int, b: int|
                            stone_neighbor(g, *color, a, b, q) && a < i + 1;
                        assert(in_bounds(a, b));
                        assert(stone_neighbor(g, *color, a, b, q) && (a < i || (a == i && b < 19)));
                    }
                }
            }
            i = i + 1;
        }
        proof {
            assert forall|q: (usize, usize)|
                #[trigger] r@.contains(q) <==> surrounds(g, *color, q) by {
                if r@.contains(q) {
                    let (a, b) = choose|a: int, b: int|
                        stone_neighbor(g, *color, a, b, q) && a < 19;
                    assert(surrounds(g, *color, q));
                }
                if surrounds(g, *color, q) {
                    let (a, b) = choose|a: int, b: int| stone_neighbor(g, *color, a, b, q);
                    assert(in_bounds(a, b));
                    assert(stone_neighbor(g, *color, a, b, q) && a < 19);
                }
            }
        }
        r
    }

    /// Whether `q` belongs to the candidate-move list that `get_plays`
    /// returns for `color`: when the opponent stands provisionally
    /// aligned, only the placements that capture one of its pairs;
    /// otherwise tactical threat and capture cells, then, if there are
    /// none, empty cells beside the mover's stones, then beside the
    /// opponent's, then the board center.
    pub open spec fn plays_spec(&self, c: Square, q: (usize, usize)) -> bool {
        let g = self.grid();
        if self.game_state == BoardState::FiveAligned(c.opposite_spec()) {
            scan_hit(g, capture_pos_cat(c), q)
        } else if exists|q2: (usize, usize)|
            scan_hit(g, threat_cat(), q2) || scan_hit(g, capture_pos_cat(c), q2) {
            scan_hit(g, threat_cat(), q) || scan_hit(g, capture_pos_cat(c), q)
        } else if exists|q2: (usize, usize)| surrounds(g, c, q2) {
            surrounds(g, c, q)
        } else if exists|q2: (usize, usize)| surrounds(g, c.opposite_spec(), q2) {
            surrounds(g, c.opposite_spec(), q)
        } else {
            q == (9usize, 9usize)
        }
    }

    /// The ordered candidate moves for `color`, without duplicates; an
    /// in-progress board always offers at least one.
    pub fn get_plays(&self, color: &Square) -> (r: Vec<(usize, usize)>)
        requires
            grid_wf(self.grid()),
        ensures
            forall|q: (usize, usize)| #[trigger] r@.contains(q) <==> self.plays_spec(*color, q),
            r@.no_duplicates(),
            self.game_state == BoardState::InProgress ==> r@.len() >= 1,
            forall|q: (usize, usize)|
                #[trigger] r@.contains(q) ==> q == (9usize, 9usize) || (q.0 < 19 && q.1 < 19 && at(
                    self.grid(),
                    q.0 as int,
                    q.1 as int,
                ) == Square::Empty),
    {
        let ghost g = self.grid();
        let ghost c = *color;
        let five_branch = match self.game_state {
            BoardState::FiveAligned(col) => col == color.opposite(),
            _ => false,
        };
        let plays: Vec<(usize, usize)>;
        if five_branch {
            plays = self.check_capture_pos(color);
            proof {
                assert(self.game_state == BoardState::FiveAligned(c.opposite_spec()));
            }
        } else {
            let mut tac = self.check_threats();
            let check_capture = self.check_capture_pos(color);
            append_positions(&mut tac, check_capture);
            let own_s = self.get_surroundings(color);
            let opp_s = self.get_surroundings(&color.opposite());
            let ghost tacv = tac@;
            let ghost ownv = own_s@;
            let ghost oppv = opp_s@;
            if tac.len() > 0 {
                proof {
                    assert(tacv.contains(tacv[0]));
                }
                plays = tac;
            } else if own_s.len() > 0 {
                proof {
                    assert(ownv.contains(ownv[0]));
                    assert forall|q2: (usize, usize)|
                        !(scan_hit(g, threat_cat(), q2) || scan_hit(
                            g,
                            capture_pos_cat(c),
                            q2,
                        )) by {
                        if scan_hit(g, threat_cat(), q2) || scan_hit(g, capture_pos_cat(c), q2) {
                            assert(tacv.contains(q2));
                        }
                    }
                }
                plays = own_s;
            } else if opp_s.len() > 0 {
                proof {
                    assert(oppv.contains(oppv[0]));
                    assert forall|q2: (usize, usize)|
                        !(scan_hit(g, threat_cat(), q2) || scan_hit(
                            g,
                            capture_pos_cat(c),
                            q2,
                        )) by {
                        if scan_hit(g, threat_cat(), q2) || scan_hit(g, capture_pos_cat(c), q2) {
                            assert(tacv.contains(q2));
                        }
                    }
                    assert forall|q2: (usize, usize)| !surrounds(g, c, q2) by {
                        if surrounds(g, c, q2) {
                            assert(ownv.contains(q2));
                        }
                    }
                }
                plays = opp_s;
            } else {
                proof {
                    assert forall|q2: (usize, usize)|
                        !(scan_hit(g, threat_cat(), q2) || scan_hit(
                            g,
                            capture_pos_cat(c),
                            q2,
                        )) by {
                        if scan_hit(g, threat_cat(), q2) || scan_hit(g, capture_pos_cat(c), q2) {
                            assert(tacv.contains(q2));
                        }
                    }
                    assert forall|q2: (usize, usize)| !surrounds(g, c, q2) by {
                        if surrounds(g, c, q2) {
                            assert(ownv.contains(q2));
                        }
                    }
                    assert forall|q2: (usize, usize)| !surrounds(g, c.opposite_spec(), q2) by {
                        if surrounds(g, c.opposite_spec(), q2) {
                            assert(oppv.contains(q2));
                        }
                    }
                }
                let mut center: Vec<(usize, usize)> = Vec::new();
                center.push((9, 9));
                proof {
                    assert(center@[0] == (9usize, 9usize));
                    assert(center@.contains((9usize, 9usize)));
                }
                plays = center;
            }
        }
        let r = unique_positions(plays);
        proof {
            if self.game_state == BoardState::InProgress {
                assert(plays@.len() > 0);
                assert(plays@.contains(plays@[0]));
                assert(r@.contains(plays@[0]));
            }
            assert forall|q: (usize, usize)| #[trigger] r@.contains(q) implies q == (
            9usize,
            9usize,
            ) || (q.0 < 19 && q.1 < 19 && at(g, q.0 as int, q.1 as int) == Square::Empty) by {
                assert(self.plays_spec(c, q));
                if self.game_state == BoardState::FiveAligned(c.opposite_spec()) {
                    crate::check::lemma_capture_pos_cell_empty(g, c, q);
                } else if exists|q2: (usize, usize)|
                    scan_hit(g, threat_cat(), q2) || scan_hit(g, capture_pos_cat(c), q2) {
                    if scan_hit(g, threat_cat(), q) {
                        crate::check::lemma_threat_cell_empty(g, q);
                    } else {
                        crate::check::lemma_capture_pos_cell_empty(g, c, q);
                    }
                } else if exists|q2: (usize, usize)| surrounds(g, c, q2) {
                    let (a, b) = choose|a: int, b: int| stone_neighbor(g, c, a, b, q);
                } else if exists|q2: (usize, usize)| surrounds(g, c.opposite_spec(), q2) {
                    let (a, b) = choose|a: int, b: int|
                        stone_neighbor(g, c.opposite_spec(), a, b, q);
                } else {
                }
            }
        }
        r
    }

    /// The capture counter of `color` as a signed score.
    pub fn get_score(&self, color: &Square) -> (r: i32)
        requires
            self.b_capture <= 0x7fff_ffff,
            self.w_capture <= 0x7fff_ffff,
        ensures
            r as int == self.score_of(*color),
    {
        match *color {
            Square::White => self.w_capture as i32,
            Square::Black => self.b_capture as i32,
            Square::Empty => 0,
        }
    }

    /// Whether the game is over: a final victory or a draw. A provisional
    /// `FiveAligned` does not end the game.
    pub fn is_terminal(&self) -> (r: bool)
        ensures
            r == (self.game_state is Victory || self.game_state is Draw),
    {
        match self.game_state {
            BoardState::Victory(_) | BoardState::Draw => true,
            _ => false,
        }
    }
}

impl Clone for Board {
    /// An equal board: same grid, counters, game state and hash.
    fn clone(&self) -> (r: Board)
        ensures
            r.grid() == self.grid(),
            r.b_capture == self.b_capture,
            r.w_capture == self.w_capture,
            r.game_state == self.game_state,
            r.hash == self.hash,
    {
        Board {
            state: clone_state(&self.state),
            b_capture: self.b_capture,
            w_capture: self.w_capture,
            game_state: self.game_state,
            hash: self.hash,
        }
    }
}

/// The placement of `c` at `q` would be accepted by `play_at`: the cell
/// is on the board and empty, and the placed stone neither stands into
/// an existing bracket nor creates a double open three.
pub open spec fn legal_placement(b: Board, q: (usize, usize), c: Square) -> bool {
    &&& q.0 < 19
    &&& q.1 < 19
    &&& at(b.grid(), q.0 as int, q.1 as int) == Square::Empty
    &&& !move_into_capture(put(b.grid(), q.0 as int, q.1 as int, c), c, q.0 as int, q.1 as int)
    &&& !double_free_three(put(b.grid(), q.0 as int, q.1 as int, c), c, q.0 as int, q.1 as int)
}

/// `q` is the neighbour of (x, y) one step along direction `dd`, it is
/// on the board, and it is empty.
pub open spec fn neighbor_dir(
    g: Seq<Seq<Square>>,
    x: int,
    y: int,
    dd: int,
    q: (usize, usize),
) -> bool {
    &&& in_bounds(x + crate::check::dir_dx(dd), y + crate::check::dir_dy(dd))
    &&& q.0 as int == x + crate::check::dir_dx(dd)
    &&& q.1 as int == y + crate::check::dir_dy(dd)
    &&& at(g, q.0 as int, q.1 as int) == Square::Empty
}

/// `q` is an empty on-board cell among the eight neighbours of (x, y).
pub open spec fn empty_neighbor(g: Seq<Seq<Square>>, x: int, y: int, q: (usize, usize)) -> bool {
    &&& in_bounds(q.0 as int, q.1 as int)
    &&& -1 <= q.0 - x <= 1
    &&& -1 <= q.1 - y <= 1
    &&& !(q.0 as int == x && q.1 as int == y)
    &&& at(g, q.0 as int, q.1 as int) == Square::Empty
}

/// A stone of `c` stands at (a, b) and `q` is an empty neighbour of it.
pub open spec fn stone_neighbor(
    g: Seq<Seq<Square>>,
    c: Square,
    a: int,
    b: int,
    q: (usize, usize),
) -> bool {
    &&& in_bounds(a, b)
    &&& at(g, a, b) == c
    &&& at(g, a, b) != Square::Empty
    &&& empty_neighbor(g, a, b, q)
}

/// `q` is an empty cell beside some stone of `c`.
pub open spec fn surrounds(g: Seq<Seq<Square>>, c: Square, q: (usize, usize)) -> bool {
    exists|a: int, b: int| stone_neighbor(g, c, a, b, q)
}

proof fn lemma_neighbor_has_dir(g: Seq<Seq<Square>>, x: int, y: int, q: (usize, usize))
    requires
        empty_neighbor(g, x, y, q),
    ensures
        exists|dd: int| 0 <= dd < 8 && neighbor_dir(g, x, y, dd, q),
{
    let i = q.0 as int;
    let j = q.1 as int;
    if i == x + 1 && j == y {
        assert(neighbor_dir(g, x, y, 0, q));
    } else if i == x - 1 && j == y {
        assert(neighbor_dir(g, x, y, 1, q));
    } else if i == x && j == y + 1 {
        assert(neighbor_dir(g, x, y, 2, q));
    } else if i == x && j == y - 1 {
        assert(neighbor_dir(g, x, y, 3, q));
    } else if i == x + 1 && j == y + 1 {
        assert(neighbor_dir(g, x, y, 4, q));
    } else if i == x + 1 && j == y - 1 {
        assert(neighbor_dir(g, x, y, 5, q));
    } else if i == x - 1 && j == y + 1 {
        assert(neighbor_dir(g, x, y, 6, q));
    } else {
        assert(i == x - 1 && j == y - 1);
        assert(neighbor_dir(g, x, y, 7, q));
    }
}

/// Move every element of `more` to the end of `out`.
fn append_positions(out: &mut Vec<(usize, usize)>, more: Vec<(usize, usize)>)
    ensures
        final(out)@ == old(out)@ + more@,
        forall|q: (usize, usize)|
            #[trigger] final(out)@.contains(q) <==> old(out)@.contains(q) || more@.contains(q),
{
    broadcast use vstd::seq_lib::lemma_seq_contains_after_push;

    let ghost pre = out@;
    let n = more.len();
    let mut idx: usize = 0;
    while idx < n
        invariant
            idx <= n,
            n == more@.len(),
            out@ == pre + more@.take(idx as int),
        decreases n - idx,
    {
        out.push(more[idx]);
        proof {
            assert(pre + more@.take(idx as int + 1) =~= (pre + more@.take(idx as int)).push(
                more@[idx as int],
            ));
        }
        idx = idx + 1;
    }
    proof {
        assert(more@.take(n as int) =~= more@);
        assert forall|q: (usize, usize)|
            #[trigger] out@.contains(q) <==> pre.contains(q) || more@.contains(q) by {
            if out@.contains(q) {
                let ix = choose|ix: int| 0 <= ix < out@.len() && out@[ix] == q;
                if ix < pre.len() {
                    assert(pre.contains(q));
                } else {
                    assert(more@[ix - pre.len()] == q);
                    assert(more@.contains(q));
                }
            }
            if pre.contains(q) {
                let ix = choose|ix: int| 0 <= ix < pre.len() && pre[ix] == q;
                assert(out@[ix] == q);
                assert(out@.contains(q));
            }
            if more@.contains(q) {
                let ix = choose|ix: int| 0 <= ix < more@.len() && more@[ix] == q;
                assert(out@[pre.len() + ix] == q);
                assert(out@.contains(q));
            }
        }
    }
}

/// Relies on itertools' `unique`: keeps the first occurrence of each
/// position, in order, and drops every later duplicate.
#[verifier::external_body]
fn unique_positions(v: Vec<(usize, usize)>) -> (r: Vec<(usize, usize)>)
    ensures
        forall|q: (usize, usize)| #[trigger] r@.contains(q) <==> v@.contains(q),
        r@.no_duplicates(),
{
    v.into_iter().unique().collect()
}

/// The hash of a grid with no stones is zero.
proof fn lemma_empty_grid_hash(t: ZobristTable, g: Seq<Seq<Square>>, m: int)
    requires
        grid_wf(g),
        forall|i: int, j: int| in_bounds(i, j) ==> at(g, i, j) == Square::Empty,
        m <= 19,
    ensures
        grid_hash_upto(t, g, m) == 0u64,
    decreases m,
{
    if m > 0 {
        lemma_empty_grid_hash(t, g, m - 1);
        lemma_empty_row_hash(t, g, m - 1, 19);
        assert(0u64 ^ 0u64 == 0u64) by (bit_vector);
    }
}

proof fn lemma_empty_row_hash(t: ZobristTable, g: Seq<Seq<Square>>, x: int, n: int)
    requires
        grid_wf(g),
        forall|i: int, j: int| in_bounds(i, j) ==> at(g, i, j) == Square::Empty,
        0 <= x < 19,
        n <= 19,
    ensures
        row_hash_upto(t, g[x], x, n) == 0u64,
    decreases n,
{
    if n > 0 {
        lemma_empty_row_hash(t, g, x, n - 1);
        assert(in_bounds(x, n - 1));
        assert(at(g, x, n - 1) == Square::Empty);
        assert(0u64 ^ 0u64 == 0u64) by (bit_vector);
    }
}

} // verus!

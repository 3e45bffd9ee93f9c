use vstd::prelude::*;
use crate::board::Board;
use crate::grid::{at, grid_get, grid_wf, in_bounds, put};
use crate::scan::{
    cat_view, contains_window, has_match, hit_at, line_hit, line_positions, pats_wf,
    scan_hit, Pattern,
};
use crate::square::Square;
use crate::zobrist::{grid_hash, ZobristTable};

verus! {

// The eight scan directions around a placed stone, in the order east,
// west, south, north, south-east, north-east, south-west, north-west.
pub open spec fn dir_dx(d: int) -> int {
    if d == 0 {
        1
    } else if d == 1 {
        -1
    } else if d == 2 {
        0
    } else if d == 3 {
        0
    } else if d == 4 {
        1
    } else if d == 5 {
        1
    } else if d == 6 {
        -1
    } else {
        -1
    }
}

pub open spec fn dir_dy(d: int) -> int {
    if d == 0 {
        0
    } else if d == 1 {
        0
    } else if d == 2 {
        1
    } else if d == 3 {
        -1
    } else if d == 4 {
        1
    } else if d == 5 {
        -1
    } else if d == 6 {
        1
    } else {
        -1
    }
}

/// The stone standing at (x, y) is the second or third cell of an
/// opponent-color-color-opponent window along direction `d`: it already
/// forms a bracketed, capturable pair with a neighbour.
pub open spec fn threat_window(g: Seq<Seq<Square>>, c: Square, x: int, y: int, d: int) -> bool {
    let dx = dir_dx(d);
    let dy = dir_dy(d);
    &&& 0 <= d < 8
    &&& in_bounds(x - dx, y - dy)
    &&& in_bounds(x + 2 * dx, y + 2 * dy)
    &&& at(g, x - dx, y - dy) == c.opposite_spec()
    &&& at(g, x, y) == c
    &&& at(g, x + dx, y + dy) == c
    &&& at(g, x + 2 * dx, y + 2 * dy) == c.opposite_spec()
}

/// Placing the stone at (x, y) has put it into an already-vulnerable
/// bracketed pair in some direction.
pub open spec fn move_into_capture(g: Seq<Seq<Square>>, c: Square, x: int, y: int) -> bool {
    exists|d: int| threat_window(g, c, x, y, d)
}

/// The window color, opponent, opponent, color runs from the stone at
/// (x, y) along direction `d`: the mover captures that bracketed pair.
pub open spec fn captures_dir(g: Seq<Seq<Square>>, c: Square, x: int, y: int, d: int) -> bool {
    let dx = dir_dx(d);
    let dy = dir_dy(d);
    &&& 0 <= d < 8
    &&& in_bounds(x + 3 * dx, y + 3 * dy)
    &&& at(g, x, y) == c
    &&& at(g, x + dx, y + dy) == c.opposite_spec()
    &&& at(g, x + 2 * dx, y + 2 * dy) == c.opposite_spec()
    &&& at(g, x + 3 * dx, y + 3 * dy) == c
}

/// (i, j) is one of the two cells removed by a capture triggered from
/// (x, y) in one of the first `n` directions.
pub open spec fn captured_cell_upto(
    g: Seq<Seq<Square>>,
    c: Square,
    x: int,
    y: int,
    n: int,
    i: int,
    j: int,
) -> bool {
    exists|d: int|
        0 <= d < n && captures_dir(g, c, x, y, d) && ((i == x + dir_dx(d) && j == y + dir_dy(d))
            || (i == x + 2 * dir_dx(d) && j == y + 2 * dir_dy(d)))
}

/// (i, j) is removed by some capture triggered from (x, y).
pub open spec fn captured_cell(
    g: Seq<Seq<Square>>,
    c: Square,
    x: int,
    y: int,
    i: int,
    j: int,
) -> bool {
    captured_cell_upto(g, c, x, y, 8, i, j)
}

/// How many of the first `n` directions trigger a capture from (x, y).
pub open spec fn capture_count_upto(g: Seq<Seq<Square>>, c: Square, x: int, y: int, n: int) -> int
    decreases n,
{
    if n <= 0 {
        0
    } else {
        capture_count_upto(g, c, x, y, n - 1) + if captures_dir(g, c, x, y, n - 1) {
            1int
        } else {
            0int
        }
    }
}

/// How many directions trigger a capture from (x, y); each removes one
/// bracketed pair of two stones.
pub open spec fn capture_count(g: Seq<Seq<Square>>, c: Square, x: int, y: int) -> int {
    capture_count_upto(g, c, x, y, 8)
}

pub proof fn lemma_capture_count_bounds(g: Seq<Seq<Square>>, c: Square, x: int, y: int, n: int)
    requires
        0 <= n <= 8,
    ensures
        0 <= capture_count_upto(g, c, x, y, n) <= n,
    decreases n,
{
    if n > 0 {
        lemma_capture_count_bounds(g, c, x, y, n - 1);
    }
}

pub(crate) fn dir_dx_e(d: usize) -> (r: i32)
    requires
        d < 8,
    ensures
        r as int == dir_dx(d as int),
{
    match d {
        0 => 1,
        1 => -1,
        2 => 0,
        3 => 0,
        4 => 1,
        5 => 1,
        6 => -1,
        _ => -1,
    }
}

pub(crate) fn dir_dy_e(d: usize) -> (r: i32)
    requires
        d < 8,
    ensures
        r as int == dir_dy(d as int),
{
    match d {
        0 => 0,
        1 => 0,
        2 => 1,
        3 => -1,
        4 => 1,
        5 => -1,
        6 => 1,
        _ => -1,
    }
}

pub(crate) fn on_board(x: i32, y: i32) -> (r: bool)
    ensures
        r == in_bounds(x as int, y as int),
{
    0 <= x && x < 19 && 0 <= y && y < 19
}

// Decreasing measure for walking from (x, y) in direction (dx, dy): the
// distance to the board edge ahead.
pub open spec fn run_measure(x: int, y: int, dx: int, dy: int) -> int {
    if dx > 0 {
        19 - x
    } else if dx < 0 {
        x + 1
    } else if dy > 0 {
        19 - y
    } else if dy < 0 {
        y + 1
    } else {
        0
    }
}

/// The number of consecutive stones of color `c` standing at
/// (x + dx, y + dy), (x + 2dx, y + 2dy), ... before the first cell that is
/// off the board or not `c`.
pub open spec fn run_from(g: Seq<Seq<Square>>, c: Square, x: int, y: int, dx: int, dy: int) -> nat
    decreases run_measure(x, y, dx, dy),
{
    if dx == 0 && dy == 0 {
        0
    } else if in_bounds(x + dx, y + dy) && at(g, x + dx, y + dy) == c {
        1 + run_from(g, c, x + dx, y + dy, dx, dy)
    } else {
        0
    }
}

/// The length of the maximal run of `c` stones through (x, y) along the
/// axis (dx, dy), counting (x, y) itself as one.
pub open spec fn axis_count(g: Seq<Seq<Square>>, c: Square, x: int, y: int, dx: int, dy: int) -> int {
    1 + run_from(g, c, x, y, dx, dy) as int + run_from(g, c, x, y, -dx, -dy) as int
}

/// Five or more `c` stones stand consecutively through (x, y) on one of
/// the four axes.
pub open spec fn five_in_row(g: Seq<Seq<Square>>, c: Square, x: int, y: int) -> bool {
    ||| axis_count(g, c, x, y, 1, 1) >= 5
    ||| axis_count(g, c, x, y, 1, 0) >= 5
    ||| axis_count(g, c, x, y, 0, 1) >= 5
    ||| axis_count(g, c, x, y, 1, -1) >= 5
}

/// The grid with every cell of every capturable pair removed: the board
/// used to re-test an alignment for breakability.
pub open spec fn reduced_grid(g: Seq<Seq<Square>>) -> Seq<Seq<Square>> {
    Seq::new(
        19,
        |i: int|
            Seq::new(
                19,
                |j: int|
                    if scan_hit(g, aligned_capture_cat(), ((i as usize), (j as usize))) {
                        Square::Empty
                    } else {
                        at(g, i, j)
                    },
            ),
    )
}

/// An alignment through (x, y) that stands even after every capturable
/// pair on the board is removed: no immediate capture can break it.
pub open spec fn aligned_unbreakable(g: Seq<Seq<Square>>, c: Square, x: int, y: int) -> bool {
    &&& five_in_row(g, c, x, y)
    &&& five_in_row(reduced_grid(g), c, x, y)
}

/// The up-to-nine cells around (x, y) along (dx, dy), at offsets -4..=4,
/// with off-board offsets left out; the first `n` offsets only.
pub open spec fn ft_window_upto(
    g: Seq<Seq<Square>>,
    x: int,
    y: int,
    dx: int,
    dy: int,
    n: int,
) -> Seq<Square>
    decreases n,
{
    if n <= 0 {
        Seq::empty()
    } else {
        let pre = ft_window_upto(g, x, y, dx, dy, n - 1);
        let cx = x + (n - 5) * dx;
        let cy = y + (n - 5) * dy;
        if in_bounds(cx, cy) {
            pre.push(at(g, cx, cy))
        } else {
            pre
        }
    }
}

/// The window of up to nine cells centered on (x, y) along (dx, dy),
/// clipped at the board edge.
pub open spec fn ft_window(g: Seq<Seq<Square>>, x: int, y: int, dx: int, dy: int) -> Seq<Square> {
    ft_window_upto(g, x, y, dx, dy, 9)
}

/// One of the four free-three templates matches `s` at window start `k`
/// (`c` the mover's stone, the rest empty): -c-cc-, -cc-c-, --ccc-,
/// -ccc--.
pub open spec fn free_three_at(s: Seq<Square>, c: Square, k: int) -> bool {
    let e = Square::Empty;
    &&& 0 <= k
    &&& k + 6 <= s.len()
    &&& s[k] == e
    &&& s[k + 5] == e
    &&& {
        ||| (s[k + 1] == c && s[k + 2] == e && s[k + 3] == c && s[k + 4] == c)
        ||| (s[k + 1] == c && s[k + 2] == c && s[k + 3] == e && s[k + 4] == c)
        ||| (s[k + 1] == e && s[k + 2] == c && s[k + 3] == c && s[k + 4] == c)
        ||| (s[k + 1] == c && s[k + 2] == c && s[k + 3] == c && s[k + 4] == e)
    }
}

pub open spec fn has_free_three(s: Seq<Square>, c: Square) -> bool {
    exists|k: int| free_three_at(s, c, k)
}

/// How many of the four orientations through (x, y) hold a free three.
pub open spec fn ft_count(g: Seq<Seq<Square>>, c: Square, x: int, y: int) -> int {
    (if has_free_three(ft_window(g, x, y, 1, 0), c) {
        1int
    } else {
        0int
    }) + (if has_free_three(ft_window(g, x, y, 0, 1), c) {
        1int
    } else {
        0int
    }) + (if has_free_three(ft_window(g, x, y, 1, 1), c) {
        1int
    } else {
        0int
    }) + (if has_free_three(ft_window(g, x, y, 1, -1), c) {
        1int
    } else {
        0int
    })
}

/// The placement at (x, y) creates open threes in two or more
/// orientations at once: the forbidden double-three.
pub open spec fn double_free_three(g: Seq<Seq<Square>>, c: Square, x: int, y: int) -> bool {
    ft_count(g, c, x, y) > 1
}

/// No cell of the grid is empty.
pub open spec fn full_board(g: Seq<Seq<Square>>) -> bool {
    forall|i: int, j: int| in_bounds(i, j) ==> at(g, i, j) != Square::Empty
}

/// Tempo damping: three quarters of `v`, rounded towards zero, as the
/// score of a side that is not on move is discounted.
pub open spec fn damp(v: int) -> int {
    if v >= 0 {
        (3 * v) / 4
    } else {
        -((3 * (-v)) / 4)
    }
}

/// The fifteen line templates of the evaluator with their base weights,
/// for stones `c` against `c.opposite()` (`-` an empty cell, `y` an
/// opponent stone): ccccc 100240; cccc-, -cccc, ccc-c, c-ccc, cc-cc
/// 1280; ccc--, --ccc, -ccc- 160; -c-cc, cc-c- 40; --cc-, -cc-- 10;
/// ycc-, -ccy -80.
pub open spec fn eval_templates(c: Square) -> Seq<(Seq<Square>, int)> {
    let o = c.opposite_spec();
    let e = Square::Empty;
    seq![
        (seq![c, c, c, c, c], 100240int),
        (seq![c, c, c, c, e], 1280int),
        (seq![e, c, c, c, c], 1280int),
        (seq![c, c, c, e, c], 1280int),
        (seq![c, e, c, c, c], 1280int),
        (seq![c, c, e, c, c], 1280int),
        (seq![c, c, c, e, e], 160int),
        (seq![e, e, c, c, c], 160int),
        (seq![e, c, c, c, e], 160int),
        (seq![e, c, e, c, c], 40int),
        (seq![c, c, e, c, e], 40int),
        (seq![e, e, c, c, e], 10int),
        (seq![e, c, c, e, e], 10int),
        (seq![o, c, c, e], -80int),
        (seq![e, c, c, o], -80int),
    ]
}

/// The thirty weighted templates one evaluation scans for: the mover's
/// own templates, then the opponent's with negated weights; whichever
/// side is not `current` has its weights damped.
pub open spec fn eval_cat(color: Square, current: Square) -> Seq<(Seq<Square>, int)> {
    let own = eval_templates(color).map_values(
        |t: (Seq<Square>, int)|
            (
                t.0,
                if color != current {
                    damp(t.1)
                } else {
                    t.1
                },
            ),
    );
    let opp = eval_templates(color.opposite_spec()).map_values(
        |t: (Seq<Square>, int)|
            (
                t.0,
                if color.opposite_spec() != current {
                    damp(-t.1)
                } else {
                    -t.1
                },
            ),
    );
    own + opp
}

/// The weight sum of the first `p` templates that occur in `data`; each
/// template counts once per line, however often it occurs in it.
pub open spec fn cat_score_upto(data: Seq<Square>, cat: Seq<(Seq<Square>, int)>, p: int) -> int
    decreases p,
{
    if p <= 0 {
        0
    } else {
        cat_score_upto(data, cat, p - 1) + if has_match(data, cat[p - 1].0) {
            cat[p - 1].1
        } else {
            0int
        }
    }
}

pub open spec fn line_score(data: Seq<Square>, cat: Seq<(Seq<Square>, int)>) -> int {
    cat_score_upto(data, cat, cat.len() as int)
}

/// The template score summed over the first `k` scan lines.
pub open spec fn lines_score_upto(
    g: Seq<Seq<Square>>,
    cat: Seq<(Seq<Square>, int)>,
    k: int,
) -> int
    decreases k,
{
    if k <= 0 {
        0
    } else {
        lines_score_upto(g, cat, k - 1) + line_score(crate::scan::line_data(g, k - 1), cat)
    }
}

/// The steeply increasing worth of a capture count: near-infinite once
/// ten stones are taken, fourth-power growth below that.
pub open spec fn capture_heuristic(x: int) -> int {
    if x >= 10 {
        500000
    } else {
        x * x * x * x
    }
}

/// The board's heuristic value from `color`'s standpoint when `current`
/// is on move: weighted template presence over all 112 lines for both
/// sides, plus each side's capture worth, the side not on move damped.
pub open spec fn eval_spec(
    g: Seq<Seq<Square>>,
    bcap: int,
    wcap: int,
    color: Square,
    current: Square,
) -> int {
    let own_score = match color {
        Square::Black => bcap,
        Square::White => wcap,
        Square::Empty => 0int,
    };
    let opp_score = match color.opposite_spec() {
        Square::Black => bcap,
        Square::White => wcap,
        Square::Empty => 0int,
    };
    lines_score_upto(g, eval_cat(color, current), 112) + (if color != current {
        damp(capture_heuristic(own_score))
    } else {
        capture_heuristic(own_score)
    }) - (if color.opposite_spec() != current {
        damp(capture_heuristic(opp_score))
    } else {
        capture_heuristic(opp_score)
    })
}

/// The mathematical content of an executable weighted-template list.
pub open spec fn ecat_view(v: Seq<(Vec<Square>, i32)>) -> Seq<(Seq<Square>, int)> {
    v.map_values(|e: (Vec<Square>, i32)| (e.0@, e.1 as int))
}

/// The game-state tag after `c` moved at (x, y): ten captures win at
/// once; an alignment through the move wins only if unbreakable, and is
/// otherwise provisional; a full board without a winner is a draw.
pub open spec fn classify(
    g: Seq<Seq<Square>>,
    bcap: int,
    wcap: int,
    x: int,
    y: int,
    c: Square,
) -> crate::board::BoardState {
    if bcap >= 10 {
        crate::board::BoardState::Victory(Square::Black)
    } else if c == Square::Black && five_in_row(g, c, x, y) {
        if aligned_unbreakable(g, c, x, y) {
            crate::board::BoardState::Victory(Square::Black)
        } else {
            crate::board::BoardState::FiveAligned(Square::Black)
        }
    } else if wcap >= 10 {
        crate::board::BoardState::Victory(Square::White)
    } else if c == Square::White && five_in_row(g, c, x, y) {
        if aligned_unbreakable(g, c, x, y) {
            crate::board::BoardState::Victory(Square::White)
        } else {
            crate::board::BoardState::FiveAligned(Square::White)
        }
    } else if full_board(g) {
        crate::board::BoardState::Draw
    } else {
        crate::board::BoardState::InProgress
    }
}

/// The two cells that a capture along `d` removes are untouched by the
/// captures along earlier directions: the sixteen removable cells around
/// (x, y) are pairwise distinct.
pub(crate) proof fn lemma_remove_cell_fresh(
    g: Seq<Seq<Square>>,
    c: Square,
    x: int,
    y: int,
    d: int,
    k: int,
    i: int,
    j: int,
)
    requires
        0 <= d < 8,
        in_bounds(x, y),
        captures_dir(g, c, x, y, d),
        k == 1 || k == 2,
        i == x + k * dir_dx(d),
        j == y + k * dir_dy(d),
    ensures
        in_bounds(i, j),
        !captured_cell_upto(g, c, x, y, d, i, j),
{
    assert(in_bounds(x + 3 * dir_dx(d), y + 3 * dir_dy(d)));
    if captured_cell_upto(g, c, x, y, d, i, j) {
        let dd = choose|dd: int|
            0 <= dd < d && captures_dir(g, c, x, y, dd) && ((i == x + dir_dx(dd) && j == y
                + dir_dy(dd)) || (i == x + 2 * dir_dx(dd) && j == y + 2 * dir_dy(dd)));
        assert(false);
    }
}

fn capture_heur_e(s: i32) -> (r: i32)
    requires
        s >= 0,
    ensures
        r as int == capture_heuristic(s as int),
        0 <= r <= 500000,
{
    if s >= 10 {
        500000
    } else {
        proof {
            let si = s as int;
            assert(0 <= si * si <= 81) by (nonlinear_arith)
                requires
                    0 <= si <= 9,
            ;
            assert(0 <= (si * si) * (si * si) <= 6561) by (nonlinear_arith)
                requires
                    0 <= si * si <= 81,
            ;
            assert(si * si * si * si == (si * si) * (si * si)) by (nonlinear_arith);
        }
        let s2 = s * s;
        s2 * s2
    }
}

fn damp_pos_e(v: i32) -> (r: i32)
    requires
        0 <= v <= 1000000,
    ensures
        r as int == damp(v as int),
{
    (((v as u32) * 3) / 4) as i32
}

/// The thirty weighted templates of one evaluation, with the damping
/// already folded into the weights.
fn eval_patterns(color: &Square, current: &Square) -> (r: Vec<(Vec<Square>, i32)>)
    ensures
        ecat_view(r@) == eval_cat(*color, *current),
        r@.len() == 30,
        forall|p: int| 0 <= p < 30 ==> -100240 <= (#[trigger] r@[p]).1 <= 100240,
{
    let c = *color;
    let o = color.opposite();
    let e = Square::Empty;
    let dmp_own = c != *current;
    let w100: i32 = if dmp_own { 75180 } else { 100240 };
    let w1280: i32 = if dmp_own { 960 } else { 1280 };
    let w160: i32 = if dmp_own { 120 } else { 160 };
    let w40: i32 = if dmp_own { 30 } else { 40 };
    let w10: i32 = if dmp_own { 7 } else { 10 };
    let wm80: i32 = if dmp_own { -60 } else { -80 };
    let dmp_opp = o != *current;
    let v100: i32 = if dmp_opp { -75180 } else { -100240 };
    let v1280: i32 = if dmp_opp { -960 } else { -1280 };
    let v160: i32 = if dmp_opp { -120 } else { -160 };
    let v40: i32 = if dmp_opp { -30 } else { -40 };
    let v10: i32 = if dmp_opp { -7 } else { -10 };
    let v80: i32 = if dmp_opp { 60 } else { 80 };
    let r: Vec<(Vec<Square>, i32)> = vec![
        (vec![c, c, c, c, c], w100),
        (vec![c, c, c, c, e], w1280),
        (vec![e, c, c, c, c], w1280),
        (vec![c, c, c, e, c], w1280),
        (vec![c, e, c, c, c], w1280),
        (vec![c, c, e, c, c], w1280),
        (vec![c, c, c, e, e], w160),
        (vec![e, e, c, c, c], w160),
        (vec![e, c, c, c, e], w160),
        (vec![e, c, e, c, c], w40),
        (vec![c, c, e, c, e], w40),
        (vec![e, e, c, c, e], w10),
        (vec![e, c, c, e, e], w10),
        (vec![o, c, c, e], wm80),
        (vec![e, c, c, o], wm80),
        (vec![o, o, o, o, o], v100),
        (vec![o, o, o, o, e], v1280),
        (vec![e, o, o, o, o], v1280),
        (vec![o, o, o, e, o], v1280),
        (vec![o, e, o, o, o], v1280),
        (vec![o, o, e, o, o], v1280),
        (vec![o, o, o, e, e], v160),
        (vec![e, e, o, o, o], v160),
        (vec![e, o, o, o, e], v160),
        (vec![e, o, e, o, o], v40),
        (vec![o, o, e, o, e], v40),
        (vec![e, e, o, o, e], v10),
        (vec![e, o, o, e, e], v10),
        (vec![c, o, o, e], v80),
        (vec![e, o, o, c], v80),
    ];
    proof {
        assert(color.opposite_spec().opposite_spec() == *color);
        assert(ecat_view(r@) =~~= eval_cat(*color, *current));
    }
    r
}

fn free_three_at_e(w: &Vec<Square>, c: &Square, k: usize) -> (r: bool)
    requires
        k + 6 <= w@.len(),
    ensures
        r == free_three_at(w@, *c, k as int),
{
    let n = w.len();
    let e = Square::Empty;
    w[k] == e && w[k + 5] == e && ((w[k + 1] == *c && w[k + 2] == e && w[k + 3] == *c && w[k + 4]
        == *c) || (w[k + 1] == *c && w[k + 2] == *c && w[k + 3] == e && w[k + 4] == *c) || (w[k + 1]
        == e && w[k + 2] == *c && w[k + 3] == *c && w[k + 4] == *c) || (w[k + 1] == *c && w[k + 2]
        == *c && w[k + 3] == *c && w[k + 4] == e))
}

fn has_free_three_e(w: &Vec<Square>, c: &Square) -> (r: bool)
    ensures
        r == has_free_three(w@, *c),
{
    let n = w.len();
    if n < 6 {
        proof {
            if has_free_three(w@, *c) {
                let k = choose|k: int| free_three_at(w@, *c, k);
                assert(false);
            }
        }
        return false;
    }
    let mut k: usize = 0;
    while k <= n - 6
        invariant
            n == w@.len(),
            n >= 6,
            k <= n - 6 + 1,
            forall|kk: int| 0 <= kk < k ==> !free_three_at(w@, *c, kk),
        decreases n - 6 + 1 - k,
    {
        if free_three_at_e(w, c, k) {
            return true;
        }
        k = k + 1;
    }
    proof {
        if has_free_three(w@, *c) {
            let kk = choose|kk: int| free_three_at(w@, *c, kk);
            assert(!free_three_at(w@, *c, kk));
        }
    }
    false
}

/// Remove one captured stone of `color.opposite()` at (i, j): the cell
/// becomes empty and its hash contribution is cleared.
fn remove_captured_stone(board: &mut Board, i: usize, j: usize, color: &Square, t: &ZobristTable)
    requires
        grid_wf(old(board).grid()),
        t.wf(),
        i < 19,
        j < 19,
        old(board).hash == grid_hash(*t, old(board).grid()),
        at(old(board).grid(), i as int, j as int) == color.opposite_spec(),
    ensures
        final(board).grid() == put(old(board).grid(), i as int, j as int, Square::Empty),
        grid_wf(final(board).grid()),
        final(board).hash == grid_hash(*t, final(board).grid()),
        final(board).b_capture == old(board).b_capture,
        final(board).w_capture == old(board).w_capture,
        final(board).game_state == old(board).game_state,
{
    let ghost g = board.grid();
    crate::grid::grid_set(&mut board.state, i, j, Square::Empty);
    let opp = color.opposite();
    board.add_move((i, j), &opp, t);
    proof {
        crate::zobrist::lemma_grid_hash_put(*t, g, i as int, j as int, Square::Empty);
        crate::grid::lemma_put_at(g, i as int, j as int, Square::Empty);
        let h = grid_hash(*t, g);
        let cc = t.contribution(color.opposite_spec(), i as int, j as int);
        assert(t.contribution(Square::Empty, i as int, j as int) == 0u64);
        assert((h ^ cc) ^ 0u64 == h ^ cc) by (bit_vector);
    }
}

// In catalogue comments, `B` is a Black stone, `W` a White stone and `-`
// an empty cell; the bracketed numbers are the reported window offsets.

/// Tactical candidate templates, for both colors: four-in-a-row
/// completions and blocks, split threes, and open-three extensions.
/// WWWW- [4], BBBB- [4], WWWW-W [4], BBBB-B [4], WW-WW [2], BB-BB [2],
/// W-WWW [1], B-BBB [1], -WWWW [0], -BBBB [0], --WWW [1], --BBB [1],
/// WWW-- [3], BBB-- [3], -WWW- [0,4], -BBB- [0,4], W-WW- [1,4],
/// B-BB- [1,4], -WW-W [3,0], -BB-B [3,0].
pub open spec fn threat_cat() -> Seq<(Seq<Square>, Seq<usize>)> {
    let b = Square::Black;
    let w = Square::White;
    let e = Square::Empty;
    seq![
        (seq![w, w, w, w, e], seq![4usize]),
        (seq![b, b, b, b, e], seq![4usize]),
        (seq![w, w, w, w, e, w], seq![4usize]),
        (seq![b, b, b, b, e, b], seq![4usize]),
        (seq![w, w, e, w, w], seq![2usize]),
        (seq![b, b, e, b, b], seq![2usize]),
        (seq![w, e, w, w, w], seq![1usize]),
        (seq![b, e, b, b, b], seq![1usize]),
        (seq![e, w, w, w, w], seq![0usize]),
        (seq![e, b, b, b, b], seq![0usize]),
        (seq![e, e, w, w, w], seq![1usize]),
        (seq![e, e, b, b, b], seq![1usize]),
        (seq![w, w, w, e, e], seq![3usize]),
        (seq![b, b, b, e, e], seq![3usize]),
        (seq![e, w, w, w, e], seq![0usize, 4usize]),
        (seq![e, b, b, b, e], seq![0usize, 4usize]),
        (seq![w, e, w, w, e], seq![1usize, 4usize]),
        (seq![b, e, b, b, e], seq![1usize, 4usize]),
        (seq![e, w, w, e, w], seq![3usize, 0usize]),
        (seq![e, b, b, e, b], seq![3usize, 0usize]),
    ]
}

/// Templates whose inner pair `color` could capture at once, with the
/// placement cell as the offset: for Black, BWW- [3] and -WWB [0]; for
/// White, -BBW [0] and WBB- [3]; nothing for `Empty`.
pub open spec fn capture_pos_cat(c: Square) -> Seq<(Seq<Square>, Seq<usize>)> {
    let b = Square::Black;
    let w = Square::White;
    let e = Square::Empty;
    match c {
        Square::Black => seq![
            (seq![b, w, w, e], seq![3usize]),
            (seq![e, w, w, b], seq![0usize]),
        ],
        Square::White => seq![
            (seq![e, b, b, w], seq![0usize]),
            (seq![w, b, b, e], seq![3usize]),
        ],
        Square::Empty => Seq::empty(),
    }
}

/// Templates of capturable pairs of either color, reporting the two pair
/// cells themselves: BWW- [1,2], -WWB [1,2], WBB- [1,2], -BBW [1,2].
pub open spec fn aligned_capture_cat() -> Seq<(Seq<Square>, Seq<usize>)> {
    let b = Square::Black;
    let w = Square::White;
    let e = Square::Empty;
    seq![
        (seq![b, w, w, e], seq![1usize, 2usize]),
        (seq![e, w, w, b], seq![1usize, 2usize]),
        (seq![w, b, b, e], seq![1usize, 2usize]),
        (seq![e, b, b, w], seq![1usize, 2usize]),
    ]
}

/// Every cell the threat scan reports is empty: each threat-catalogue
/// offset names an empty template cell, so a candidate from this scan is
/// always playable ground.
pub proof fn lemma_threat_cell_empty(g: Seq<Seq<Square>>, q: (usize, usize))
    requires
        grid_wf(g),
        scan_hit(g, threat_cat(), q),
    ensures
        q.0 < 19,
        q.1 < 19,
        at(g, q.0 as int, q.1 as int) == Square::Empty,
{
    let (k, p, s, oi) = choose|k: int, p: int, s: int, oi: int|
        hit_at(g, threat_cat(), q, k, p, s, oi);
    assert(crate::scan::cat_wf(threat_cat()));
    crate::scan::lemma_hit_cell(g, threat_cat(), q, k, p, s, oi);
    assert(threat_cat()[p].0[threat_cat()[p].1[oi] as int] == Square::Empty);
}

/// Every cell the capture-placement scan reports is empty: both offsets
/// of each bracket template name its empty end.
pub proof fn lemma_capture_pos_cell_empty(g: Seq<Seq<Square>>, c: Square, q: (usize, usize))
    requires
        grid_wf(g),
        scan_hit(g, capture_pos_cat(c), q),
    ensures
        q.0 < 19,
        q.1 < 19,
        at(g, q.0 as int, q.1 as int) == Square::Empty,
{
    let (k, p, s, oi) = choose|k: int, p: int, s: int, oi: int|
        hit_at(g, capture_pos_cat(c), q, k, p, s, oi);
    assert(crate::scan::cat_wf(capture_pos_cat(c)));
    crate::scan::lemma_hit_cell(g, capture_pos_cat(c), q, k, p, s, oi);
    assert(capture_pos_cat(c)[p].0[capture_pos_cat(c)[p].1[oi] as int] == Square::Empty);
}

fn threat_patterns() -> (r: Vec<Pattern>)
    ensures
        pats_wf(r@),
        cat_view(r@) == threat_cat(),
{
    let b = Square::Black;
    let w = Square::White;
    let e = Square::Empty;
    let r: Vec<Pattern> = vec![
        Pattern { cells: vec![w, w, w, w, e], offsets: vec![4] },
        Pattern { cells: vec![b, b, b, b, e], offsets: vec![4] },
        Pattern { cells: vec![w, w, w, w, e, w], offsets: vec![4] },
        Pattern { cells: vec![b, b, b, b, e, b], offsets: vec![4] },
        Pattern { cells: vec![w, w, e, w, w], offsets: vec![2] },
        Pattern { cells: vec![b, b, e, b, b], offsets: vec![2] },
        Pattern { cells: vec![w, e, w, w, w], offsets: vec![1] },
        Pattern { cells: vec![b, e, b, b, b], offsets: vec![1] },
        Pattern { cells: vec![e, w, w, w, w], offsets: vec![0] },
        Pattern { cells: vec![e, b, b, b, b], offsets: vec![0] },
        Pattern { cells: vec![e, e, w, w, w], offsets: vec![1] },
        Pattern { cells: vec![e, e, b, b, b], offsets: vec![1] },
        Pattern { cells: vec![w, w, w, e, e], offsets: vec![3] },
        Pattern { cells: vec![b, b, b, e, e], offsets: vec![3] },
        Pattern { cells: vec![e, w, w, w, e], offsets: vec![0, 4] },
        Pattern { cells: vec![e, b, b, b, e], offsets: vec![0, 4] },
        Pattern { cells: vec![w, e, w, w, e], offsets: vec![1, 4] },
        Pattern { cells: vec![b, e, b, b, e], offsets: vec![1, 4] },
        Pattern { cells: vec![e, w, w, e, w], offsets: vec![3, 0] },
        Pattern { cells: vec![e, b, b, e, b], offsets: vec![3, 0] },
    ];
    proof {
        assert forall|p: int| 0 <= p < r@.len() implies (#[trigger] r@[p]).wf() by {}
        assert(cat_view(r@) =~~= threat_cat());
    }
    r
}

fn capture_pos_patterns(c: &Square) -> (r: Vec<Pattern>)
    ensures
        pats_wf(r@),
        cat_view(r@) == capture_pos_cat(*c),
{
    let b = Square::Black;
    let w = Square::White;
    let e = Square::Empty;
    let r: Vec<Pattern> = match *c {
        Square::Black => vec![
            Pattern { cells: vec![b, w, w, e], offsets: vec![3] },
            Pattern { cells: vec![e, w, w, b], offsets: vec![0] },
        ],
        Square::White => vec![
            Pattern { cells: vec![e, b, b, w], offsets: vec![0] },
            Pattern { cells: vec![w, b, b, e], offsets: vec![3] },
        ],
        Square::Empty => Vec::new(),
    };
    proof {
        assert forall|p: int| 0 <= p < r@.len() implies (#[trigger] r@[p]).wf() by {}
        assert(cat_view(r@) =~~= capture_pos_cat(*c));
    }
    r
}

fn aligned_capture_patterns() -> (r: Vec<Pattern>)
    ensures
        pats_wf(r@),
        cat_view(r@) == aligned_capture_cat(),
{
    let b = Square::Black;
    let w = Square::White;
    let e = Square::Empty;
    let r: Vec<Pattern> = vec![
        Pattern { cells: vec![b, w, w, e], offsets: vec![1, 2] },
        Pattern { cells: vec![e, w, w, b], offsets: vec![1, 2] },
        Pattern { cells: vec![w, b, b, e], offsets: vec![1, 2] },
        Pattern { cells: vec![e, b, b, w], offsets: vec![1, 2] },
    ];
    proof {
        assert forall|p: int| 0 <= p < r@.len() implies (#[trigger] r@[p]).wf() by {}
        assert(cat_view(r@) =~~= aligned_capture_cat());
    }
    r
}

impl Board {
    /// Every position that scanning all 112 lines for `patterns` reports.
    fn get_positions(&self, patterns: &Vec<Pattern>) -> (r: Vec<(usize, usize)>)
        requires
            grid_wf(self.grid()),
            pats_wf(patterns@),
        ensures
            forall|q: (usize, usize)|
                r@.contains(q) <==> scan_hit(self.grid(), cat_view(patterns@), q),
    {
        let ghost g = self.grid();
        let ghost cat = cat_view(patterns@);
        let t = self.explode();
        let mut out: Vec<(usize, usize)> = Vec::new();
        let mut k: usize = 0;
        while k < 112
            invariant
                k <= 112,
                g == self.grid(),
                grid_wf(g),
                pats_wf(patterns@),
                cat == cat_view(patterns@),
                t@.len() == 112,
                forall|kk: int|
                    0 <= kk < 112 ==> (#[trigger] t@[kk]).data@ == crate::scan::line_data(g, kk),
                forall|kk: int| 0 <= kk < 112 ==> (#[trigger] t@[kk]).cells@ == crate::scan::line_cells(kk),
                forall|q: (usize, usize)|
                    #[trigger] out@.contains(q) <==> exists|kk: int, p: int, s: int, oi: int|
                        kk < k && hit_at(g, cat, q, kk, p, s, oi),
            decreases 112 - k,
        {
            let ghost pre = out@;
            let right = &t[k];
            line_positions(&right.data, &right.cells, patterns, &mut out);
            proof {
                assert forall|q: (usize, usize)|
                    #[trigger] out@.contains(q) <==> exists|kk: int, p: int, s: int, oi: int|
                        kk < k + 1 && hit_at(g, cat, q, kk, p, s, oi) by {
                    if out@.contains(q) {
                        if !pre.contains(q) {
                            let (p, s, oi) = choose|p: int, s: int, oi: int|
                                line_hit(right.data@, right.cells@, cat, q, p, s, oi);
                            assert(hit_at(g, cat, q, k as int, p, s, oi));
                        }
                    }
                    if exists|kk: int, p: int, s: int, oi: int|
                        kk < k + 1 && hit_at(g, cat, q, kk, p, s, oi) {
                        let (kk, p, s, oi) = choose|kk: int, p: int, s: int, oi: int|
                            kk < k + 1 && hit_at(g, cat, q, kk, p, s, oi);
                        if kk < k {
                            assert(pre.contains(q));
                        } else {
                            assert(line_hit(right.data@, right.cells@, cat, q, p, s, oi));
                        }
                        assert(out@.contains(q));
                    }
                }
            }
            k = k + 1;
        }
        proof {
            assert forall|q: (usize, usize)|
                #[trigger] out@.contains(q) <==> scan_hit(g, cat, q) by {
                if out@.contains(q) {
                    let (kk, p, s, oi) = choose|kk: int, p: int, s: int, oi: int|
                        kk < 112 && hit_at(g, cat, q, kk, p, s, oi);
                    assert(hit_at(g, cat, q, kk, p, s, oi));
                }
                if scan_hit(g, cat, q) {
                    let (kk, p, s, oi) = choose|kk: int, p: int, s: int, oi: int|
                        hit_at(g, cat, q, kk, p, s, oi);
                    assert(kk < 112 && hit_at(g, cat, q, kk, p, s, oi));
                }
            }
        }
        out
    }

    /// Candidate cells that complete or block one of the tactical line
    /// templates of `threat_cat`, anywhere on the board.
    pub fn check_threats(&self) -> (r: Vec<(usize, usize)>)
        requires
            grid_wf(self.grid()),
        ensures
            forall|q: (usize, usize)|
                r@.contains(q) <==> scan_hit(self.grid(), threat_cat(), q),
    {
        let p = threat_patterns();
        self.get_positions(&p)
    }

    /// Cells where `color` could complete a bracket capture at once.
    pub fn check_capture_pos(&self, color: &Square) -> (r: Vec<(usize, usize)>)
        requires
            grid_wf(self.grid()),
        ensures
            forall|q: (usize, usize)|
                r@.contains(q) <==> scan_hit(self.grid(), capture_pos_cat(*color), q),
    {
        let p = capture_pos_patterns(color);
        self.get_positions(&p)
    }

    /// Does the freshly placed stone stand inside an already-bracketed
    /// pair? Such a placement is rejected as `MoveIntoCapture`.
    pub fn check_moveintocapture(&self, color: &Square, pos: (usize, usize)) -> (r: bool)
        requires
            grid_wf(self.grid()),
            pos.0 < 19,
            pos.1 < 19,
        ensures
            r == move_into_capture(self.grid(), *color, pos.0 as int, pos.1 as int),
    {
        let ghost g = self.grid();
        let (x, y) = pos;
        let xi = x as i32;
        let yi = y as i32;
        let mut d: usize = 0;
        while d < 8
            invariant
                d <= 8,
                g == self.grid(),
                grid_wf(g),
                x == pos.0,
                y == pos.1,
                x < 19,
                y < 19,
                xi == x as i32,
                yi == y as i32,
                forall|dd: int| 0 <= dd < d ==> !threat_window(g, *color, x as int, y as int, dd),
            decreases 8 - d,
        {
            let dx = dir_dx_e(d);
            let dy = dir_dy_e(d);
            if on_board(xi - dx, yi - dy) && on_board(xi + 2 * dx, yi + 2 * dy) {
                let c0 = grid_get(&self.state, (xi - dx) as usize, (yi - dy) as usize);
                let c1 = grid_get(&self.state, x, y);
                let c2 = grid_get(&self.state, (xi + dx) as usize, (yi + dy) as usize);
                let c3 = grid_get(&self.state, (xi + 2 * dx) as usize, (yi + 2 * dy) as usize);
                let opp = color.opposite();
                if c0 == opp && c1 == *color && c2 == *color && c3 == opp {
                    proof {
                        assert(threat_window(g, *color, x as int, y as int, d as int));
                        assert(move_into_capture(g, *color, x as int, y as int));
                    }
                    return true;
                }
            }
            d = d + 1;
        }
        proof {
            if move_into_capture(g, *color, x as int, y as int) {
                let dd = choose|dd: int| threat_window(g, *color, x as int, y as int, dd);
                assert(!threat_window(g, *color, x as int, y as int, dd));
            }
        }
        false
    }

    /// Resolve every bracket capture triggered by the stone just placed at
    /// `pos`: each matching direction has its two bracketed opponent stones
    /// removed, the mover's capture counter raised by 2, and the removed
    /// stones' hash contributions cleared.
    #[verifier::rlimit(100)]
    pub fn check_capture(&self, color: &Square, pos: (usize, usize), t: &ZobristTable) -> (r: Board)
        requires
            self.wf(),
            self.hash_ok(*t),
            t.wf(),
            pos.0 < 19,
            pos.1 < 19,
            self.b_capture + 16 <= usize::MAX,
            self.w_capture + 16 <= usize::MAX,
        ensures
            r.wf(),
            r.hash_ok(*t),
            r.game_state == self.game_state,
            forall|i: int, j: int|
                in_bounds(i, j) ==> at(r.grid(), i, j) == (if captured_cell(
                    self.grid(),
                    *color,
                    pos.0 as int,
                    pos.1 as int,
                    i,
                    j,
                ) {
                    Square::Empty
                } else {
                    at(self.grid(), i, j)
                }),
            r.b_capture == self.b_capture + (if *color == Square::Black {
                2 * capture_count(self.grid(), *color, pos.0 as int, pos.1 as int)
            } else {
                0
            }),
            r.w_capture == self.w_capture + (if *color == Square::White {
                2 * capture_count(self.grid(), *color, pos.0 as int, pos.1 as int)
            } else {
                0
            }),
    {
        let ghost g0 = self.grid();
        let (x, y) = pos;
        let ghost xx = x as int;
        let ghost yy = y as int;
        let xi = x as i32;
        let yi = y as i32;
        let mut board = self.clone();
        proof {
            lemma_capture_count_bounds(g0, *color, xx, yy, 8);
        }
        let mut d: usize = 0;
        while d < 8
            invariant
                d <= 8,
                g0 == self.grid(),
                grid_wf(g0),
                self.wf(),
                self.hash_ok(*t),
                t.wf(),
                x < 19,
                y < 19,
                xx == x as int,
                yy == y as int,
                xi == x as i32,
                yi == y as i32,
                self.b_capture + 16 <= usize::MAX,
                self.w_capture + 16 <= usize::MAX,
                grid_wf(board.grid()),
                board.game_state == self.game_state,
                board.hash == crate::zobrist::grid_hash(*t, board.grid()),
                board.b_capture == self.b_capture + (if *color == Square::Black {
                    2 * capture_count_upto(g0, *color, xx, yy, d as int)
                } else {
                    0
                }),
                board.w_capture == self.w_capture + (if *color == Square::White {
                    2 * capture_count_upto(g0, *color, xx, yy, d as int)
                } else {
                    0
                }),
                forall|i: int, j: int|
                    in_bounds(i, j) ==> at(board.grid(), i, j) == (if captured_cell_upto(
                        g0,
                        *color,
                        xx,
                        yy,
                        d as int,
                        i,
                        j,
                    ) {
                        Square::Empty
                    } else {
                        at(g0, i, j)
                    }),
            decreases 8 - d,
        {
            proof {
                lemma_capture_count_bounds(g0, *color, xx, yy, d as int);
            }
            let dx = dir_dx_e(d);
            let dy = dir_dy_e(d);
            let mut fired = false;
            if on_board(xi + 3 * dx, yi + 3 * dy) {
                let c0 = grid_get(&self.state, x, y);
                let c1 = grid_get(&self.state, (xi + dx) as usize, (yi + dy) as usize);
                let c2 = grid_get(&self.state, (xi + 2 * dx) as usize, (yi + 2 * dy) as usize);
                let c3 = grid_get(&self.state, (xi + 3 * dx) as usize, (yi + 3 * dy) as usize);
                let opp = color.opposite();
                if c0 == *color && c1 == opp && c2 == opp && c3 == *color {
                    fired = true;
                    proof {
                        assert(captures_dir(g0, *color, xx, yy, d as int));
                    }
                    let i1 = (xi + dx) as usize;
                    let j1 = (yi + dy) as usize;
                    let i2 = (xi + 2 * dx) as usize;
                    let j2 = (yi + 2 * dy) as usize;
                    proof {
                        lemma_remove_cell_fresh(g0, *color, xx, yy, d as int, 1, i1 as int, j1 as int);
                        lemma_remove_cell_fresh(g0, *color, xx, yy, d as int, 2, i2 as int, j2 as int);
                    }
                    let ghost gb = board.grid();
                    remove_captured_stone(&mut board, i1, j1, color, t);
                    let ghost gc = board.grid();
                    remove_captured_stone(&mut board, i2, j2, color, t);
                    match *color {
                        Square::Black => {
                            board.b_capture = board.b_capture + 2;
                        },
                        Square::White => {
                            board.w_capture = board.w_capture + 2;
                        },
                        Square::Empty => {},
                    }
                    proof {
                        assert forall|i: int, j: int| in_bounds(i, j) implies at(
                            board.grid(),
                            i,
                            j,
                        ) == (if captured_cell_upto(g0, *color, xx, yy, d + 1, i, j) {
                            Square::Empty
                        } else {
                            at(g0, i, j)
                        }) by {
                            crate::grid::lemma_put_at(gb, i1 as int, j1 as int, Square::Empty);
                            crate::grid::lemma_put_at(gc, i2 as int, j2 as int, Square::Empty);
                            if (i == i1 as int && j == j1 as int) || (i == i2 as int && j == j2
                                as int) {
                                assert(captured_cell_upto(g0, *color, xx, yy, d + 1, i, j));
                            } else {
                                if captured_cell_upto(g0, *color, xx, yy, d + 1, i, j) {
                                    let dd = choose|dd: int|
                                        0 <= dd < d + 1 && captures_dir(g0, *color, xx, yy, dd) && (
                                        (i == xx + dir_dx(dd) && j == yy + dir_dy(dd)) || (i == xx
                                            + 2 * dir_dx(dd) && j == yy + 2 * dir_dy(dd)));
                                    if dd == d as int {
                                        assert(false);
                                    } else {
                                        assert(captured_cell_upto(g0, *color, xx, yy, d as int, i, j));
                                    }
                                } else {
                                    assert(!captured_cell_upto(g0, *color, xx, yy, d as int, i, j));
                                }
                            }
                        }
                    }
                }
            }
            proof {
                if !fired {
                    assert(!captures_dir(g0, *color, xx, yy, d as int));
                    assert forall|i: int, j: int| in_bounds(i, j) implies at(
                        board.grid(),
                        i,
                        j,
                    ) == (if captured_cell_upto(g0, *color, xx, yy, d + 1, i, j) {
                        Square::Empty
                    } else {
                        at(g0, i, j)
                    }) by {
                        if captured_cell_upto(g0, *color, xx, yy, d + 1, i, j) {
                            let dd = choose|dd: int|
                                0 <= dd < d + 1 && captures_dir(g0, *color, xx, yy, dd) && ((i == xx
                                    + dir_dx(dd) && j == yy + dir_dy(dd)) || (i == xx + 2 * dir_dx(
                                    dd,
                                ) && j == yy + 2 * dir_dy(dd)));
                            assert(dd < d);
                            assert(captured_cell_upto(g0, *color, xx, yy, d as int, i, j));
                        } else {
                            if captured_cell_upto(g0, *color, xx, yy, d as int, i, j) {
                                let dd = choose|dd: int|
                                    0 <= dd < d && captures_dir(g0, *color, xx, yy, dd) && ((i == xx
                                        + dir_dx(dd) && j == yy + dir_dy(dd)) || (i == xx + 2
                                        * dir_dx(dd) && j == yy + 2 * dir_dy(dd)));
                                assert(captured_cell_upto(g0, *color, xx, yy, d + 1, i, j));
                            }
                        }
                    }
                }
            }
            d = d + 1;
        }
        board
    }

    /// The cells of every capturable pair on the board, of either color.
    pub fn five_aligned_capture(&self) -> (r: Vec<(usize, usize)>)
        requires
            grid_wf(self.grid()),
        ensures
            forall|q: (usize, usize)|
                r@.contains(q) <==> scan_hit(self.grid(), aligned_capture_cat(), q),
    {
        let p = aligned_capture_patterns();
        self.get_positions(&p)
    }

    /// Walk from (x, y) in direction (add_x, add_y), counting consecutive
    /// `color` stones on top of the count `acc` already made, and stop as
    /// soon as the count passes four: five in a row is already decisive.
    pub fn rec_explo(
        &self,
        color: &Square,
        x: i32,
        y: i32,
        add_x: i32,
        add_y: i32,
        acc: i32,
    ) -> (r: i32)
        requires
            grid_wf(self.grid()),
            in_bounds(x as int, y as int),
            -1 <= add_x <= 1,
            -1 <= add_y <= 1,
            !(add_x == 0 && add_y == 0),
            0 <= acc <= 5,
        ensures
            acc + run_from(self.grid(), *color, x as int, y as int, add_x as int, add_y as int)
                >= 5 ==> r == 5,
            acc + run_from(self.grid(), *color, x as int, y as int, add_x as int, add_y as int)
                < 5 ==> r == acc + run_from(
                self.grid(),
                *color,
                x as int,
                y as int,
                add_x as int,
                add_y as int,
            ),
        decreases run_measure(x as int, y as int, add_x as int, add_y as int),
    {
        if acc > 4 || !on_board(x + add_x, y + add_y) || grid_get(
            &self.state,
            (x + add_x) as usize,
            (y + add_y) as usize,
        ) != *color {
            acc
        } else {
            self.rec_explo(color, x + add_x, y + add_y, add_x, add_y, acc + 1)
        }
    }

    /// Do five or more `color` stones stand consecutively through `pos`
    /// on any of the four axes?
    pub fn five_aligned(&self, pos: (usize, usize), color: &Square) -> (r: bool)
        requires
            grid_wf(self.grid()),
            pos.0 < 19,
            pos.1 < 19,
        ensures
            r == five_in_row(self.grid(), *color, pos.0 as int, pos.1 as int),
    {
        let (x, y) = (pos.0 as i32, pos.1 as i32);
        (self.rec_explo(color, x, y, 1, 1, 1) + self.rec_explo(color, x, y, -1, -1, 0)) > 4
            || (self.rec_explo(color, x, y, 1, 0, 1) + self.rec_explo(color, x, y, -1, 0, 0)) > 4
            || (self.rec_explo(color, x, y, 0, 1, 1) + self.rec_explo(color, x, y, 0, -1, 0)) > 4
            || (self.rec_explo(color, x, y, 1, -1, 1) + self.rec_explo(color, x, y, -1, 1, 0)) > 4
    }

    /// Is the alignment through `pos` final? It is when it holds and
    /// still holds after every capturable pair on the board is removed,
    /// so that no immediate capture can break it.
    pub fn check_aligned(&self, pos: (usize, usize), color: &Square) -> (r: bool)
        requires
            grid_wf(self.grid()),
            pos.0 < 19,
            pos.1 < 19,
        ensures
            r == aligned_unbreakable(self.grid(), *color, pos.0 as int, pos.1 as int),
    {
        let ghost g = self.grid();
        if self.five_aligned(pos, color) {
            let mut test_board = self.clone();
            let to_remove = self.five_aligned_capture();
            proof {
                assert(crate::scan::cat_wf(aligned_capture_cat()));
                assert forall|q: (usize, usize)| to_remove@.contains(q) implies q.0 < 19 && q.1
                    < 19 by {
                    let (k, p, sw, oi) = choose|k: int, p: int, sw: int, oi: int|
                        hit_at(g, aligned_capture_cat(), q, k, p, sw, oi);
                    crate::scan::lemma_hit_cell(g, aligned_capture_cat(), q, k, p, sw, oi);
                }
            }
            let n = to_remove.len();
            let mut idx: usize = 0;
            while idx < n
                invariant
                    idx <= n,
                    g == self.grid(),
                    grid_wf(g),
                    n == to_remove@.len(),
                    forall|q: (usize, usize)|
                        #[trigger] to_remove@.contains(q) <==> scan_hit(
                            g,
                            aligned_capture_cat(),
                            q,
                        ),
                    forall|q: (usize, usize)| to_remove@.contains(q) ==> q.0 < 19 && q.1 < 19,
                    grid_wf(test_board.grid()),
                    forall|i: int, j: int|
                        in_bounds(i, j) ==> at(test_board.grid(), i, j) == (if (exists|u: int|
                            0 <= u < idx && to_remove@[u] == ((i as usize), (j as usize))) {
                            Square::Empty
                        } else {
                            at(g, i, j)
                        }),
                decreases n - idx,
            {
                let (cx, cy) = to_remove[idx];
                proof {
                    assert(to_remove@.contains(to_remove@[idx as int]));
                }
                let ghost gb = test_board.grid();
                crate::grid::grid_set(&mut test_board.state, cx, cy, Square::Empty);
                proof {
                    crate::grid::lemma_put_at(gb, cx as int, cy as int, Square::Empty);
                    assert forall|i: int, j: int| in_bounds(i, j) implies at(
                        test_board.grid(),
                        i,
                        j,
                    ) == (if (exists|u: int|
                        0 <= u < idx + 1 && to_remove@[u] == ((i as usize), (j as usize))) {
                        Square::Empty
                    } else {
                        at(g, i, j)
                    }) by {
                        if i == cx as int && j == cy as int {
                            assert(to_remove@[idx as int] == ((i as usize), (j as usize)));
                        } else {
                            if exists|u: int|
                                0 <= u < idx + 1 && to_remove@[u] == ((i as usize), (j as usize)) {
                                let u = choose|u: int|
                                    0 <= u < idx + 1 && to_remove@[u] == ((i as usize), (j as usize));
                                assert(u < idx);
                                assert(exists|u2: int|
                                    0 <= u2 < idx && to_remove@[u2] == ((i as usize), (j as usize)));
                            } else {
                                if exists|u: int|
                                    0 <= u < idx && to_remove@[u] == ((i as usize), (j as usize)) {
                                    let u = choose|u: int|
                                        0 <= u < idx && to_remove@[u] == ((i as usize), (j as usize));
                                    assert(0 <= u < idx + 1 && to_remove@[u] == ((i as usize), (j as usize)));
                                }
                            }
                        }
                    }
                }
                idx = idx + 1;
            }
            proof {
                let rg = reduced_grid(g);
                assert forall|i: int, j: int| in_bounds(i, j) implies test_board.grid()[i][j]
                    == rg[i][j] by {
                    assert(rg[i][j] == (if scan_hit(
                        g,
                        aligned_capture_cat(),
                        ((i as usize), (j as usize)),
                    ) {
                        Square::Empty
                    } else {
                        at(g, i, j)
                    }));
                    if scan_hit(g, aligned_capture_cat(), ((i as usize), (j as usize))) {
                        assert(to_remove@.contains(((i as usize), (j as usize))));
                        let u = choose|u: int|
                            0 <= u < to_remove@.len() && to_remove@[u] == ((i as usize), (j as usize));
                        assert(exists|u2: int|
                            0 <= u2 < n && to_remove@[u2] == ((i as usize), (j as usize)));
                        assert(at(test_board.grid(), i, j) == Square::Empty);
                    } else {
                        if exists|u: int|
                            0 <= u < n && to_remove@[u] == ((i as usize), (j as usize)) {
                            let u = choose|u: int|
                                0 <= u < n && to_remove@[u] == ((i as usize), (j as usize));
                            assert(to_remove@.contains(((i as usize), (j as usize))));
                        }
                        assert(at(test_board.grid(), i, j) == at(g, i, j));
                    }
                }
                assert forall|i: int| 0 <= i < 19 implies test_board.grid()[i] =~= rg[i] by {
                    assert(test_board.grid()[i].len() == 19);
                    assert(rg[i].len() == 19);
                    assert forall|j: int| 0 <= j < 19 implies test_board.grid()[i][j] == rg[i][j] by {
                        assert(in_bounds(i, j));
                    }
                }
                assert(test_board.grid() =~= rg);
            }
            test_board.five_aligned(pos, color)
        } else {
            false
        }
    }

    /// The clipped nine-cell window around (x, y) along (dx, dy).
    fn ft_window_e(&self, x: i32, y: i32, dx: i32, dy: i32) -> (w: Vec<Square>)
        requires
            grid_wf(self.grid()),
            0 <= x < 19,
            0 <= y < 19,
            -1 <= dx <= 1,
            -1 <= dy <= 1,
        ensures
            w@ == ft_window(self.grid(), x as int, y as int, dx as int, dy as int),
    {
        let ghost g = self.grid();
        let mut w: Vec<Square> = Vec::new();
        let mut i: usize = 0;
        while i < 9
            invariant
                i <= 9,
                g == self.grid(),
                grid_wf(g),
                0 <= x < 19,
                0 <= y < 19,
                -1 <= dx <= 1,
                -1 <= dy <= 1,
                w@ == ft_window_upto(g, x as int, y as int, dx as int, dy as int, i as int),
            decreases 9 - i,
        {
            let off = i as i32 - 4;
            proof {
                let o = off as int;
                let dxx = dx as int;
                let dyy = dy as int;
                assert(-4 <= o * dxx <= 4 && -4 <= o * dyy <= 4) by (nonlinear_arith)
                    requires
                        -4 <= o <= 4,
                        -1 <= dxx <= 1,
                        -1 <= dyy <= 1,
                ;
            }
            let cx = x + off * dx;
            let cy = y + off * dy;
            if on_board(cx, cy) {
                w.push(grid_get(&self.state, cx as usize, cy as usize));
            }
            i = i + 1;
        }
        w
    }

    /// Does the placement at (x, y) create open threes in two or more
    /// orientations at once? Such a move is rejected as `DoubleThrees`.
    pub fn check_free_threes(&self, x: i32, y: i32, color: &Square) -> (r: bool)
        requires
            grid_wf(self.grid()),
            0 <= x < 19,
            0 <= y < 19,
        ensures
            r == double_free_three(self.grid(), *color, x as int, y as int),
    {
        let w0 = self.ft_window_e(x, y, 1, 0);
        let w1 = self.ft_window_e(x, y, 0, 1);
        let w2 = self.ft_window_e(x, y, 1, 1);
        let w3 = self.ft_window_e(x, y, 1, -1);
        let mut count: usize = 0;
        if has_free_three_e(&w0, color) {
            count = count + 1;
        }
        if has_free_three_e(&w1, color) {
            count = count + 1;
        }
        if has_free_three_e(&w2, color) {
            count = count + 1;
        }
        if has_free_three_e(&w3, color) {
            count = count + 1;
        }
        count > 1
    }

    /// Is every cell of the board occupied?
    pub fn check_full_board(&self) -> (r: bool)
        requires
            grid_wf(self.grid()),
        ensures
            r == full_board(self.grid()),
    {
        let ghost g = self.grid();
        let mut i: usize = 0;
        while i < 19
            invariant
                i <= 19,
                g == self.grid(),
                grid_wf(g),
                forall|a: int, b: int| 0 <= a < i && 0 <= b < 19 ==> at(g, a, b) != Square::Empty,
            decreases 19 - i,
        {
            let mut j: usize = 0;
            while j < 19
                invariant
                    i < 19,
                    j <= 19,
                    g == self.grid(),
                    grid_wf(g),
                    forall|a: int, b: int|
                        0 <= a < i && 0 <= b < 19 ==> at(g, a, b) != Square::Empty,
                    forall|b: int| 0 <= b < j ==> at(g, i as int, b) != Square::Empty,
                decreases 19 - j,
            {
                if grid_get(&self.state, i, j) == Square::Empty {
                    proof {
                        assert(in_bounds(i as int, j as int));
                        assert(!full_board(g));
                    }
                    return false;
                }
                j = j + 1;
            }
            i = i + 1;
        }
        true
    }

    /// The heuristic worth of the board from `color`'s standpoint when
    /// `current_color` is on move: weighted template presence over all
    /// 112 scan lines for both sides, plus each side's capture worth,
    /// with the side not on move damped to three quarters.
    #[verifier::rlimit(60)]
    pub fn check_patterns(&self, color: &Square, current_color: &Square) -> (r: i32)
        requires
            grid_wf(self.grid()),
            self.b_capture <= 0x7fff_ffff,
            self.w_capture <= 0x7fff_ffff,
        ensures
            r as int == eval_spec(
                self.grid(),
                self.b_capture as int,
                self.w_capture as int,
                *color,
                *current_color,
            ),
    {
        let ghost g = self.grid();
        let ghost ecat = eval_cat(*color, *current_color);
        let cat = eval_patterns(color, current_color);
        let t = self.explode();
        let mut acc: i32 = 0;
        let mut k: usize = 0;
        while k < 112
            invariant
                k <= 112,
                g == self.grid(),
                grid_wf(g),
                ecat == eval_cat(*color, *current_color),
                ecat_view(cat@) == ecat,
                cat@.len() == 30,
                forall|p: int| 0 <= p < 30 ==> -100240 <= (#[trigger] cat@[p]).1 <= 100240,
                t@.len() == 112,
                forall|kk: int|
                    0 <= kk < 112 ==> (#[trigger] t@[kk]).data@ == crate::scan::line_data(g, kk),
                acc as int == lines_score_upto(g, ecat, k as int),
                -3007200 * (k as int) <= acc as int <= 3007200 * (k as int),
            decreases 112 - k,
        {
            let right = &t[k];
            let mut line_acc: i32 = 0;
            let mut p: usize = 0;
            while p < 30
                invariant
                    p <= 30,
                    k < 112,
                    ecat_view(cat@) == ecat,
                    cat@.len() == 30,
                    forall|pp: int| 0 <= pp < 30 ==> -100240 <= (#[trigger] cat@[pp]).1 <= 100240,
                    right.data@ == crate::scan::line_data(g, k as int),
                    line_acc as int == cat_score_upto(right.data@, ecat, p as int),
                    -100240 * (p as int) <= line_acc as int <= 100240 * (p as int),
                decreases 30 - p,
            {
                proof {
                    assert(ecat[p as int] == (cat@[p as int].0@, cat@[p as int].1 as int));
                }
                if contains_window(&right.data, &cat[p].0) {
                    line_acc = line_acc + cat[p].1;
                } else {
                }
                p = p + 1;
            }
            proof {
                assert(line_score(right.data@, ecat) == cat_score_upto(right.data@, ecat, 30));
            }
            acc = acc + line_acc;
            k = k + 1;
        }
        let own_score = self.get_score(color);
        let oppc = color.opposite();
        let opp_score = self.get_score(&oppc);
        let ch_own = capture_heur_e(own_score);
        let ch_opp = capture_heur_e(opp_score);
        let term_own: i32 = if *color != *current_color {
            damp_pos_e(ch_own)
        } else {
            ch_own
        };
        let term_opp: i32 = if oppc != *current_color {
            damp_pos_e(ch_opp)
        } else {
            ch_opp
        };
        acc + term_own - term_opp
    }

    /// Classify the board after `color` moved at `pos`, as `classify`
    /// fixes: ten captures win at once; an alignment through the move
    /// wins only if no immediate capture can break it and is provisional
    /// otherwise; a full board without a winner is a draw.
    pub fn get_game_state(&self, pos: (usize, usize), color: &Square) -> (r:
        crate::board::BoardState)
        requires
            grid_wf(self.grid()),
            pos.0 < 19,
            pos.1 < 19,
        ensures
            r == classify(
                self.grid(),
                self.b_capture as int,
                self.w_capture as int,
                pos.0 as int,
                pos.1 as int,
                *color,
            ),
    {
        if self.b_capture >= 10 {
            crate::board::BoardState::Victory(Square::Black)
        } else if *color == Square::Black && self.five_aligned(pos, color) {
            if self.check_aligned(pos, color) {
                crate::board::BoardState::Victory(Square::Black)
            } else {
                crate::board::BoardState::FiveAligned(Square::Black)
            }
        } else if self.w_capture >= 10 {
            crate::board::BoardState::Victory(Square::White)
        } else if *color == Square::White && self.five_aligned(pos, color) {
            if self.check_aligned(pos, color) {
                crate::board::BoardState::Victory(Square::White)
            } else {
                crate::board::BoardState::FiveAligned(Square::White)
            }
        } else if self.check_full_board() {
            crate::board::BoardState::Draw
        } else {
            crate::board::BoardState::InProgress
        }
    }
}

} // verus!

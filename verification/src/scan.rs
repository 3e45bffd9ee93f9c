use vstd::prelude::*;
use crate::grid::{at, grid_wf, in_bounds};
use crate::square::Square;

verus! {

// The board is scanned along 112 maximal lines: 19 rows (left to right),
// 19 columns (top to bottom), 37 falling diagonals and 37 rising ones.
// Line `k` starts at (line_sx(k), line_sy(k)), advances by
// (line_dx(k), line_dy(k)) and holds line_len(k) cells.

pub open spec fn line_sx(k: int) -> int {
    if k < 19 {
        k
    } else if k < 38 {
        0
    } else if k < 75 {
        if k - 38 > 18 {
            k - 38 - 18
        } else {
            0
        }
    } else {
        if k - 75 > 18 {
            k - 75 - 18
        } else {
            0
        }
    }
}

pub open spec fn line_sy(k: int) -> int {
    if k < 19 {
        0
    } else if k < 38 {
        k - 19
    } else if k < 75 {
        if k - 38 <= 18 {
            18 - (k - 38)
        } else {
            0
        }
    } else {
        if k - 75 <= 18 {
            k - 75
        } else {
            18
        }
    }
}

pub open spec fn line_dx(k: int) -> int {
    if k < 19 {
        0
    } else {
        1
    }
}

pub open spec fn line_dy(k: int) -> int {
    if k < 19 {
        1
    } else if k < 38 {
        0
    } else if k < 75 {
        1
    } else {
        -1
    }
}

pub open spec fn line_len(k: int) -> int {
    if k < 38 {
        19
    } else if k < 75 {
        if k - 38 <= 18 {
            k - 38 + 1
        } else {
            37 - (k - 38)
        }
    } else {
        if k - 75 <= 18 {
            k - 75 + 1
        } else {
            37 - (k - 75)
        }
    }
}

/// The cells of line `k`, as board coordinates.
pub open spec fn line_cells(k: int) -> Seq<(usize, usize)> {
    Seq::new(
        line_len(k) as nat,
        |j: int|
            (
                (line_sx(k) + j * line_dx(k)) as usize,
                (line_sy(k) + j * line_dy(k)) as usize,
            ),
    )
}

/// The contents of line `k` on grid `g`.
pub open spec fn line_data(g: Seq<Seq<Square>>, k: int) -> Seq<Square> {
    Seq::new(
        line_len(k) as nat,
        |j: int| at(g, line_sx(k) + j * line_dx(k), line_sy(k) + j * line_dy(k)),
    )
}

/// Every cell of every line is on the board.
pub proof fn lemma_line_cells_in_bounds(k: int, j: int)
    requires
        0 <= k < 112,
        0 <= j < line_len(k),
    ensures
        in_bounds(line_sx(k) + j * line_dx(k), line_sy(k) + j * line_dy(k)),
{
}

/// `pat` occurs in `data` at window start `s`.
pub open spec fn match_at(data: Seq<Square>, pat: Seq<Square>, s: int) -> bool {
    &&& 0 <= s
    &&& s + pat.len() <= data.len()
    &&& forall|u: int| 0 <= u < pat.len() ==> data[s + u] == pat[u]
}

/// `pat` occurs somewhere in `data`.
pub open spec fn has_match(data: Seq<Square>, pat: Seq<Square>) -> bool {
    exists|s: int| match_at(data, pat, s)
}

/// A line template together with the window offsets whose cells the scan
/// reports when the template matches.
pub struct Pattern {
    pub cells: Vec<Square>,
    pub offsets: Vec<usize>,
}

impl Pattern {
    pub open spec fn wf(&self) -> bool {
        pc_wf((self.cells@, self.offsets@))
    }
}

pub open spec fn pats_wf(ps: Seq<Pattern>) -> bool {
    forall|p: int| 0 <= p < ps.len() ==> (#[trigger] ps[p]).wf()
}

/// The mathematical content of a pattern: its template cells and its
/// reported window offsets.
pub open spec fn pat_view(p: Pattern) -> (Seq<Square>, Seq<usize>) {
    (p.cells@, p.offsets@)
}

pub open spec fn cat_view(ps: Seq<Pattern>) -> Seq<(Seq<Square>, Seq<usize>)> {
    ps.map_values(|p: Pattern| pat_view(p))
}

pub open spec fn pc_wf(pc: (Seq<Square>, Seq<usize>)) -> bool {
    &&& 1 <= pc.0.len()
    &&& forall|i: int| 0 <= i < pc.1.len() ==> ((#[trigger] pc.1[i]) as int) < pc.0.len()
}

pub open spec fn cat_wf(cat: Seq<(Seq<Square>, Seq<usize>)>) -> bool {
    forall|p: int| 0 <= p < cat.len() ==> pc_wf(#[trigger] cat[p])
}

/// One witness that scanning line contents `data` (with coordinates
/// `cells`) for the single pattern `pat` reports position `q`: the pattern
/// matches at window start `s`, and `q` is the cell at its `oi`-th offset.
pub open spec fn one_pat_hit(
    data: Seq<Square>,
    cells: Seq<(usize, usize)>,
    pc: (Seq<Square>, Seq<usize>),
    q: (usize, usize),
    s: int,
    oi: int,
) -> bool {
    &&& match_at(data, pc.0, s)
    &&& 0 <= oi < pc.1.len()
    &&& cells.len() == data.len()
    &&& q == cells[s + pc.1[oi] as int]
}

/// One witness that the scan of line contents `data` (with coordinates
/// `cells`) reports position `q`: pattern `p` of the catalogue matches at
/// window start `s`, and `q` is the cell at its `oi`-th offset.
pub open spec fn line_hit(
    data: Seq<Square>,
    cells: Seq<(usize, usize)>,
    cat: Seq<(Seq<Square>, Seq<usize>)>,
    q: (usize, usize),
    p: int,
    s: int,
    oi: int,
) -> bool {
    &&& 0 <= p < cat.len()
    &&& one_pat_hit(data, cells, cat[p], q, s, oi)
}

/// One witness that the whole-board scan reports `q`: a line `k`, a
/// pattern `p`, a window `s` and an offset index `oi`.
pub open spec fn hit_at(
    g: Seq<Seq<Square>>,
    cat: Seq<(Seq<Square>, Seq<usize>)>,
    q: (usize, usize),
    k: int,
    p: int,
    s: int,
    oi: int,
) -> bool {
    &&& 0 <= k < 112
    &&& line_hit(line_data(g, k), line_cells(k), cat, q, p, s, oi)
}

/// The whole-board scan of catalogue `cat` reports position `q`.
pub open spec fn scan_hit(
    g: Seq<Seq<Square>>,
    cat: Seq<(Seq<Square>, Seq<usize>)>,
    q: (usize, usize),
) -> bool {
    exists|k: int, p: int, s: int, oi: int| hit_at(g, cat, q, k, p, s, oi)
}

/// A reported position is an on-board cell holding what the matched
/// pattern holds at the reported offset.
pub proof fn lemma_hit_cell(
    g: Seq<Seq<Square>>,
    cat: Seq<(Seq<Square>, Seq<usize>)>,
    q: (usize, usize),
    k: int,
    p: int,
    s: int,
    oi: int,
)
    requires
        grid_wf(g),
        cat_wf(cat),
        hit_at(g, cat, q, k, p, s, oi),
    ensures
        q.0 < 19,
        q.1 < 19,
        at(g, q.0 as int, q.1 as int) == cat[p].0[cat[p].1[oi] as int],
{
    let off = cat[p].1[oi] as int;
    let j = s + off;
    assert(line_data(g, k).len() == line_len(k));
    assert(0 <= j < line_len(k));
    lemma_line_cells_in_bounds(k, j);
    assert(line_data(g, k)[j] == cat[p].0[off]);
}

/// Does `pat` occur in `data` at window start `s`?
pub fn match_window(data: &Vec<Square>, pat: &Vec<Square>, s: usize) -> (r: bool)
    requires
        s + pat@.len() <= data@.len(),
    ensures
        r == match_at(data@, pat@, s as int),
{
    let dn = data.len();
    let n = pat.len();
    let mut u: usize = 0;
    while u < n
        invariant
            n == pat@.len(),
            dn == data@.len(),
            s + n <= dn,
            u <= n,
            forall|t: int| 0 <= t < u ==> data@[s + t] == pat@[t],
        decreases n - u,
    {
        if data[s + u] != pat[u] {
            return false;
        }
        u = u + 1;
    }
    true
}

/// Does `pat` occur anywhere in `data`?
pub fn contains_window(data: &Vec<Square>, pat: &Vec<Square>) -> (r: bool)
    ensures
        r == has_match(data@, pat@),
{
    let n = data.len();
    let m = pat.len();
    if m > n {
        proof {
            if has_match(data@, pat@) {
                let s = choose|s: int| match_at(data@, pat@, s);
                assert(false);
            }
        }
        return false;
    }
    let mut s: usize = 0;
    while s <= n - m
        invariant
            n == data@.len(),
            m == pat@.len(),
            m <= n,
            s <= n - m + 1,
            forall|ss: int| 0 <= ss < s ==> !match_at(data@, pat@, ss),
        decreases n - m + 1 - s,
    {
        if match_window(data, pat, s) {
            return true;
        }
        s = s + 1;
    }
    proof {
        if has_match(data@, pat@) {
            let ss = choose|ss: int| match_at(data@, pat@, ss);
            assert(!match_at(data@, pat@, ss));
        }
    }
    false
}

/// Append to `out` every position that scanning `data`/`cells` for the
/// single pattern `pat` reports.
fn line_pat_positions(
    data: &Vec<Square>,
    cells: &Vec<(usize, usize)>,
    pat: &Pattern,
    out: &mut Vec<(usize, usize)>,
)
    requires
        pat.wf(),
        cells@.len() == data@.len(),
    ensures
        forall|q: (usize, usize)|
            final(out)@.contains(q) <==> old(out)@.contains(q) || exists|s: int, oi: int|
                one_pat_hit(data@, cells@, pat_view(*pat), q, s, oi),
{
    broadcast use vstd::seq_lib::lemma_seq_contains_after_push;

    let n = data.len();
    let m = pat.cells.len();
    if m > n {
        proof {
            assert forall|q: (usize, usize)|
                out@.contains(q) <==> old(out)@.contains(q) || exists|s: int, oi: int|
                    one_pat_hit(data@, cells@, pat_view(*pat), q, s, oi) by {
                if exists|s: int, oi: int| one_pat_hit(data@, cells@, pat_view(*pat), q, s, oi) {
                    let (s, oi) = choose|s: int, oi: int|
                        one_pat_hit(data@, cells@, pat_view(*pat), q, s, oi);
                    assert(false);
                }
            }
        }
        return ;
    }
    let mut s: usize = 0;
    while s <= n - m
        invariant
            pat.wf(),
            n == data@.len(),
            m == pat.cells@.len(),
            cells@.len() == n,
            m <= n,
            s <= n - m + 1,
            forall|q: (usize, usize)|
                out@.contains(q) <==> old(out)@.contains(q) || exists|ss: int, oi: int|
                    ss < s && one_pat_hit(data@, cells@, pat_view(*pat), q, ss, oi),
        decreases n - m + 1 - s,
    {
        if match_window(data, &pat.cells, s) {
            let no = pat.offsets.len();
            let mut oi: usize = 0;
            while oi < no
                invariant
                    pat.wf(),
                    n == data@.len(),
                    m == pat.cells@.len(),
                    cells@.len() == n,
                    m <= n,
                    s <= n - m,
                    no == pat.offsets@.len(),
                    oi <= no,
                    match_at(data@, pat.cells@, s as int),
                    forall|q: (usize, usize)|
                        out@.contains(q) <==> old(out)@.contains(q) || (exists|ss: int, oj: int|
                            ss < s && one_pat_hit(data@, cells@, pat_view(*pat), q, ss, oj)) || (
                        exists|oj: int|
                            oj < oi && one_pat_hit(data@, cells@, pat_view(*pat), q, s as int, oj)),
                decreases no - oi,
            {
                let off = pat.offsets[oi];
                proof {
                    assert(pc_wf(pat_view(*pat)));
                    assert((pat_view(*pat).1[oi as int] as int) < pat_view(*pat).0.len());
                }
                let ghost mid = out@;
                let picked = cells[s + off];
                out.push(picked);
                proof {
                    assert(out@ == mid.push(picked));
                    assert(one_pat_hit(data@, cells@, pat_view(*pat), picked, s as int, oi as int));
                    assert forall|q: (usize, usize)|
                        out@.contains(q) <==> old(out)@.contains(q) || (exists|ss: int, oj: int|
                            ss < s && one_pat_hit(data@, cells@, pat_view(*pat), q, ss, oj)) || (
                        exists|oj: int|
                            oj < oi + 1 && one_pat_hit(data@, cells@, pat_view(*pat), q, s as int, oj)) by {
                        vstd::seq_lib::lemma_seq_contains_after_push(mid, picked, q);
                        if out@.contains(q) && !mid.contains(q) {
                            assert(q == picked);
                        }
                        if exists|oj: int|
                            oj < oi + 1 && one_pat_hit(data@, cells@, pat_view(*pat), q, s as int, oj) {
                            let oj = choose|oj: int|
                                oj < oi + 1 && one_pat_hit(data@, cells@, pat_view(*pat), q, s as int, oj);
                            if oj == oi {
                                assert(q == picked);
                                assert(out@.contains(q));
                            } else {
                                assert(mid.contains(q));
                                assert(out@.contains(q));
                            }
                        }
                    }
                }
                oi = oi + 1;
            }
        }
        proof {
            assert forall|q: (usize, usize)|
                out@.contains(q) <==> old(out)@.contains(q) || exists|ss: int, oj: int|
                    ss < s + 1 && one_pat_hit(data@, cells@, pat_view(*pat), q, ss, oj) by {
                if exists|ss: int, oj: int|
                    ss < s + 1 && one_pat_hit(data@, cells@, pat_view(*pat), q, ss, oj) {
                    let (ss, oj) = choose|ss: int, oj: int|
                        ss < s + 1 && one_pat_hit(data@, cells@, pat_view(*pat), q, ss, oj);
                    if ss < s {
                        assert(out@.contains(q));
                    }
                }
            }
        }
        s = s + 1;
    }
    proof {
        assert forall|q: (usize, usize)|
            out@.contains(q) <==> old(out)@.contains(q) || exists|ss: int, oi: int|
                one_pat_hit(data@, cells@, pat_view(*pat), q, ss, oi) by {
            if exists|ss: int, oi: int| one_pat_hit(data@, cells@, pat_view(*pat), q, ss, oi) {
                let (ss, oi) = choose|ss: int, oi: int|
                    one_pat_hit(data@, cells@, pat_view(*pat), q, ss, oi);
                assert(ss < n - m + 1);
            }
        }
    }
}

/// Append to `out` every position that scanning `data`/`cells` for the
/// whole catalogue `cat` reports.
pub fn line_positions(
    data: &Vec<Square>,
    cells: &Vec<(usize, usize)>,
    cat: &Vec<Pattern>,
    out: &mut Vec<(usize, usize)>,
)
    requires
        pats_wf(cat@),
        cells@.len() == data@.len(),
    ensures
        forall|q: (usize, usize)|
            final(out)@.contains(q) <==> old(out)@.contains(q) || exists|p: int, s: int, oi: int|
                line_hit(data@, cells@, cat_view(cat@), q, p, s, oi),
{
    let np = cat.len();
    let mut p: usize = 0;
    while p < np
        invariant
            pats_wf(cat@),
            cells@.len() == data@.len(),
            np == cat@.len(),
            p <= np,
            forall|q: (usize, usize)|
                out@.contains(q) <==> old(out)@.contains(q) || exists|pp: int, s: int, oi: int|
                    pp < p && line_hit(data@, cells@, cat_view(cat@), q, pp, s, oi),
        decreases np - p,
    {
        let ghost pre = out@;
        line_pat_positions(data, cells, &cat[p], out);
        proof {
            assert forall|q: (usize, usize)|
                out@.contains(q) <==> old(out)@.contains(q) || exists|pp: int, s: int, oi: int|
                    pp < p + 1 && line_hit(data@, cells@, cat_view(cat@), q, pp, s, oi) by {
                if out@.contains(q) {
                    if !pre.contains(q) {
                        let (s, oi) = choose|s: int, oi: int|
                            one_pat_hit(data@, cells@, pat_view(cat@[p as int]), q, s, oi);
                        assert(cat_view(cat@)[p as int] == pat_view(cat@[p as int]));
                        assert(line_hit(data@, cells@, cat_view(cat@), q, p as int, s, oi));
                    }
                }
                if exists|pp: int, s: int, oi: int|
                    pp < p + 1 && line_hit(data@, cells@, cat_view(cat@), q, pp, s, oi) {
                    let (pp, s, oi) = choose|pp: int, s: int, oi: int|
                        pp < p + 1 && line_hit(data@, cells@, cat_view(cat@), q, pp, s, oi);
                    if pp < p {
                        assert(pre.contains(q));
                    } else {
                        assert(one_pat_hit(data@, cells@, pat_view(cat@[p as int]), q, s, oi));
                    }
                }
            }
        }
        p = p + 1;
    }
}

} // verus!

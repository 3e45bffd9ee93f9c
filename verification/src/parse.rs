use vstd::prelude::*;
use crate::board::{Board, BoardState, ParseError};
use crate::grid::{at, in_bounds};
use crate::square::Square;
use crate::zobrist::{grid_hash, ZobristTable};

verus! {

/// How many newline bytes stand among the first `n` bytes of `s`.
pub open spec fn count_nl(s: Seq<u8>, n: int) -> int
    decreases n,
{
    if n <= 0 {
        0
    } else {
        count_nl(s, n - 1) + if s[n - 1] == 10u8 {
            1int
        } else {
            0int
        }
    }
}

/// How many lines a text describes: one more than its newline count.
pub open spec fn text_lines(s: Seq<u8>) -> int {
    count_nl(s, s.len() as int) + 1
}

/// The position of the first newline at or after `from`, or the text's
/// end if there is none.
pub open spec fn next_nl(s: Seq<u8>, from: int) -> int
    decreases s.len() - from,
{
    if from >= s.len() {
        s.len() as int
    } else if s[from] == 10u8 {
        from
    } else {
        next_nl(s, from + 1)
    }
}

/// Where line `i` starts; one past the text's end once the lines are
/// used up.
pub open spec fn line_start(s: Seq<u8>, i: int) -> int
    decreases i,
{
    if i <= 0 {
        0
    } else {
        let e = next_nl(s, line_start(s, i - 1));
        if e >= s.len() {
            s.len() as int + 1
        } else {
            e + 1
        }
    }
}

/// How many characters line `i` holds.
pub open spec fn line_len_of(s: Seq<u8>, i: int) -> int {
    let st = line_start(s, i);
    let en = next_nl(s, st);
    if en >= st {
        en - st
    } else {
        0
    }
}

/// The cell a text byte stands for: `B` a Black stone, `W` a White one,
/// anything else an empty cell.
pub open spec fn sq_of(b: u8) -> Square {
    if b == 66u8 {
        Square::Black
    } else if b == 87u8 {
        Square::White
    } else {
        Square::Empty
    }
}

/// The cell at (i, j) that a text describes: the j-th character of its
/// i-th line, with missing characters and missing lines read as empty.
pub open spec fn parsed_cell(s: Seq<u8>, i: int, j: int) -> Square {
    if 0 <= j < line_len_of(s, i) {
        sq_of(s[line_start(s, i) + j])
    } else {
        Square::Empty
    }
}

fn sq_of_e(b: u8) -> (r: Square)
    ensures
        r == sq_of(b),
{
    if b == 66 {
        Square::Black
    } else if b == 87 {
        Square::White
    } else {
        Square::Empty
    }
}

fn find_nl(text: &[u8], from: usize) -> (r: usize)
    requires
        from <= text@.len(),
    ensures
        r as int == next_nl(text@, from as int),
        from <= r <= text@.len(),
{
    let n = text.len();
    let mut i = from;
    while i < n
        invariant
            from <= i <= n,
            n == text@.len(),
            next_nl(text@, from as int) == next_nl(text@, i as int),
        decreases n - i,
    {
        if text[i] == 10 {
            return i;
        }
        i = i + 1;
    }
    i
}

impl Board {
    /// Read a board from its text form: 19 lines of 19 characters,
    /// newline-separated, `B` a Black stone, `W` a White one, anything
    /// else empty. Short lines and missing lines are padded with empty
    /// cells; more than 19 lines or a line of more than 19 characters is
    /// a parse error. The capture counters start at zero, the state at
    /// in-progress, and the hash is computed against `t`.
    pub fn from_text(text: &[u8], t: &ZobristTable) -> (r: Result<Board, ParseError>)
        requires
            t.wf(),
        ensures
            text_lines(text@) > 19 ==> r == Result::<Board, ParseError>::Err(
                ParseError::TooManyRows,
            ),
            text_lines(text@) <= 19 && (exists|i: int|
                0 <= i < 19 && line_len_of(text@, i) > 19) ==> r == Result::<
                Board,
                ParseError,
            >::Err(ParseError::RowTooLong),
            text_lines(text@) <= 19 && (forall|i: int|
                0 <= i < 19 ==> line_len_of(text@, i) <= 19) ==> (match r {
                Result::Ok(b) => {
                    &&& b.wf()
                    &&& b.hash_ok(*t)
                    &&& b.b_capture == 0
                    &&& b.w_capture == 0
                    &&& b.game_state == BoardState::InProgress
                    &&& forall|i: int, j: int|
                        in_bounds(i, j) ==> at(b.grid(), i, j) == parsed_cell(text@, i, j)
                },
                Result::Err(_) => false,
            }),
    {
        let n = text.len();
        let mut nl: usize = 0;
        let mut idx: usize = 0;
        while idx < n
            invariant
                idx <= n,
                n == text@.len(),
                nl <= idx,
                nl as int == count_nl(text@, idx as int),
            decreases n - idx,
        {
            if text[idx] == 10 {
                nl = nl + 1;
            }
            idx = idx + 1;
        }
        if nl > 18 {
            return Err(ParseError::TooManyRows);
        }
        proof {
            assert(text_lines(text@) <= 19);
        }
        let mut rows: Vec<Vec<Square>> = Vec::new();
        let mut start: usize = 0;
        let mut done = false;
        let mut i: usize = 0;
        while i < 19
            invariant
                i <= 19,
                n == text@.len(),
                t.wf(),
                text_lines(text@) <= 19,
                rows@.len() == i,
                forall|a: int| 0 <= a < i ==> line_len_of(text@, a) <= 19,
                !done ==> start as int == line_start(text@, i as int) && start <= n,
                done ==> line_start(text@, i as int) > n,
                forall|a: int| 0 <= a < i ==> (#[trigger] rows@[a])@.len() == 19,
                forall|a: int, b: int|
                    0 <= a < i && 0 <= b < 19 ==> #[trigger] rows@[a]@[b] == parsed_cell(
                        text@,
                        a,
                        b,
                    ),
            decreases 19 - i,
        {
            let mut row: Vec<Square> = Vec::new();
            if !done {
                let end = find_nl(text, start);
                if end - start > 19 {
                    proof {
                        assert(line_len_of(text@, i as int) == end - start);
                    }
                    return Err(ParseError::RowTooLong);
                }
                let mut j: usize = 0;
                while j < 19
                    invariant
                        j <= 19,
                        n == text@.len(),
                        start as int == line_start(text@, i as int),
                        start <= n,
                        end as int == next_nl(text@, start as int),
                        start <= end <= n,
                        end - start <= 19,
                        row@.len() == j,
                        forall|b: int|
                            0 <= b < j ==> #[trigger] row@[b] == parsed_cell(text@, i as int, b),
                    decreases 19 - j,
                {
                    if j < end - start {
                        row.push(sq_of_e(text[start + j]));
                    } else {
                        row.push(Square::Empty);
                    }
                    j = j + 1;
                }
                proof {
                    assert(line_len_of(text@, i as int) <= 19);
                }
                if end >= n {
                    done = true;
                } else {
                    start = end + 1;
                }
            } else {
                proof {
                    assert(next_nl(text@, line_start(text@, i as int)) == n);
                    assert(line_len_of(text@, i as int) == 0);
                }
                let mut j: usize = 0;
                while j < 19
                    invariant
                        j <= 19,
                        row@.len() == j,
                        line_len_of(text@, i as int) == 0,
                        forall|b: int|
                            0 <= b < j ==> #[trigger] row@[b] == parsed_cell(text@, i as int, b),
                    decreases 19 - j,
                {
                    row.push(Square::Empty);
                    j = j + 1;
                }
            }
            rows.push(row);
            i = i + 1;
        }
        let mut b = Board {
            state: rows,
            b_capture: 0,
            w_capture: 0,
            game_state: BoardState::InProgress,
            hash: 0,
        };
        proof {
            assert(crate::grid::grid_wf(b.grid()));
        }
        b.generate_hash(t);
        proof {
            let gh = grid_hash(*t, b.grid());
            assert(0u64 ^ gh == gh) by (bit_vector);
            assert forall|i: int, j: int| in_bounds(i, j) implies at(b.grid(), i, j)
                == parsed_cell(text@, i, j) by {
                assert(b.grid()[i] == b.state@[i]@);
            }
        }
        Ok(b)
    }
}

} // verus!

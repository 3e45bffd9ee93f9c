use std::collections::HashMap;
use vstd::prelude::*;
use crate::board::{legal_placement, Board, Move};
use crate::check::eval_spec;
use crate::clock::{duration_millis, instant_elapsed};
use crate::grid::{at, grid_wf};
use crate::square::Square;
use crate::zobrist::ZobristTable;

verus! {

broadcast use vstd::std_specs::hash::group_hash_axioms;

/// The value a completed search node carries: the best score seen and
/// the move that realises it. At the root the position names the chosen
/// cell, and is `None` only when the node had no legal candidate; inside
/// the tree it echoes the move that led to the node.
#[derive(Debug)]
pub struct Decision {
    pub score: i32,
    pub pos: Option<(usize, usize)>,
}

/// The explicit outcome of one search invocation: either the time
/// budget ran out somewhere in this subtree — `TimedOut` unwinds every
/// frame above without contributing a value — or the node completed and
/// carries its decision.
#[derive(Debug)]
pub enum SearchOutcome {
    TimedOut,
    Completed(Decision),
}

/// One transposition-table entry: a score for a position already
/// searched, how deep that search went, and what kind of bound the score
/// is. Entries are keyed by the board's stone hash alone, which covers
/// cell contents and not the capture counters: two boards equal in
/// stones but different in captures share a key, so a cached score can
/// answer either of them.
#[derive(Clone, Copy, Debug)]
pub struct TTEntry {
    pub score: i32,
    pub tttype: TTType,
    pub depth: usize,
}

/// Whether a cached score is exact or only bounds the true value.
#[derive(Clone, Copy, Debug)]
pub enum TTType {
    ExactValue,
    Lowerbound,
    Upperbound,
}

/// How a finished node's score is classified against the window the node
/// was entered with: a score at or below alpha only bounds the true value
/// from above (fail-low), one at or above beta only from below
/// (fail-high), and anything inside the window is exact.
pub open spec fn bound_kind(value: int, alpha: int, beta: int) -> TTType {
    if value <= alpha {
        TTType::Upperbound
    } else if value >= beta {
        TTType::Lowerbound
    } else {
        TTType::ExactValue
    }
}

/// The table answers this node outright: it holds an exact score for the
/// position, searched at least as deep.
pub open spec fn tt_exact_hit(m: Map<u64, TTEntry>, h: u64, depth: usize) -> bool {
    &&& m.contains_key(h)
    &&& m[h].depth >= depth
    &&& m[h].tttype is ExactValue
}

/// The table's bound for this position, searched at least as deep,
/// tightens the entry window shut: the node returns the cached score
/// without expanding.
pub open spec fn tt_window_cut(
    m: Map<u64, TTEntry>,
    h: u64,
    depth: usize,
    alpha: int,
    beta: int,
) -> bool {
    &&& m.contains_key(h)
    &&& m[h].depth >= depth
    &&& match m[h].tttype {
        TTType::ExactValue => false,
        TTType::Lowerbound => (if m[h].score > alpha {
            m[h].score as int
        } else {
            alpha
        }) >= beta,
        TTType::Upperbound => alpha >= (if m[h].score < beta {
            m[h].score as int
        } else {
            beta
        }),
    }
}

/// The board value that a depth-zero or finished-game node reports: the
/// static evaluation for `player` with the node's side on move.
pub open spec fn leaf_value(board: Board, maximizing_player: bool, player: Square) -> int {
    eval_spec(
        board.grid(),
        board.b_capture as int,
        board.w_capture as int,
        player,
        if maximizing_player {
            player
        } else {
            player.opposite_spec()
        },
    )
}

/// The per-depth killer moves of one search episode: for each depth, up
/// to two positions that caused a pruning cutoff there, tried first in
/// sibling branches. Owned by one episode and never shared.
pub struct SearchSession {
    pub killers: Vec<(Option<(usize, usize)>, Option<(usize, usize)>)>,
}

impl SearchSession {
    pub open spec fn wf(&self) -> bool {
        self.killers@.len() == 12
    }

    pub fn new() -> (s: SearchSession)
        ensures
            s.wf(),
    {
        let mut killers: Vec<(Option<(usize, usize)>, Option<(usize, usize)>)> = Vec::new();
        let mut i: usize = 0;
        while i < 12
            invariant
                i <= 12,
                killers@.len() == i,
            decreases 12 - i,
        {
            killers.push((None, None));
            i = i + 1;
        }
        SearchSession { killers }
    }
}

/// How one new cutoff position joins a depth's killer pair: it fills the
/// first free slot, or displaces the older entry once both are taken.
pub open spec fn killer_push(
    pair: (Option<(usize, usize)>, Option<(usize, usize)>),
    pos: Option<(usize, usize)>,
) -> (Option<(usize, usize)>, Option<(usize, usize)>) {
    match pair {
        (Option::None, Option::None) => (pos, Option::None),
        (Option::Some(p0), Option::None) => (Option::Some(p0), pos),
        (p0, Option::Some(_)) => (pos, p0),
    }
}

/// The stored killer hints of one depth, in slot order.
pub open spec fn killer_prefix(
    pair: (Option<(usize, usize)>, Option<(usize, usize)>),
) -> Seq<(usize, usize)> {
    match pair {
        (Option::None, Option::None) => Seq::empty(),
        (Option::Some(p), Option::None) => seq![p],
        (Option::None, Option::Some(p)) => seq![p],
        (Option::Some(p), Option::Some(p2)) => seq![p, p2],
    }
}

/// Record `pos` as a killer move for `depth`.
fn add_killer_move(pos: Option<(usize, usize)>, depth: usize, session: &mut SearchSession)
    requires
        old(session).wf(),
        depth < 12,
    ensures
        final(session).wf(),
        final(session).killers@ == old(session).killers@.update(
            depth as int,
            killer_push(old(session).killers@[depth as int], pos),
        ),
{
    let pair = session.killers[depth];
    let next = match pair {
        (None, None) => (pos, None),
        (Some(p0), None) => (Some(p0), pos),
        (p0, Some(_)) => (pos, p0),
    };
    session.killers.set(depth, next);
}

/// The candidate positions tried at one node: this depth's killer hints
/// first, in slot order, then the board's candidate list.
fn get_plays(
    board: &Board,
    color: &Square,
    depth: usize,
    session: &SearchSession,
) -> (r: Vec<(usize, usize)>)
    requires
        grid_wf(board.grid()),
        session.wf(),
        depth < 12,
    ensures
        ({
            let kp = killer_prefix(session.killers@[depth as int]);
            &&& r@.len() >= kp.len()
            &&& r@.take(kp.len() as int) == kp
            &&& forall|q: (usize, usize)|
                #[trigger] r@.skip(kp.len() as int).contains(q) <==> board.plays_spec(*color, q)
            &&& r@.skip(kp.len() as int).no_duplicates()
        }),
{
    let ghost kp = killer_prefix(session.killers@[depth as int]);
    let mut v: Vec<(usize, usize)> = Vec::new();
    match session.killers[depth] {
        (None, None) => {},
        (Some(pos), None) | (None, Some(pos)) => {
            v.push(pos);
        },
        (Some(pos), Some(pos2)) => {
            v.push(pos);
            v.push(pos2);
        },
    }
    proof {
        assert(v@ =~= kp);
    }
    let plays = board.get_plays(color);
    let n = plays.len();
    let mut idx: usize = 0;
    while idx < n
        invariant
            idx <= n,
            n == plays@.len(),
            v@ == kp + plays@.take(idx as int),
        decreases n - idx,
    {
        v.push(plays[idx]);
        proof {
            assert(kp + plays@.take(idx as int + 1) =~= (kp + plays@.take(idx as int)).push(
                plays@[idx as int],
            ));
        }
        idx = idx + 1;
    }
    proof {
        assert(plays@.take(n as int) =~= plays@);
        assert(v@.take(kp.len() as int) =~= kp);
        assert(v@.skip(kp.len() as int) =~= plays@);
    }
    v
}

/// No candidate that a node would try — a killer hint stored for its
/// depth or a member of the board's candidate list for the side to move
/// — is a placement the rules accept: the node has nothing to expand.
pub open spec fn no_legal_candidate(
    board: Board,
    killers: (Option<(usize, usize)>, Option<(usize, usize)>),
    mover: Square,
) -> bool {
    forall|q: (usize, usize)|
        (killer_prefix(killers).contains(q) || board.plays_spec(mover, q))
            ==> !legal_placement(board, q, mover)
}

/// Has the episode that started at `start` used up its time budget? The
/// wall clock decides; only a zero budget is spent on every outcome.
fn past_deadline(start: &std::time::Instant, budget_ms: u128) -> (r: bool)
    ensures
        budget_ms == 0 ==> r,
{
    duration_millis(&instant_elapsed(start)) >= budget_ms
}

/// Depth-limited minimax with alpha-beta pruning over the boards that
/// `play_at` produces, a transposition table keyed by position hash, and
/// killer-move ordering. This entry point reads the wall clock once and
/// hands the outcome to `minimax_node`, which fixes the result for each
/// value of it; the clock is read afresh at every node of the recursion,
/// so a subtree can still time out below. `TimedOut` unwinds the whole
/// episode; a completed node's position echoes `prev_play` inside the
/// tree and names the chosen empty cell at the root.
pub fn minimax(
    board: &Board,
    depth: usize,
    alpha: i32,
    beta: i32,
    maximizing_player: bool,
    prev_play: Option<(usize, usize)>,
    player: &Square,
    start: &std::time::Instant,
    budget_ms: u128,
    ttmap: &mut HashMap<u64, TTEntry>,
    session: &mut SearchSession,
    t: &ZobristTable,
) -> (r: SearchOutcome)
    requires
        board.wf(),
        board.hash_ok(*t),
        t.wf(),
        old(session).wf(),
        depth <= 12,
        maximizing_player || depth <= 11,
        board.b_capture + 16 * depth + 16 <= 0x7fff_ffff,
        board.w_capture + 16 * depth + 16 <= 0x7fff_ffff,
    ensures
        final(session).wf(),
        forall|k: u64| old(ttmap)@.contains_key(k) ==> final(ttmap)@.contains_key(k),
        budget_ms == 0 ==> r is TimedOut && *final(ttmap) == *old(ttmap) && *final(session)
            == *old(session),
        prev_play is Some ==> (r matches SearchOutcome::Completed(d) ==> d.pos == prev_play),
        prev_play is None ==> (r matches SearchOutcome::Completed(d) ==> (d.pos matches Some(p)
            ==> p.0 < 19 && p.1 < 19 && at(board.grid(), p.0 as int, p.1 as int)
            == Square::Empty)),
        depth == 0 || board.game_state is Victory || board.game_state is Draw ==> ((r is TimedOut
            && *final(ttmap) == *old(ttmap)) || (r matches SearchOutcome::Completed(d)
            && d.score as int == leaf_value(*board, maximizing_player, *player) && d.pos
            == prev_play && final(ttmap)@ == old(ttmap)@.insert(
            board.hash,
            (TTEntry {
                score: d.score,
                tttype: bound_kind(d.score as int, alpha as int, beta as int),
                depth,
            }),
        ))),
        !(depth == 0 || board.game_state is Victory || board.game_state is Draw) && tt_exact_hit(
            old(ttmap)@,
            board.hash,
            depth,
        ) ==> *final(ttmap) == *old(ttmap) && (r is TimedOut || (r matches
        SearchOutcome::Completed(d) && d.score == old(ttmap)@[board.hash].score && d.pos
            == prev_play)),
        depth == 1 && maximizing_player && prev_play is None ==> (r matches
        SearchOutcome::Completed(d) ==> (d.pos matches Some(p) ==> exists|m: Move|
            {
                &&& board.play_spec(Some(p), *player, *t, m)
                &&& m matches Move::Legal(nb, q, c, e) && d.score as int == leaf_value(
                    nb,
                    false,
                    *player,
                )
            })),
        !(depth == 0 || board.game_state is Victory || board.game_state is Draw)
            && !tt_exact_hit(old(ttmap)@, board.hash, depth) && !tt_window_cut(
            old(ttmap)@,
            board.hash,
            depth,
            alpha as int,
            beta as int,
        ) && no_legal_candidate(
            *board,
            old(session).killers@[depth as int - 1],
            if maximizing_player {
                *player
            } else {
                player.opposite_spec()
            },
        ) ==> (r is TimedOut || (r matches SearchOutcome::Completed(d) && d.pos == prev_play
            && d.score == (if maximizing_player {
            i32::MIN
        } else {
            i32::MAX
        }))),
    decreases depth, 1int,
{
    let late = past_deadline(start, budget_ms);
    minimax_node(
        board,
        depth,
        alpha,
        beta,
        maximizing_player,
        prev_play,
        player,
        late,
        start,
        budget_ms,
        ttmap,
        session,
        t,
    )
}

/// One search node, given the clock's verdict `late` for this node as an
/// argument, so that the result is fixed for each value the clock can
/// produce: a late node answers `TimedOut` and touches nothing; an
/// on-time depth-zero or finished-game node completes with the static
/// evaluation and caches it against the entry window; an on-time node
/// the table answers exactly, or whose cached bound shuts the entry
/// window, completes with the cached score and writes nothing; any
/// other on-time node expands its candidates and either caches and
/// returns its backed-up value or passes a subtree's `TimedOut` on
/// unchanged. Table entries are only ever inserted or overwritten,
/// never removed.
#[verifier::rlimit(100)]
pub fn minimax_node(
    board: &Board,
    depth: usize,
    alpha: i32,
    beta: i32,
    maximizing_player: bool,
    prev_play: Option<(usize, usize)>,
    player: &Square,
    late: bool,
    start: &std::time::Instant,
    budget_ms: u128,
    ttmap: &mut HashMap<u64, TTEntry>,
    session: &mut SearchSession,
    t: &ZobristTable,
) -> (r: SearchOutcome)
    requires
        board.wf(),
        board.hash_ok(*t),
        t.wf(),
        old(session).wf(),
        depth <= 12,
        maximizing_player || depth <= 11,
        board.b_capture + 16 * depth + 16 <= 0x7fff_ffff,
        board.w_capture + 16 * depth + 16 <= 0x7fff_ffff,
    ensures
        final(session).wf(),
        forall|k: u64| old(ttmap)@.contains_key(k) ==> final(ttmap)@.contains_key(k),
        late ==> r is TimedOut && *final(ttmap) == *old(ttmap) && *final(session)
            == *old(session),
        prev_play is Some ==> (r matches SearchOutcome::Completed(d) ==> d.pos == prev_play),
        prev_play is None ==> (r matches SearchOutcome::Completed(d) ==> (d.pos matches Some(p)
            ==> p.0 < 19 && p.1 < 19 && at(board.grid(), p.0 as int, p.1 as int)
            == Square::Empty)),
        !late && (depth == 0 || board.game_state is Victory || board.game_state is Draw) ==> (r
            matches SearchOutcome::Completed(d) && d.score as int == leaf_value(
            *board,
            maximizing_player,
            *player,
        ) && d.pos == prev_play && final(ttmap)@ == old(ttmap)@.insert(
            board.hash,
            (TTEntry {
                score: d.score,
                tttype: bound_kind(d.score as int, alpha as int, beta as int),
                depth,
            }),
        ) && *final(session) == *old(session)),
        !late && !(depth == 0 || board.game_state is Victory || board.game_state is Draw)
            && tt_exact_hit(old(ttmap)@, board.hash, depth) ==> (r matches
        SearchOutcome::Completed(d) && d.score == old(ttmap)@[board.hash].score && d.pos
            == prev_play && *final(ttmap) == *old(ttmap) && *final(session) == *old(session)),
        !late && !(depth == 0 || board.game_state is Victory || board.game_state is Draw)
            && !tt_exact_hit(old(ttmap)@, board.hash, depth) && tt_window_cut(
            old(ttmap)@,
            board.hash,
            depth,
            alpha as int,
            beta as int,
        ) ==> (r matches SearchOutcome::Completed(d) && d.score
            == old(ttmap)@[board.hash].score && d.pos == prev_play && *final(ttmap)
            == *old(ttmap) && *final(session) == *old(session)),
        !late && !(depth == 0 || board.game_state is Victory || board.game_state is Draw)
            && !tt_exact_hit(old(ttmap)@, board.hash, depth) && !tt_window_cut(
            old(ttmap)@,
            board.hash,
            depth,
            alpha as int,
            beta as int,
        ) ==> (r is TimedOut || (r matches SearchOutcome::Completed(d)
            && final(ttmap)@.contains_key(board.hash) && final(ttmap)@[board.hash] == (TTEntry {
            score: d.score,
            tttype: bound_kind(d.score as int, alpha as int, beta as int),
            depth,
        }))),
        depth == 1 && maximizing_player && prev_play is None ==> (r matches
        SearchOutcome::Completed(d) ==> (d.pos matches Some(p) ==> exists|m: Move|
            {
                &&& board.play_spec(Some(p), *player, *t, m)
                &&& m matches Move::Legal(nb, q, c, e) && d.score as int == leaf_value(
                    nb,
                    false,
                    *player,
                )
            })),
        !late && !(depth == 0 || board.game_state is Victory || board.game_state is Draw)
            && !tt_exact_hit(old(ttmap)@, board.hash, depth) && !tt_window_cut(
            old(ttmap)@,
            board.hash,
            depth,
            alpha as int,
            beta as int,
        ) && no_legal_candidate(
            *board,
            old(session).killers@[depth as int - 1],
            if maximizing_player {
                *player
            } else {
                player.opposite_spec()
            },
        ) ==> (r matches SearchOutcome::Completed(d) && d.pos == prev_play && d.score == (
        if maximizing_player {
            i32::MIN
        } else {
            i32::MAX
        })),
    decreases depth, 0int,
{
    // Time budget exhausted: unwind the whole episode.
    if late {
        return SearchOutcome::TimedOut;
    }
    let current_color = if maximizing_player {
        *player
    } else {
        player.opposite()
    };
    // Depth exhausted or game over: score the board as it stands.
    if depth == 0 || board.is_terminal() {
        let value = board.evaluation(player, &current_color);
        store_entry(ttmap, board.hash, value, alpha, beta, depth);
        return SearchOutcome::Completed(Decision { score: value, pos: prev_play });
    }
    let mut a = alpha;
    let mut b = beta;
    // Transposition lookup: a cached score searched at least this deep
    // either answers the node or tightens the window.
    let mut tt_cut = false;
    let mut tt_score: i32 = 0;
    match ttmap.get(&board.hash) {
        Some(e) => {
            if e.depth >= depth {
                match e.tttype {
                    TTType::ExactValue => {
                        return SearchOutcome::Completed(
                            Decision { score: e.score, pos: prev_play },
                        );
                    },
                    TTType::Lowerbound => {
                        if e.score > a {
                            a = e.score;
                        }
                    },
                    TTType::Upperbound => {
                        if e.score < b {
                            b = e.score;
                        }
                    },
                }
                if a >= b {
                    tt_cut = true;
                    tt_score = e.score;
                }
            }
        },
        None => {},
    }
    if tt_cut {
        proof {
            assert(tt_window_cut(old(ttmap)@, board.hash, depth, alpha as int, beta as int));
        }
        return SearchOutcome::Completed(Decision { score: tt_score, pos: prev_play });
    }
    proof {
        assert(!tt_exact_hit(old(ttmap)@, board.hash, depth));
        assert(!tt_window_cut(old(ttmap)@, board.hash, depth, alpha as int, beta as int));
    }
    let ghost ks = old(session).killers@[depth as int - 1];
    proof {
        assert(*session == *old(session));
    }
    let plays = get_plays(board, &current_color, depth - 1, session);
    let n = plays.len();
    let mut v = Decision { score: if maximizing_player {
        i32::MIN
    } else {
        i32::MAX
    }, pos: None };
    let mut idx: usize = 0;
    let mut cut = false;
    while idx < n && !cut
        invariant
            n == plays@.len(),
            idx <= n,
            board.wf(),
            board.hash_ok(*t),
            t.wf(),
            session.wf(),
            1 <= depth <= 12,
            maximizing_player || depth <= 11,
            board.b_capture + 16 * depth + 16 <= 0x7fff_ffff,
            board.w_capture + 16 * depth + 16 <= 0x7fff_ffff,
            current_color == (if maximizing_player {
                *player
            } else {
                player.opposite_spec()
            }),
            !late,
            !(board.game_state is Victory || board.game_state is Draw),
            !tt_exact_hit(old(ttmap)@, board.hash, depth),
            !tt_window_cut(old(ttmap)@, board.hash, depth, alpha as int, beta as int),
            forall|k: u64| old(ttmap)@.contains_key(k) ==> ttmap@.contains_key(k),
            v.pos matches Some(p) ==> p.0 < 19 && p.1 < 19 && at(
                board.grid(),
                p.0 as int,
                p.1 as int,
            ) == Square::Empty,
            depth == 1 && maximizing_player && prev_play is None ==> (v.pos matches Some(p)
                ==> exists|m: Move|
                {
                    &&& board.play_spec(Some(p), *player, *t, m)
                    &&& m matches Move::Legal(nb, q, c, e) && v.score as int == leaf_value(
                        nb,
                        false,
                        *player,
                    )
                }),
            ks == old(session).killers@[depth as int - 1],
            plays@.len() >= killer_prefix(ks).len(),
            plays@.take(killer_prefix(ks).len() as int) == killer_prefix(ks),
            forall|q: (usize, usize)|
                #[trigger] plays@.skip(killer_prefix(ks).len() as int).contains(q)
                    <==> board.plays_spec(current_color, q),
            no_legal_candidate(*board, ks, current_color) ==> v.score == (if maximizing_player {
                i32::MIN
            } else {
                i32::MAX
            }) && v.pos is None && !cut,
        decreases n - idx,
    {
        let pos = plays[idx];
        proof {
            if no_legal_candidate(*board, ks, current_color) {
                let kpl = killer_prefix(ks).len() as int;
                assert(plays@.take(kpl).len() == killer_prefix(ks).len());
                assert(kpl <= plays@.len());
                if (idx as int) < kpl {
                    assert(plays@.take(kpl)[idx as int] == plays@[idx as int]);
                    assert(killer_prefix(ks)[idx as int] == plays@[idx as int]);
                    assert(killer_prefix(ks).contains(plays@[idx as int]));
                } else {
                    assert(plays@.skip(kpl)[idx as int - kpl] == plays@[idx as int]);
                    assert(plays@.skip(kpl).contains(plays@[idx as int]));
                    assert(board.plays_spec(current_color, plays@[idx as int]));
                }
                assert(!legal_placement(*board, plays@[idx as int], current_color));
            }
        }
        let outcome = board.play_at(Some(pos), &current_color, start, t);
        let ghost gmv = outcome;
        match outcome {
            Move::Legal(child, _, _, _) => {
                proof {
                    if no_legal_candidate(*board, ks, current_color) {
                        assert(legal_placement(*board, pos, current_color));
                        assert(false);
                    }
                    assert(at(board.grid(), pos.0 as int, pos.1 as int) == Square::Empty);
                    crate::check::lemma_capture_count_bounds(
                        crate::grid::put(
                            board.grid(),
                            pos.0 as int,
                            pos.1 as int,
                            current_color,
                        ),
                        current_color,
                        pos.0 as int,
                        pos.1 as int,
                        8,
                    );
                }
                let child_outcome = minimax(
                    &child,
                    depth - 1,
                    a,
                    b,
                    !maximizing_player,
                    Some(pos),
                    player,
                    start,
                    budget_ms,
                    ttmap,
                    session,
                    t,
                );
                let decision = match child_outcome {
                    SearchOutcome::TimedOut => {
                        return SearchOutcome::TimedOut;
                    },
                    SearchOutcome::Completed(dec) => dec,
                };
                if maximizing_player {
                    if decision.score > v.score {
                        v = decision;
                        proof {
                            if depth == 1 && prev_play is None {
                                assert(board.play_spec(Some(pos), *player, *t, gmv));
                                assert(gmv matches Move::Legal(nb, q, c, e) && v.score as int
                                    == leaf_value(nb, false, *player));
                            }
                        }
                    }
                    if v.score > a {
                        a = v.score;
                    }
                    if a >= b {
                        add_killer_move(v.pos, depth - 1, session);
                        cut = true;
                    }
                } else {
                    if decision.score < v.score {
                        v = decision;
                    }
                    if v.score < b {
                        b = v.score;
                    }
                    if b <= a {
                        add_killer_move(v.pos, depth, session);
                        cut = true;
                    }
                }
            },
            _ => {},
        }
        idx = idx + 1;
    }
    store_entry(ttmap, board.hash, v.score, alpha, beta, depth);
    SearchOutcome::Completed(
        Decision {
            score: v.score,
            pos: if prev_play.is_none() {
                v.pos
            } else {
                prev_play
            },
        },
    )
}

/// Cache a node's score under the position's hash, classified against
/// the window the node was entered with; an existing entry for the hash
/// is overwritten, every other entry stays.
fn store_entry(
    ttmap: &mut HashMap<u64, TTEntry>,
    hash: u64,
    value: i32,
    alpha: i32,
    beta: i32,
    depth: usize,
)
    ensures
        final(ttmap)@ == old(ttmap)@.insert(
            hash,
            (TTEntry {
                score: value,
                tttype: bound_kind(value as int, alpha as int, beta as int),
                depth,
            }),
        ),
{
    let tttype = if value <= alpha {
        TTType::Upperbound
    } else if value >= beta {
        TTType::Lowerbound
    } else {
        TTType::ExactValue
    };
    ttmap.insert(hash, TTEntry { score: value, tttype, depth });
}

} // verus!

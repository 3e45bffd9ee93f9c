use std::collections::HashMap;
use vstd::prelude::*;
use crate::board::{Board, Move};
use crate::clock::now_instant;
use crate::grid::at;
use crate::minimax::{minimax, SearchOutcome, SearchSession, TTEntry};
use crate::square::Square;
use crate::zobrist::ZobristTable;

verus! {

/// One side of the game: its stone color and whether the computer plays
/// it.
#[derive(Clone, Copy, Debug, PartialEq, Eq, Structural)]
pub struct Player {
    pub color: Square,
    pub is_ai: bool,
}

/// What one asynchronous search episode hands back: the chosen position,
/// the transposition table as the episode grew it, and the instant the
/// episode started.
pub struct AiDecision {
    pub pos: Option<(usize, usize)>,
    pub map: HashMap<u64, TTEntry>,
    pub start: std::time::Instant,
}

/// A running game: the current board, the two players, whose turn it is,
/// the last move's outcome, the transposition table kept across the
/// session, and the session's position-hash table.
pub struct Game {
    pub board: Board,
    pub players: Vec<Player>,
    pub current_player: Player,
    pub last_move: Option<Move>,
    pub map: HashMap<u64, TTEntry>,
    pub table: ZobristTable,
}

impl Game {
    /// Session invariant: a well-formed board whose hash agrees with the
    /// session's table, and two players of opposite colors, one of whom
    /// is on move.
    pub open spec fn wf(&self) -> bool {
        &&& self.board.wf()
        &&& self.table.wf()
        &&& self.board.hash_ok(self.table)
        &&& self.players@.len() == 2
        &&& self.players@[0].color != Square::Empty
        &&& self.players@[1].color == self.players@[0].color.opposite_spec()
        &&& (self.current_player == self.players@[0] || self.current_player == self.players@[1])
    }

    /// A fresh game on an empty board: a random toss decides who takes
    /// Black; `ai_player` says whether the computer plays the first side.
    pub fn new(ai_player: bool) -> (g: Game)
        ensures
            g.wf(),
            g.board.b_capture == 0,
            g.board.w_capture == 0,
            g.board.game_state == crate::board::BoardState::InProgress,
            g.last_move is None,
            g.players@[0].is_ai == ai_player,
            g.players@[1].is_ai == false,
            forall|i: int, j: int|
                crate::grid::in_bounds(i, j) ==> at(g.board.grid(), i, j) == Square::Empty,
    {
        let table = ZobristTable::generate();
        let toss = crate::zobrist::random_u64() % 2;
        let player_1 = Player {
            color: if toss == 0 {
                Square::Black
            } else {
                Square::White
            },
            is_ai: ai_player,
        };
        let player_2 = Player {
            color: if toss == 0 {
                Square::White
            } else {
                Square::Black
            },
            is_ai: false,
        };
        let mut players: Vec<Player> = Vec::new();
        players.push(player_1);
        players.push(player_2);
        let current_player = if toss == 0 {
            player_1
        } else {
            player_2
        };
        Game {
            board: Board::new(),
            players,
            current_player,
            last_move: None,
            map: HashMap::new(),
            table,
        }
    }

    /// The iterative-deepening driver of one search episode: run the
    /// full search at depth 1, 2, ... up to 12 within one time budget,
    /// and keep the deepest fully completed answer. `None` comes back
    /// only when not even depth 1 finished in budget — in particular
    /// whenever the budget is already spent.
    pub fn get_input_ai(
        board: &Board,
        player: &Square,
        ttmap: &mut HashMap<u64, TTEntry>,
        t: &ZobristTable,
        now: &std::time::Instant,
        budget_ms: u128,
    ) -> (r: Option<(usize, usize)>)
        requires
            board.wf(),
            board.hash_ok(*t),
            t.wf(),
            board.b_capture + 224 <= 0x7fff_ffff,
            board.w_capture + 224 <= 0x7fff_ffff,
        ensures
            budget_ms == 0 ==> r is None && *final(ttmap) == *old(ttmap),
            forall|k: u64| old(ttmap)@.contains_key(k) ==> final(ttmap)@.contains_key(k),
            r matches Some(p) ==> p.0 < 19 && p.1 < 19 && at(
                board.grid(),
                p.0 as int,
                p.1 as int,
            ) == Square::Empty,
    {
        let mut session = SearchSession::new();
        let mut prev: Option<(usize, usize)> = None;
        let mut depth: usize = 1;
        let mut stop = false;
        while depth < 13 && !stop
            invariant
                1 <= depth <= 13,
                session.wf(),
                board.wf(),
                board.hash_ok(*t),
                t.wf(),
                board.b_capture + 224 <= 0x7fff_ffff,
                board.w_capture + 224 <= 0x7fff_ffff,
                forall|k: u64| old(ttmap)@.contains_key(k) ==> ttmap@.contains_key(k),
                budget_ms == 0 ==> prev is None && *ttmap == *old(ttmap),
                prev matches Some(p) ==> p.0 < 19 && p.1 < 19 && at(
                    board.grid(),
                    p.0 as int,
                    p.1 as int,
                ) == Square::Empty,
            decreases 13 - depth,
        {
            let outcome = minimax(
                board,
                depth,
                i32::MIN,
                i32::MAX,
                true,
                None,
                player,
                now,
                budget_ms,
                ttmap,
                &mut session,
                t,
            );
            match outcome {
                SearchOutcome::TimedOut => {
                    stop = true;
                },
                SearchOutcome::Completed(dec) => {
                    match dec.pos {
                        None => {
                            stop = true;
                        },
                        Some(p) => {
                            prev = Some(p);
                        },
                    }
                },
            }
            depth = depth + 1;
        }
        prev
    }

    /// How one committed move outcome `m` carries a game from `pre` to
    /// `post` (the cached transposition table aside): a legal move
    /// installs its new board, hands the turn to the other player and is
    /// recorded as the last move, with an equal board inside the record;
    /// any rejection leaves board and turn unchanged and records the
    /// outcome itself.
    pub open spec fn move_applied(pre: Game, post: Game, m: Move) -> bool {
        &&& post.players == pre.players
        &&& post.table == pre.table
        &&& match m {
            Move::Legal(nb, p, c, e) => {
                &&& post.board == nb
                &&& post.current_player == (if pre.current_player == pre.players@[0] {
                    pre.players@[1]
                } else {
                    pre.players@[0]
                })
                &&& match post.last_move {
                    Some(m2) => match m2 {
                        Move::Legal(b2, p2, c2, e2) => {
                            &&& b2.grid() == nb.grid()
                            &&& b2.b_capture == nb.b_capture
                            &&& b2.w_capture == nb.w_capture
                            &&& b2.game_state == nb.game_state
                            &&& b2.hash == nb.hash
                            &&& p2 == p
                            &&& c2 == c
                            &&& e2 == e
                        },
                        _ => false,
                    },
                    None => false,
                }
            },
            _ => {
                &&& post.board == pre.board
                &&& post.current_player == pre.current_player
                &&& post.last_move == Some(m)
            },
        }
    }

    /// Take delivery of a finished search episode, if one has arrived:
    /// play its position as the current player's move and adopt the
    /// transposition table the episode grew.
    pub fn update(&mut self, decision: Option<AiDecision>)
        requires
            old(self).wf(),
            old(self).board.b_capture + 16 <= usize::MAX,
            old(self).board.w_capture + 16 <= usize::MAX,
        ensures
            final(self).wf(),
            decision is None ==> *final(self) == *old(self),
            decision matches Some(d) ==> final(self).map == d.map && (exists|m: Move|
                old(self).board.play_spec(d.pos, old(self).current_player.color, old(self).table, m)
                    && Game::move_applied(*old(self), *final(self), m)),
            final(self).players == old(self).players,
            final(self).table == old(self).table,
    {
        match decision {
            Some(d) => {
                let player_move = self.board.play_at(
                    d.pos,
                    &self.current_player.color,
                    &d.start,
                    &self.table,
                );
                let ghost gm = player_move;
                self.map = d.map;
                self.apply_move(player_move);
                proof {
                    assert(old(self).board.play_spec(
                        d.pos,
                        old(self).current_player.color,
                        old(self).table,
                        gm,
                    ) && Game::move_applied(*old(self), *self, gm));
                }
            },
            None => {},
        }
    }

    /// Commit one move outcome: a legal move installs its new board and
    /// hands the turn to the other player; any rejection leaves board
    /// and turn unchanged. Either way the outcome is recorded as the
    /// last move.
    pub fn apply_move(&mut self, player_move: Move)
        requires
            old(self).wf(),
            player_move matches Move::Legal(nb, p, c, e) ==> nb.wf() && nb.hash_ok(
                old(self).table,
            ),
        ensures
            final(self).wf(),
            Game::move_applied(*old(self), *final(self), player_move),
            final(self).map == old(self).map,
    {
        match player_move {
            Move::Legal(nb, p, c, e) => {
                let nb2 = nb.clone();
                self.board = nb;
                self.last_move = Some(Move::Legal(nb2, p, c, e));
                self.current_player = if self.current_player == self.players[0] {
                    self.players[1]
                } else {
                    self.players[0]
                };
            },
            other => {
                self.last_move = Some(other);
            },
        }
    }

    /// A human placement request: ignored on the computer's turn or
    /// without a position, otherwise played and committed.
    pub fn play(&mut self, pos: Option<(usize, usize)>)
        requires
            old(self).wf(),
            old(self).board.b_capture + 16 <= usize::MAX,
            old(self).board.w_capture + 16 <= usize::MAX,
        ensures
            final(self).wf(),
            old(self).current_player.is_ai ==> *final(self) == *old(self),
            pos is None ==> *final(self) == *old(self),
            !old(self).current_player.is_ai && pos is Some ==> (exists|m: Move|
                old(self).board.play_spec(pos, old(self).current_player.color, old(self).table, m)
                    && Game::move_applied(*old(self), *final(self), m)) && final(self).map == old(
                self,
            ).map,
            final(self).players == old(self).players,
            final(self).table == old(self).table,
    {
        let do_it = !self.current_player.is_ai && pos.is_some();
        if do_it {
            let now = now_instant();
            let player_move = self.board.play_at(
                pos,
                &self.current_player.color,
                &now,
                &self.table,
            );
            let ghost gm = player_move;
            self.apply_move(player_move);
            proof {
                assert(old(self).board.play_spec(
                    pos,
                    old(self).current_player.color,
                    old(self).table,
                    gm,
                ) && Game::move_applied(*old(self), *self, gm));
            }
        }
    }
}

} // verus!

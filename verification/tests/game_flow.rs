use gomoku::board::{Board, BoardState, Move};
use gomoku::game::{AiDecision, Game, Player};
use gomoku::square::Square;
use gomoku::zobrist::ZobristTable;
use std::collections::HashMap;
use std::time::Instant;

fn table() -> ZobristTable {
    let vals: Vec<u64> = (0..722u64).map(|i| (i + 1).wrapping_mul(0x9E3779B97F4A7C15)).collect();
    ZobristTable::from_values(vals).expect("722 values")
}

fn fixed_game(first_is_ai: bool) -> Game {
    let p1 = Player { color: Square::Black, is_ai: first_is_ai };
    let p2 = Player { color: Square::White, is_ai: false };
    Game {
        board: Board::new(),
        players: vec![p1, p2],
        current_player: p1,
        last_move: None,
        map: HashMap::new(),
        table: table(),
    }
}

#[test]
fn new_game_has_two_opposed_players() {
    let g = Game::new(true);
    assert_eq!(g.players.len(), 2);
    assert_eq!(g.players[1].color, g.players[0].color.opposite());
    assert!(g.current_player == g.players[0] || g.current_player == g.players[1]);
    assert_eq!(g.board.game_state, BoardState::InProgress);
    assert!(g.last_move.is_none());
}

#[test]
fn a_human_play_moves_the_turn_on() {
    let mut g = fixed_game(false);
    g.play(Some((5, 5)));
    assert_eq!(g.board.state[5][5], Square::Black);
    assert_eq!(g.current_player, g.players[1]);
    assert!(matches!(g.last_move, Some(Move::Legal(_, (5, 5), Square::Black, _))));
    // the opponent answers
    g.play(Some((5, 6)));
    assert_eq!(g.board.state[5][6], Square::White);
    assert_eq!(g.current_player, g.players[0]);
}

#[test]
fn a_rejected_play_changes_nothing_but_the_record() {
    let mut g = fixed_game(false);
    g.play(Some((5, 5)));
    let hash = g.board.hash;
    g.play(Some((5, 5)));
    assert!(matches!(g.last_move, Some(Move::Illegal)));
    assert_eq!(g.board.hash, hash);
    assert_eq!(g.current_player, g.players[1]);
}

#[test]
fn plays_on_the_computers_turn_are_ignored() {
    let mut g = fixed_game(true);
    g.play(Some((5, 5)));
    assert_eq!(g.board.state[5][5], Square::Empty);
    assert!(g.last_move.is_none());
    assert_eq!(g.current_player, g.players[0]);
}

#[test]
fn update_applies_a_delivered_decision() {
    let mut g = fixed_game(true);
    let decision = AiDecision {
        pos: Some((9, 9)),
        map: HashMap::new(),
        start: Instant::now(),
    };
    g.update(Some(decision));
    assert_eq!(g.board.state[9][9], Square::Black);
    assert_eq!(g.current_player, g.players[1]);
    g.update(None);
    assert_eq!(g.current_player, g.players[1]);
}

#[test]
fn apply_move_records_rejections_without_switching() {
    let mut g = fixed_game(false);
    g.apply_move(Move::OutOfBounds);
    assert!(matches!(g.last_move, Some(Move::OutOfBounds)));
    assert_eq!(g.current_player, g.players[0]);
}

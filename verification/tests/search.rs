use gomoku::board::{Board, Move};
use gomoku::game::Game;
use gomoku::minimax::{minimax, SearchOutcome, SearchSession, TTEntry};
use gomoku::square::Square;
use gomoku::zobrist::ZobristTable;
use std::collections::HashMap;
use std::time::Instant;

fn table() -> ZobristTable {
    let vals: Vec<u64> = (0..722u64).map(|i| (i + 1).wrapping_mul(0x9E3779B97F4A7C15)).collect();
    ZobristTable::from_values(vals).expect("722 values")
}

// A search whose deadline is already spent must come back without a
// position, and the iterative-deepening driver must answer "no move"
// rather than fail.
#[test]
fn zero_budget_returns_no_position() {
    let t = table();
    let b = Board::new();
    let mut map: HashMap<u64, TTEntry> = HashMap::new();
    let mut session = SearchSession::new();
    let d = minimax(
        &b,
        1,
        i32::MIN,
        i32::MAX,
        true,
        None,
        &Square::Black,
        &Instant::now(),
        0,
        &mut map,
        &mut session,
        &t,
    );
    assert!(matches!(d, SearchOutcome::TimedOut));
    let mut map2: HashMap<u64, TTEntry> = HashMap::new();
    let r = Game::get_input_ai(&b, &Square::Black, &mut map2, &t, &Instant::now(), 0);
    assert!(r.is_none());
}

// At depth 1, a capture that brings Black to ten captures outweighs any
// pattern answer: the near-infinite capture term dominates.
#[test]
fn depth_one_search_takes_the_winning_capture() {
    let t = table();
    let mut text = Vec::new();
    for i in 0..19 {
        if i > 0 {
            text.push(b'\n');
        }
        let row: &[u8] = match i {
            0 => b"BWW________________",
            10 => b"__________WWW______",
            _ => b"___________________",
        };
        text.extend_from_slice(row);
    }
    let mut b = Board::from_text(&text, &t).expect("parses");
    b.b_capture = 8;
    let mut map: HashMap<u64, TTEntry> = HashMap::new();
    let mut session = SearchSession::new();
    let d = minimax(
        &b,
        1,
        i32::MIN,
        i32::MAX,
        true,
        None,
        &Square::Black,
        &Instant::now(),
        5000,
        &mut map,
        &mut session,
        &t,
    );
    match d {
        SearchOutcome::Completed(dec) => assert_eq!(dec.pos, Some((0, 3))),
        SearchOutcome::TimedOut => panic!("the depth-one search should finish in budget"),
    }
}

// On an empty board the only root candidate is the center, so the
// driver returns it whenever it has any time at all.
#[test]
fn driver_picks_the_center_on_an_empty_board() {
    let t = table();
    let b = Board::new();
    let mut map: HashMap<u64, TTEntry> = HashMap::new();
    let r = Game::get_input_ai(&b, &Square::Black, &mut map, &t, &Instant::now(), 250);
    assert_eq!(r, Some((9, 9)));
}

// The chosen move of a bounded search is a legal placement.
#[test]
fn search_result_is_playable() {
    let t = table();
    let mut b = Board::new();
    let script = [
        ((9usize, 9usize), Square::Black),
        ((9, 10), Square::White),
        ((10, 10), Square::Black),
    ];
    for (p, c) in script.iter() {
        b = match b.play_at(Some(*p), c, &Instant::now(), &t) {
            Move::Legal(nb, _, _, _) => nb,
            other => panic!("expected legal, got {:?}", other),
        };
    }
    let mut map: HashMap<u64, TTEntry> = HashMap::new();
    let r = Game::get_input_ai(&b, &Square::White, &mut map, &t, &Instant::now(), 250);
    let p = r.expect("some move within budget");
    assert!(p.0 < 19 && p.1 < 19);
    assert_eq!(b.state[p.0][p.1], Square::Empty);
    assert!(matches!(
        b.play_at(Some(p), &Square::White, &Instant::now(), &t),
        Move::Legal(_, _, _, _)
    ));
}

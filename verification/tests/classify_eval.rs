use gomoku::board::{Board, BoardState, Move};
use gomoku::square::Square;
use gomoku::zobrist::ZobristTable;
use std::time::Instant;

fn table() -> ZobristTable {
    let vals: Vec<u64> = (0..722u64).map(|i| (i + 1).wrapping_mul(0x9E3779B97F4A7C15)).collect();
    ZobristTable::from_values(vals).expect("722 values")
}

// A color that reaches ten captures is classified a victory at the next
// classification, whatever the alignments.
#[test]
fn ten_captures_classify_as_victory() {
    let t = table();
    let mut b = Board::from_text(b"B__________________", &t).expect("parses");
    b.b_capture = 10;
    assert_eq!(b.get_game_state((0, 0), &Square::Black), BoardState::Victory(Square::Black));
    assert_eq!(b.get_game_state((0, 0), &Square::White), BoardState::Victory(Square::Black));
    let mut w = Board::from_text(b"W__________________", &t).expect("parses");
    w.w_capture = 10;
    assert_eq!(w.get_game_state((0, 0), &Square::White), BoardState::Victory(Square::White));
}

// A capture that brings the mover to ten wins the game on the spot.
#[test]
fn capture_reaching_ten_wins() {
    let t = table();
    let mut b = Board::from_text(b"B\nW\nW", &t).expect("parses");
    b.b_capture = 8;
    let m = b.play_at(Some((3, 0)), &Square::Black, &Instant::now(), &t);
    match m {
        Move::Legal(nb, _, _, _) => {
            assert_eq!(nb.b_capture, 10);
            assert_eq!(nb.game_state, BoardState::Victory(Square::Black));
        },
        other => panic!("expected legal, got {:?}", other),
    }
}

// Five in a row that an immediate capture can break is provisional;
// without such a capture it is final.
#[test]
fn five_in_a_row_is_provisional_while_breakable() {
    let t = table();
    // column of four black at (5..9, 5), a fifth coming at (9,5); the
    // white stone at (5,4) brackets the pair (5,5),(5,6), so the
    // alignment can be broken by a capture
    let mut text = Vec::new();
    for i in 0..19 {
        if i > 0 {
            text.push(b'\n');
        }
        let row: &[u8] = match i {
            5 => b"____WBB____________",
            6 => b"_____B_____________",
            7 => b"_____B_____________",
            8 => b"_____B_____________",
            _ => b"___________________",
        };
        text.extend_from_slice(row);
    }
    let b = Board::from_text(&text, &t).expect("parses");
    let m = b.play_at(Some((9, 5)), &Square::Black, &Instant::now(), &t);
    match m {
        Move::Legal(nb, _, _, _) => {
            assert_eq!(nb.game_state, BoardState::FiveAligned(Square::Black));
        },
        other => panic!("expected legal, got {:?}", other),
    }
}

#[test]
fn five_in_a_row_without_breaking_capture_wins() {
    let t = table();
    let mut text = Vec::new();
    for i in 0..19 {
        if i > 0 {
            text.push(b'\n');
        }
        let row: &[u8] = match i {
            5 | 6 | 7 | 8 => b"_____B_____________",
            _ => b"___________________",
        };
        text.extend_from_slice(row);
    }
    let b = Board::from_text(&text, &t).expect("parses");
    let m = b.play_at(Some((9, 5)), &Square::Black, &Instant::now(), &t);
    match m {
        Move::Legal(nb, _, _, _) => {
            assert_eq!(nb.game_state, BoardState::Victory(Square::Black));
        },
        other => panic!("expected legal, got {:?}", other),
    }
}

#[test]
fn five_aligned_detects_all_axes() {
    let t = table();
    let b = Board::from_text(
        b"B__________________\n_B_________________\n__B________________\n___B_______________\n____B______________",
        &t,
    )
    .expect("parses");
    assert!(b.five_aligned((2, 2), &Square::Black));
    assert!(!b.five_aligned((2, 2), &Square::White));
    let r = Board::from_text(b"___BBBB____________", &t).expect("parses");
    assert!(!r.five_aligned((0, 4), &Square::Black));
}

// The evaluator's exact arithmetic: an isolated pair scores the two
// open-two templates, 10 points each undamped and 7 each when the
// scored side is not on move; a capture count of eight is worth its
// fourth power.
#[test]
fn evaluation_exact_values() {
    let t = table();
    let empty = Board::new();
    assert_eq!(empty.evaluation(&Square::Black, &Square::Black), 0);
    let b = Board::from_text(
        b"___________________\n___________________\n___________________\n___________________\n___________________\n___________________\n___________________\n___________________\n___________________\n_________BB________",
        &t,
    )
    .expect("parses");
    assert_eq!(b.evaluation(&Square::Black, &Square::Black), 20);
    assert_eq!(b.evaluation(&Square::Black, &Square::White), 14);
    assert_eq!(b.evaluation(&Square::White, &Square::Black), -20);
    let mut c = Board::new();
    c.b_capture = 8;
    assert_eq!(c.evaluation(&Square::Black, &Square::Black), 4096);
    assert_eq!(c.evaluation(&Square::White, &Square::Black), -4096);
}

#[test]
fn full_board_detection() {
    let t = table();
    let b = Board::from_text(b"BW", &t).expect("parses");
    assert!(!b.check_full_board());
    let mut rows = Vec::new();
    for i in 0..19 {
        if i > 0 {
            rows.push(b'\n');
        }
        for j in 0..19 {
            rows.push(if (i + j) % 2 == 0 { b'B' } else { b'W' });
        }
    }
    let full = Board::from_text(&rows, &t).expect("parses");
    assert!(full.check_full_board());
}

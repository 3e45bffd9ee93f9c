use gomoku::board::{Board, Move};
use gomoku::square::Square;
use gomoku::zobrist::ZobristTable;
use std::time::Instant;

fn table() -> ZobristTable {
    let vals: Vec<u64> = (0..722u64).map(|i| (i + 1).wrapping_mul(0x9E3779B97F4A7C15)).collect();
    ZobristTable::from_values(vals).expect("722 values")
}

fn assert_no_duplicates(v: &[(usize, usize)]) {
    for a in 0..v.len() {
        for b in (a + 1)..v.len() {
            assert_ne!(v[a], v[b], "duplicate candidate {:?}", v[a]);
        }
    }
}

#[test]
fn empty_board_offers_the_center() {
    let b = Board::new();
    let plays = b.get_plays(&Square::Black);
    assert_eq!(plays, vec![(9, 9)]);
}

#[test]
fn candidates_have_no_duplicates_and_exist_in_progress() {
    let t = table();
    let b = Board::from_text(b"_________\n____B____\n_____W___", &t).expect("parses");
    for color in [Square::Black, Square::White].iter() {
        let plays = b.get_plays(color);
        assert!(plays.len() >= 1);
        assert_no_duplicates(&plays);
    }
}

// A lone Black stone, White to move with no stones of its own and no
// tactical lines: the candidates are exactly the empty 8-neighbourhood
// of the Black stone.
#[test]
fn candidates_fall_back_to_opponent_neighbourhood() {
    let t = table();
    let mut text = vec![b'_'; 19];
    let mut full = Vec::new();
    for i in 0..19 {
        if i > 0 {
            full.push(b'\n');
        }
        if i == 9 {
            text[9] = b'B';
            full.extend_from_slice(&text);
            text[9] = b'_';
        } else {
            full.extend_from_slice(&text);
        }
    }
    let b = Board::from_text(&full, &t).expect("parses");
    let mut plays = b.get_plays(&Square::White);
    plays.sort();
    let mut expected = vec![
        (8, 8),
        (8, 9),
        (8, 10),
        (9, 8),
        (9, 10),
        (10, 8),
        (10, 9),
        (10, 10),
    ];
    expected.sort();
    assert_eq!(plays, expected);
}

// Black plays (9,9), White (9,10), then Black (8,9), (10,9) and (9,8).
// The three-stone column is now an open tactical line, so White's
// candidates are the threat answers and its one capture placement --
// never an occupied cell, and never a duplicate.
#[test]
fn candidates_after_adjacent_placements() {
    let t = table();
    let mut b = Board::new();
    let script = [
        ((9usize, 9usize), Square::Black),
        ((9, 10), Square::White),
        ((8, 9), Square::Black),
        ((10, 9), Square::Black),
        ((9, 8), Square::Black),
    ];
    for (p, c) in script.iter() {
        b = match b.play_at(Some(*p), c, &Instant::now(), &t) {
            Move::Legal(nb, _, _, _) => nb,
            other => panic!("expected legal at {:?}, got {:?}", p, other),
        };
    }
    let plays = b.get_plays(&Square::White);
    assert_no_duplicates(&plays);
    assert!(plays.len() >= 1);
    for (x, y) in plays.iter() {
        assert_eq!(b.state[*x][*y], Square::Empty, "occupied candidate ({}, {})", x, y);
    }
    // the open-three answers on the column and the capture on the row
    let mut sorted = plays.clone();
    sorted.sort();
    assert_eq!(sorted, vec![(7, 9), (9, 7), (11, 9)]);
}

#[test]
fn threats_report_four_in_a_row_completion() {
    let t = table();
    let b = Board::from_text(b"_BBBB______________", &t).expect("parses");
    let threats = b.check_threats();
    // the row reads _BBBB_: both extension cells answer the line
    assert!(threats.contains(&(0, 0)));
    assert!(threats.contains(&(0, 5)));
}

#[test]
fn capture_positions_report_bracket_completions() {
    let t = table();
    let b = Board::from_text(b"BWW________________", &t).expect("parses");
    let black = b.check_capture_pos(&Square::Black);
    assert!(black.contains(&(0, 3)));
    let white = b.check_capture_pos(&Square::White);
    assert!(white.is_empty());
}

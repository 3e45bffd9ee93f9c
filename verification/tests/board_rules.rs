use gomoku::board::{Board, BoardState, Move};
use gomoku::square::Square;
use gomoku::zobrist::ZobristTable;
use std::time::Instant;

fn table() -> ZobristTable {
    let vals: Vec<u64> = (0..722u64).map(|i| (i + 1).wrapping_mul(0x9E3779B97F4A7C15)).collect();
    ZobristTable::from_values(vals).expect("722 values")
}

#[test]
fn new_board_is_empty_and_in_progress() {
    let b = Board::new();
    assert_eq!(b.b_capture, 0);
    assert_eq!(b.w_capture, 0);
    assert_eq!(b.hash, 0);
    assert_eq!(b.game_state, BoardState::InProgress);
    for i in 0..19 {
        for j in 0..19 {
            assert_eq!(b.state[i][j], Square::Empty);
        }
    }
}

#[test]
fn opposite_swaps_colors() {
    assert_eq!(Square::Black.opposite(), Square::White);
    assert_eq!(Square::White.opposite(), Square::Black);
    assert_eq!(Square::Empty.opposite(), Square::Empty);
}

#[test]
fn play_at_rejects_out_of_bounds() {
    let t = table();
    let b = Board::new();
    let m = b.play_at(Some((19, 0)), &Square::Black, &Instant::now(), &t);
    assert!(matches!(m, Move::OutOfBounds));
    let m = b.play_at(Some((0, 19)), &Square::Black, &Instant::now(), &t);
    assert!(matches!(m, Move::OutOfBounds));
}

#[test]
fn play_at_rejects_occupied_cell() {
    let t = table();
    let b = Board::new();
    let first = b.play_at(Some((3, 3)), &Square::Black, &Instant::now(), &t);
    let b2 = match first {
        Move::Legal(nb, _, _, _) => nb,
        _ => panic!("expected a legal placement"),
    };
    let m = b2.play_at(Some((3, 3)), &Square::White, &Instant::now(), &t);
    assert!(matches!(m, Move::Illegal));
}

#[test]
fn play_at_without_position_is_other() {
    let t = table();
    let b = Board::new();
    assert!(matches!(b.play_at(None, &Square::Black, &Instant::now(), &t), Move::Other));
}

// A line B W W _ down the first column: Black at (3,0) captures the two
// White stones, the counter moves to 2, and cells (1,0),(2,0) empty out.
#[test]
fn bracket_capture_removes_pair_and_scores_two() {
    let t = table();
    let b = Board::from_text(b"B\nW\nW", &t).expect("parses");
    assert_eq!(b.state[0][0], Square::Black);
    assert_eq!(b.state[1][0], Square::White);
    assert_eq!(b.state[2][0], Square::White);
    let m = b.play_at(Some((3, 0)), &Square::Black, &Instant::now(), &t);
    let nb = match m {
        Move::Legal(nb, pos, color, _) => {
            assert_eq!(pos, (3, 0));
            assert_eq!(color, Square::Black);
            nb
        },
        other => panic!("expected a legal capture, got {:?}", other),
    };
    assert_eq!(nb.b_capture, 2);
    assert_eq!(nb.w_capture, 0);
    assert_eq!(nb.state[1][0], Square::Empty);
    assert_eq!(nb.state[2][0], Square::Empty);
    assert_eq!(nb.state[0][0], Square::Black);
    assert_eq!(nb.state[3][0], Square::Black);
    // the vacated stones' hash contributions are gone: the hash equals
    // that of a board holding only the two remaining black stones
    let plain = Board::from_text(b"B\n_\n_\nB", &t).expect("parses");
    assert_eq!(nb.hash, plain.hash);
}

#[test]
fn placing_into_a_bracket_is_rejected() {
    let t = table();
    // column: B _ W B; White playing (1,0) would stand bracketed
    let b = Board::from_text(b"B\n_\nW\nB", &t).expect("parses");
    let m = b.play_at(Some((1, 0)), &Square::White, &Instant::now(), &t);
    assert!(matches!(m, Move::MoveIntoCapture));
}

// A placement creating open threes in two orientations at once is
// rejected and the asked board stays exactly as it was.
#[test]
fn double_open_three_is_rejected_and_board_unchanged() {
    let t = table();
    let mut text = Vec::new();
    for i in 0..19 {
        if i > 0 {
            text.push(b'\n');
        }
        let row: &[u8] = match i {
            7 => b"_________B_________",
            8 => b"_________B_________",
            9 => b"_______BB__________",
            _ => b"___________________",
        };
        text.extend_from_slice(row);
    }
    let b = Board::from_text(&text, &t).expect("parses");
    let hash_before = b.hash;
    let m = b.play_at(Some((9, 9)), &Square::Black, &Instant::now(), &t);
    assert!(matches!(m, Move::DoubleThrees));
    // observably unchanged: same hash, same cells
    assert_eq!(b.hash, hash_before);
    assert_eq!(b.state[9][9], Square::Empty);
    assert_eq!(b.state[9][7], Square::Black);
    assert_eq!(b.state[7][9], Square::Black);
}

// Replaying the same placements in a different order reaches the same
// stones and must reach the same hash.
#[test]
fn hash_is_order_independent() {
    let t = table();
    let moves_a = [
        ((0usize, 0usize), Square::Black),
        ((5, 5), Square::White),
        ((1, 1), Square::Black),
    ];
    let moves_b = [
        ((1usize, 1usize), Square::Black),
        ((5, 5), Square::White),
        ((0, 0), Square::Black),
    ];
    let mut ba = Board::new();
    for (p, c) in moves_a.iter() {
        ba = match ba.play_at(Some(*p), c, &Instant::now(), &t) {
            Move::Legal(nb, _, _, _) => nb,
            other => panic!("expected legal, got {:?}", other),
        };
    }
    let mut bb = Board::new();
    for (p, c) in moves_b.iter() {
        bb = match bb.play_at(Some(*p), c, &Instant::now(), &t) {
            Move::Legal(nb, _, _, _) => nb,
            other => panic!("expected legal, got {:?}", other),
        };
    }
    assert_eq!(ba.hash, bb.hash);
    // and the parser agrees with the incremental hash
    let parsed = Board::from_text(b"B\n_B\n\n\n\n_____W", &t).expect("parses");
    assert_eq!(ba.hash, parsed.hash);
}

#[test]
fn explode_covers_all_112_lines() {
    let t = table();
    let b = Board::from_text(b"B", &t).expect("parses");
    let lines = b.explode();
    assert_eq!(lines.len(), 112);
    let mut holding_the_stone = 0;
    for line in lines.iter() {
        assert_eq!(line.data.len(), line.cells.len());
        for (k, cell) in line.cells.iter().enumerate() {
            assert_eq!(b.state[cell.0][cell.1], line.data[k]);
        }
        if line.data.contains(&Square::Black) {
            holding_the_stone += 1;
        }
    }
    // one row, one column and one diagonal of each family pass (0,0)
    assert_eq!(holding_the_stone, 4);
}

#[test]
fn corner_surroundings_are_clipped() {
    let b = Board::new();
    let mut n = b.get_square_surroundings(0, 0);
    n.sort();
    assert_eq!(n, vec![(0, 1), (1, 0), (1, 1)]);
}

use gomoku::board::{Board, BoardState, ParseError};
use gomoku::square::Square;
use gomoku::zobrist::ZobristTable;

fn table() -> ZobristTable {
    let vals: Vec<u64> = (0..722u64).map(|i| (i + 1).wrapping_mul(0x9E3779B97F4A7C15)).collect();
    ZobristTable::from_values(vals).expect("722 values")
}

#[test]
fn short_text_is_padded_to_the_full_grid() {
    let t = table();
    let b = Board::from_text(b"B\n_W", &t).expect("parses");
    assert_eq!(b.state.len(), 19);
    for row in b.state.iter() {
        assert_eq!(row.len(), 19);
    }
    assert_eq!(b.state[0][0], Square::Black);
    assert_eq!(b.state[1][1], Square::White);
    assert_eq!(b.state[0][1], Square::Empty);
    assert_eq!(b.state[18][18], Square::Empty);
    assert_eq!(b.b_capture, 0);
    assert_eq!(b.w_capture, 0);
    assert_eq!(b.game_state, BoardState::InProgress);
}

#[test]
fn unknown_characters_read_as_empty() {
    let t = table();
    let b = Board::from_text(b"x.zB", &t).expect("parses");
    assert_eq!(b.state[0][0], Square::Empty);
    assert_eq!(b.state[0][1], Square::Empty);
    assert_eq!(b.state[0][2], Square::Empty);
    assert_eq!(b.state[0][3], Square::Black);
}

#[test]
fn empty_text_is_an_empty_board() {
    let t = table();
    let b = Board::from_text(b"", &t).expect("parses");
    assert_eq!(b.hash, 0);
    for i in 0..19 {
        for j in 0..19 {
            assert_eq!(b.state[i][j], Square::Empty);
        }
    }
}

#[test]
fn too_many_rows_is_a_parse_error() {
    let t = table();
    let text = vec![b'\n'; 19];
    // 19 newlines describe 20 lines
    assert!(matches!(Board::from_text(&text, &t), Err(ParseError::TooManyRows)));
}

#[test]
fn an_overlong_row_is_a_parse_error() {
    let t = table();
    let text = vec![b'_'; 20];
    assert!(matches!(Board::from_text(&text, &t), Err(ParseError::RowTooLong)));
}

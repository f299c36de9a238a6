use game_engines::tictactoe::board::{Board, Offset, Piece};

#[test]
fn piece() {
    assert_eq!(Piece::X.swap(), Piece::O);
    assert_eq!(Piece::O.swap(), Piece::X);
    assert_eq!(Piece::Empty.swap(), Piece::Empty);
    assert_eq!(Piece::X.name(), String::from("X"));
    assert_eq!(Piece::O.name(), String::from("O"));
    assert_eq!(Piece::Empty.name(), String::from("Empty"));
    assert_eq!(Piece::X.value(), String::from("X"));
    assert_eq!(Piece::O.value(), String::from("O"));
    assert_eq!(Piece::Empty.value(), String::from(" "));
}

#[test]
fn offset() {
    let cases = [
        (0usize, (0u16, 0u16), "TopLeft"),
        (1, (179, 0), "TopMiddle"),
        (2, (355, 0), "TopRight"),
        (3, (0, 179), "MiddleLeft"),
        (4, (179, 179), "MiddleMiddle"),
        (5, (355, 179), "MiddleRight"),
        (6, (0, 357), "BottomLeft"),
        (7, (179, 357), "BottomMiddle"),
        (8, (355, 357), "BottomRight"),
    ];
    for (pos, value, name) in cases {
        let offset = Offset::new(pos).unwrap_or_else(|_| panic!("Failed to create Offset::{}", name));
        assert_eq!(offset.value(), value);
        assert_eq!(offset.name(), String::from(name));
    }
}

#[test]
fn bad_offset() {
    Offset::new(9).expect_err("Failed to reject index 9");
}

fn rendered(board: &Board) -> String {
    format!(
        "{}{}{}\n{}{}{}\n{}{}{}",
        board.format_cell(0),
        board.format_cell(1),
        board.format_cell(2),
        board.format_cell(3),
        board.format_cell(4),
        board.format_cell(5),
        board.format_cell(6),
        board.format_cell(7),
        board.format_cell(8)
    )
}

#[test]
fn board_board() {
    let mut board = Board::new();
    assert_eq!(rendered(&board), "012\n345\n678");
    assert_eq!(board.piece_count(), 0);
    assert!(!board.is_draw());
    for index in 0..9 {
        assert_eq!(board.board()[index], Piece::Empty);
        assert!(Board::is_valid_index(index));
        assert!(board.place_piece(index, Piece::X), "Failed to place piece at index {}", index);
        assert_eq!(board.piece_count(), (index + 1) as u8);
    }
    assert_eq!(board.is_victory(), Some(Piece::X));
    assert!(board.is_victory_for_player(Piece::X));
    assert!(!board.is_victory_for_player(Piece::O));
    assert_eq!(rendered(&board), "XXX\nXXX\nXXX");
}

use game_engines::tictactoe::board::{Board, Piece};
use game_engines::tictactoe::{Difficulty, Game};
use rand::rngs::StdRng;
use rand::SeedableRng;

#[test]
fn dificulty() {
    Difficulty::extract(0).expect_err("Expected error");
    let difficulty = Difficulty::extract(1).unwrap();
    assert_eq!(difficulty, Difficulty::Easy);
    let difficulty = Difficulty::extract(2).unwrap();
    assert_eq!(difficulty, Difficulty::Medium);
    let difficulty = Difficulty::extract(3).unwrap();
    assert_eq!(difficulty, Difficulty::Hard);
    let difficulty = Difficulty::extract(4).unwrap();
    assert_eq!(difficulty, Difficulty::Random);
    Difficulty::extract(5).expect_err("Expected error");
}

#[test]
fn tictactoe_board() {
    Game::new(0, StdRng::from_entropy()).expect_err("Expected error");
    Game::new(5, StdRng::from_entropy()).expect_err("Expected error");
    let game = Game::new(1, StdRng::from_entropy()).expect("Failed to create game");
    let board_as_vec = game.board();
    assert_eq!(board_as_vec.len(), 9);
    for i in 0..9 {
        assert_eq!(board_as_vec[i as usize], Piece::Empty);
    }
}

#[test]
fn creator() {
    Game::new(5, StdRng::from_entropy()).expect_err("Created game with invalid difficulty");
    Game::new(0, StdRng::from_entropy()).expect_err("Created game with invalid difficulty");
    let easy = Game::new(1, StdRng::from_entropy()).expect("Failed to create game");
    assert!(easy.human_first());
    let medium = Game::new(2, StdRng::from_seed([0; 32])).expect("Failed to create game");
    assert!(medium.human_first());
    let hard = Game::new(3, StdRng::from_seed([0; 32])).expect("Failed to create game");
    assert!(!hard.human_first());
    let random = Game::new(4, StdRng::from_seed([0; 32])).expect("Failed to create game");
    assert!(!random.human_first());
    let random = Game::new(4, StdRng::from_seed([1; 32])).expect("Failed to create game");
    assert!(!random.human_first());
}

#[test]
fn play() {
    let mut human_first = Game::new(1, StdRng::from_entropy()).expect("Failed to create game");
    let mut computer_first = Game::new(3, StdRng::from_entropy()).expect("Failed to create game");
    let mut board = Board::new();
    board.place_piece(0, Piece::X);
    board.place_piece(1, Piece::X);
    board.place_piece(4, Piece::O);
    board.place_piece(6, Piece::O);
    human_first.set_board(board);
    assert_eq!(None, human_first.play(2));
    if computer_first.board()[0] == Piece::Empty {
        computer_first.play(0).expect("Failed to play");
    } else {
        computer_first.play(1).expect("Failed to play");
    }
}

#[test]
fn display() {
    let mut game = Game::new(1, StdRng::from_entropy()).expect("Failed to create game");
    game.play(1).expect("Failed to play");
    let commands = game.display_commands();
    assert_eq!(commands.len(), 9);
    let board = game.board();
    for (i, (_, command)) in commands.iter().enumerate() {
        if board[i] == Piece::Empty {
            assert_eq!(command, &Piece::Empty);
        } else {
            assert_ne!(command, &Piece::Empty);
        }
    }
}

#[test]
fn win_cases() {
    let human_first = Game::new(1, StdRng::from_entropy()).expect("Failed to create game");
    let computer_first = Game::new(3, StdRng::from_entropy()).expect("Failed to create game");
    assert!(!human_first.is_draw());
    assert!(!computer_first.is_draw());
    assert_eq!(None, human_first.is_victory_for());
    assert_eq!(None, computer_first.is_victory_for());
    assert!(!human_first.has_player_won());
    assert!(!computer_first.has_player_won());
    assert!(!human_first.has_player_lost());
    assert!(!computer_first.has_player_lost());
}

#[test]
fn points() {
    let mut game = Game::new(1, StdRng::from_entropy()).expect("Failed to create game");
    assert_eq!(game.points(), game.points_table().loss, "1");
    let mut winning = Board::new();
    winning.place_piece(0, Piece::X);
    winning.place_piece(1, Piece::X);
    winning.place_piece(2, Piece::X);
    winning.place_piece(4, Piece::O);
    winning.place_piece(6, Piece::O);
    game.set_board(winning);
    assert_eq!(game.points(), game.points_table().win, "2");
    // A full board that also holds the human's winning line still pays the
    // win tier: victory is checked before fullness.
    let mut full = Board::new();
    full.place_piece(0, Piece::X);
    full.place_piece(1, Piece::X);
    full.place_piece(2, Piece::X);
    full.place_piece(3, Piece::O);
    full.place_piece(4, Piece::O);
    full.place_piece(5, Piece::X);
    full.place_piece(6, Piece::O);
    full.place_piece(7, Piece::X);
    full.place_piece(8, Piece::O);
    game.set_board(full);
    assert_eq!(game.points(), game.points_table().win, "3");
    // A full board without a line for the human pays the draw tier.
    let mut drawn = Board::new();
    drawn.place_piece(0, Piece::X);
    drawn.place_piece(1, Piece::O);
    drawn.place_piece(2, Piece::X);
    drawn.place_piece(3, Piece::X);
    drawn.place_piece(4, Piece::O);
    drawn.place_piece(5, Piece::O);
    drawn.place_piece(6, Piece::O);
    drawn.place_piece(7, Piece::X);
    drawn.place_piece(8, Piece::X);
    game.set_board(drawn);
    assert_eq!(game.points(), game.points_table().draw, "4");
}

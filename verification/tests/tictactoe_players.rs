use game_engines::tictactoe::board::{Board, Piece};
use game_engines::tictactoe::player::{
    choose_player, HumanPlayer, MinimaxPlayer, Player, PlayerKind, RandomPlayer,
};

#[test]
fn test_choose_player() {
    let cases = [
        ("human", PlayerKind::Human),
        ("h", PlayerKind::Human),
        ("minimax", PlayerKind::Minimax(false)),
        ("m", PlayerKind::Minimax(false)),
        ("alphabeta", PlayerKind::Minimax(true)),
        ("a", PlayerKind::Minimax(true)),
        ("random", PlayerKind::Random),
        ("r", PlayerKind::Random),
    ];
    for (code, expected) in cases {
        let player = choose_player(code)
            .unwrap_or_else(|| panic!("Could not create player {}", code));
        assert_eq!(player, expected);
    }
}

#[test]
fn test_choose_player_uppercase() {
    // Selection is case-insensitive, so an uppercase code names the same
    // strategy as its lowercase form.
    assert_eq!(choose_player("HUMAN"), Some(PlayerKind::Human));
    assert_eq!(choose_player("AlphaBeta"), Some(PlayerKind::Minimax(true)));
    assert_eq!(choose_player("R"), Some(PlayerKind::Random));
}

#[test]
fn test_choose_player_invalid() {
    assert!(choose_player("not a player").is_none(), "Could create player");
}

#[test]
fn human_player_test_random_player() {
    let player = HumanPlayer;
    let board = Board::new();
    let index = player.play(&board, Piece::X);
    assert!(index < 9);
    assert_eq!(0, index);
    assert_eq!("Human player", player.name());
}

#[test]
fn test_player_no_alphabeta() {
    let player = MinimaxPlayer::new(false);
    let board = Board::new();
    let piece = Piece::X;
    let index = player.play(&board, piece);
    assert!(index < 9);
    assert_eq!("Minimax player", player.name());
}

#[test]
fn test_player_alphabeta() {
    let player = MinimaxPlayer::new(true);
    let board = Board::new();
    let piece = Piece::X;
    let index = player.play(&board, piece);
    assert!(index < 9);
    assert_eq!("Minimax player", player.name());
}

#[test]
fn random_player_test_random_player() {
    let player = RandomPlayer;
    let board = Board::new();
    let index = player.play(&board, Piece::X);
    assert!(index < 9);
    assert_eq!("Random player", player.name());
}

#[test]
fn random_player_picks_empty_cell() {
    // A random pick must land on an empty cell, whatever the rest of the
    // board holds.
    let mut board = Board::new();
    for index in [0usize, 2, 4, 6, 8] {
        board.place_piece(index, Piece::X);
    }
    for _ in 0..50 {
        let index = RandomPlayer.play(&board, Piece::O);
        assert!(index == 1 || index == 3 || index == 5 || index == 7);
    }
}

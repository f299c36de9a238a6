use game_engines::minesweeper::field::{Content, Field};
use game_engines::minesweeper::game::{ChordResult, Game};
use game_engines::tictactoe::board::{Board, Piece};
use game_engines::tictactoe::minimax::{minimax_step, GameResult};
use game_engines::tictactoe::player::{MinimaxPlayer, Player};
use rand::rngs::StdRng;
use rand::SeedableRng;

/// Optimal play never loses: two searchers against each other from the
/// empty board end in a draw or a win for the side that moved first —
/// never in its defeat.
#[test]
fn optimal_play_never_loses() {
    for (x_prunes, o_prunes) in [(true, false), (false, true), (true, true), (false, false)] {
        let player_x = MinimaxPlayer::new(x_prunes);
        let player_o = MinimaxPlayer::new(o_prunes);
        let mut board = Board::new();
        let mut x_to_move = true;
        loop {
            if board.is_victory().is_some() || board.is_draw() {
                break;
            }
            let index = if x_to_move {
                player_x.play(&board, Piece::X)
            } else {
                player_o.play(&board, Piece::O)
            };
            board.place_piece(index, if x_to_move { Piece::X } else { Piece::O });
            x_to_move = !x_to_move;
        }
        assert!(!board.is_victory_for_player(Piece::O), "the first mover lost");
    }
}

/// The game-theoretic value of the empty board is a draw, so a search
/// from it reports Draw.
#[test]
fn empty_board_is_a_draw() {
    let board = Board::new();
    let order: Vec<usize> = (0..9).collect();
    let (value, _, _) = minimax_step(
        &board,
        Piece::X,
        true,
        GameResult::Defeat,
        GameResult::Victory,
        &order,
        true,
    );
    assert_eq!(value, GameResult::Draw);
}

/// Plain minimax and alpha-beta return the same value on the same move
/// order, on the empty board and on midgame positions.
#[test]
fn search_modes_agree_on_value() {
    let orders: [[usize; 9]; 3] = [
        [0, 1, 2, 3, 4, 5, 6, 7, 8],
        [8, 3, 5, 0, 7, 2, 6, 1, 4],
        [4, 0, 8, 2, 6, 1, 3, 5, 7],
    ];
    let mut boards = vec![Board::new()];
    let mut mid = Board::new();
    mid.place_piece(0, Piece::X);
    mid.place_piece(4, Piece::O);
    boards.push(mid);
    let mut late = Board::new();
    late.place_piece(0, Piece::X);
    late.place_piece(1, Piece::O);
    late.place_piece(4, Piece::X);
    late.place_piece(8, Piece::O);
    boards.push(late);
    for board in &boards {
        for order in &orders {
            let order: Vec<usize> = order.to_vec();
            let plain = minimax_step(
                board,
                Piece::X,
                true,
                GameResult::Defeat,
                GameResult::Victory,
                &order,
                false,
            );
            let pruned = minimax_step(
                board,
                Piece::X,
                true,
                GameResult::Defeat,
                GameResult::Victory,
                &order,
                true,
            );
            assert_eq!(plain.0, pruned.0, "pruning changed the value");
        }
    }
}

fn in_box(width: u32, c: u32, j: u32) -> bool {
    let (cx, cy) = (c % width, c / width);
    let (jx, jy) = (j % width, j / width);
    jx + 1 >= cx && jx <= cx + 1 && jy + 1 >= cy && jy <= cy + 1
}

/// A reset never puts a mine on the cursor or any of its neighbors, and
/// places exactly the mine budget; checked for a corner, an edge and the
/// center of an 8x8, 10-mine field, over many seeds.
#[test]
fn reset_never_mines_near_cursor() {
    for cursor in [0u32, 4, 36] {
        for seed in 0..25u8 {
            let mut field = Field::new(8, 8, 10, StdRng::from_seed([seed; 32]));
            field.reset(cursor);
            let mut mines = 0;
            for j in 0..64u32 {
                if let Content::Mine(_) = field.get_content(j) {
                    mines += 1;
                    assert!(!in_box(8, cursor, j), "mine at {} next to cursor {}", j, cursor);
                }
            }
            assert_eq!(mines, 10);
        }
    }
}

/// Every number on a generated board is exactly the count of its
/// adjacent mines.
#[test]
fn numbers_count_adjacent_mines() {
    let mut field = Field::new(8, 8, 10, StdRng::from_seed([7; 32]));
    field.reset(36);
    for j in 0..64u32 {
        let mut adjacent = 0;
        for k in 0..64u32 {
            if k != j && in_box(8, j, k) {
                if let Content::Mine(_) = field.get_content(k) {
                    adjacent += 1;
                }
            }
        }
        match field.get_content(j) {
            Content::Number(n) => assert_eq!(n as u32, adjacent),
            Content::Blank => assert_eq!(adjacent, 0),
            Content::Mine(_) => {},
        }
    }
}

/// The first reveal of a game is generated on the spot and can never hit
/// a mine: the cursor's whole box stays clear.
#[test]
fn first_reveal_is_safe() {
    let mut field = Field::new(8, 8, 10, StdRng::from_seed([0; 32]));
    let ind = field.get_selected_ind();
    field.reset_if_need(ind);
    for j in 0..64u32 {
        if in_box(8, ind, j) {
            assert!(!matches!(field.get_content(j), Content::Mine(_)));
        }
    }
    let content = field.uncover(ind);
    assert!(!matches!(content, Content::Mine(_)));
}

/// Flood fill opens the whole connected blank region plus its number
/// border, nothing else, and never a mine; from a flagged cell it is a
/// no-op.
#[test]
fn chain_reveal_opens_region_and_border() {
    let mut field = Field::new(8, 8, 5, StdRng::from_seed([0; 32]));
    let ind = field.get_selected_ind();
    field.reset_if_need(ind);
    assert!(matches!(field.get_content(ind), Content::Blank));

    // The region the fill should open: a reference search over contents.
    let mut expected = [false; 64];
    let mut queue = vec![ind];
    expected[ind as usize] = true;
    while let Some(i) = queue.pop() {
        for j in 0..64u32 {
            if j != i && in_box(8, i, j) && !expected[j as usize] {
                match field.get_content(j) {
                    Content::Blank => {
                        expected[j as usize] = true;
                        queue.push(j);
                    },
                    Content::Number(_) => {
                        expected[j as usize] = true;
                    },
                    Content::Mine(_) => {},
                }
            }
        }
    }

    field.uncover(ind);
    field.chain_reveal(ind);
    for j in 0..64u32 {
        assert_eq!(field.revealed(j), expected[j as usize], "cell {}", j);
        if field.revealed(j) {
            assert!(!matches!(field.get_content(j), Content::Mine(_)));
        }
    }

    // A flagged start changes nothing.
    let mut flagged = Field::new(8, 8, 5, StdRng::from_seed([3; 32]));
    flagged.reset(0);
    let target = 63u32;
    flagged.toggle_mark(target);
    flagged.chain_reveal(target);
    for j in 0..64u32 {
        assert!(!flagged.revealed(j));
    }
}

/// Toggling the flag on a revealed cell fails and changes nothing;
/// toggling twice on a covered cell returns it to its unmarked state.
#[test]
fn toggle_mark_rules() {
    let mut field = Field::new(4, 4, 2, StdRng::from_seed([1; 32]));
    field.reset(0);
    field.uncover(0);
    assert!(!field.toggle_mark(0));
    assert!(!field.marked(0));
    assert!(field.revealed(0));

    assert!(field.toggle_mark(15));
    assert!(field.marked(15));
    assert!(field.toggle_mark(15));
    assert!(!field.marked(15));
}

/// A board with X across the top row is a win for X and for nobody else.
#[test]
fn x_row_wins() {
    let mut board = Board::new();
    board.place_piece(0, Piece::X);
    board.place_piece(1, Piece::X);
    board.place_piece(2, Piece::X);
    assert!(board.is_victory_for_player(Piece::X));
    assert!(!board.is_victory_for_player(Piece::O));
    assert_eq!(board.is_victory(), Some(Piece::X));
}

/// A failed chord leaves every cell exactly as it was.
#[test]
fn failed_chord_changes_nothing() {
    let mut field = Field::new(8, 8, 5, StdRng::from_seed([0; 32]));
    let ind = field.get_selected_ind();
    field.reset_if_need(ind);
    let mut game = Game::with_field(field, (0, 0), (0, 0));
    let before: Vec<(bool, bool)> = (0..64u32).map(|j| {
        let c = game.cell_at(j);
        (c.revealed, c.marked)
    }).collect();
    assert_eq!(game.chord(), ChordResult::Failed);
    for j in 0..64u32 {
        let c = game.cell_at(j);
        assert_eq!((c.revealed, c.marked), before[j as usize], "cell {}", j);
    }
}

/// Rejected difficulty codes come back as the construction error, not a
/// panic.
#[test]
fn invalid_difficulty_is_an_error() {
    let err = game_engines::tictactoe::Game::new(7, StdRng::from_seed([0; 32]))
        .expect_err("Created game with invalid difficulty");
    assert_eq!(err, "Invalid difficulty value");
    let offset_err = game_engines::tictactoe::board::Offset::new(12).expect_err("Expected error");
    assert_eq!(offset_err, "Invalid index");
}

/// Cursor moves out of the grid are reported, in both axes.
#[test]
fn cursor_bounds_are_errors() {
    let mut game = Game::new(3, 3, 1);
    assert_eq!(game.change_row(3).expect_err("row"), "Row index out of range");
    assert_eq!(game.change_col(3).expect_err("col"), "Column index out of range");
}

/// The field is won exactly when every number cell is revealed: opening
/// all non-mine cells wins, with the mines still covered.
#[test]
fn victory_when_all_numbers_open() {
    let mut field = Field::new(6, 6, 4, StdRng::from_seed([9; 32]));
    field.reset(0);
    assert!(!field.is_victory() || {
        // A board can only start won if it has no number cells at all.
        (0..36u32).all(|j| !matches!(field.get_content(j), Content::Number(_)))
    });
    for j in 0..36u32 {
        if !matches!(field.get_content(j), Content::Mine(_)) {
            field.uncover(j);
        }
    }
    assert!(field.is_victory());
    for j in 0..36u32 {
        if matches!(field.get_content(j), Content::Mine(_)) {
            assert!(!field.revealed(j));
        }
    }
}

/// A chord that detonates ends the game as a loss, and restarting is the
/// way out of the terminal state.
#[test]
fn chord_death_loses_until_restart() {
    let mut field = Field::new(8, 8, 5, StdRng::from_seed([0; 32]));
    let ind = field.get_selected_ind();
    field.reset_if_need(ind);
    let mut game = Game::with_field(field, (1, 1), (0, 0));
    game.change_row(3).unwrap();
    game.change_col(6).unwrap();
    game.toggle_flag();
    game.change_col(7).unwrap();
    game.change_row(2).unwrap();
    game.uncover();
    assert_eq!(game.chord(), ChordResult::Success);
    game.change_row(1).unwrap();
    game.change_col(4).unwrap();
    game.toggle_flag();
    game.change_col(5).unwrap();
    assert_eq!(game.chord(), ChordResult::Death);
    assert!(!game.is_win());
    assert_eq!(game.points(), (0, 0));
    game.restart();
    assert!(game.is_win());
    assert_eq!(game.points(), (1, 1));
}

use game_engines::minesweeper::field::{Content, Field};
use game_engines::minesweeper::game::{ChordResult, Game, ReturnCell, RevealResult};
use rand::rngs::StdRng;
use rand::SeedableRng;

#[test]
fn custom() {
    let game = Game::new(10, 10, 10);
    assert_eq!(game.width(), 10);
    assert_eq!(game.height(), 10);
    assert_eq!(game.mine_count(), 10);
    assert_eq!(game.size(), 100);
    assert_eq!(game.points(), game.lose_points());
    assert_eq!(game.lose_points(), (1, 0));
    assert_eq!(game.win_points(), (1, 0));
}

#[test]
fn beginner() {
    let game = Game::beginner();
    assert_eq!(game.size(), 64);
    assert_eq!(game.width(), 8);
    assert_eq!(game.height(), 8);
    assert_eq!(game.x(), 4);
    assert_eq!(game.y(), 4);
    assert_eq!(game.flagged_count(), 0);
    assert_eq!(game.mine_count(), 10);
    assert_eq!(game.points(), game.win_points());
    assert_eq!(game.lose_points(), (1, 0));
    assert_eq!(game.win_points(), (1, 1));
}

#[test]
fn intermediate() {
    let game = Game::intermediate();
    assert_eq!(game.size(), 256);
    assert_eq!(game.width(), 16);
    assert_eq!(game.height(), 16);
    assert_eq!(game.x(), 8);
    assert_eq!(game.y(), 8);
    assert_eq!(game.flagged_count(), 0);
    assert_eq!(game.mine_count(), 40);
    assert_eq!(game.points(), game.win_points());
    assert_eq!(game.lose_points(), (2, 0));
    assert_eq!(game.win_points(), (2, 3));
}

#[test]
fn expert() {
    let game = Game::expert();
    assert_eq!(game.size(), 484);
    assert_eq!(game.width(), 22);
    assert_eq!(game.height(), 22);
    assert_eq!(game.x(), 11);
    assert_eq!(game.y(), 11);
    assert_eq!(game.flagged_count(), 0);
    assert_eq!(game.mine_count(), 100);
    assert_eq!(game.points(), game.win_points());
    assert_eq!(game.lose_points(), (2, 0));
    assert_eq!(game.win_points(), (2, 4));
}

#[test]
fn super_expert() {
    let game = Game::super_expert();
    assert_eq!(game.size(), 625);
    assert_eq!(game.width(), 25);
    assert_eq!(game.height(), 25);
    assert_eq!(game.x(), 12);
    assert_eq!(game.y(), 12);
    assert_eq!(game.flagged_count(), 0);
    assert_eq!(game.mine_count(), 130);
    assert_eq!(game.points(), game.win_points());
    assert_eq!(game.lose_points(), (3, 0));
    assert_eq!(game.win_points(), (3, 5));
}

#[test]
fn change_row() {
    let mut game = Game::new(5, 5, 5);
    let out1 = game.change_row(4).expect("Saw row 4 as out of bounds incorrectly.");
    assert_eq!(game.y(), 4);
    assert_eq!(out1, ReturnCell { revealed: false, marked: false });
    let out2 = game.change_row(0).expect("Saw row 0 as out of bounds incorrectly.");
    assert_eq!(game.y(), 0);
    assert_eq!(out2, ReturnCell { revealed: false, marked: false });
    if let Ok(_) = game.change_row(5) {
        panic!("Saw row 5 as in bounds incorrectly.");
    }
}

#[test]
fn change_col() {
    let mut game = Game::new(5, 5, 5);
    let out1 = game.change_col(4).expect("Saw col 4 as out of bounds incorrectly.");
    assert_eq!(game.x(), 4);
    assert_eq!(out1, ReturnCell { revealed: false, marked: false });
    let out2 = game.change_col(0).expect("Saw col 0 as out of bounds incorrectly.");
    assert_eq!(game.x(), 0);
    assert_eq!(out2, ReturnCell { revealed: false, marked: false });
    if let Ok(_) = game.change_col(5) {
        panic!("Saw col 5 as in bounds incorrectly.");
    }
}

fn selected_index(game: &Game) -> u32 {
    game.x() + game.y() * game.width()
}

#[test]
fn toggle_flag() {
    let mut game = Game::beginner();
    let ind = selected_index(&game);
    assert!(!game.cell_at(ind).marked);
    game.toggle_flag();
    assert!(game.cell_at(ind).marked);
    game.toggle_flag();
    assert!(!game.cell_at(ind).marked);
}

#[test]
fn quit() {
    let mut game = Game::beginner();
    game.quit();
    assert!(!game.is_win());
    assert_eq!(game.points(), game.lose_points());
}

#[test]
fn restart() {
    let mut game1 = Game::beginner();
    let mut game2 = Game::beginner();
    game2.uncover();
    game2.restart();
    for row in 0..8 {
        if let Err(_) = game1.change_row(row) {
            panic!("Saw row {} as in bounds incorrectly.", row);
        }
        if let Err(_) = game2.change_row(row) {
            panic!("Saw row {} as out of bounds incorrectly.", row);
        }
        for col in 0..8 {
            if let Err(_) = game1.change_col(col) {
                panic!("Saw col {} as in bounds incorrectly.", col);
            }
            if let Err(_) = game2.change_col(col) {
                panic!("Saw col {} as out of bounds incorrectly.", col);
            }
            assert_eq!(game1.cell_at(selected_index(&game1)), game2.cell_at(selected_index(&game2)));
        }
    }
}

#[test]
fn uncover() {
    let mut game = Game::new(5, 5, 10);
    let result = game.uncover();
    assert_ne!(result, RevealResult::Flagged);
    assert_ne!(result, RevealResult::Mine);
    'outer: for row in 0..5 {
        game.change_row(row).expect("In Bounds");
        for col in 0..5 {
            game.change_col(col).expect("In Bounds");
            // Flagging counts as the action on the next reveal — but only a
            // covered cell can be flagged, and the first cascade may already
            // have opened this corner.
            if row == 0 && col == 0 && !game.cell_at(selected_index(&game)).revealed {
                game.toggle_flag();
                assert_eq!(game.uncover(), RevealResult::Flagged);
            }
            if let RevealResult::Mine = game.uncover() {
                let content = game.content_at(selected_index(&game));
                assert_eq!(content, Content::Mine(true));
                assert!(!game.is_win());
                assert_eq!(game.points(), game.lose_points());
                break 'outer;
            }
        }
    }
}

#[test]
fn chord() {
    // With this seed the 8x8 board generated at the center is:
    // 1M11M1EE
    // 122211EE
    // E1M1E111
    // E111E1M1
    // EEEEE111
    // EEEEEEEE
    // EEEE111E
    // EEEE1M1E
    let mut field = Field::new(8, 8, 5, StdRng::from_seed([0; 32]));
    let ind = field.get_selected_ind();
    field.reset_if_need(ind);
    let mut game = Game::with_field(field, (0, 0), (0, 0));
    game.change_row(3).unwrap();
    game.change_col(6).unwrap();
    game.toggle_flag();
    game.change_col(7).unwrap();
    game.change_row(2).unwrap();
    assert_eq!(game.chord(), ChordResult::Failed);
    game.uncover();
    assert_eq!(game.chord(), ChordResult::Success);
    game.change_row(1).unwrap();
    assert_eq!(game.chord(), ChordResult::Failed);
    game.change_col(6).unwrap();
    assert_eq!(game.chord(), ChordResult::Failed);
    game.change_col(4).unwrap();
    game.toggle_flag();
    game.change_col(5).unwrap();
    assert_eq!(game.chord(), ChordResult::Death);
}

#[test]
fn cell_lifecycle() {
    let mut cell = game_engines::minesweeper::field::Cell::create_empty();
    assert_eq!(cell.content(), Content::Blank);
    assert!(!cell.revealed && !cell.marked);
    cell.toggle_mark();
    assert!(cell.marked);
    assert_eq!(cell.uncover(), Content::Blank);
    assert!(cell.revealed);
    cell.clear();
    assert!(!cell.revealed && !cell.marked);
    let mined = game_engines::minesweeper::field::Cell::create_with_mine();
    assert_eq!(mined.content(), Content::Mine(false));
}

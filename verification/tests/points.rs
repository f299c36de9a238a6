use game_engines::points::Points;
use game_engines::tictactoe::Difficulty;

#[test]
fn easy() {
    let points = Points::new(&Difficulty::Easy);
    assert_eq!(points.win, (1, 1));
    assert_eq!(points.draw, (1, 0));
    assert_eq!(points.loss, (0, 0));
}

#[test]
fn medium() {
    let points = Points::new(&Difficulty::Medium);
    assert_eq!(points.win, (2, 2));
    assert_eq!(points.draw, (2, 0));
    assert_eq!(points.loss, (0, 0));
}

#[test]
fn hard() {
    let points = Points::new(&Difficulty::Hard);
    assert_eq!(points.win, (2, 3));
    assert_eq!(points.draw, (2, 1));
    assert_eq!(points.loss, (0, 0));
}

#[test]
fn random() {
    let points = Points::new(&Difficulty::Random);
    assert_eq!(points.win, (1, 1));
    assert_eq!(points.draw, (1, 0));
    assert_eq!(points.loss, (0, 0));
}

use tttsolver::player::Player;
use tttsolver::position::{GameState, Position};
use tttsolver::search::negamax;
use tttsolver::solve;

#[test]
fn test_solve() {
    let (score, counter) = solve("00112201212002").unwrap();

    assert_eq!(score, 0);
    assert_eq!(counter, 5);
}

#[test]
fn new_position_initialised_correctly() {
    let position = Position::new();

    assert_eq!(position.board, [[0u8; 3]; 3]);
    assert_eq!(position.player, Player::Noughts);
    assert_eq!(position.moves_played, 0);
    assert_eq!(position.state, GameState::InProgress);
}

#[test]
fn position_from_tpgn_created_correctly() {
    let position = Position::from_tpgn("001122").unwrap();

    assert_eq!(position.board, [[1, 0, 0], [0, 2, 0], [0, 0, 1]]);
    assert_eq!(position.player, Player::Crosses);
    assert_eq!(position.moves_played, 3);
    assert_eq!(position.state, GameState::InProgress);
}

#[test]
#[should_panic]
fn bad_tpgn_causes_panic() {
    Position::from_tpgn("0").unwrap();
}

#[test]
fn test_can_play() {
    let position = Position::from_tpgn("001122").unwrap();

    assert_eq!(position.can_play(0, 0), false);
    assert_eq!(position.can_play(0, 1), true);
}

#[test]
fn test_play() {
    let position = Position::from_tpgn("001122").unwrap();
    let position = position.play(0, 1);

    assert_eq!(position.board, [[1, 2, 0], [0, 2, 0], [0, 0, 1]]);
    assert_eq!(position.player, Player::Noughts);
    assert_eq!(position.moves_played, 4);
    assert_eq!(position.state, GameState::InProgress);
}

#[test]
fn loss_detected() {
    let position = Position::from_tpgn("0001110222").unwrap();

    assert_eq!(position.state, GameState::Lost(-3));
}

#[test]
fn draw_detected() {
    let position = Position::from_tpgn("001122012120021210").unwrap();

    assert_eq!(position.state, GameState::Drawn);
}

#[test]
fn test_negamax() {
    let mut counter: u32 = 0;
    let position = Position::from_tpgn("00112201212002").unwrap();

    let score = negamax(&position, &mut counter);

    assert_eq!(score, 0);
    assert_eq!(counter, 5);
}

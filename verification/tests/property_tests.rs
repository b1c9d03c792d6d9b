use tttsolver::list_tpgns;
use tttsolver::notation::{parse_tpgn, to_tpgn, NotationError};
use tttsolver::player::Player;
use tttsolver::position::{GameState, Position};
use tttsolver::search::{negamax, negamax_ab};
use tttsolver::solve;

#[test]
fn as_int_maps_players_to_markers() {
    assert_eq!(Player::Noughts.as_int(), 1);
    assert_eq!(Player::Crosses.as_int(), 2);
}

#[test]
fn empty_notation_denotes_root() {
    let position = Position::from_tpgn("").unwrap();

    assert_eq!(position.board, [[0u8; 3]; 3]);
    assert_eq!(position.player, Player::Noughts);
    assert_eq!(position.moves_played, 0);
    assert_eq!(position.state, GameState::InProgress);
}

#[test]
fn sentinel_notation_denotes_root() {
    let position = Position::from_tpgn("R").unwrap();

    assert_eq!(position.board, [[0u8; 3]; 3]);
    assert_eq!(position.moves_played, 0);
    assert_eq!(position.state, GameState::InProgress);
}

#[test]
fn odd_length_notation_rejected() {
    assert_eq!(
        Position::from_tpgn("0"),
        Err(NotationError::IncompleteNotation)
    );
    assert_eq!(
        Position::from_tpgn("001"),
        Err(NotationError::IncompleteNotation)
    );
}

#[test]
fn out_of_range_coordinate_rejected() {
    assert_eq!(
        Position::from_tpgn("99"),
        Err(NotationError::InvalidCoordinate)
    );
    assert_eq!(
        Position::from_tpgn("0031"),
        Err(NotationError::InvalidCoordinate)
    );
}

#[test]
fn non_digit_character_rejected() {
    assert_eq!(
        Position::from_tpgn("0a"),
        Err(NotationError::InvalidCharacter)
    );
    assert_eq!(
        Position::from_tpgn("x0"),
        Err(NotationError::InvalidCharacter)
    );
}

#[test]
fn over_long_notation_rejected() {
    // twenty characters: one pair more than nine moves can take
    assert_eq!(
        Position::from_tpgn("00112201212002121001"),
        Err(NotationError::NotationTooLong)
    );
}

#[test]
fn illegal_move_rejected() {
    // the fourth move repeats the first cell
    assert_eq!(
        Position::from_tpgn("00112200"),
        Err(NotationError::IllegalMove)
    );
    // no move is legal once the position is lost
    assert_eq!(
        Position::from_tpgn("000111022212"),
        Err(NotationError::IllegalMove)
    );
}

#[test]
fn solve_propagates_notation_errors() {
    assert_eq!(solve("0"), Err(NotationError::IncompleteNotation));
    assert_eq!(solve("99"), Err(NotationError::InvalidCoordinate));
}

#[test]
fn notation_round_trip() {
    for tpgn in ["", "00", "001122", "0001110222", "001122012120021210"] {
        let moves = parse_tpgn(tpgn).unwrap();
        assert_eq!(to_tpgn(&moves), tpgn);
    }
}

#[test]
fn moves_played_counts_marks() {
    for tpgn in ["", "00", "001122", "0001110222", "001122012120021210"] {
        let position = Position::from_tpgn(tpgn).unwrap();
        let mut marks = 0;
        for x in 0..3 {
            for y in 0..3 {
                if position.board[x][y] != 0 {
                    marks += 1;
                }
            }
        }
        assert_eq!(position.moves_played as usize, marks);
    }
}

#[test]
fn loss_score_depends_on_move_count() {
    // noughts complete the top row on move seven: a later loss scores higher
    let position = Position::from_tpgn("00110122201202").unwrap();
    assert_eq!(position.state, GameState::Lost(-2));
}

#[test]
fn negamax_terminal_base_cases() {
    let drawn = Position::from_tpgn("001122012120021210").unwrap();
    let mut counter: u32 = 0;
    assert_eq!(negamax(&drawn, &mut counter), 0);
    assert_eq!(counter, 1);

    let lost = Position::from_tpgn("0001110222").unwrap();
    let mut counter: u32 = 0;
    assert_eq!(negamax(&lost, &mut counter), -3);
    assert_eq!(counter, 1);
}

#[test]
fn negamax_is_best_over_legal_moves() {
    // two cells are empty: (1, 0) and (1, 2)
    let position = Position::from_tpgn("00112201212002").unwrap();
    assert!(position.can_play(1, 0) && position.can_play(1, 2));

    let mut counter: u32 = 0;
    let value = negamax(&position, &mut counter);
    let mut best = i8::MIN;
    for (x, y) in [(1, 0), (1, 2)] {
        let child = position.play(x, y);
        let mut child_counter: u32 = 0;
        let child_value = -negamax(&child, &mut child_counter);
        if child_value > best {
            best = child_value;
        }
    }
    assert_eq!(value, best);
}

#[test]
fn no_move_legal_in_terminal_positions() {
    let drawn = Position::from_tpgn("001122012120021210").unwrap();
    let lost = Position::from_tpgn("0001110222").unwrap();
    for x in 0..3 {
        for y in 0..3 {
            assert!(!drawn.can_play(x, y));
            assert!(!lost.can_play(x, y));
        }
    }
}

#[test]
fn alpha_beta_agrees_with_exhaustive_search() {
    for tpgn in ["00112201212002", "0011", "001122", "0001110222"] {
        let position = Position::from_tpgn(tpgn).unwrap();
        let mut counter: u32 = 0;
        let plain = negamax(&position, &mut counter);
        let mut ab_counter: u32 = 0;
        let pruned = negamax_ab(&position, -3, 3, &mut ab_counter);
        assert_eq!(plain, pruned);
        assert!(ab_counter >= 1 && ab_counter <= counter);
    }
}

#[test]
fn full_game_is_a_draw() {
    let (score, counter) = solve("").unwrap();
    assert_eq!(score, 0);
    assert!(counter >= 1);
}

#[test]
fn exhaustive_search_visits_the_whole_tree() {
    let root = Position::new();
    let mut counter: u32 = 0;
    let score = negamax(&root, &mut counter);
    assert_eq!(score, 0);
    assert_eq!(counter, 549946);
}

#[test]
fn enumeration_lists_every_reachable_position() {
    let lines = list_tpgns();
    assert_eq!(lines[0], "R");
    assert_eq!(lines[1], "00");
    assert_eq!(lines.len(), 549946);
}

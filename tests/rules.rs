use muhle_intelligence::evaluation::{perspective, static_evaluation};
use muhle_intelligence::game::{GamePosition, Move, Node, Player, Position, Variant};
use muhle_intelligence::move_generation::{generate_moves, is_game_over, is_game_over_winner_material};
use muhle_intelligence::time::sudden_death_time_control;

fn board_with(white: &[usize], black: &[usize]) -> [Node; 24] {
    let mut board = [Node::Empty; 24];
    for &i in white {
        board[i] = Node::White;
    }
    for &i in black {
        board[i] = Node::Black;
    }
    board
}

fn captures(moves: &[Move]) -> Vec<i32> {
    moves
        .iter()
        .filter_map(|m| match *m {
            Move::PlaceCapture { capture_index, .. } => Some(capture_index),
            Move::MoveCapture { capture_index, .. } => Some(capture_index),
            _ => None,
        })
        .collect()
}

#[test]
fn empty_board_places_everywhere() {
    for variant in [Variant::Nine, Variant::Twelve] {
        let moves = generate_moves(&Position::default(), variant);
        let expected: Vec<Move> = (0..24).map(|i| Move::Place { place_index: i }).collect();
        assert_eq!(moves, expected);
    }
}

#[test]
fn closing_mill_captures_each_free_piece() {
    let position = Position { board: board_with(&[0, 1, 12], &[3, 13, 22]), player: Player::White, plies: 6 };
    let moves = generate_moves(&position, Variant::Nine);
    let at_g7: Vec<Move> = moves
        .iter()
        .copied()
        .filter(|m| matches!(m, Move::Place { place_index: 2 } | Move::PlaceCapture { place_index: 2, .. }))
        .collect();
    assert_eq!(
        at_g7,
        vec![
            Move::PlaceCapture { place_index: 2, capture_index: 3 },
            Move::PlaceCapture { place_index: 2, capture_index: 13 },
            Move::PlaceCapture { place_index: 2, capture_index: 22 },
        ]
    );
    assert_eq!(moves.len(), 17 + 3);
}

#[test]
fn milled_pieces_are_safe_while_a_free_one_exists() {
    let position = Position { board: board_with(&[0, 1], &[21, 22, 23, 3]), player: Player::White, plies: 6 };
    let moves = generate_moves(&position, Variant::Nine);
    assert_eq!(captures(&moves), vec![3]);
}

#[test]
fn all_in_mills_override() {
    let position = Position { board: board_with(&[0, 1], &[21, 22, 23]), player: Player::White, plies: 6 };
    let moves = generate_moves(&position, Variant::Nine);
    assert_eq!(captures(&moves), vec![21, 22, 23]);
}

#[test]
fn twelve_board_diagonal_mill() {
    let position = Position { board: board_with(&[0, 3], &[12]), player: Player::White, plies: 3 };
    let nine = generate_moves(&position, Variant::Nine);
    let twelve = generate_moves(&position, Variant::Twelve);
    assert!(nine.contains(&Move::Place { place_index: 6 }));
    assert!(twelve.contains(&Move::PlaceCapture { place_index: 6, capture_index: 12 }));
    assert!(!twelve.contains(&Move::Place { place_index: 6 }));
}

#[test]
fn sliding_goes_to_neighbours_only() {
    let position = Position { board: board_with(&[0, 4, 8, 16], &[21, 22, 14, 11]), player: Player::White, plies: 20 };
    let moves = generate_moves(&position, Variant::Nine);
    assert!(moves.contains(&Move::Move { source_index: 0, destination_index: 1 }));
    assert!(moves.contains(&Move::Move { source_index: 0, destination_index: 9 }));
    assert!(!moves.contains(&Move::Move { source_index: 0, destination_index: 5 }));
    for m in &moves {
        assert!(matches!(m, Move::Move { .. } | Move::MoveCapture { .. }));
    }
}

#[test]
fn flying_with_three_pieces() {
    let position = Position { board: board_with(&[0, 4, 8], &[21, 22, 14, 11]), player: Player::White, plies: 20 };
    let moves = generate_moves(&position, Variant::Nine);
    for source in [0, 4, 8] {
        for dest in 0..24 {
            if position.board[dest as usize] != Node::Empty {
                continue;
            }
            assert!(
                moves.iter().any(|m| match *m {
                    Move::Move { source_index, destination_index } => source_index == source && destination_index == dest,
                    Move::MoveCapture { source_index, destination_index, .. } => source_index == source && destination_index == dest,
                    _ => false,
                }),
                "{} -> {}",
                source,
                dest
            );
        }
    }
}

#[test]
fn generated_moves_are_applicable() {
    let position = Position { board: board_with(&[0, 1, 9, 10], &[21, 22, 23, 3, 5]), player: Player::White, plies: 19 };
    for variant in [Variant::Nine, Variant::Twelve] {
        for m in generate_moves(&position, variant) {
            assert!(position.can_apply(&m));
            let mut after = position.clone();
            after.play_move(&m);
            assert_eq!(after.plies, 20);
            assert_eq!(after.player, Player::Black);
        }
    }
}

#[test]
fn static_evaluation_values() {
    assert_eq!(static_evaluation(&Position::default(), Variant::Nine), 0);
    let one = Position { board: board_with(&[0], &[]), player: Player::White, plies: 1 };
    assert_eq!(static_evaluation(&one, Variant::Nine), 12);
    assert_eq!(static_evaluation(&one, Variant::Twelve), 13);
    let centre = Position { board: board_with(&[4], &[1]), player: Player::White, plies: 2 };
    assert_eq!(static_evaluation(&centre, Variant::Nine), (10 + 3) - (10 + 2));
    let flying = Position { board: board_with(&[0, 1, 4], &[21, 22, 23, 10]), player: Player::White, plies: 30 };
    assert_eq!(static_evaluation(&flying, Variant::Nine), 30 + 12 - 40 - (1 + 1 + 1 + 4));
}

#[test]
fn evaluation_symmetry() {
    let p = Position { board: board_with(&[0, 4, 13], &[22, 9]), player: Player::White, plies: 5 };
    let q = Position { board: board_with(&[22, 9], &[0, 4, 13]), player: Player::Black, plies: 5 };
    let ep = static_evaluation(&p, Variant::Nine);
    let eq = static_evaluation(&q, Variant::Nine);
    assert_eq!(eq, -ep);
    assert_eq!(ep * perspective(&p), eq * perspective(&q));
}

#[test]
fn game_over_checks() {
    let two = Position { board: board_with(&[0, 1], &[21, 22, 23]), player: Player::White, plies: 18 };
    assert!(two.is_game_over_material(Variant::Nine));
    assert!(is_game_over_winner_material(&two, Variant::Nine));
    assert!(is_game_over(&two, Variant::Nine));
    let early = Position { plies: 17, ..two.clone() };
    assert!(!early.is_game_over_material(Variant::Nine));
    assert!(!is_game_over(&early, Variant::Nine));
    assert!(!two.is_game_over_material(Variant::Twelve));
    let blocked = Position { board: board_with(&[0, 2, 3, 5], &[1, 9, 14, 4, 10, 13]), player: Player::White, plies: 20 };
    assert!(generate_moves(&blocked, Variant::Nine).is_empty());
    assert!(is_game_over(&blocked, Variant::Nine));
    assert_eq!(two.count_player_pieces(), 2);
}

#[test]
fn play_move_and_counters() {
    let mut gp = GamePosition::default();
    gp.play_move(&Move::Place { place_index: 0 });
    assert_eq!(gp.position.board[0], Node::White);
    assert_eq!(gp.plies_no_advancement, 0);
    gp.position.plies = 18;
    gp.position.board = board_with(&[0], &[5]);
    gp.position.player = Player::White;
    gp.play_move(&Move::Move { source_index: 0, destination_index: 1 });
    assert_eq!(gp.plies_no_advancement, 1);
    gp.play_move(&Move::MoveCapture { source_index: 5, destination_index: 4, capture_index: 1 });
    assert_eq!(gp.position.board, board_with(&[], &[4]));
    assert_eq!(gp.plies_no_advancement, 0);
    gp.plies_no_advancement = 100;
    assert!(gp.is_fifty_move_rule());
    assert!(Move::Place { place_index: 3 }.is_advancement());
    assert!(!Move::Move { source_index: 3, destination_index: 4 }.is_advancement());
}

#[test]
fn time_control() {
    let p = Position::default();
    assert_eq!(sudden_death_time_control(Some(5000), Some(100), 50, &p), 100);
    let black = Position { player: Player::Black, ..Position::default() };
    assert_eq!(sudden_death_time_control(Some(5000), Some(100), 50, &black), 2);
    assert_eq!(sudden_death_time_control(None, None, 50, &p), u32::MAX / 50);
}

#[test]
fn all_in_mills_override_when_moving() {
    let position = Position { board: board_with(&[0, 1, 14, 10], &[21, 22, 23]), player: Player::White, plies: 20 };
    let moves = generate_moves(&position, Variant::Nine);
    for k in [21, 22, 23] {
        assert!(moves.contains(&Move::MoveCapture { source_index: 14, destination_index: 2, capture_index: k }));
    }
}

#[test]
fn fifty_move_rule_from_a_hundred_on() {
    let mut gp = GamePosition::default();
    gp.plies_no_advancement = 99;
    assert!(!gp.is_fifty_move_rule());
    gp.plies_no_advancement = 100;
    assert!(gp.is_fifty_move_rule());
    gp.plies_no_advancement = 137;
    assert!(gp.is_fifty_move_rule());
}

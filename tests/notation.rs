use muhle_intelligence::game::{GamePosition, Move, Node, Player, Position};
use muhle_intelligence::notation::{format_move, index_from_string, index_to_string, parse_move};
use muhle_intelligence::position_text::{format_position, parse_position, parse_setup};

#[test]
fn move_round_trip_all_shapes() {
    for text in ["a7", "d2xg1", "a7-d7", "b6-d6xa1", "g1", "c5xe5", "f4-g4", "d3-d2xc4"] {
        let m = parse_move(text).unwrap();
        assert_eq!(format_move(&m), text);
    }
}

#[test]
fn parse_move_values() {
    assert_eq!(parse_move("a7").unwrap(), Move::Place { place_index: 0 });
    assert_eq!(
        parse_move("d2xg1").unwrap(),
        Move::PlaceCapture { place_index: 19, capture_index: 23 }
    );
    assert_eq!(
        parse_move("a7-d7").unwrap(),
        Move::Move { source_index: 0, destination_index: 1 }
    );
    assert_eq!(
        parse_move("b6-d6xa1").unwrap(),
        Move::MoveCapture { source_index: 3, destination_index: 4, capture_index: 21 }
    );
}

#[test]
fn parse_move_rejects_malformed() {
    for text in ["", "a", "h1", "a2", "a7x", "a7-d7-g7", "a7xd7xg7", "a7xd7-g7", "a7 d7", " a7", "a7-"] {
        assert!(parse_move(text).is_err(), "{}", text);
    }
}

fn board_with(white: &[usize], black: &[usize]) -> [Node; 24] {
    let mut board = [Node::Empty; 24];
    for &i in white {
        board[i] = Node::White;
    }
    for &i in black {
        board[i] = Node::Black;
    }
    board
}

#[test]
fn position_text_round_trip() {
    let gp = GamePosition {
        position: Position { board: board_with(&[0, 5, 23], &[1, 12]), player: Player::Black, plies: 37 },
        plies_no_advancement: 12,
    };
    let text = format_position(&gp);
    assert_eq!(text, "w:a7,f6,g1;b:d7,e4;b;37;12");
    assert_eq!(parse_position(&text).unwrap(), gp);

    let empty = GamePosition::default();
    assert_eq!(format_position(&empty), "w:;b:;w;0;0");
    assert_eq!(parse_position("w:;b:;w;0;0").unwrap(), empty);
}

#[test]
fn parse_position_black_first_and_overlap() {
    let gp = parse_position("b:a7;w:g1,d1;w;9999;4").unwrap();
    assert_eq!(gp.position.board, board_with(&[23, 22], &[0]));
    assert_eq!(gp.position.plies, 9999);
    assert_eq!(gp.plies_no_advancement, 4);
    assert!(parse_position("w:a7;b:a7;w;0;0").is_err());
    assert!(parse_position("w:a7,;b:;w;0;0").is_err());
    assert!(parse_position("w:;b:;w;;0").is_err());
    assert!(parse_position("w:;b:;w;0;0;").is_err());
}

#[test]
fn parse_setup_turns() {
    let p = parse_setup("w:wa7:bg1:10").unwrap();
    assert_eq!(p.plies, 18);
    assert_eq!(p.player, Player::White);
    assert_eq!(p.board, board_with(&[0], &[23]));
    assert!(parse_setup("w:w:b:0").is_err());
    assert!(parse_setup("w:wa7:ba7:1").is_err());
    assert!(parse_setup("w:w:b:1000").is_err());
}

#[test]
fn cell_names_total() {
    assert_eq!(index_to_string(0), Ok("a7"));
    assert_eq!(index_to_string(23), Ok("g1"));
    assert!(index_to_string(24).is_err());
    assert!(index_to_string(-1).is_err());
    assert_eq!(index_from_string("e4"), Ok(12));
    assert!(index_from_string("a2").is_err());
    assert!(index_from_string("e44").is_err());
}

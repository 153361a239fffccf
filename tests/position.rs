use std::str::FromStr;

use muhle_intelligence::game::{GamePosition, Node, Player, Position};

#[test]
fn position() {
    assert_eq!(Position::default(), Position::from_str("w:w:b:1").unwrap());

    let position = Position {
        board: [
            Node::Black,
            Node::Black,
            Node::White,
            Node::Empty,
            Node::Empty,
            Node::Empty,
            Node::Empty,
            Node::Empty,
            Node::Empty,
            Node::Empty,
            Node::Empty,
            Node::Empty,
            Node::Empty,
            Node::Empty,
            Node::Empty,
            Node::Empty,
            Node::Empty,
            Node::Empty,
            Node::Empty,
            Node::Empty,
            Node::Empty,
            Node::White,
            Node::Black,
            Node::White,
        ],
        player: Player::Black,
        plies: 5,
    };

    assert_eq!(position, Position::from_str("b:wg7,a1,g1:ba7,d7,d1:3").unwrap());

    assert!(Position::from_str("pwemo3icm 80").is_err());
    assert!(Position::from_str("ofh3c:2bv73").is_err());
    assert!(Position::from_str("  w:w:b:0  ").is_err());
    assert!(Position::from_str("w:w:y9:b:0").is_err());
    assert!(Position::from_str("w:w:bj8:0").is_err());
    assert!(Position::from_str("a:w:b:0").is_err());
    assert!(Position::from_str("w:b:b:0").is_err());
}

#[test]
fn parse_position() {
    assert_eq!(GamePosition::default(), GamePosition::from_str("w:;b:;w;0;0").unwrap());

    let position = GamePosition {
        position: Position {
            board: [
                Node::Black,
                Node::Black,
                Node::White,
                Node::Empty,
                Node::Empty,
                Node::Empty,
                Node::Empty,
                Node::Empty,
                Node::Empty,
                Node::Empty,
                Node::Empty,
                Node::Empty,
                Node::Empty,
                Node::Empty,
                Node::Empty,
                Node::Empty,
                Node::Empty,
                Node::Empty,
                Node::Empty,
                Node::Empty,
                Node::Empty,
                Node::White,
                Node::Black,
                Node::White,
            ],
            player: Player::Black,
            plies: 6,
        },
        plies_no_advancement: 0,
    };

    assert_eq!(position, GamePosition::from_str("w:g7,a1,g1;b:a7,d7,d1;b;6;0").unwrap());

    assert!(GamePosition::from_str("ofh3c;2bv73").is_err());
    assert!(GamePosition::from_str("  w:;b:;w;0;0  ").is_err());
    assert!(GamePosition::from_str("w:y9;b:;w;0;0").is_err());
    assert!(GamePosition::from_str("w:;b:j8;w;0;0").is_err());
    assert!(GamePosition::from_str("w:;b:;a;0;0").is_err());
    assert!(GamePosition::from_str("w:;b:;w;99999;0").is_err());
    assert!(GamePosition::from_str("w:;b:;w;0;99999").is_err());
    assert!(GamePosition::from_str("b:;b:;w;0;0").is_err());
}

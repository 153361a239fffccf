use std::sync::atomic::AtomicBool;
use std::sync::mpsc;
use std::sync::Arc;

use muhle_intelligence::game::{Game, GamePosition, Move, Node, Player, Position, PvLine, Variant};
use muhle_intelligence::messages::{bestmove, gbgpok, id, info, readyok, Identifier, Score};
use muhle_intelligence::search_node::{push_child, SearchNode};
use muhle_intelligence::think::{Think, ThinkContext};

fn board_with(white: &[usize], black: &[usize]) -> [Node; 24] {
    let mut board = [Node::Empty; 24];
    for &i in white {
        board[i] = Node::White;
    }
    for &i in black {
        board[i] = Node::Black;
    }
    board
}

fn search(position: Position, moves: Vec<Move>, depth: Option<i32>, stop: bool) -> (Option<Move>, Think) {
    let mut game = Game::new();
    game.position = position;
    game.moves = moves;
    game.depth = depth;
    let mut think = Think::new();
    let ctx = ThinkContext::new(Arc::new(AtomicBool::new(stop)));
    let best = think.think(game, ctx, Variant::Nine);
    (best, think)
}

#[test]
fn empty_board_depth_one_places() {
    let (best, think) = search(Position::default(), Vec::new(), Some(1), false);
    assert!(matches!(best, Some(Move::Place { place_index }) if (0..24).contains(&place_index)));
    assert_eq!(think.reports.len(), 1);
    assert_eq!(think.reports[0].depth, 1);
    assert_eq!(think.reports[0].nodes, 24);
}

#[test]
fn depth_one_closes_the_mill() {
    let position = Position { board: board_with(&[0, 1, 12], &[3, 13, 22]), player: Player::White, plies: 6 };
    let (best, _) = search(position, Vec::new(), Some(1), false);
    assert!(matches!(best, Some(Move::PlaceCapture { place_index: 2, .. })));
}

#[test]
fn deeper_search_returns_legal_move() {
    let position = Position { board: board_with(&[0, 1, 12], &[3, 13, 22]), player: Player::White, plies: 6 };
    let (best, think) = search(position.clone(), Vec::new(), Some(3), false);
    let best = best.unwrap();
    assert!(muhle_intelligence::move_generation::generate_moves(&position, Variant::Nine).contains(&best));
    assert_eq!(think.reports.len(), 3);
    assert_eq!(think.reports[2].pv.first(), Some(&best));
}

#[test]
fn material_loss_is_terminal() {
    let position = Position { board: board_with(&[0, 1], &[21, 22, 23, 5]), player: Player::White, plies: 20 };
    let (best, think) = search(position, Vec::new(), Some(3), false);
    assert_eq!(best, None);
    assert_eq!(think.reports.len(), 1);
    assert_eq!(think.reports[0].score, Score::Win(0));
}

#[test]
fn no_depth_gives_no_move() {
    let (best, _) = search(Position::default(), Vec::new(), Some(0), false);
    assert_eq!(best, None);
}

#[test]
fn unplayable_history_gives_no_move() {
    let moves = vec![Move::Place { place_index: 0 }, Move::Place { place_index: 0 }];
    let (best, _) = search(Position::default(), moves, Some(1), false);
    assert_eq!(best, None);
}

#[test]
fn history_is_replayed() {
    let moves = vec![Move::Place { place_index: 0 }, Move::Place { place_index: 21 }, Move::Place { place_index: 1 }];
    let (best, _) = search(Position::default(), moves, Some(2), false);
    assert_eq!(best, Some(Move::Place { place_index: 2 }));
}

#[test]
fn stop_request_ends_a_deep_search() {
    let (best, think) = search(Position::default(), Vec::new(), Some(50), true);
    assert!(matches!(best, Some(Move::Place { .. })));
    assert_eq!(think.reports.len(), 1);
}

#[test]
fn movetime_bounds_a_deep_search() {
    let mut game = Game::new();
    game.movetime = Some(0);
    let mut think = Think::new();
    let ctx = ThinkContext::new(Arc::new(AtomicBool::new(false)));
    let best = think.think(game, ctx, Variant::Nine);
    assert!(best.is_some());
    assert!(think.reports.len() <= 2);
}

#[test]
fn repetition_after_three_occurrences() {
    let start = GamePosition {
        position: Position { board: board_with(&[0, 17, 18], &[2, 15, 23]), player: Player::White, plies: 20 },
        plies_no_advancement: 0,
    };
    let cycle = [
        Move::Move { source_index: 0, destination_index: 1 },
        Move::Move { source_index: 2, destination_index: 14 },
        Move::Move { source_index: 1, destination_index: 0 },
        Move::Move { source_index: 14, destination_index: 2 },
    ];
    let mut nodes = vec![SearchNode::from_position(&start)];
    for round in 0..2 {
        for m in cycle.iter() {
            push_child(&mut nodes, m);
        }
        let last = nodes.len() - 1;
        assert_eq!(SearchNode::is_threefold_repetition_rule(&nodes, last, Variant::Nine), round == 1);
    }
    assert_eq!(nodes.len(), 9);
    push_child(&mut nodes, &Move::MoveCapture { source_index: 0, destination_index: 1, capture_index: 15 });
    let last = nodes.len() - 1;
    assert_eq!(nodes[last].previous, None);
    assert!(!SearchNode::is_threefold_repetition_rule(&nodes, last, Variant::Nine));
}

#[test]
fn repetition_scores_a_draw() {
    let start = Position { board: board_with(&[0, 17, 18, 6], &[2, 15, 23, 8]), player: Player::White, plies: 20 };
    let moves = vec![
        Move::Move { source_index: 0, destination_index: 1 },
        Move::Move { source_index: 2, destination_index: 14 },
        Move::Move { source_index: 1, destination_index: 0 },
        Move::Move { source_index: 14, destination_index: 2 },
        Move::Move { source_index: 0, destination_index: 1 },
        Move::Move { source_index: 2, destination_index: 14 },
        Move::Move { source_index: 1, destination_index: 0 },
        Move::Move { source_index: 14, destination_index: 2 },
    ];
    let (best, think) = search(start, moves, Some(1), false);
    assert_eq!(best, None);
    assert_eq!(think.reports[0].score, Score::Eval(0));
}

#[test]
fn score_forms() {
    assert_eq!(Think::score(499), Score::Win(0));
    assert_eq!(Think::score(480), Score::Win(9));
    assert_eq!(Think::score(-480), Score::Win(-9));
    assert_eq!(Think::score(0), Score::Eval(0));
    assert_eq!(Think::score(448), Score::Eval(448));
}

#[test]
fn message_lines() {
    let m = Move::PlaceCapture { place_index: 2, capture_index: 3 };
    let p = Move::Place { place_index: 0 };
    assert_eq!(bestmove(Some(&m), None), "bestmove g7xb6\n");
    assert_eq!(bestmove(Some(&m), Some(&p)), "bestmove g7xb6 ponder a7\n");
    assert_eq!(bestmove(None, None), "bestmove none\n");
    assert_eq!(gbgpok(), "gbgpok\n");
    assert_eq!(readyok(), "readyok\n");
    assert_eq!(id(Identifier::Name(String::from("Muhle"))), "id name Muhle\n");
    assert_eq!(id(Identifier::Author(String::from("S"))), "id author S\n");
    let line = PvLine { moves: vec![m, p] };
    assert_eq!(
        info(Some(3), Some(15), Some(120), Some(Score::Eval(-7)), None, None, None, None, Some(&line)),
        "info depth 3 time 15 nodes 120 score eval -7 pv g7xb6 a7\n"
    );
    assert_eq!(info(None, None, None, Some(Score::Win(2)), Some(p), Some(1), None, None, None), "info score win 2 currmove a7 currmovenumber 1\n");
}

#[test]
fn mirrored_search_scores_are_negated() {
    let p = Position { board: board_with(&[0, 4, 13, 19], &[22, 9, 7]), player: Player::White, plies: 7 };
    let q = Position { board: board_with(&[22, 9, 7], &[0, 4, 13, 19]), player: Player::Black, plies: 7 };
    for depth in 1..4 {
        let (_, tp) = search(p.clone(), Vec::new(), Some(depth), false);
        let (_, tq) = search(q.clone(), Vec::new(), Some(depth), false);
        let sp = tp.reports.last().unwrap().score;
        let sq = tq.reports.last().unwrap().score;
        match (sp, sq) {
            (Score::Eval(a), Score::Eval(b)) => assert_eq!(a, -b),
            (Score::Win(a), Score::Win(b)) => assert_eq!(a, -b),
            _ => panic!("score kinds differ"),
        }
    }
}

#[test]
fn reports_are_sent_as_iterations_finish() {
    let (progress, received) = mpsc::channel();
    let mut game = Game::new();
    game.depth = Some(3);
    let mut think = Think::new();
    let ctx = ThinkContext::with_progress(Arc::new(AtomicBool::new(false)), progress);
    let best = think.think(game, ctx, Variant::Twelve);
    assert!(best.is_some());
    let sent: Vec<_> = received.try_iter().collect();
    assert_eq!(sent.len(), 3);
    for (i, report) in sent.iter().enumerate() {
        assert_eq!(report.depth, i as i32 + 1);
        assert_eq!(report.score, think.reports[i].score);
        assert_eq!(report.pv, think.reports[i].pv);
    }
}


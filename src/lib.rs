//! A Nine and Twelve Men's Morris engine core: board model, move notation,
//! legal move generation, static evaluation and an iterative-deepening
//! alpha-beta search, each stated and proved against a mathematical model.

/// Board, pieces, moves and positions, and how a move changes a position.
pub mod game;
/// Lines of three, mills and neighbourhood on both boards.
pub mod rules;
/// Legal moves, as an exact sequence and as a predicate.
pub mod move_generation;
/// The static score of a position.
pub mod evaluation;
/// Search nodes in an arena, linked for repetition detection.
pub mod search_node;
/// Iterative-deepening alpha-beta search against a negamax model.
pub mod think;
/// Colour exchange leaves the search value unchanged.
pub mod symmetry;
/// Time budget for a move.
pub mod time;
/// Text of cells and moves.
pub mod notation;
/// Text of positions.
pub mod position_text;
/// Commands of the protocol, read from their tokens.
pub mod commands;
/// Lines the engine sends.
pub mod messages;
/// Engine options.
pub mod options;
/// Decisions of the engine between commands.
pub mod coordinator;

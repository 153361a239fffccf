use vstd::prelude::*;

use crate::game::{count_of, count_upto, lemma_count_bounds, Board, Node, Player, Position, Variant};
use crate::rules::{adjacent, is_adjacent};

verus! {

pub type Eval = i32;

/// The search window; every score lies strictly inside it.
pub const WINDOW_MAX: Eval = 500;

pub const WINDOW_MIN: Eval = -500;

/// The score of a won position, before the distance to it is taken off.
pub const MAX: Eval = 499;

/// The score of a lost position, before the distance to it is added.
pub const MIN: Eval = -499;

/// Worth of one piece.
pub const PLAYER_EVAL: Eval = 10;

/// Worth of one empty neighbouring cell.
pub const FREEDOM_EVAL: Eval = 1;

/// Freedom credited to a side that flies with three pieces.
pub const ENDGAME_PLAYER_FREEDOM: Eval = 12;

/// Number of empty cells among the first `n` that neighbour cell `i`.
pub open spec fn freedom_upto(b: Seq<Node>, v: Variant, i: int, n: int) -> int
    decreases n,
{
    if n <= 0 {
        0
    } else {
        freedom_upto(b, v, i, n - 1) + if adjacent(v, i, n - 1) && b[n - 1] == Node::Empty {
            1int
        } else {
            0int
        }
    }
}

/// Number of empty cells next to cell `i`.
pub open spec fn freedom(b: Seq<Node>, v: Variant, i: int) -> int {
    freedom_upto(b, v, i, 24)
}

/// Sum of the freedoms of the pieces of `n` on the first `upto` cells.
pub open spec fn freedom_sum_upto(b: Seq<Node>, v: Variant, n: Node, upto: int) -> int
    decreases upto,
{
    if upto <= 0 {
        0
    } else {
        freedom_sum_upto(b, v, n, upto - 1) + if b[upto - 1] == n {
            freedom(b, v, upto - 1)
        } else {
            0int
        }
    }
}

/// The freedom term of the side with pieces `n`: a flat bonus for a side that flies with three
/// pieces past the placement phase, else the sum of its pieces' freedoms.
pub open spec fn side_freedom(pos: Position, v: Variant, n: Node) -> int {
    if pos.plies >= v.spec_threshold() && count_of(pos.board@, n) == 3 {
        ENDGAME_PLAYER_FREEDOM as int
    } else {
        freedom_sum_upto(pos.board@, v, n, 24)
    }
}

/// The static score of a position from White's side: ten per piece and one per unit of
/// freedom, White's counted positive and Black's negative.
pub open spec fn static_eval(pos: Position, v: Variant) -> int {
    PLAYER_EVAL * (count_of(pos.board@, Node::White) - count_of(pos.board@, Node::Black))
        + FREEDOM_EVAL * (side_freedom(pos, v, Node::White) - side_freedom(pos, v, Node::Black))
}

pub open spec fn spec_perspective(pos: Position) -> int {
    if pos.player == Player::White {
        1
    } else {
        -1
    }
}

proof fn lemma_freedom_bounds(b: Seq<Node>, v: Variant, i: int, n: int)
    requires
        0 <= n,
    ensures
        0 <= freedom_upto(b, v, i, n) <= count_upto(b, Node::Empty, n),
    decreases n,
{
    if n > 0 {
        lemma_freedom_bounds(b, v, i, n - 1);
    }
}

proof fn lemma_freedom_sum_bounds(b: Seq<Node>, v: Variant, n: Node, upto: int)
    requires
        0 <= upto <= 24,
    ensures
        0 <= freedom_sum_upto(b, v, n, upto) <= count_upto(b, n, upto) * count_of(
            b,
            Node::Empty,
        ),
    decreases upto,
{
    if upto > 0 {
        lemma_freedom_sum_bounds(b, v, n, upto - 1);
        lemma_freedom_bounds(b, v, upto - 1, 24);
        let c = count_upto(b, n, upto - 1);
        let e = count_of(b, Node::Empty);
        assert(c * e + e == (c + 1) * e) by (nonlinear_arith);
    }
}

proof fn lemma_counts_partition(b: Seq<Node>, n: int)
    requires
        0 <= n,
    ensures
        count_upto(b, Node::White, n) + count_upto(b, Node::Black, n) + count_upto(
            b,
            Node::Empty,
            n,
        ) == n,
    decreases n,
{
    if n > 0 {
        lemma_counts_partition(b, n - 1);
    }
}

proof fn lemma_side_bound(w: int, e: int, f: int)
    requires
        0 <= w,
        0 <= e,
        w + e <= 24,
        0 <= f <= w * e,
    ensures
        10 * w + f <= 289,
{
    assert(w * e <= w * (24 - w)) by (nonlinear_arith)
        requires
            0 <= w,
            e <= 24 - w,
    ;
    assert(10 * w + w * (24 - w) <= 289) by (nonlinear_arith);
}

/// The static score stays well inside the search window, away from the scores of won and
/// lost positions.
pub proof fn lemma_static_eval_bounds(pos: Position, v: Variant)
    ensures
        -301 <= static_eval(pos, v) <= 301,
{
    let b = pos.board@;
    lemma_counts_partition(b, 24);
    lemma_count_bounds(b, Node::White, 24);
    lemma_count_bounds(b, Node::Black, 24);
    lemma_count_bounds(b, Node::Empty, 24);
    lemma_freedom_sum_bounds(b, v, Node::White, 24);
    lemma_freedom_sum_bounds(b, v, Node::Black, 24);
    let w = count_of(b, Node::White);
    let k = count_of(b, Node::Black);
    let e = count_of(b, Node::Empty);
    let fw = freedom_sum_upto(b, v, Node::White, 24);
    let fk = freedom_sum_upto(b, v, Node::Black, 24);
    lemma_side_bound(w, e, fw);
    lemma_side_bound(k, e, fk);
    assert(0 <= w * e);
    assert(0 <= k * e);
}

fn piece_freedom(board: &Board, v: Variant, index: usize) -> (r: i32)
    ensures
        r == freedom(board@, v, index as int),
{
    let mut result: i32 = 0;
    let mut j: usize = 0;
    while j < 24
        invariant
            j <= 24,
            result == freedom_upto(board@, v, index as int, j as int),
        decreases 24 - j,
    {
        proof {
            lemma_freedom_bounds(board@, v, index as int, j as int);
            lemma_count_bounds(board@, Node::Empty, j as int);
        }
        if board[j] == Node::Empty && is_adjacent(v, index, j) {
            result = result + 1;
        }
        j = j + 1;
    }
    result
}

/// The static score of a position from White's side (see `static_eval`).
pub fn static_evaluation(position: &Position, variant: Variant) -> (r: Eval)
    ensures
        r == static_eval(*position, variant),
        -301 <= r <= 301,
{
    let board = &position.board;
    let ghost b = board@;
    let mut white_pieces: i32 = 0;
    let mut black_pieces: i32 = 0;
    let mut white_freedom: i32 = 0;
    let mut black_freedom: i32 = 0;
    let mut i: usize = 0;
    while i < 24
        invariant
            i <= 24,
            b == board@,
            white_pieces == count_upto(b, Node::White, i as int),
            black_pieces == count_upto(b, Node::Black, i as int),
            white_freedom == freedom_sum_upto(b, variant, Node::White, i as int),
            black_freedom == freedom_sum_upto(b, variant, Node::Black, i as int),
        decreases 24 - i,
    {
        proof {
            lemma_count_bounds(b, Node::White, i as int);
            lemma_count_bounds(b, Node::Black, i as int);
            lemma_count_bounds(b, Node::White, 24);
            lemma_count_bounds(b, Node::Black, 24);
            lemma_count_bounds(b, Node::Empty, 24);
            lemma_freedom_sum_bounds(b, variant, Node::White, i as int);
            lemma_freedom_sum_bounds(b, variant, Node::Black, i as int);
            lemma_freedom_bounds(b, variant, i as int, 24);
            assert(count_upto(b, Node::White, i as int) * count_of(b, Node::Empty) <= 24 * 24)
                by (nonlinear_arith)
                requires
                    0 <= count_upto(b, Node::White, i as int) <= 24,
                    0 <= count_of(b, Node::Empty) <= 24,
            ;
            assert(count_upto(b, Node::Black, i as int) * count_of(b, Node::Empty) <= 24 * 24)
                by (nonlinear_arith)
                requires
                    0 <= count_upto(b, Node::Black, i as int) <= 24,
                    0 <= count_of(b, Node::Empty) <= 24,
            ;
        }
        match board[i] {
            Node::White => {
                white_pieces = white_pieces + 1;
                white_freedom = white_freedom + piece_freedom(board, variant, i);
            },
            Node::Black => {
                black_pieces = black_pieces + 1;
                black_freedom = black_freedom + piece_freedom(board, variant, i);
            },
            Node::Empty => {},
        }
        i = i + 1;
    }
    if position.plies >= variant.threshold() {
        if white_pieces == 3 {
            white_freedom = ENDGAME_PLAYER_FREEDOM;
        }
        if black_pieces == 3 {
            black_freedom = ENDGAME_PLAYER_FREEDOM;
        }
    }
    proof {
        lemma_static_eval_bounds(*position, variant);
        lemma_freedom_sum_bounds(b, variant, Node::White, 24);
        lemma_freedom_sum_bounds(b, variant, Node::Black, 24);
        lemma_count_bounds(b, Node::Empty, 24);
        lemma_count_bounds(b, Node::White, 24);
        lemma_count_bounds(b, Node::Black, 24);
        assert(count_upto(b, Node::White, 24) * count_of(b, Node::Empty) <= 24 * 24)
            by (nonlinear_arith)
            requires
                0 <= count_upto(b, Node::White, 24) <= 24,
                0 <= count_of(b, Node::Empty) <= 24,
        ;
        assert(count_upto(b, Node::Black, 24) * count_of(b, Node::Empty) <= 24 * 24)
            by (nonlinear_arith)
            requires
                0 <= count_upto(b, Node::Black, 24) <= 24,
                0 <= count_of(b, Node::Empty) <= 24,
        ;
    }
    PLAYER_EVAL * (white_pieces - black_pieces) + FREEDOM_EVAL * (white_freedom - black_freedom)
}

/// One for White to move, minus one for Black: turns a score from White's side into one from
/// the mover's side.
pub fn perspective(position: &Position) -> (r: Eval)
    ensures
        r == spec_perspective(*position),
{
    match position.player {
        Player::White => 1,
        Player::Black => -1,
    }
}


pub open spec fn swap_node(n: Node) -> Node {
    match n {
        Node::White => Node::Black,
        Node::Black => Node::White,
        Node::Empty => Node::Empty,
    }
}

/// The board with the colours of all pieces exchanged.
pub open spec fn mirror_board(b: Seq<Node>) -> Seq<Node> {
    Seq::new(b.len(), |i: int| swap_node(b[i]))
}

pub proof fn lemma_mirror_counts(b: Seq<Node>, n: Node, upto: int)
    requires
        0 <= upto <= b.len(),
    ensures
        count_upto(mirror_board(b), swap_node(n), upto) == count_upto(b, n, upto),
    decreases upto,
{
    if upto > 0 {
        lemma_mirror_counts(b, n, upto - 1);
    }
}

proof fn lemma_mirror_freedom(b: Seq<Node>, v: Variant, i: int, upto: int)
    requires
        0 <= upto <= b.len(),
    ensures
        freedom_upto(mirror_board(b), v, i, upto) == freedom_upto(b, v, i, upto),
    decreases upto,
{
    if upto > 0 {
        lemma_mirror_freedom(b, v, i, upto - 1);
    }
}

proof fn lemma_mirror_freedom_sum(b: Seq<Node>, v: Variant, n: Node, upto: int)
    requires
        0 <= upto <= b.len(),
        b.len() == 24,
    ensures
        freedom_sum_upto(mirror_board(b), v, swap_node(n), upto) == freedom_sum_upto(b, v, n, upto),
    decreases upto,
{
    if upto > 0 {
        lemma_mirror_freedom_sum(b, v, n, upto - 1);
        lemma_mirror_freedom(b, v, upto - 1, 24);
    }
}

/// Exchanging the colours of all pieces and the player to move negates the static score, and
/// so leaves the score from the mover's side unchanged.
pub proof fn lemma_evaluation_symmetry(p: Position, q: Position, v: Variant)
    requires
        q.board@ == mirror_board(p.board@),
        q.player != p.player,
        q.plies == p.plies,
    ensures
        static_eval(q, v) == -static_eval(p, v),
        static_eval(q, v) * spec_perspective(q) == static_eval(p, v) * spec_perspective(p),
{
    let b = p.board@;
    lemma_mirror_counts(b, Node::White, 24);
    lemma_mirror_counts(b, Node::Black, 24);
    lemma_mirror_freedom_sum(b, v, Node::White, 24);
    lemma_mirror_freedom_sum(b, v, Node::Black, 24);
    assert(static_eval(q, v) == -static_eval(p, v));
    if p.player == Player::White {
        assert(spec_perspective(q) == -1);
    } else {
        assert(spec_perspective(q) == 1);
    }
}

} // verus!

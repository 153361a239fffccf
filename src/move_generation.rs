use vstd::prelude::*;

use crate::game::{
    as_node, count_of, is_cell, count_upto, node_of, opponent, spec_opponent, Board, Idx, Move, Node, Player, Position,
    Variant,
};
use crate::rules::{
    adjacent, all_in_mills, all_pieces_in_mills, capturable, in_mill, is_adjacent, is_mill,
    line_full, num_lines,
};

verus! {

/// The capture move that lands on `dst` (from `src`, or placed where `src` is negative) and
/// takes the piece on `k`.
pub open spec fn capture_move(src: int, dst: int, k: int) -> Move {
    if src < 0 {
        Move::PlaceCapture { place_index: dst as Idx, capture_index: k as Idx }
    } else {
        Move::MoveCapture {
            source_index: src as Idx,
            destination_index: dst as Idx,
            capture_index: k as Idx,
        }
    }
}

/// The move that lands on `dst` without capturing.
pub open spec fn plain_move(src: int, dst: int) -> Move {
    if src < 0 {
        Move::Place { place_index: dst as Idx }
    } else {
        Move::Move { source_index: src as Idx, destination_index: dst as Idx }
    }
}

/// The captures, in ascending order of the captured cell among the first `n`, that follow a
/// mill closed on `dst`; `b` is the board with the moving piece already landed.
pub open spec fn capture_moves_upto(
    b: Seq<Node>,
    them: Node,
    v: Variant,
    src: int,
    dst: int,
    n: int,
) -> Seq<Move>
    decreases n,
{
    if n <= 0 {
        seq![]
    } else {
        capture_moves_upto(b, them, v, src, dst, n - 1) + if capturable(b, them, v, n - 1) {
            seq![capture_move(src, dst, n - 1)]
        } else {
            seq![]
        }
    }
}

/// The moves of `p` whose piece lands on `dst`, `b` being the board after it landed: one
/// capture per capturable opponent piece if the landing closes a mill, else the plain move.
pub open spec fn landing_moves(b: Seq<Node>, p: Player, v: Variant, src: int, dst: int) -> Seq<
    Move,
> {
    if in_mill(b, node_of(p), v, dst) {
        capture_moves_upto(b, node_of(spec_opponent(p)), v, src, dst, 24)
    } else {
        seq![plain_move(src, dst)]
    }
}

/// The placements of `p` onto the first `n` cells, in ascending order of the target cell.
pub open spec fn place_moves_upto(b: Seq<Node>, p: Player, v: Variant, n: int) -> Seq<Move>
    decreases n,
{
    if n <= 0 {
        seq![]
    } else {
        place_moves_upto(b, p, v, n - 1) + if b[n - 1] == Node::Empty {
            landing_moves(b.update(n - 1, node_of(p)), p, v, -1, n - 1)
        } else {
            seq![]
        }
    }
}

/// A piece may go from `i` to `j`: an empty cell next to it, or any empty cell when flying.
pub open spec fn may_go(b: Seq<Node>, v: Variant, fly: bool, i: int, j: int) -> bool {
    b[j] == Node::Empty && (fly || adjacent(v, i, j))
}

/// The moves of the piece on `i` to the first `n` cells, in ascending order of the destination.
pub open spec fn slide_dests_upto(
    b: Seq<Node>,
    p: Player,
    v: Variant,
    fly: bool,
    i: int,
    n: int,
) -> Seq<Move>
    decreases n,
{
    if n <= 0 {
        seq![]
    } else {
        slide_dests_upto(b, p, v, fly, i, n - 1) + if may_go(b, v, fly, i, n - 1) {
            landing_moves(b.update(i, Node::Empty).update(n - 1, node_of(p)), p, v, i, n - 1)
        } else {
            seq![]
        }
    }
}

/// The moves of the pieces of `p` on the first `n` cells, in ascending order of the source.
pub open spec fn slide_moves_upto(b: Seq<Node>, p: Player, v: Variant, fly: bool, n: int) -> Seq<
    Move,
>
    decreases n,
{
    if n <= 0 {
        seq![]
    } else {
        slide_moves_upto(b, p, v, fly, n - 1) + if b[n - 1] == node_of(p) {
            slide_dests_upto(b, p, v, fly, n - 1, 24)
        } else {
            seq![]
        }
    }
}

/// The legal moves of a position, in the order in which they are generated.
pub open spec fn legal_moves(pos: Position, v: Variant) -> Seq<Move> {
    if pos.plies < v.spec_threshold() {
        place_moves_upto(pos.board@, pos.player, v, 24)
    } else {
        slide_moves_upto(pos.board@, pos.player, v, pos.spec_count() == 3, 24)
    }
}

/// Appends the moves of `player` whose piece landed on `dst` of `board`.
fn push_landing(
    moves: &mut Vec<Move>,
    board: &Board,
    player: Player,
    v: Variant,
    src: Idx,
    dst: usize,
)
    requires
        dst < 24,
        -1 <= src < 24,
    ensures
        final(moves)@ == old(moves)@ + landing_moves(board@, player, v, src as int, dst as int),
{
    if is_mill(board, player, v, dst) {
        let them = opponent(player);
        let them_node = as_node(them);
        let all_in = all_pieces_in_mills(board, them, v);
        let ghost start = moves@;
        let mut k: usize = 0;
        while k < 24
            invariant
                k <= 24,
                dst < 24,
                -1 <= src < 24,
                them_node == node_of(them),
                them == spec_opponent(player),
                all_in == all_in_mills(board@, them_node, v),
                moves@ == start + capture_moves_upto(
                    board@,
                    them_node,
                    v,
                    src as int,
                    dst as int,
                    k as int,
                ),
            decreases 24 - k,
        {
            let ghost before = moves@;
            if board[k] == them_node && (!is_mill(board, them, v, k) || all_in) {
                if src < 0 {
                    moves.push(Move::PlaceCapture { place_index: dst as Idx, capture_index: k as Idx });
                } else {
                    moves.push(
                        Move::MoveCapture {
                            source_index: src,
                            destination_index: dst as Idx,
                            capture_index: k as Idx,
                        },
                    );
                }
            }
            assert(moves@ =~= start + capture_moves_upto(
                board@,
                them_node,
                v,
                src as int,
                dst as int,
                k + 1,
            ));
            k = k + 1;
        }
    } else {
        if src < 0 {
            moves.push(Move::Place { place_index: dst as Idx });
        } else {
            moves.push(Move::Move { source_index: src, destination_index: dst as Idx });
        }
        assert(moves@ =~= old(moves)@ + landing_moves(board@, player, v, src as int, dst as int));
    }
}

fn generate_placements(board: &Board, player: Player, v: Variant) -> (r: Vec<Move>)
    ensures
        r@ == place_moves_upto(board@, player, v, 24),
{
    let mut moves: Vec<Move> = Vec::new();
    let mut scratch: Board = *board;
    let me = as_node(player);
    let mut i: usize = 0;
    while i < 24
        invariant
            i <= 24,
            scratch@ == board@,
            me == node_of(player),
            moves@ == place_moves_upto(board@, player, v, i as int),
        decreases 24 - i,
    {
        if scratch[i] == Node::Empty {
            scratch[i] = me;
            push_landing(&mut moves, &scratch, player, v, -1, i);
            scratch[i] = Node::Empty;
            assert(scratch@ =~= board@);
        }
        assert(moves@ =~= place_moves_upto(board@, player, v, i + 1));
        i = i + 1;
    }
    moves
}

fn generate_slides(board: &Board, player: Player, v: Variant, fly: bool) -> (r: Vec<Move>)
    ensures
        r@ == slide_moves_upto(board@, player, v, fly, 24),
{
    let mut moves: Vec<Move> = Vec::new();
    let mut scratch: Board = *board;
    let me = as_node(player);
    let mut i: usize = 0;
    while i < 24
        invariant
            i <= 24,
            scratch@ == board@,
            me == node_of(player),
            moves@ == slide_moves_upto(board@, player, v, fly, i as int),
        decreases 24 - i,
    {
        if scratch[i] == me {
            let ghost outer = moves@;
            let mut j: usize = 0;
            while j < 24
                invariant
                    i < 24,
                    j <= 24,
                    scratch@ == board@,
                    board@[i as int] == me,
                    me == node_of(player),
                    moves@ == outer + slide_dests_upto(
                        board@,
                        player,
                        v,
                        fly,
                        i as int,
                        j as int,
                    ),
                decreases 24 - j,
            {
                if scratch[j] == Node::Empty && (fly || is_adjacent(v, i, j)) {
                    scratch[i] = Node::Empty;
                    scratch[j] = me;
                    push_landing(&mut moves, &scratch, player, v, i as Idx, j);
                    scratch[j] = Node::Empty;
                    scratch[i] = me;
                    assert(scratch@ =~= board@);
                }
                assert(moves@ =~= outer + slide_dests_upto(
                    board@,
                    player,
                    v,
                    fly,
                    i as int,
                    j + 1,
                ));
                j = j + 1;
            }
        }
        assert(moves@ =~= slide_moves_upto(board@, player, v, fly, i + 1));
        i = i + 1;
    }
    moves
}

/// The legal moves of the player to move: placements before the placement phase ends, then
/// moves to neighbouring empty cells, or to any empty cell for a player left with three
/// pieces. A move that closes a mill comes once for each opponent piece it may capture.
pub fn generate_moves(position: &Position, variant: Variant) -> (r: Vec<Move>)
    ensures
        r@ == legal_moves(*position, variant),
{
    if position.plies < variant.threshold() {
        generate_placements(&position.board, position.player, variant)
    } else {
        let fly = position.count_player_pieces() == 3;
        generate_slides(&position.board, position.player, variant, fly)
    }
}


/// The cell a move lands on.
pub open spec fn target(m: Move) -> int {
    match m {
        Move::Place { place_index } => place_index as int,
        Move::PlaceCapture { place_index, .. } => place_index as int,
        Move::Move { destination_index, .. } => destination_index as int,
        Move::MoveCapture { destination_index, .. } => destination_index as int,
    }
}

/// The cell a move leaves, or -1 for a placement.
pub open spec fn source(m: Move) -> int {
    match m {
        Move::Move { source_index, .. } => source_index as int,
        Move::MoveCapture { source_index, .. } => source_index as int,
        _ => -1,
    }
}

/// The cell a move captures on, or -1 for a move without capture.
pub open spec fn captured(m: Move) -> int {
    match m {
        Move::PlaceCapture { capture_index, .. } => capture_index as int,
        Move::MoveCapture { capture_index, .. } => capture_index as int,
        _ => -1,
    }
}

pub open spec fn is_capture(m: Move) -> bool {
    m is PlaceCapture || m is MoveCapture
}

/// A move is legal in a position:
/// - in the placement phase, it places on an empty cell; it captures exactly when the placed
///   piece closes a mill, and then the captured piece is capturable;
/// - afterwards, it moves a piece of the mover to an empty cell, a neighbouring one unless the
///   mover is down to three pieces; it captures exactly when the piece closes a mill on
///   arrival, and then the captured piece is capturable.
pub open spec fn is_legal(pos: Position, v: Variant, m: Move) -> bool {
    let b = pos.board@;
    let me = node_of(pos.player);
    let them = node_of(spec_opponent(pos.player));
    let t = target(m);
    let s = source(m);
    if pos.plies < v.spec_threshold() {
        let b2 = b.update(t, me);
        &&& m is Place || m is PlaceCapture
        &&& is_cell(t)
        &&& b[t] == Node::Empty
        &&& is_capture(m) == in_mill(b2, me, v, t)
        &&& is_capture(m) ==> is_cell(captured(m)) && capturable(b2, them, v, captured(m))
    } else {
        let b2 = b.update(s, Node::Empty).update(t, me);
        &&& m is Move || m is MoveCapture
        &&& is_cell(s)
        &&& is_cell(t)
        &&& b[s] == me
        &&& may_go(b, v, pos.spec_count() == 3, s, t)
        &&& is_capture(m) == in_mill(b2, me, v, t)
        &&& is_capture(m) ==> is_cell(captured(m)) && capturable(b2, them, v, captured(m))
    }
}

proof fn lemma_concat_contains(a: Seq<Move>, b: Seq<Move>, x: Move)
    ensures
        (a + b).contains(x) <==> (a.contains(x) || b.contains(x)),
{
    if a.contains(x) {
        let i = choose|i: int| 0 <= i < a.len() && a[i] == x;
        assert((a + b)[i] == x);
    }
    if b.contains(x) {
        let i = choose|i: int| 0 <= i < b.len() && b[i] == x;
        assert((a + b)[a.len() + i] == x);
    }
    if (a + b).contains(x) {
        let i = choose|i: int| 0 <= i < (a + b).len() && (a + b)[i] == x;
        if i < a.len() {
            assert(a[i] == x);
        } else {
            assert(b[i - a.len()] == x);
        }
    }
}

proof fn lemma_single_contains(y: Move, x: Move)
    ensures
        seq![y].contains(x) <==> x == y,
{
    if x == y {
        assert(seq![y][0] == x);
    }
}

proof fn lemma_capture_moves_contains(
    b: Seq<Node>,
    them: Node,
    v: Variant,
    src: int,
    dst: int,
    n: int,
    m: Move,
)
    requires
        -1 <= src < 24,
        is_cell(dst),
        n <= 24,
    ensures
        capture_moves_upto(b, them, v, src, dst, n).contains(m) <==> {
            &&& (if src < 0 {
                m is PlaceCapture
            } else {
                m is MoveCapture
            })
            &&& source(m) == src
            &&& target(m) == dst
            &&& 0 <= captured(m) < n
            &&& capturable(b, them, v, captured(m))
        },
    decreases n,
{
    if n > 0 {
        lemma_capture_moves_contains(b, them, v, src, dst, n - 1, m);
        let tail = if capturable(b, them, v, n - 1) {
            seq![capture_move(src, dst, n - 1)]
        } else {
            seq![]
        };
        lemma_concat_contains(capture_moves_upto(b, them, v, src, dst, n - 1), tail, m);
        if capturable(b, them, v, n - 1) {
            lemma_single_contains(capture_move(src, dst, n - 1), m);
        }
    }
}

proof fn lemma_landing_contains(b: Seq<Node>, p: Player, v: Variant, src: int, dst: int, m: Move)
    requires
        -1 <= src < 24,
        is_cell(dst),
    ensures
        landing_moves(b, p, v, src, dst).contains(m) <==> {
            &&& (if src < 0 {
                m is Place || m is PlaceCapture
            } else {
                m is Move || m is MoveCapture
            })
            &&& source(m) == src
            &&& target(m) == dst
            &&& is_capture(m) == in_mill(b, node_of(p), v, dst)
            &&& is_capture(m) ==> is_cell(captured(m)) && capturable(
                b,
                node_of(spec_opponent(p)),
                v,
                captured(m),
            )
        },
{
    if in_mill(b, node_of(p), v, dst) {
        lemma_capture_moves_contains(b, node_of(spec_opponent(p)), v, src, dst, 24, m);
    } else {
        lemma_single_contains(plain_move(src, dst), m);
    }
}

proof fn lemma_place_moves_contains(b: Seq<Node>, p: Player, v: Variant, n: int, m: Move)
    requires
        n <= 24,
    ensures
        place_moves_upto(b, p, v, n).contains(m) <==> {
            &&& 0 <= target(m) < n
            &&& b[target(m)] == Node::Empty
            &&& landing_moves(b.update(target(m), node_of(p)), p, v, -1, target(m)).contains(m)
        },
    decreases n,
{
    if n > 0 {
        lemma_place_moves_contains(b, p, v, n - 1, m);
        let t = n - 1;
        let tail = if b[t] == Node::Empty {
            landing_moves(b.update(t, node_of(p)), p, v, -1, t)
        } else {
            seq![]
        };
        lemma_concat_contains(place_moves_upto(b, p, v, n - 1), tail, m);
        lemma_landing_contains(b.update(t, node_of(p)), p, v, -1, t, m);
    }
}

proof fn lemma_slide_dests_contains(
    b: Seq<Node>,
    p: Player,
    v: Variant,
    fly: bool,
    i: int,
    n: int,
    m: Move,
)
    requires
        is_cell(i),
        n <= 24,
    ensures
        slide_dests_upto(b, p, v, fly, i, n).contains(m) <==> {
            &&& 0 <= target(m) < n
            &&& may_go(b, v, fly, i, target(m))
            &&& landing_moves(
                b.update(i, Node::Empty).update(target(m), node_of(p)),
                p,
                v,
                i,
                target(m),
            ).contains(m)
        },
    decreases n,
{
    if n > 0 {
        lemma_slide_dests_contains(b, p, v, fly, i, n - 1, m);
        let t = n - 1;
        let tail = if may_go(b, v, fly, i, t) {
            landing_moves(b.update(i, Node::Empty).update(t, node_of(p)), p, v, i, t)
        } else {
            seq![]
        };
        lemma_concat_contains(slide_dests_upto(b, p, v, fly, i, n - 1), tail, m);
        lemma_landing_contains(b.update(i, Node::Empty).update(t, node_of(p)), p, v, i, t, m);
    }
}

proof fn lemma_slide_moves_contains(b: Seq<Node>, p: Player, v: Variant, fly: bool, n: int, m: Move)
    requires
        n <= 24,
    ensures
        slide_moves_upto(b, p, v, fly, n).contains(m) <==> {
            &&& 0 <= source(m) < n
            &&& b[source(m)] == node_of(p)
            &&& slide_dests_upto(b, p, v, fly, source(m), 24).contains(m)
        },
    decreases n,
{
    if n > 0 {
        lemma_slide_moves_contains(b, p, v, fly, n - 1, m);
        let s = n - 1;
        let tail = if b[s] == node_of(p) {
            slide_dests_upto(b, p, v, fly, s, 24)
        } else {
            seq![]
        };
        lemma_concat_contains(slide_moves_upto(b, p, v, fly, n - 1), tail, m);
        lemma_slide_dests_contains(b, p, v, fly, s, 24, m);
        if 0 <= target(m) < 24 {
            lemma_landing_contains(
                b.update(s, Node::Empty).update(target(m), node_of(p)),
                p,
                v,
                s,
                target(m),
                m,
            );
        }
    }
}

/// A move is generated exactly when it is legal.
pub proof fn lemma_legal_moves_exact(pos: Position, v: Variant, m: Move)
    ensures
        legal_moves(pos, v).contains(m) <==> is_legal(pos, v, m),
{
    let b = pos.board@;
    let p = pos.player;
    if pos.plies < v.spec_threshold() {
        lemma_place_moves_contains(b, p, v, 24, m);
        if 0 <= target(m) < 24 {
            lemma_landing_contains(b.update(target(m), node_of(p)), p, v, -1, target(m), m);
        }
    } else {
        let fly = pos.spec_count() == 3;
        lemma_slide_moves_contains(b, p, v, fly, 24, m);
        if 0 <= source(m) < 24 {
            lemma_slide_dests_contains(b, p, v, fly, source(m), 24, m);
            if 0 <= target(m) < 24 {
                lemma_landing_contains(
                    b.update(source(m), Node::Empty).update(target(m), node_of(p)),
                    p,
                    v,
                    source(m),
                    target(m),
                    m,
                );
            }
        }
    }
}


/// Mills of `n` depend only on where the pieces of `n` stand.
proof fn lemma_mills_same_pieces(b1: Seq<Node>, b2: Seq<Node>, n: Node, v: Variant)
    requires
        b1.len() == 24,
        b2.len() == 24,
        forall|x: int| 0 <= x < 24 ==> (b1[x] == n <==> b2[x] == n),
    ensures
        forall|i: int| #![auto] in_mill(b1, n, v, i) <==> in_mill(b2, n, v, i),
        all_in_mills(b1, n, v) <==> all_in_mills(b2, n, v),
{
    assert forall|k: int| 0 <= k < num_lines(v) implies line_full(b1, k, n) == line_full(
        b2,
        k,
        n,
    ) by {
        assert(0 <= k < 20);
    }
}

proof fn lemma_count_witness(b: Seq<Node>, n: Node, upto: int)
    requires
        count_upto(b, n, upto) > 0,
    ensures
        exists|i: int| 0 <= i < upto && b[i] == n,
    decreases upto,
{
    if upto > 0 && b[upto - 1] != n {
        lemma_count_witness(b, n, upto - 1);
    }
}

/// Every generated move can be played: it places or moves onto an empty cell, moves a piece
/// of the mover, and captures only a piece of the opponent.
pub proof fn lemma_generated_moves_applicable(pos: Position, v: Variant, m: Move)
    requires
        legal_moves(pos, v).contains(m),
    ensures
        pos.applicable(m),
{
    lemma_legal_moves_exact(pos, v, m);
}

/// While the opponent has a piece outside every mill, no generated move captures a piece that
/// stands in a mill.
pub proof fn lemma_mill_capture_restriction(pos: Position, v: Variant, m: Move, free: int)
    requires
        is_cell(free),
        pos.board@[free] == node_of(spec_opponent(pos.player)),
        !in_mill(pos.board@, node_of(spec_opponent(pos.player)), v, free),
        legal_moves(pos, v).contains(m),
        is_capture(m),
    ensures
        !in_mill(pos.board@, node_of(spec_opponent(pos.player)), v, captured(m)),
{
    lemma_legal_moves_exact(pos, v, m);
    let b = pos.board@;
    let them = node_of(spec_opponent(pos.player));
    let b2 = if pos.plies < v.spec_threshold() {
        b.update(target(m), node_of(pos.player))
    } else {
        b.update(source(m), Node::Empty).update(target(m), node_of(pos.player))
    };
    lemma_mills_same_pieces(b, b2, them, v);
    assert(!all_in_mills(b2, them, v));
}

/// When every piece of the opponent stands in a mill, a placement that closes a mill may
/// capture any of them.
pub proof fn lemma_all_in_mills_override(pos: Position, v: Variant, t: int, k: int)
    requires
        pos.plies < v.spec_threshold(),
        is_cell(t),
        is_cell(k),
        pos.board@[t] == Node::Empty,
        in_mill(pos.board@.update(t, node_of(pos.player)), node_of(pos.player), v, t),
        all_in_mills(pos.board@, node_of(spec_opponent(pos.player)), v),
        pos.board@[k] == node_of(spec_opponent(pos.player)),
    ensures
        legal_moves(pos, v).contains(
            Move::PlaceCapture { place_index: t as Idx, capture_index: k as Idx },
        ),
{
    let b = pos.board@;
    let them = node_of(spec_opponent(pos.player));
    let b2 = b.update(t, node_of(pos.player));
    lemma_mills_same_pieces(b, b2, them, v);
    let m = Move::PlaceCapture { place_index: t as Idx, capture_index: k as Idx };
    lemma_legal_moves_exact(pos, v, m);
}

/// A player down to three pieces after the placement phase may move any of its pieces to any
/// empty cell, as long as the opponent has a piece left.
pub proof fn lemma_flying_reaches_every_empty_cell(pos: Position, v: Variant, s: int, d: int)
    requires
        pos.plies >= v.spec_threshold(),
        pos.spec_count() == 3,
        count_of(pos.board@, node_of(spec_opponent(pos.player))) >= 1,
        is_cell(s),
        is_cell(d),
        pos.board@[s] == node_of(pos.player),
        pos.board@[d] == Node::Empty,
    ensures
        exists|m: Move| #[trigger]
            legal_moves(pos, v).contains(m) && source(m) == s && target(m) == d,
{
    let b = pos.board@;
    let me = node_of(pos.player);
    let them = node_of(spec_opponent(pos.player));
    let b2 = b.update(s, Node::Empty).update(d, me);
    if in_mill(b2, me, v, d) {
        lemma_mills_same_pieces(b, b2, them, v);
        let c = if all_in_mills(b2, them, v) {
            lemma_count_witness(b, them, 24);
            choose|i: int| 0 <= i < 24 && b[i] == them
        } else {
            choose|i: int| 0 <= i < 24 && b2[i] == them && !in_mill(b2, them, v, i)
        };
        let m = Move::MoveCapture {
            source_index: s as Idx,
            destination_index: d as Idx,
            capture_index: c as Idx,
        };
        lemma_legal_moves_exact(pos, v, m);
    } else {
        let m = Move::Move { source_index: s as Idx, destination_index: d as Idx };
        lemma_legal_moves_exact(pos, v, m);
    }
}


pub open spec fn spec_game_over_winner_material(position: Position, v: Variant) -> bool {
    position.plies >= v.spec_threshold() && (count_of(position.board@, Node::White) < 3
        || count_of(position.board@, Node::Black) < 3)
}

/// Past the placement phase, the game is over once either side is down to fewer than three
/// pieces.
pub fn is_game_over_winner_material(position: &Position, variant: Variant) -> (r: bool)
    ensures
        r == spec_game_over_winner_material(*position, variant),
{
    if position.plies < variant.threshold() {
        return false;
    }
    crate::game::count_pieces(&position.board, Node::White) < 3 || crate::game::count_pieces(
        &position.board,
        Node::Black,
    ) < 3
}

/// The game is over: a side is down to fewer than three pieces past the placement phase, or
/// the player to move has no legal move.
pub fn is_game_over(position: &Position, variant: Variant) -> (r: bool)
    ensures
        r == (spec_game_over_winner_material(*position, variant) || legal_moves(
            *position,
            variant,
        ).len() == 0),
{
    if is_game_over_winner_material(position, variant) {
        return true;
    }
    generate_moves(position, variant).len() == 0
}

/// When every piece of the opponent stands in a mill, a move that closes a mill may capture
/// any of them.
pub proof fn lemma_all_in_mills_override_move(pos: Position, v: Variant, s: int, d: int, k: int)
    requires
        pos.plies >= v.spec_threshold(),
        is_cell(s),
        is_cell(d),
        is_cell(k),
        pos.board@[s] == node_of(pos.player),
        may_go(pos.board@, v, pos.spec_count() == 3, s, d),
        in_mill(
            pos.board@.update(s, Node::Empty).update(d, node_of(pos.player)),
            node_of(pos.player),
            v,
            d,
        ),
        all_in_mills(pos.board@, node_of(spec_opponent(pos.player)), v),
        pos.board@[k] == node_of(spec_opponent(pos.player)),
    ensures
        legal_moves(pos, v).contains(
            Move::MoveCapture {
                source_index: s as Idx,
                destination_index: d as Idx,
                capture_index: k as Idx,
            },
        ),
{
    let b = pos.board@;
    let them = node_of(spec_opponent(pos.player));
    let b2 = b.update(s, Node::Empty).update(d, node_of(pos.player));
    lemma_mills_same_pieces(b, b2, them, v);
    let m = Move::MoveCapture {
        source_index: s as Idx,
        destination_index: d as Idx,
        capture_index: k as Idx,
    };
    lemma_legal_moves_exact(pos, v, m);
}

proof fn lemma_count_update(b: Seq<Node>, n: Node, i: int, x: Node, upto: int)
    requires
        0 <= i < b.len(),
        0 <= upto <= b.len(),
    ensures
        count_upto(b.update(i, x), n, upto) == count_upto(b, n, upto) - (if i < upto && b[i]
            == n {
            1int
        } else {
            0int
        }) + (if i < upto && x == n {
            1int
        } else {
            0int
        }),
    decreases upto,
{
    if upto > 0 {
        lemma_count_update(b, n, i, x, upto - 1);
    }
}

/// Playing a generated move keeps the board consistent: a placement adds one piece of the
/// mover, a move keeps the mover's count, and a capture removes exactly one piece of the
/// opponent.
pub proof fn lemma_generated_move_counts(pos: Position, v: Variant, m: Move)
    requires
        legal_moves(pos, v).contains(m),
    ensures
        count_of(pos.board_after(m), node_of(pos.player)) == count_of(
            pos.board@,
            node_of(pos.player),
        ) + if m is Place || m is PlaceCapture {
            1int
        } else {
            0int
        },
        count_of(pos.board_after(m), node_of(spec_opponent(pos.player))) == count_of(
            pos.board@,
            node_of(spec_opponent(pos.player)),
        ) - if is_capture(m) {
            1int
        } else {
            0int
        },
{
    lemma_generated_moves_applicable(pos, v, m);
    let b = pos.board@;
    let me = node_of(pos.player);
    let them = node_of(spec_opponent(pos.player));
    let t = target(m);
    let s = source(m);
    let c = captured(m);
    match m {
        Move::Place { .. } => {
            lemma_count_update(b, me, t, me, 24);
            lemma_count_update(b, them, t, me, 24);
        },
        Move::PlaceCapture { .. } => {
            let b1 = b.update(t, me);
            lemma_count_update(b, me, t, me, 24);
            lemma_count_update(b, them, t, me, 24);
            lemma_count_update(b1, me, c, Node::Empty, 24);
            lemma_count_update(b1, them, c, Node::Empty, 24);
        },
        Move::Move { .. } => {
            let b1 = b.update(s, Node::Empty);
            lemma_count_update(b, me, s, Node::Empty, 24);
            lemma_count_update(b, them, s, Node::Empty, 24);
            lemma_count_update(b1, me, t, me, 24);
            lemma_count_update(b1, them, t, me, 24);
        },
        Move::MoveCapture { .. } => {
            let b1 = b.update(s, Node::Empty);
            let b2 = b1.update(t, me);
            lemma_count_update(b, me, s, Node::Empty, 24);
            lemma_count_update(b, them, s, Node::Empty, 24);
            lemma_count_update(b1, me, t, me, 24);
            lemma_count_update(b1, them, t, me, 24);
            lemma_count_update(b2, me, c, Node::Empty, 24);
            lemma_count_update(b2, them, c, Node::Empty, 24);
        },
    }
}

} // verus!

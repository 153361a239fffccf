use vstd::prelude::*;

use crate::evaluation::{
    lemma_evaluation_symmetry, lemma_mirror_counts, mirror_board, spec_perspective, static_eval,
    swap_node,
};
use crate::game::{node_of, spec_opponent, GamePosition, Move, Node, Player, Position, Variant};
use crate::move_generation::{
    capture_moves_upto, landing_moves, legal_moves, lemma_generated_moves_applicable, may_go,
    place_moves_upto, slide_dests_upto, slide_moves_upto,
};
use crate::rules::{all_in_mills, capturable, in_mill, line_full, num_lines};
use crate::search_node::{child_hist, matches_from};
use crate::think::{best_of, child_value, negamax};

verus! {

/// `q` is `p` with the colours of all pieces and the player to move exchanged.
pub open spec fn mirrored(p: Position, q: Position) -> bool {
    &&& q.board@ == mirror_board(p.board@)
    &&& q.player == spec_opponent(p.player)
    &&& q.plies == p.plies
}

pub open spec fn gp_mirrored(g: GamePosition, h: GamePosition) -> bool {
    mirrored(g.position, h.position) && g.plies_no_advancement == h.plies_no_advancement
}

/// Two histories whose positions are mirrored one for one.
pub open spec fn hist_mirrored(a: Seq<GamePosition>, b: Seq<GamePosition>) -> bool {
    a.len() == b.len() && forall|i: int| 0 <= i < a.len() ==> gp_mirrored(#[trigger] a[i], b[i])
}

proof fn lemma_mirror_update(b: Seq<Node>, i: int, n: Node)
    requires
        0 <= i < b.len(),
    ensures
        mirror_board(b.update(i, n)) == mirror_board(b).update(i, swap_node(n)),
{
    assert(mirror_board(b.update(i, n)) =~= mirror_board(b).update(i, swap_node(n)));
}

proof fn lemma_mirror_mills(b: Seq<Node>, n: Node, v: Variant)
    requires
        b.len() == 24,
    ensures
        forall|i: int| #![auto] in_mill(mirror_board(b), swap_node(n), v, i) == in_mill(b, n, v, i),
        all_in_mills(mirror_board(b), swap_node(n), v) == all_in_mills(b, n, v),
        forall|k: int|
            0 <= k < 24 ==> #[trigger] capturable(mirror_board(b), swap_node(n), v, k) == capturable(
                b,
                n,
                v,
                k,
            ),
{
    let mb = mirror_board(b);
    let sn = swap_node(n);
    assert forall|k: int| 0 <= k < num_lines(v) implies line_full(mb, k, sn) == line_full(
        b,
        k,
        n,
    ) by {
        assert(0 <= k < 20);
    }
    assert forall|i: int| #![auto] in_mill(mb, sn, v, i) == in_mill(b, n, v, i) by {
        if in_mill(b, n, v, i) {
            let k = choose|k: int| 0 <= k < num_lines(v) && crate::rules::line_has(k, i) && line_full(b, k, n);
            assert(line_full(mb, k, sn));
        }
        if in_mill(mb, sn, v, i) {
            let k = choose|k: int| 0 <= k < num_lines(v) && crate::rules::line_has(k, i) && line_full(mb, k, sn);
            assert(line_full(b, k, n));
        }
    }
    assert forall|i: int| 0 <= i < 24 implies (#[trigger] mb[i] == sn) == (b[i] == n) by {
        assert(mb[i] == swap_node(b[i]));
    }
    if all_in_mills(b, n, v) {
        assert forall|i: int| 0 <= i < 24 && mb[i] == sn implies in_mill(mb, sn, v, i) by {
            assert(b[i] == n);
        }
    }
    if all_in_mills(mb, sn, v) {
        assert forall|i: int| 0 <= i < 24 && b[i] == n implies in_mill(b, n, v, i) by {
            assert(mb[i] == sn);
        }
    }
}

proof fn lemma_mirror_captures(
    b: Seq<Node>,
    them: Node,
    v: Variant,
    src: int,
    dst: int,
    n: int,
)
    requires
        b.len() == 24,
        n <= 24,
    ensures
        capture_moves_upto(mirror_board(b), swap_node(them), v, src, dst, n) == capture_moves_upto(
            b,
            them,
            v,
            src,
            dst,
            n,
        ),
    decreases n,
{
    if n > 0 {
        lemma_mirror_captures(b, them, v, src, dst, n - 1);
        lemma_mirror_mills(b, them, v);
    }
}

proof fn lemma_mirror_landing(b: Seq<Node>, p: Player, v: Variant, src: int, dst: int)
    requires
        b.len() == 24,
    ensures
        landing_moves(mirror_board(b), spec_opponent(p), v, src, dst) == landing_moves(
            b,
            p,
            v,
            src,
            dst,
        ),
{
    lemma_mirror_mills(b, node_of(p), v);
    lemma_mirror_captures(b, node_of(spec_opponent(p)), v, src, dst, 24);
    assert(swap_node(node_of(p)) == node_of(spec_opponent(p)));
    assert(swap_node(node_of(spec_opponent(p))) == node_of(spec_opponent(spec_opponent(p))));
}

proof fn lemma_mirror_places(b: Seq<Node>, p: Player, v: Variant, n: int)
    requires
        b.len() == 24,
        n <= 24,
    ensures
        place_moves_upto(mirror_board(b), spec_opponent(p), v, n) == place_moves_upto(b, p, v, n),
    decreases n,
{
    if n > 0 {
        lemma_mirror_places(b, p, v, n - 1);
        let t = n - 1;
        lemma_mirror_update(b, t, node_of(p));
        lemma_mirror_landing(b.update(t, node_of(p)), p, v, -1, t);
    }
}

proof fn lemma_mirror_dests(b: Seq<Node>, p: Player, v: Variant, fly: bool, i: int, n: int)
    requires
        b.len() == 24,
        0 <= i < 24,
        n <= 24,
    ensures
        slide_dests_upto(mirror_board(b), spec_opponent(p), v, fly, i, n) == slide_dests_upto(
            b,
            p,
            v,
            fly,
            i,
            n,
        ),
    decreases n,
{
    if n > 0 {
        lemma_mirror_dests(b, p, v, fly, i, n - 1);
        let t = n - 1;
        let b1 = b.update(i, Node::Empty);
        lemma_mirror_update(b, i, Node::Empty);
        lemma_mirror_update(b1, t, node_of(p));
        lemma_mirror_landing(b1.update(t, node_of(p)), p, v, i, t);
        assert(may_go(mirror_board(b), v, fly, i, t) == may_go(b, v, fly, i, t));
    }
}

proof fn lemma_mirror_slides(b: Seq<Node>, p: Player, v: Variant, fly: bool, n: int)
    requires
        b.len() == 24,
        n <= 24,
    ensures
        slide_moves_upto(mirror_board(b), spec_opponent(p), v, fly, n) == slide_moves_upto(
            b,
            p,
            v,
            fly,
            n,
        ),
    decreases n,
{
    if n > 0 {
        lemma_mirror_slides(b, p, v, fly, n - 1);
        lemma_mirror_dests(b, p, v, fly, n - 1, 24);
    }
}

/// Mirrored positions have the same legal moves, in the same order.
pub proof fn lemma_mirror_legal_moves(p: Position, q: Position, v: Variant)
    requires
        mirrored(p, q),
    ensures
        legal_moves(q, v) == legal_moves(p, v),
        q.spec_count() == p.spec_count(),
{
    lemma_mirror_counts(p.board@, node_of(p.player), 24);
    assert(swap_node(node_of(p.player)) == node_of(q.player));
    lemma_mirror_places(p.board@, p.player, v, 24);
    lemma_mirror_slides(p.board@, p.player, v, p.spec_count() == 3, 24);
}

proof fn lemma_mirror_play(g: GamePosition, h: GamePosition, m: Move)
    requires
        gp_mirrored(g, h),
        g.position.applicable(m),
    ensures
        gp_mirrored(g.spec_play(m), h.spec_play(m)),
        h.position.applicable(m),
{
    broadcast use vstd::array::axiom_spec_array_update;

    let b = g.position.board@;
    let me = node_of(g.position.player);
    assert(swap_node(me) == node_of(h.position.player));
    assert(swap_node(node_of(spec_opponent(g.position.player))) == node_of(
        spec_opponent(h.position.player),
    ));
    let mb = mirror_board(b);
    let after = g.spec_play(m).position.board@;
    let mafter = h.spec_play(m).position.board@;
    assert(mafter =~= mirror_board(after));
}

proof fn lemma_mirror_matches(
    a: Seq<GamePosition>,
    b: Seq<GamePosition>,
    ca: Position,
    cb: Position,
    v: Variant,
    lo: int,
    hi: int,
)
    requires
        hist_mirrored(a, b),
        mirrored(ca, cb),
        0 <= lo,
        hi <= a.len(),
    ensures
        matches_from(b, cb, v, lo, hi) == matches_from(a, ca, v, lo, hi),
    decreases hi - lo,
{
    if lo < hi {
        lemma_mirror_matches(a, b, ca, cb, v, lo + 1, hi);
        let x = a[lo].position;
        let y = b[lo].position;
        assert(gp_mirrored(a[lo], b[lo]));
        if x.board@ == ca.board@ {
            assert(y.board@ == cb.board@);
        }
        if y.board@ == cb.board@ {
            assert(x.board@ =~= ca.board@) by {
                assert forall|k: int| 0 <= k < 24 implies x.board@[k] == ca.board@[k] by {
                    assert(mirror_board(x.board@)[k] == mirror_board(ca.board@)[k]);
                }
            }
        }
    }
}

proof fn lemma_mirror_child(a: Seq<GamePosition>, b: Seq<GamePosition>, m: Move)
    requires
        hist_mirrored(a, b),
        a.len() > 0,
        a.last().position.applicable(m),
    ensures
        hist_mirrored(child_hist(a, m), child_hist(b, m)),
{
    assert(gp_mirrored(a[a.len() - 1], b[b.len() - 1]));
    lemma_mirror_play(a.last(), b.last(), m);
    let ca = child_hist(a, m);
    let cb = child_hist(b, m);
    assert forall|i: int| 0 <= i < ca.len() implies gp_mirrored(#[trigger] ca[i], cb[i]) by {
        if !m.spec_is_advancement() && i < a.len() {
            assert(gp_mirrored(a[i], b[i]));
        }
    }
}

/// Mirrored histories have the same negamax value, from the side of the player to move.
pub proof fn lemma_mirror_negamax(
    a: Seq<GamePosition>,
    b: Seq<GamePosition>,
    v: Variant,
    depth: int,
    root: int,
)
    requires
        hist_mirrored(a, b),
        a.len() > 0,
    ensures
        negamax(b, v, depth, root) == negamax(a, v, depth, root),
    decreases depth, legal_moves(a.last().position, v).len() + 1,
{
    let p = a.last().position;
    let q = b.last().position;
    assert(gp_mirrored(a[a.len() - 1], b[b.len() - 1]));
    lemma_mirror_legal_moves(p, q, v);
    lemma_mirror_counts(p.board@, node_of(p.player), 24);
    assert(swap_node(node_of(p.player)) == node_of(q.player));
    lemma_mirror_matches(a, b, p, q, v, 0, a.len() - 1);
    lemma_evaluation_symmetry(p, q, v);
    let ms = legal_moves(p, v);
    if depth > 0 && ms.len() > 0 {
        lemma_mirror_best_of(a, b, v, ms, depth, root, ms.len() as int);
    }
}

proof fn lemma_mirror_best_of(
    a: Seq<GamePosition>,
    b: Seq<GamePosition>,
    v: Variant,
    ms: Seq<Move>,
    depth: int,
    root: int,
    n: int,
)
    requires
        hist_mirrored(a, b),
        a.len() > 0,
        depth > 0,
        ms == legal_moves(a.last().position, v),
        0 <= n <= ms.len(),
    ensures
        best_of(b, v, ms, depth, root, n) == best_of(a, v, ms, depth, root, n),
    decreases depth, n,
{
    if n > 0 {
        let m = ms[n - 1];
        lemma_generated_moves_applicable(a.last().position, v, m);
        lemma_mirror_child(a, b, m);
        lemma_mirror_negamax(child_hist(a, m), child_hist(b, m), v, depth - 1, root + 1);
        assert(child_value(b, v, m, depth, root) == child_value(a, v, m, depth, root));
        if n == 1 {
            assert(child_value(b, v, ms[0], depth, root) == child_value(a, v, ms[0], depth, root));
        } else {
            lemma_mirror_best_of(a, b, v, ms, depth, root, n - 1);
        }
    }
}

/// Negamax symmetry: for mirrored histories (colours and player to move exchanged) the
/// static score and the search score seen from White are the negatives of each other.
pub proof fn lemma_search_symmetry(
    a: Seq<GamePosition>,
    b: Seq<GamePosition>,
    v: Variant,
    depth: int,
    root: int,
)
    requires
        hist_mirrored(a, b),
        a.len() > 0,
    ensures
        static_eval(b.last().position, v) == -static_eval(a.last().position, v),
        negamax(b, v, depth, root) * spec_perspective(b.last().position) == -(negamax(
            a,
            v,
            depth,
            root,
        ) * spec_perspective(a.last().position)),
{
    assert(gp_mirrored(a[a.len() - 1], b[b.len() - 1]));
    lemma_evaluation_symmetry(a.last().position, b.last().position, v);
    lemma_mirror_negamax(a, b, v, depth, root);
    if a.last().position.player == Player::White {
        assert(spec_perspective(b.last().position) == -1);
    } else {
        assert(spec_perspective(b.last().position) == 1);
    }
}

} // verus!

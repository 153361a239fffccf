use std::sync::atomic::{AtomicBool, Ordering};
use std::sync::mpsc::Sender;
use std::sync::Arc;
use std::time::{Duration, Instant};

use vstd::prelude::*;

use crate::evaluation::{
    lemma_static_eval_bounds, perspective, spec_perspective, static_eval, static_evaluation, Eval,
    MAX, MIN, WINDOW_MAX, WINDOW_MIN,
};
use crate::game::{Game, GamePosition, Move, PvLine, Variant, MAX_DEPTH};
use crate::messages::Score;
use crate::time::sudden_death_time_control;
use crate::move_generation::{generate_moves, legal_moves, lemma_generated_moves_applicable};
use crate::search_node::{arena_wf, chain, child_hist, push_child, threefold, SearchNode};

verus! {

#[verifier::external_type_specification]
#[verifier::external_body]
pub struct ExInstant(Instant);

/// Relies on `Instant::now`: reads the monotonic clock.
pub assume_specification[ Instant::now ]() -> Instant;

/// Relies on `Instant::elapsed`: the time passed since the instant.
pub assume_specification[ Instant::elapsed ](self_: &Instant) -> Duration;

/// Relies on `Duration::as_millis`: the whole milliseconds of a duration.
pub assume_specification[ Duration::as_millis ](self_: &Duration) -> u128;

#[verifier::external_type_specification]
#[verifier::external_body]
#[verifier::reject_recursive_types(T)]
pub struct ExSender<T>(Sender<T>);

/// Relies on `Sender::send`: hands the report to the receiving end as soon as the iteration
/// is done; when the receiver is gone the report is dropped.
#[verifier::external_body]
fn send_report(channel: &Sender<Report>, report: Report) {
    let _ = channel.send(report);
}

/// The score of a lost position.
pub open spec fn loss(root: int) -> int {
    MIN + root
}

/// The game is over at the end of `hist`: the mover has lost on material or has no move, or
/// the position is drawn by repetition or by the fifty-move rule.
pub open spec fn is_terminal(hist: Seq<GamePosition>, v: Variant) -> bool {
    let gp = hist.last();
    gp.position.spec_game_over_material(v) || legal_moves(gp.position, v).len() == 0 || threefold(
        hist,
        v,
    ) || gp.spec_fifty_move_rule()
}

/// The negamax value, from the mover's side, of the last position of `hist` searched `depth`
/// plies deep, `root` plies below the root of the search. A loss scores `MIN + root`, so that
/// nearer wins and farther losses are preferred; a draw scores zero; a leaf scores the static
/// evaluation.
pub open spec fn negamax(hist: Seq<GamePosition>, v: Variant, depth: int, root: int) -> int
    decreases depth, legal_moves(hist.last().position, v).len() + 1,
{
    let gp = hist.last();
    let pos = gp.position;
    let ms = legal_moves(pos, v);
    if pos.spec_game_over_material(v) || ms.len() == 0 {
        loss(root)
    } else if threefold(hist, v) || gp.spec_fifty_move_rule() {
        0
    } else if depth <= 0 {
        static_eval(pos, v) * spec_perspective(pos)
    } else {
        best_of(hist, v, ms, depth, root, ms.len() as int)
    }
}

/// The best value over the first `n` moves of `ms`.
pub open spec fn best_of(
    hist: Seq<GamePosition>,
    v: Variant,
    ms: Seq<Move>,
    depth: int,
    root: int,
    n: int,
) -> int
    decreases depth, n,
{
    if depth <= 0 || n <= 0 {
        -1000
    } else if n == 1 {
        child_value(hist, v, ms[0], depth, root)
    } else {
        let rest = best_of(hist, v, ms, depth, root, n - 1);
        let c = child_value(hist, v, ms[n - 1], depth, root);
        if c > rest {
            c
        } else {
            rest
        }
    }
}

/// The value of playing `m` at the end of `hist`, from the mover's side.
pub open spec fn child_value(hist: Seq<GamePosition>, v: Variant, m: Move, depth: int, root: int) -> int
    decreases depth, 0int,
{
    if depth <= 0 {
        0
    } else {
        -negamax(child_hist(hist, m), v, depth - 1, root + 1)
    }
}

/// `r` is what a fail-hard alpha-beta search may answer for the value `val` in the window
/// `(alpha, beta)`: the value itself inside the window, a bound at or past either edge.
pub open spec fn ab_ok(r: int, val: int, alpha: int, beta: int) -> bool {
    &&& (alpha < val < beta ==> r == val)
    &&& (val <= alpha ==> r <= alpha)
    &&& (val >= beta ==> r >= beta)
}

proof fn lemma_best_of_upper(
    hist: Seq<GamePosition>,
    v: Variant,
    ms: Seq<Move>,
    depth: int,
    root: int,
    n: int,
)
    requires
        depth > 0,
        n <= ms.len(),
    ensures
        forall|i: int|
            0 <= i < n ==> child_value(hist, v, #[trigger] ms[i], depth, root) <= best_of(
                hist,
                v,
                ms,
                depth,
                root,
                n,
            ),
        n > 0 ==> exists|i: int|
            0 <= i < n && best_of(hist, v, ms, depth, root, n) == child_value(
                hist,
                v,
                #[trigger] ms[i],
                depth,
                root,
            ),
    decreases n,
{
    if n > 0 {
        lemma_best_of_upper(hist, v, ms, depth, root, n - 1);
        if best_of(hist, v, ms, depth, root, n) == child_value(hist, v, ms[n - 1], depth, root) {
            assert(0 <= n - 1 < n);
        } else if n == 1 {
            assert(best_of(hist, v, ms, depth, root, n) == child_value(hist, v, ms[0], depth, root));
        } else {
            let i = choose|i: int|
                0 <= i < n - 1 && best_of(hist, v, ms, depth, root, n - 1) == child_value(
                    hist,
                    v,
                    #[trigger] ms[i],
                    depth,
                    root,
                );
            assert(0 <= i < n);
        }
    }
}

pub open spec fn swapped(s: Seq<Move>, idx: int) -> Seq<Move> {
    s.update(0, s[idx]).update(idx, s[0])
}

proof fn lemma_best_of_swapped(
    hist: Seq<GamePosition>,
    v: Variant,
    ms: Seq<Move>,
    idx: int,
    depth: int,
    root: int,
)
    requires
        depth > 0,
        0 <= idx < ms.len(),
    ensures
        best_of(hist, v, swapped(ms, idx), depth, root, ms.len() as int) == best_of(
            hist,
            v,
            ms,
            depth,
            root,
            ms.len() as int,
        ),
        forall|i: int| 0 <= i < ms.len() ==> ms.contains(#[trigger] swapped(ms, idx)[i]),
{
    let s = swapped(ms, idx);
    let n = ms.len() as int;
    assert forall|i: int| 0 <= i < n implies ms.contains(#[trigger] s[i]) by {
        if i == idx {
            assert(ms[0] == s[i]);
        } else if i == 0 {
            assert(ms[idx] == s[i]);
        } else {
            assert(ms[i] == s[i]);
        }
    }
    lemma_best_of_upper(hist, v, ms, depth, root, n);
    lemma_best_of_upper(hist, v, s, depth, root, n);
    let a = choose|i: int|
        0 <= i < n && best_of(hist, v, ms, depth, root, n) == child_value(
            hist,
            v,
            #[trigger] ms[i],
            depth,
            root,
        );
    let b = choose|i: int|
        0 <= i < n && best_of(hist, v, s, depth, root, n) == child_value(
            hist,
            v,
            #[trigger] s[i],
            depth,
            root,
        );
    let a2 = if a == idx {
        0
    } else if a == 0 {
        idx
    } else {
        a
    };
    assert(s[a2] == ms[a]);
    let b2 = if b == idx {
        0
    } else if b == 0 {
        idx
    } else {
        b
    };
    assert(ms[b2] == s[b]);
}

/// A position where the player to move is down to fewer than three pieces past the
/// placement phase is a loss for that player, whatever moves it may have.
pub proof fn lemma_material_loss_terminal(hist: Seq<GamePosition>, v: Variant, depth: int, root: int)
    requires
        hist.last().position.spec_game_over_material(v),
    ensures
        is_terminal(hist, v),
        negamax(hist, v, depth, root) == MIN + root,
{
}

/// A position that occurs for the third time along the history is a draw, unless the player
/// to move has already lost.
pub proof fn lemma_repetition_draw(hist: Seq<GamePosition>, v: Variant, depth: int, root: int)
    requires
        threefold(hist, v),
        !hist.last().position.spec_game_over_material(v),
        legal_moves(hist.last().position, v).len() > 0,
    ensures
        is_terminal(hist, v),
        negamax(hist, v, depth, root) == 0,
{
}

/// After an advancement (a placement or a capture) the history starts afresh, so the position
/// reached cannot count as a repetition.
pub proof fn lemma_advancement_resets_history(hist: Seq<GamePosition>, m: Move, v: Variant)
    requires
        m.spec_is_advancement(),
    ensures
        child_hist(hist, m).len() == 1,
        !threefold(child_hist(hist, m), v),
{
}

/// Every negamax value from at most `MAX_DEPTH` plies below the root lies in `[MIN, MAX]`.
pub proof fn lemma_negamax_bounds(hist: Seq<GamePosition>, v: Variant, depth: int, root: int)
    requires
        0 <= root,
        0 <= depth,
        root + depth <= MAX_DEPTH,
    ensures
        MIN <= negamax(hist, v, depth, root) <= MAX,
    decreases depth, legal_moves(hist.last().position, v).len() + 1,
{
    let pos = hist.last().position;
    let ms = legal_moves(pos, v);
    lemma_static_eval_bounds(pos, v);
    if !(pos.spec_game_over_material(v) || ms.len() == 0) && !(threefold(hist, v)
        || hist.last().spec_fifty_move_rule()) && depth > 0 {
        lemma_best_of_bounds(hist, v, ms, depth, root, ms.len() as int);
    }
}

proof fn lemma_best_of_bounds(
    hist: Seq<GamePosition>,
    v: Variant,
    ms: Seq<Move>,
    depth: int,
    root: int,
    n: int,
)
    requires
        0 <= root,
        0 < depth,
        root + depth <= MAX_DEPTH,
        1 <= n <= ms.len(),
    ensures
        MIN <= best_of(hist, v, ms, depth, root, n) <= MAX,
    decreases depth, n,
{
    lemma_negamax_bounds(child_hist(hist, ms[n - 1]), v, depth - 1, root + 1);
    assert(child_value(hist, v, ms[n - 1], depth, root) == -negamax(
        child_hist(hist, ms[n - 1]),
        v,
        depth - 1,
        root + 1,
    ));
    if n > 1 {
        lemma_best_of_bounds(hist, v, ms, depth, root, n - 1);
    }
}

/// The search's view of time and of the request to stop.
pub struct ThinkContext {
    nodes: u64,
    progress: Option<Sender<Report>>,
    should_stop: Arc<AtomicBool>,
    can_stop: bool,
    aborted: bool,
    reached_left_most_path: bool,
    time_begin: Instant,
    max_time: u32,
    think_time: u32,
}

impl ThinkContext {
    /// A context that stops when `should_stop` is raised, once a move is available.
    pub fn new(should_stop: Arc<AtomicBool>) -> (r: Self)
        ensures
            !r.spec_aborted(),
            !r.spec_can_stop(),
            r.spec_nodes() == 0,
    {
        ThinkContext {
            nodes: 0,
            progress: None,
            should_stop,
            can_stop: false,
            aborted: false,
            reached_left_most_path: false,
            time_begin: Instant::now(),
            max_time: u32::MAX,
            think_time: u32::MAX,
        }
    }

    /// As `new`, and each report is also sent on `progress` as soon as its iteration is done.
    pub fn with_progress(should_stop: Arc<AtomicBool>, progress: Sender<Report>) -> (r: Self)
        ensures
            !r.spec_aborted(),
            !r.spec_can_stop(),
            r.spec_nodes() == 0,
    {
        ThinkContext {
            nodes: 0,
            progress: Some(progress),
            should_stop,
            can_stop: false,
            aborted: false,
            reached_left_most_path: false,
            time_begin: Instant::now(),
            max_time: u32::MAX,
            think_time: u32::MAX,
        }
    }

    /// Whether a raised stop request is honoured; it is not before a move is available.
    pub closed spec fn spec_can_stop(&self) -> bool {
        self.can_stop
    }

    pub closed spec fn spec_aborted(&self) -> bool {
        self.aborted
    }

    pub closed spec fn spec_nodes(&self) -> int {
        self.nodes as int
    }

    /// The number of positions scored so far.
    pub fn nodes(&self) -> (r: u64)
        ensures
            r == self.spec_nodes(),
    {
        self.nodes
    }

    /// Whether the search is to stop: once it has stopped it stays stopped, and it never stops
    /// before a move is available.
    fn stop(&mut self) -> (r: bool)
        ensures
            r == final(self).aborted,
            old(self).aborted ==> final(self).aborted,
            !old(self).can_stop && !old(self).aborted ==> !final(self).aborted,
            final(self).can_stop == old(self).can_stop,
    {
        if !self.aborted && self.can_stop && self.should_stop.load(Ordering::SeqCst) {
            self.aborted = true;
        }
        self.aborted
    }

    /// Raises the stop request once the time for the move is spent.
    fn check_time(&mut self)
        ensures
            final(self).aborted == old(self).aborted,
            final(self).can_stop == old(self).can_stop,
    {
        let elapsed = self.time_begin.elapsed().as_millis();
        if elapsed >= self.max_time as u128 || elapsed >= self.think_time as u128 {
            self.should_stop.store(true, Ordering::SeqCst);
        }
    }

    fn count_node(&mut self)
        ensures
            final(self).aborted == old(self).aborted,
            final(self).can_stop == old(self).can_stop,
    {
        if self.nodes < u64::MAX {
            self.nodes = self.nodes + 1;
        }
    }
}


/// Puts the move of the previous principal variation at this depth first, while the search
/// is still on the leftmost path of the iteration.
fn reorder_moves_pv(ctx: &ThinkContext, moves: &mut Vec<Move>, pv: &PvLine, depth_root: i32)
    requires
        old(moves)@.len() > 0,
        0 <= depth_root,
    ensures
        exists|idx: int|
            0 <= idx < old(moves)@.len() && final(moves)@ == swapped(old(moves)@, idx),
        !ctx.reached_left_most_path && depth_root < pv.moves@.len() && old(moves)@.contains(
            pv.moves@[depth_root as int],
        ) ==> final(moves)@[0] == pv.moves@[depth_root as int],
{
    proof {
        assert(old(moves)@ =~= swapped(old(moves)@, 0));
    }
    if ctx.reached_left_most_path || depth_root as usize >= pv.moves.len() {
        return;
    }
    let target = pv.moves[depth_root as usize];
    let mut idx: usize = 0;
    while idx < moves.len()
        invariant
            moves@ == old(moves)@,
            target == pv.moves@[depth_root as int],
            idx <= moves@.len(),
            forall|j: int| 0 <= j < idx ==> moves@[j] != target,
        decreases moves.len() - idx,
    {
        if moves[idx] == target {
            let first = moves[0];
            let chosen = moves[idx];
            moves.set(0, chosen);
            moves.set(idx, first);
            proof {
                assert(moves@ =~= swapped(old(moves)@, idx as int));
            }
            return;
        }
        idx = idx + 1;
    }
    proof {
        if old(moves)@.contains(target) {
            let j = choose|j: int| 0 <= j < old(moves)@.len() && old(moves)@[j] == target;
            assert(moves@[j] != target);
        }
    }
}

/// Makes `p_line` the move `m` followed by `line`.
fn fill_pv(p_line: &mut PvLine, line: &PvLine, m: Move)
    ensures
        final(p_line).moves@ == seq![m] + line.moves@,
{
    p_line.moves.clear();
    p_line.moves.push(m);
    let mut i: usize = 0;
    while i < line.moves.len()
        invariant
            i <= line.moves@.len(),
            p_line.moves@ == seq![m] + line.moves@.subrange(0, i as int),
        decreases line.moves@.len() - i,
    {
        p_line.moves.push(line.moves[i]);
        proof {
            assert(p_line.moves@ =~= seq![m] + line.moves@.subrange(0, i + 1));
        }
        i = i + 1;
    }
    proof {
        assert(line.moves@.subrange(0, i as int) =~= line.moves@);
    }
}

/// Fail-hard alpha-beta search of the last node of the arena, `depth` plies deep and
/// `depth_root` plies below the root. Unless the search was stopped, the answer is the
/// negamax value when it lies inside `(alpha, beta)` and a bound past the edge otherwise;
/// `p_line` receives the principal variation, whose first move is a legal move here.
#[verifier::rlimit(50)]
fn alpha_beta(
    ctx: &mut ThinkContext,
    nodes: &mut Vec<SearchNode>,
    variant: Variant,
    depth: i32,
    depth_root: i32,
    alpha: Eval,
    beta: Eval,
    p_line: &mut PvLine,
    pv: &PvLine,
) -> (r: Eval)
    requires
        arena_wf(old(nodes)@),
        old(nodes)@.len() > 0,
        old(nodes)@.len() + depth < usize::MAX,
        0 <= depth,
        0 <= depth_root,
        depth + depth_root <= MAX_DEPTH,
        WINDOW_MIN <= alpha < beta <= WINDOW_MAX,
        old(nodes)@.last().position.position.plies + depth < i32::MAX,
        old(nodes)@.last().position.plies_no_advancement + depth < i32::MAX,
    ensures
        final(nodes)@ == old(nodes)@,
        WINDOW_MIN <= r <= WINDOW_MAX,
        old(ctx).aborted ==> final(ctx).aborted,
        !old(ctx).can_stop && !old(ctx).aborted ==> !final(ctx).aborted,
        final(ctx).can_stop == old(ctx).can_stop,
        !final(ctx).aborted ==> ab_ok(
            r as int,
            negamax(
                chain(old(nodes)@, old(nodes)@.len() - 1),
                variant,
                depth as int,
                depth_root as int,
            ),
            alpha as int,
            beta as int,
        ),
        final(p_line).moves@.len() <= depth,
        final(p_line).moves@.len() > 0 ==> legal_moves(
            old(nodes)@.last().position.position,
            variant,
        ).contains(final(p_line).moves@[0]),
        !final(ctx).aborted && depth > 0 && !is_terminal(
            chain(old(nodes)@, old(nodes)@.len() - 1),
            variant,
        ) && alpha < r < beta ==> final(p_line).moves@.len() > 0,
        depth == 0 || is_terminal(chain(old(nodes)@, old(nodes)@.len() - 1), variant)
            ==> final(p_line).moves@.len() == 0,
        !final(ctx).aborted && final(p_line).moves@.len() > 0 && r < beta ==> child_value(
            chain(old(nodes)@, old(nodes)@.len() - 1),
            variant,
            final(p_line).moves@[0],
            depth as int,
            depth_root as int,
        ) == r,
        !final(ctx).aborted && old(nodes)@.last().position.position.spec_game_over_material(
            variant,
        ) ==> r == MIN + depth_root,
    decreases depth,
{
    p_line.moves.clear();
    if ctx.nodes % 50_000 == 0 {
        ctx.check_time();
    }
    if ctx.stop() {
        return 0;
    }
    let last = nodes.len() - 1;
    let ghost hist = chain(nodes@, last as int);
    proof {
        crate::search_node::lemma_chain_len(nodes@, last as int);
    }
    let node = nodes[last];
    let pos = node.position.position;
    if pos.is_game_over_material(variant) {
        ctx.count_node();
        return MIN + depth_root;
    }
    let mut moves = generate_moves(&pos, variant);
    if moves.len() == 0 {
        ctx.count_node();
        return MIN + depth_root;
    }
    if SearchNode::is_threefold_repetition_rule(nodes, last, variant) {
        ctx.count_node();
        return 0;
    }
    if node.position.is_fifty_move_rule() {
        ctx.count_node();
        return 0;
    }
    if depth == 0 {
        ctx.count_node();
        return static_evaluation(&pos, variant) * perspective(&pos);
    }
    let ghost legal = moves@;
    reorder_moves_pv(ctx, &mut moves, pv, depth_root);
    let ghost ms = moves@;
    proof {
        let idx = choose|idx: int| 0 <= idx < legal.len() && ms == swapped(legal, idx);
        lemma_best_of_swapped(hist, variant, legal, idx, depth as int, depth_root as int);
        lemma_best_of_upper(hist, variant, ms, depth as int, depth_root as int, ms.len() as int);
    }
    let mut alpha_cur = alpha;
    let mut line = PvLine::new();
    let mut i: usize = 0;
    while i < moves.len()
        invariant
            nodes@ == old(nodes)@,
            last == nodes@.len() - 1,
            hist == chain(nodes@, last as int),
            hist.last() == node.position,
            pos == node.position.position,
            arena_wf(nodes@),
            nodes@.len() + depth < usize::MAX,
            0 < depth,
            0 <= depth_root,
            depth + depth_root <= MAX_DEPTH,
            pos.plies + depth < i32::MAX,
            node.position.plies_no_advancement + depth < i32::MAX,
            WINDOW_MIN <= alpha < beta <= WINDOW_MAX,
            legal == legal_moves(pos, variant),
            moves@ == ms,
            i <= ms.len(),
            ms.len() == legal.len(),
            forall|j: int| 0 <= j < ms.len() ==> legal.contains(#[trigger] ms[j]),
            best_of(hist, variant, ms, depth as int, depth_root as int, ms.len() as int) == best_of(
                hist,
                variant,
                legal,
                depth as int,
                depth_root as int,
                legal.len() as int,
            ),
            forall|j: int|
                0 <= j < ms.len() ==> child_value(
                    hist,
                    variant,
                    #[trigger] ms[j],
                    depth as int,
                    depth_root as int,
                ) <= best_of(hist, variant, ms, depth as int, depth_root as int, ms.len() as int),
            negamax(hist, variant, depth as int, depth_root as int) == best_of(
                hist,
                variant,
                legal,
                depth as int,
                depth_root as int,
                legal.len() as int,
            ),
            !ctx.aborted,
            !old(ctx).aborted,
            ctx.can_stop == old(ctx).can_stop,
            alpha <= alpha_cur < beta,
            i > 0 ==> (alpha_cur == alpha || alpha_cur == best_of(
                hist,
                variant,
                ms,
                depth as int,
                depth_root as int,
                i as int,
            )),
            i > 0 ==> best_of(hist, variant, ms, depth as int, depth_root as int, i as int)
                <= alpha_cur,
            i == 0 ==> alpha_cur == alpha,
            p_line.moves@.len() <= depth,
            p_line.moves@.len() > 0 ==> legal.contains(p_line.moves@[0]),
            alpha_cur > alpha ==> p_line.moves@.len() > 0,
            p_line.moves@.len() > 0 ==> child_value(
                hist,
                variant,
                p_line.moves@[0],
                depth as int,
                depth_root as int,
            ) == alpha_cur,
            !is_terminal(hist, variant),
        decreases ms.len() - i,
    {
        let m = moves[i];
        proof {
            lemma_generated_moves_applicable(pos, variant, m);
        }
        push_child(nodes, &m);
        let child_eval = alpha_beta(
            ctx,
            nodes,
            variant,
            depth - 1,
            depth_root + 1,
            -beta,
            -alpha_cur,
            &mut line,
            pv,
        );
        let ghost pushed = nodes@;
        nodes.pop();
        proof {
            assert(nodes@ =~= old(nodes)@);
        }
        let eval = -child_eval;
        if ctx.stop() {
            return 0;
        }
        ctx.reached_left_most_path = true;
        proof {
            assert(child_value(hist, variant, m, depth as int, depth_root as int) == -negamax(
                child_hist(hist, m),
                variant,
                depth - 1,
                depth_root + 1,
            ));
        }
        if eval >= beta {
            return beta;
        }
        if eval > alpha_cur {
            alpha_cur = eval;
            fill_pv(p_line, &line, m);
        }
        i = i + 1;
    }
    proof {
        let val = best_of(hist, variant, ms, depth as int, depth_root as int, ms.len() as int);
        assert(i == ms.len());
        assert(val <= alpha_cur);
        assert(negamax(hist, variant, depth as int, depth_root as int) == val);
    }
    alpha_cur
}


/// The histories reached by replaying `ms` from `start`, or `None` if some move cannot be
/// played where it comes.
pub open spec fn replay(start: GamePosition, ms: Seq<Move>) -> Option<Seq<GamePosition>>
    decreases ms.len(),
{
    if ms.len() == 0 {
        Some(seq![start])
    } else {
        match replay(start, ms.drop_last()) {
            Some(h) => if h.last().can_play(ms.last()) {
                Some(child_hist(h, ms.last()))
            } else {
                None
            },
            None => None,
        }
    }
}

/// The position a search of `game` starts from: its position with no ply yet without
/// advancement.
pub open spec fn start_of(game: Game) -> GamePosition {
    GamePosition { position: game.position, plies_no_advancement: 0 }
}

/// The depth the iterations of a search of `game` go to.
pub open spec fn spec_max_depth(game: Game) -> int {
    match game.depth {
        Some(d) => if d < MAX_DEPTH {
            d as int
        } else {
            MAX_DEPTH as int
        },
        None => MAX_DEPTH as int,
    }
}

/// Counters stay far enough from the integer limits for a search of the deepest kind.
pub open spec fn within_limits(gp: GamePosition) -> bool {
    gp.position.plies < i32::MAX - MAX_DEPTH && gp.plies_no_advancement < i32::MAX - MAX_DEPTH
}

pub open spec fn spec_score(eval: int) -> Score {
    if eval >= MAX - MAX_DEPTH {
        Score::Win(((MAX - eval) / 2) as i32)
    } else if eval <= MIN + MAX_DEPTH {
        Score::Win((0 - (eval - MIN) / 2) as i32)
    } else {
        Score::Eval(eval as i32)
    }
}

/// Report `i` is that of the iteration of depth `i + 1`, and its score is the negamax value
/// of the root at that depth, seen from White.
pub open spec fn reports_exact(reports: Seq<Report>, h: Seq<GamePosition>, v: Variant) -> bool {
    forall|i: int|
        0 <= i < reports.len() ==> #[trigger] reports[i].depth == i + 1 && reports[i].score
            == spec_score(negamax(h, v, i + 1, 0) * spec_perspective(h.last().position))
}

/// What is reported after each completed iteration.
#[derive(Clone, Debug)]
pub struct Report {
    pub depth: i32,
    pub time: u64,
    pub nodes: u64,
    pub score: Score,
    pub pv: Vec<Move>,
}

/// Iterative-deepening search over an arena of nodes.
pub struct Think {
    /// The arena of the last search: the replayed history, then the nodes being searched.
    pub nodes: Vec<SearchNode>,
    /// The reports of the iterations of the last search, in order.
    pub reports: Vec<Report>,
}

impl Think {
    pub fn new() -> (r: Self)
        ensures
            r.reports@.len() == 0,
    {
        Think { nodes: Vec::new(), reports: Vec::new() }
    }

    /// The depth the iterations go to: the requested depth, at most `MAX_DEPTH`.
    pub fn max_depth(game: &Game) -> (r: i32)
        ensures
            r == spec_max_depth(*game),
    {
        match game.depth {
            Some(d) => if d < MAX_DEPTH {
                d
            } else {
                MAX_DEPTH
            },
            None => MAX_DEPTH,
        }
    }

    /// The reported form of a score from White's side: a forced win or loss near the edges of
    /// the window, else the evaluation.
    pub fn score(eval: Eval) -> (r: Score)
        requires
            MIN <= eval <= MAX,
        ensures
            r == spec_score(eval as int),
    {
        if eval >= MAX - MAX_DEPTH {
            let d: i32 = MAX - eval;
            let w: i32 = d / 2;
            assert(w as int == (MAX - eval) / 2);
            assert(Score::Win(w) == spec_score(eval as int));
            Score::Win(w)
        } else if eval <= MIN + MAX_DEPTH {
            let d: i32 = eval - MIN;
            let w: i32 = d / 2;
            assert(w as int == (eval - MIN) / 2);
            assert(Score::Win((-w) as i32) == spec_score(eval as int));
            Score::Win(-w)
        } else {
            Score::Eval(eval)
        }
    }

    /// Builds the arena from the moves of `game`; false if one of them cannot be played.
    fn setup(&mut self, game: &Game) -> (r: bool)
        requires
            game.moves@.len() < usize::MAX - 64,
        ensures
            r == (replay(start_of(*game), game.moves@) is Some),
            final(self).reports == old(self).reports,
            r ==> arena_wf(final(self).nodes@) && final(self).nodes@.len() > 0
                && final(self).nodes@.len() <= game.moves@.len() + 1 && replay(
                start_of(*game),
                game.moves@,
            ) == Some(chain(final(self).nodes@, final(self).nodes@.len() - 1)),
    {
        self.nodes.clear();
        let start = GamePosition { position: game.position, plies_no_advancement: 0 };
        self.nodes.push(SearchNode::from_position(&start));
        proof {
            assert(game.moves@.subrange(0, 0) =~= Seq::<Move>::empty());
        }
        let mut i: usize = 0;
        while i < game.moves.len()
            invariant
                i <= game.moves@.len(),
                game.moves@.len() < usize::MAX - 64,
                start == start_of(*game),
                self.reports == old(self).reports,
                arena_wf(self.nodes@),
                self.nodes@.len() == i + 1,
                replay(start, game.moves@.subrange(0, i as int)) == Some(
                    chain(self.nodes@, self.nodes@.len() - 1),
                ),
            decreases game.moves@.len() - i,
        {
            let m = game.moves[i];
            let last = self.nodes.len() - 1;
            proof {
                crate::search_node::lemma_chain_len(self.nodes@, last as int);
                assert(game.moves@.subrange(0, i + 1).drop_last() =~= game.moves@.subrange(
                    0,
                    i as int,
                ));
            }
            if !self.nodes[last].position.can_play_move(&m) {
                proof {
                    lemma_replay_none(start, game.moves@, i as int + 1);
                    assert(game.moves@.subrange(0, game.moves@.len() as int) =~= game.moves@);
                }
                return false;
            }
            push_child(&mut self.nodes, &m);
            i = i + 1;
        }
        proof {
            assert(game.moves@.subrange(0, i as int) =~= game.moves@);
        }
        true
    }

    /// Searches `game` by iterative deepening, one iteration per depth up to `max_depth`,
    /// each seeded with the principal variation of the one before, and records a report per
    /// completed iteration. Once the first iteration is done, a raised stop request or a
    /// spent time budget ends the search with the best move of the last completed iteration.
    /// The answer is a legal move of the position reached by the moves of `game` whose value
    /// is the negamax value of that position at the depth of the last completed iteration;
    /// it is given whenever those moves can be played, the game is not over there, the
    /// requested depth is at least one, and the counters are clear of the integer limits, and
    /// never when the game is over there.
    #[verifier::rlimit(50)]
    pub fn think(&mut self, game: Game, ctx: ThinkContext, variant: Variant) -> (r: Option<Move>)
        ensures
            r matches Some(m) ==> replay(start_of(game), game.moves@) matches Some(h)
                && legal_moves(h.last().position, variant).contains(m),
            r matches Some(m) ==> final(self).reports@.len() > 0 && final(self).reports@.last().pv@.len()
                > 0 && final(self).reports@.last().pv@[0] == m,
            final(self).reports@.len() > 0 ==> (replay(start_of(game), game.moves@) matches Some(h)
                && reports_exact(final(self).reports@, h, variant)),
            r matches Some(m) ==> (replay(start_of(game), game.moves@) matches Some(h)
                && child_value(h, variant, m, final(self).reports@.len() as int, 0) == negamax(
                h,
                variant,
                final(self).reports@.len() as int,
                0,
            )),
            (replay(start_of(game), game.moves@) matches Some(h) && is_terminal(h, variant))
                ==> r is None,
            (replay(start_of(game), game.moves@) matches Some(h) && !is_terminal(h, variant)
                && within_limits(h.last()) && spec_max_depth(game) >= 1 && game.moves@.len()
                < usize::MAX - 64) ==> r is Some,
    {
        let mut ctx = ctx;
        self.reports.clear();
        if game.moves.len() >= usize::MAX - 64 {
            return None;
        }
        if !self.setup(&game) {
            return None;
        }
        let ghost hist = chain(self.nodes@, self.nodes@.len() - 1);
        proof {
            assert(reports_exact(self.reports@, hist, variant));
        }
        let last = self.nodes.len() - 1;
        proof {
            crate::search_node::lemma_chain_len(self.nodes@, last as int);
        }
        let root = self.nodes[last].position;
        if root.position.plies >= i32::MAX - MAX_DEPTH || root.plies_no_advancement >= i32::MAX
            - MAX_DEPTH {
            return None;
        }
        ctx.time_begin = Instant::now();
        ctx.max_time = match game.movetime {
            Some(t) => t,
            None => u32::MAX,
        };
        ctx.think_time = sudden_death_time_control(game.wtime, game.btime, 50, &game.position);
        ctx.can_stop = false;
        ctx.aborted = false;
        ctx.reached_left_most_path = false;
        let max_depth = Self::max_depth(&game);
        let mut last_pv = PvLine::new();
        let mut depth: i32 = 1;
        while depth <= max_depth
            invariant_except_break
                !ctx.aborted,
                ctx.can_stop == (depth > 1),
            invariant
                1 <= depth <= MAX_DEPTH + 1,
                max_depth == spec_max_depth(game),
                max_depth <= MAX_DEPTH,
                arena_wf(self.nodes@),
                self.nodes@.len() > 0,
                self.nodes@.len() <= game.moves@.len() + 1,
                game.moves@.len() < usize::MAX - 64,
                hist == chain(self.nodes@, self.nodes@.len() - 1),
                hist.last() == root,
                replay(start_of(game), game.moves@) == Some(hist),
                within_limits(root),
                depth > 1 ==> last_pv.moves@.len() > 0,
                depth == 1 ==> last_pv.moves@.len() == 0,
                self.reports@.len() == depth - 1,
                reports_exact(self.reports@, hist, variant),
                depth > 1 ==> self.reports@.last().pv@ == last_pv.moves@,
                depth > 1 ==> child_value(hist, variant, last_pv.moves@[0], depth - 1, 0) == negamax(
                    hist,
                    variant,
                    depth - 1,
                    0,
                ),
                is_terminal(hist, variant) ==> depth == 1,
                last_pv.moves@.len() > 0 ==> legal_moves(root.position, variant).contains(
                    last_pv.moves@[0],
                ),
            ensures
                depth > 1 || max_depth < 1,
            decreases MAX_DEPTH + 1 - depth,
        {
            let mut line = PvLine::new();
            let eval = alpha_beta(
                &mut ctx,
                &mut self.nodes,
                variant,
                depth,
                0,
                WINDOW_MIN,
                WINDOW_MAX,
                &mut line,
                &last_pv,
            );
            proof {
                lemma_negamax_bounds(hist, variant, depth as int, 0);
            }
            ctx.check_time();
            if ctx.stop() {
                break;
            }
            proof {
                assert(eval == negamax(hist, variant, depth as int, 0));
                assert(MIN <= eval <= MAX);
                if line.moves@.len() > 0 {
                    assert(child_value(hist, variant, line.moves@[0], depth as int, 0) == eval);
                }
            }
            let elapsed = ctx.time_begin.elapsed().as_millis();
            let time: u64 = if elapsed > u64::MAX as u128 {
                u64::MAX
            } else {
                elapsed as u64
            };
            let side = perspective(&root.position);
            proof {
                assert(side == 1 || side == -1);
                assert(MIN <= eval * side <= MAX) by (nonlinear_arith)
                    requires
                        MIN <= eval <= MAX,
                        side == 1 || side == -1,
                ;
            }
            let score = Self::score(eval * side);
            let pv = line.moves.clone();
            proof {
                assert(pv@ =~= line.moves@);
            }
            let ghost before = self.reports@;
            let ghost persp = spec_perspective(hist.last().position);
            let report = Report { depth, time, nodes: ctx.nodes, score, pv };
            if let Some(channel) = &ctx.progress {
                send_report(channel, report.clone());
            }
            self.reports.push(report);
            proof {
                assert(score == spec_score(negamax(hist, variant, depth as int, 0) * persp));
                assert forall|i: int| 0 <= i < self.reports@.len() implies #[trigger] self.reports@[i].depth
                    == i + 1 && self.reports@[i].score == spec_score(
                    negamax(hist, variant, i + 1, 0) * persp,
                ) by {
                    if i < before.len() {
                        assert(self.reports@[i] == before[i]);
                        assert(before[i].depth == i + 1);
                    } else {
                        assert(i == before.len());
                        assert(self.reports@[i].score == score);
                        assert(self.reports@[i].depth == depth);
                    }
                }
            }
            proof {
                if !is_terminal(hist, variant) {
                    assert(eval == negamax(hist, variant, depth as int, 0));
                    assert(line.moves@.len() > 0);
                }
            }
            if line.moves.len() == 0 {
                return None;
            }
            last_pv = line;
            ctx.can_stop = true;
            ctx.reached_left_most_path = false;
            depth = depth + 1;
        }
        if last_pv.moves.len() == 0 {
            return None;
        }
        Some(last_pv.moves[0])
    }
}

proof fn lemma_replay_none(start: GamePosition, ms: Seq<Move>, n: int)
    requires
        1 <= n <= ms.len(),
        replay(start, ms.subrange(0, n)) is None,
    ensures
        replay(start, ms) is None,
    decreases ms.len() - n,
{
    if n < ms.len() {
        assert(ms.subrange(0, n + 1).drop_last() =~= ms.subrange(0, n));
        lemma_replay_none(start, ms, n + 1);
    } else {
        assert(ms.subrange(0, n) =~= ms);
    }
}

} // verus!

use vstd::prelude::*;

use crate::game::{GamePosition, Move, Position, Variant};

verus! {

/// A position reached in a search, linked to the node it was reached from. Nodes live in an
/// arena (a `Vec`) and link by index; an advancement cuts the link, since no position before
/// it can come again.
#[derive(Clone, Copy, Debug)]
pub struct SearchNode {
    pub position: GamePosition,
    pub previous: Option<usize>,
}

/// Every link of the arena points to an earlier node.
pub open spec fn arena_wf(nodes: Seq<SearchNode>) -> bool {
    forall|i: int|
        0 <= i < nodes.len() ==> match #[trigger] nodes[i].previous {
            Some(j) => j < i,
            None => true,
        }
}

/// The positions along the links that end in node `i`, oldest first.
pub open spec fn chain(nodes: Seq<SearchNode>, i: int) -> Seq<GamePosition>
    decreases i,
    when 0 <= i
{
    match nodes[i].previous {
        Some(j) => if j < i {
            chain(nodes, j as int).push(nodes[i].position)
        } else {
            seq![nodes[i].position]
        },
        None => seq![nodes[i].position],
    }
}

/// The history after `m` is played at the end of `hist`: an advancement starts it afresh.
pub open spec fn child_hist(hist: Seq<GamePosition>, m: Move) -> Seq<GamePosition> {
    let next = hist.last().spec_play(m);
    if m.spec_is_advancement() {
        seq![next]
    } else {
        hist.push(next)
    }
}

/// Number of positions among `hist[lo..hi]` that count as `cur` for repetition.
pub open spec fn matches_from(
    hist: Seq<GamePosition>,
    cur: Position,
    v: Variant,
    lo: int,
    hi: int,
) -> int
    decreases hi - lo,
{
    if lo >= hi {
        0
    } else {
        (if hist[lo].position.spec_eq(cur, v) {
            1int
        } else {
            0int
        }) + matches_from(hist, cur, v, lo + 1, hi)
    }
}

/// The last position of `hist` has occurred twice before.
pub open spec fn threefold(hist: Seq<GamePosition>, v: Variant) -> bool {
    matches_from(hist, hist.last().position, v, 0, hist.len() - 1) >= 2
}

proof fn lemma_matches_monotone(hist: Seq<GamePosition>, cur: Position, v: Variant, lo: int, hi: int)
    requires
        0 <= lo,
    ensures
        matches_from(hist, cur, v, 0, hi) >= matches_from(hist, cur, v, lo, hi),
        matches_from(hist, cur, v, lo, hi) >= 0,
    decreases lo,
{
    lemma_matches_nonneg(hist, cur, v, lo, hi);
    if lo > 0 {
        lemma_matches_monotone(hist, cur, v, lo - 1, hi);
    }
}

proof fn lemma_matches_nonneg(hist: Seq<GamePosition>, cur: Position, v: Variant, lo: int, hi: int)
    ensures
        matches_from(hist, cur, v, lo, hi) >= 0,
    decreases hi - lo,
{
    if lo < hi {
        lemma_matches_nonneg(hist, cur, v, lo + 1, hi);
    }
}

/// The chain of a node does not change when nodes are added after it.
pub proof fn lemma_chain_prefix(nodes: Seq<SearchNode>, more: Seq<SearchNode>, i: int)
    requires
        arena_wf(nodes),
        0 <= i < nodes.len(),
        more.len() >= nodes.len(),
        forall|k: int| 0 <= k < nodes.len() ==> more[k] == nodes[k],
    ensures
        chain(more, i) == chain(nodes, i),
    decreases i,
{
    match nodes[i].previous {
        Some(j) => {
            if j < i {
                lemma_chain_prefix(nodes, more, j as int);
            }
        },
        None => {},
    }
}

pub proof fn lemma_chain_len(nodes: Seq<SearchNode>, i: int)
    requires
        arena_wf(nodes),
        0 <= i < nodes.len(),
    ensures
        1 <= chain(nodes, i).len() <= i + 1,
        chain(nodes, i).last() == nodes[i].position,
    decreases i,
{
    match nodes[i].previous {
        Some(j) => {
            lemma_chain_len(nodes, j as int);
        },
        None => {},
    }
}

impl SearchNode {
    /// A node with no history.
    pub fn from_position(position: &GamePosition) -> (r: Self)
        ensures
            r.position == *position,
            r.previous is None,
    {
        SearchNode { position: *position, previous: None }
    }

    /// A copy of the node at `index` of the arena, linked to it.
    pub fn from_node(node: &SearchNode, index: usize) -> (r: Self)
        ensures
            r.position == node.position,
            r.previous == Some(index),
    {
        SearchNode { position: node.position, previous: Some(index) }
    }

    /// Plays `move_`; an advancement cuts the link to the history.
    pub fn play_move(&mut self, move_: &Move)
        requires
            old(self).position.can_play(*move_),
        ensures
            final(self).position == old(self).position.spec_play(*move_),
            move_.spec_is_advancement() ==> final(self).previous is None
                && final(self).position.plies_no_advancement == 0,
            final(self).previous == if move_.spec_is_advancement() {
                None
            } else {
                old(self).previous
            },
    {
        self.position.play_move(move_);
        if move_.is_advancement() {
            self.previous = None;
        }
    }

    /// Whether the position of node `index` has occurred twice before along its links.
    pub fn is_threefold_repetition_rule(nodes: &Vec<SearchNode>, index: usize, variant: Variant) -> (r:
        bool)
        requires
            arena_wf(nodes@),
            index < nodes@.len(),
        ensures
            r == threefold(chain(nodes@, index as int), variant),
    {
        let ghost hist = chain(nodes@, index as int);
        let cur = &nodes[index].position.position;
        proof {
            lemma_chain_len(nodes@, index as int);
        }
        let mut previous = nodes[index].previous;
        let ghost mut lo: int = hist.len() - 1;
        proof {
            match previous {
                Some(j) => {
                    lemma_chain_len(nodes@, j as int);
                    assert(chain(nodes@, j as int) =~= hist.subrange(0, lo));
                },
                None => {},
            }
        }
        let mut repetitions: u32 = 1;
        while previous.is_some()
            invariant
                arena_wf(nodes@),
                index < nodes@.len(),
                hist == chain(nodes@, index as int),
                *cur == hist.last().position,
                0 <= lo < hist.len(),
                repetitions == 1 + matches_from(hist, *cur, variant, lo, hist.len() - 1),
                repetitions <= 2,
                match previous {
                    Some(j) => j < nodes@.len() && 1 <= lo && chain(nodes@, j as int)
                        == hist.subrange(0, lo),
                    None => lo == 0,
                },
            decreases lo,
        {
            let j = previous.unwrap();
            proof {
                lemma_chain_len(nodes@, j as int);
                assert(hist[lo - 1] == chain(nodes@, j as int).last());
            }
            if nodes[j].position.position.eq(cur, variant) {
                repetitions = repetitions + 1;
                if repetitions == 3 {
                    proof {
                        lemma_matches_monotone(hist, *cur, variant, lo - 1, hist.len() - 1);
                    }
                    return true;
                }
            }
            proof {
                match nodes@[j as int].previous {
                    Some(k) => {
                        assert(chain(nodes@, k as int) == chain(nodes@, j as int).drop_last());
                        assert(chain(nodes@, k as int) =~= hist.subrange(0, lo - 1));
                    },
                    None => {},
                }
                lo = lo - 1;
            }
            previous = nodes[j].previous;
        }
        false
    }
}

/// Appends to the arena the node reached by playing `move_` at its last node.
pub fn push_child(nodes: &mut Vec<SearchNode>, move_: &Move)
    requires
        arena_wf(old(nodes)@),
        old(nodes)@.len() > 0,
        old(nodes)@.len() < usize::MAX,
        old(nodes)@.last().position.can_play(*move_),
    ensures
        arena_wf(final(nodes)@),
        final(nodes)@.len() == old(nodes)@.len() + 1,
        final(nodes)@.subrange(0, old(nodes)@.len() as int) == old(nodes)@,
        chain(final(nodes)@, old(nodes)@.len() as int) == child_hist(
            chain(old(nodes)@, old(nodes)@.len() - 1),
            *move_,
        ),
{
    let last = nodes.len() - 1;
    let mut child = SearchNode::from_node(&nodes[last], last);
    child.play_move(move_);
    nodes.push(child);
    proof {
        let old_nodes = old(nodes)@;
        let new_nodes = nodes@;
        assert(new_nodes.subrange(0, old_nodes.len() as int) =~= old_nodes);
        lemma_chain_prefix(old_nodes, new_nodes, last as int);
        lemma_chain_len(old_nodes, last as int);
    }
}

} // verus!

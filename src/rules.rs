use vstd::prelude::*;

use crate::game::{as_node, node_of, Node, Player, Variant};

verus! {

/// Number of lines of three on the board: the nine-piece board has sixteen, the
/// twelve-piece board adds the four diagonals.
pub open spec fn num_lines(v: Variant) -> int {
    match v {
        Variant::Nine => 16,
        Variant::Twelve => 20,
    }
}

/// The `k`-th line of three cells, in order along the line.
pub open spec fn line(k: int) -> (int, int, int) {
    if k == 0 {
        (0, 1, 2)
    } else if k == 1 {
        (3, 4, 5)
    } else if k == 2 {
        (6, 7, 8)
    } else if k == 3 {
        (9, 10, 11)
    } else if k == 4 {
        (12, 13, 14)
    } else if k == 5 {
        (15, 16, 17)
    } else if k == 6 {
        (18, 19, 20)
    } else if k == 7 {
        (21, 22, 23)
    } else if k == 8 {
        (0, 9, 21)
    } else if k == 9 {
        (3, 10, 18)
    } else if k == 10 {
        (6, 11, 15)
    } else if k == 11 {
        (1, 4, 7)
    } else if k == 12 {
        (16, 19, 22)
    } else if k == 13 {
        (8, 12, 17)
    } else if k == 14 {
        (5, 13, 20)
    } else if k == 15 {
        (2, 14, 23)
    } else if k == 16 {
        (0, 3, 6)
    } else if k == 17 {
        (2, 5, 8)
    } else if k == 18 {
        (15, 18, 21)
    } else if k == 19 {
        (17, 20, 23)
    } else {
        (0, 0, 0)
    }
}

fn line_exec(k: usize) -> (r: (usize, usize, usize))
    requires
        k < 20,
    ensures
        r.0 == line(k as int).0,
        r.1 == line(k as int).1,
        r.2 == line(k as int).2,
        r.0 < 24 && r.1 < 24 && r.2 < 24,
{
    match k {
        0 => (0, 1, 2),
        1 => (3, 4, 5),
        2 => (6, 7, 8),
        3 => (9, 10, 11),
        4 => (12, 13, 14),
        5 => (15, 16, 17),
        6 => (18, 19, 20),
        7 => (21, 22, 23),
        8 => (0, 9, 21),
        9 => (3, 10, 18),
        10 => (6, 11, 15),
        11 => (1, 4, 7),
        12 => (16, 19, 22),
        13 => (8, 12, 17),
        14 => (5, 13, 20),
        15 => (2, 14, 23),
        16 => (0, 3, 6),
        17 => (2, 5, 8),
        18 => (15, 18, 21),
        19 => (17, 20, 23),
        _ => (0, 0, 0),
    }
}

pub open spec fn line_has(k: int, i: int) -> bool {
    line(k).0 == i || line(k).1 == i || line(k).2 == i
}

pub open spec fn line_full(b: Seq<Node>, k: int, n: Node) -> bool {
    b[line(k).0] == n && b[line(k).1] == n && b[line(k).2] == n
}

/// Cell `i` is part of a mill of `n`: some line through it holds `n` on all three cells.
pub open spec fn in_mill(b: Seq<Node>, n: Node, v: Variant, i: int) -> bool {
    exists|k: int| 0 <= k < num_lines(v) && line_has(k, i) && line_full(b, k, n)
}

/// Cells `i` and `j` are next to each other on some line.
pub open spec fn adjacent(v: Variant, i: int, j: int) -> bool {
    exists|k: int| 0 <= k < num_lines(v) && line_links(k, i, j)
}

/// Line `k` holds cells `i` and `j` side by side.
pub open spec fn line_links(k: int, i: int, j: int) -> bool {
    let l = line(k);
    (l.0 == i && l.1 == j) || (l.1 == i && l.0 == j) || (l.1 == i && l.2 == j) || (l.2 == i
        && l.1 == j)
}

fn lines_count(v: Variant) -> (r: usize)
    ensures
        r == num_lines(v),
{
    match v {
        Variant::Nine => 16,
        Variant::Twelve => 20,
    }
}

/// Whether the piece of `player` on cell `index` stands in a mill.
pub fn is_mill(board: &[Node; 24], player: Player, v: Variant, index: usize) -> (r: bool)
    requires
        index < 24,
    ensures
        r == in_mill(board@, node_of(player), v, index as int),
{
    let n = as_node(player);
    let count = lines_count(v);
    let mut k: usize = 0;
    while k < count
        invariant
            k <= count,
            count == num_lines(v),
            count <= 20,
            n == node_of(player),
            forall|q: int|
                0 <= q < k ==> !(line_has(q, index as int) && line_full(board@, q, n)),
        decreases count - k,
    {
        let (a, b, c) = line_exec(k);
        if (a == index || b == index || c == index) && board[a] == n && board[b] == n && board[c]
            == n {
            assert(line_has(k as int, index as int) && line_full(board@, k as int, n));
            return true;
        }
        k = k + 1;
    }
    false
}

/// Whether cells `i` and `j` are neighbours on the board of variant `v`.
pub fn is_adjacent(v: Variant, i: usize, j: usize) -> (r: bool)
    ensures
        r == adjacent(v, i as int, j as int),
{
    let count = lines_count(v);
    let mut k: usize = 0;
    while k < count
        invariant
            k <= count,
            count == num_lines(v),
            count <= 20,
            forall|q: int| 0 <= q < k ==> !line_links(q, i as int, j as int),
        decreases count - k,
    {
        let (a, b, c) = line_exec(k);
        if (a == i && b == j) || (b == i && a == j) || (b == i && c == j) || (c == i && b == j) {
            assert(line_links(k as int, i as int, j as int));
            return true;
        }
        k = k + 1;
    }
    false
}

/// Every piece of `n` on the board stands in a mill.
pub open spec fn all_in_mills(b: Seq<Node>, n: Node, v: Variant) -> bool {
    forall|i: int| 0 <= i < 24 && b[i] == n ==> in_mill(b, n, v, i)
}

/// Whether every piece of `player` stands in a mill.
pub fn all_pieces_in_mills(board: &[Node; 24], player: Player, v: Variant) -> (r: bool)
    ensures
        r == all_in_mills(board@, node_of(player), v),
{
    let n = as_node(player);
    let mut i: usize = 0;
    while i < 24
        invariant
            i <= 24,
            n == node_of(player),
            forall|j: int| 0 <= j < i && board@[j] == n ==> in_mill(board@, n, v, j),
        decreases 24 - i,
    {
        if board[i] == n && !is_mill(board, player, v, i) {
            return false;
        }
        i = i + 1;
    }
    true
}

/// A piece of `n` on cell `k` may be captured: it is not in a mill, or every piece of `n` is.
pub open spec fn capturable(b: Seq<Node>, n: Node, v: Variant, k: int) -> bool {
    b[k] == n && (!in_mill(b, n, v, k) || all_in_mills(b, n, v))
}

} // verus!

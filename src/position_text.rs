use vstd::prelude::*;
use vstd::string::*;

use crate::game::{as_node, is_cell, node_of, Board, GamePosition, Node, Player, Position};
use crate::notation::{
    cell_name, cell_of, cell_str, digit_char, digit_str, name_text, parse_cell, sep_str,
};

verus! {

pub open spec fn player_of(c: char) -> Option<Player> {
    if c == 'w' {
        Some(Player::White)
    } else if c == 'b' {
        Some(Player::Black)
    } else {
        None
    }
}

pub open spec fn is_digit(c: char) -> bool {
    '0' <= c <= '9'
}

/// Where the run of digits that starts at `i` ends.
pub open spec fn digits_end(s: Seq<char>, i: int) -> int
    decreases s.len() - i,
{
    if 0 <= i < s.len() && is_digit(s[i]) {
        digits_end(s, i + 1)
    } else {
        i
    }
}

/// The value of the digits `s[i..j]`.
pub open spec fn digits_value(s: Seq<char>, i: int, j: int) -> int
    decreases j - i,
{
    if j <= i {
        0
    } else {
        digits_value(s, i, j - 1) * 10 + (s[j - 1] as int - '0' as int)
    }
}

/// A number of one to `max` digits at `i`: its value and where it ends.
pub open spec fn number_at(s: Seq<char>, i: int, max: int) -> Option<(int, int)> {
    let j = digits_end(s, i);
    if 0 <= i && 1 <= j - i <= max {
        Some((digits_value(s, i, j), j))
    } else {
        None
    }
}

/// A non-empty list of cells separated by commas at `i`: the cells and where the list ends.
pub open spec fn cells_at(s: Seq<char>, i: int) -> Option<(Seq<int>, int)>
    decreases s.len() - i,
{
    if 0 <= i && i + 2 <= s.len() {
        match cell_of(s[i], s[i + 1]) {
            Some(c) => if i + 2 < s.len() && s[i + 2] == ',' {
                match cells_at(s, i + 3) {
                    Some((l, j)) => Some((seq![c] + l, j)),
                    None => None,
                }
            } else {
                Some((seq![c], i + 2))
            },
            None => None,
        }
    } else {
        None
    }
}

/// A possibly empty list of cells at `i`, empty when `end` follows at once.
pub open spec fn list_at(s: Seq<char>, i: int, end: char) -> Option<(Seq<int>, int)> {
    if 0 <= i < s.len() && s[i] == end {
        Some((seq![], i))
    } else {
        cells_at(s, i)
    }
}

/// The board `b` with `n` put on each cell of `l`.
pub open spec fn paint(b: Seq<Node>, l: Seq<int>, n: Node) -> Seq<Node>
    decreases l.len(),
{
    if l.len() == 0 {
        b
    } else {
        paint(b, l.drop_last(), n).update(l.last(), n)
    }
}

pub open spec fn as_ints(v: Seq<usize>) -> Seq<int> {
    v.map_values(|c: usize| c as int)
}

pub open spec fn empty_board() -> Seq<Node> {
    Seq::new(24, |i: int| Node::Empty)
}

/// What a position text holds: two groups of cells with their players, the player to move,
/// and two counters.
pub struct PositionFields {
    pub first: Player,
    pub first_cells: Seq<int>,
    pub second: Player,
    pub second_cells: Seq<int>,
    pub turn: Player,
    pub count: int,
    pub quiet: int,
}

impl PositionFields {
    /// The two groups belong to different players and share no cell.
    pub open spec fn valid(self) -> bool {
        &&& self.first != self.second
        &&& forall|k: int| !(#[trigger] self.first_cells.contains(k) && self.second_cells.contains(k))
    }

    pub open spec fn board(self) -> Seq<Node> {
        paint(
            paint(empty_board(), self.first_cells, node_of(self.first)),
            self.second_cells,
            node_of(self.second),
        )
    }
}

/// The fields of a text `<p>:<cells>;<p>:<cells>;<p>;<plies>;<quiet>`, where `<p>` is `w` or
/// `b`, `<cells>` a possibly empty comma-separated list of cell names, and the two numbers
/// have one to four digits: the plies played and the plies since the last advancement.
pub open spec fn game_position_fields(s: Seq<char>) -> Option<PositionFields> {
    if !(s.len() >= 2 && player_of(s[0]) is Some && s[1] == ':') {
        None
    } else {
        match list_at(s, 2, ';') {
            None => None,
            Some((l1, j1)) => if !(j1 + 3 <= s.len() && s[j1] == ';' && player_of(s[j1 + 1]) is Some
                && s[j1 + 2] == ':') {
                None
            } else {
                match list_at(s, j1 + 3, ';') {
                    None => None,
                    Some((l2, j2)) => if !(j2 + 3 <= s.len() && s[j2] == ';' && player_of(
                        s[j2 + 1],
                    ) is Some && s[j2 + 2] == ';') {
                        None
                    } else {
                        match number_at(s, j2 + 3, 4) {
                            None => None,
                            Some((count, j3)) => if !(j3 < s.len() && s[j3] == ';') {
                                None
                            } else {
                                match number_at(s, j3 + 1, 4) {
                                    None => None,
                                    Some((quiet, j4)) => if j4 != s.len() {
                                        None
                                    } else {
                                        Some(
                                            PositionFields {
                                                first: player_of(s[0])->0,
                                                first_cells: l1,
                                                second: player_of(s[j1 + 1])->0,
                                                second_cells: l2,
                                                turn: player_of(s[j2 + 1])->0,
                                                count,
                                                quiet,
                                            },
                                        )
                                    },
                                }
                            },
                        }
                    },
                }
            },
        }
    }
}

/// The fields of a text `<p>:<p><cells>:<p><cells>:<turn>`: the player to move, then each
/// player's letter followed by its cells, then the number of the turn (one to three digits).
pub open spec fn setup_fields(s: Seq<char>) -> Option<PositionFields> {
    if !(s.len() >= 3 && player_of(s[0]) is Some && s[1] == ':' && player_of(s[2]) is Some) {
        None
    } else {
        match list_at(s, 3, ':') {
            None => None,
            Some((l1, j1)) => if !(j1 + 2 <= s.len() && s[j1] == ':' && player_of(s[j1 + 1]) is Some) {
                None
            } else {
                match list_at(s, j1 + 2, ':') {
                    None => None,
                    Some((l2, j2)) => if !(j2 < s.len() && s[j2] == ':') {
                        None
                    } else {
                        match number_at(s, j2 + 1, 3) {
                            None => None,
                            Some((count, j3)) => if j3 != s.len() {
                                None
                            } else {
                                Some(
                                    PositionFields {
                                        first: player_of(s[2])->0,
                                        first_cells: l1,
                                        second: player_of(s[j1 + 1])->0,
                                        second_cells: l2,
                                        turn: player_of(s[0])->0,
                                        count,
                                        quiet: 0,
                                    },
                                )
                            },
                        }
                    },
                }
            },
        }
    }
}

fn read_player(c: char) -> (r: Option<Player>)
    ensures
        r == player_of(c),
{
    if c == 'w' {
        Some(Player::White)
    } else if c == 'b' {
        Some(Player::Black)
    } else {
        None
    }
}

proof fn lemma_digits_end(s: Seq<char>, i: int, j: int)
    requires
        0 <= i <= j <= s.len(),
        forall|k: int| i <= k < j ==> is_digit(s[k]),
        j == s.len() || !is_digit(s[j]),
    ensures
        digits_end(s, i) == j,
    decreases j - i,
{
    if i < j {
        lemma_digits_end(s, i + 1, j);
    }
}

/// Reads a number of one to `max` digits at `i` (see `number_at`).
fn read_number(s: &str, i: usize, max: usize) -> (r: Option<(u32, usize)>)
    requires
        1 <= max <= 4,
        i <= s@.len(),
    ensures
        r matches Some((v, j)) ==> number_at(s@, i as int, max as int) == Some((v as int, j as int))
            && v < 10000 && (max <= 3 ==> v < 1000),
        r is None ==> number_at(s@, i as int, max as int) is None,
{
    let n = s.unicode_len();
    let mut j: usize = i;
    let mut value: u32 = 0;
    while j < n && '0' <= s.get_char(j) && s.get_char(j) <= '9'
        invariant
            i <= j <= n,
            n == s@.len(),
            1 <= max <= 4,
            j - i <= max,
            forall|k: int| i <= k < j ==> is_digit(s@[k]),
            value == digits_value(s@, i as int, j as int),
            value < 10000,
            j - i == 0 ==> value == 0,
            j - i == 1 ==> value < 10,
            j - i == 2 ==> value < 100,
            j - i == 3 ==> value < 1000,
        decreases n - j,
    {
        if j - i == max {
            proof {
                lemma_digits_end_past(s@, i as int, j as int + 1);
            }
            return None;
        }
        let d = s.get_char(j) as u32 - '0' as u32;
        value = value * 10 + d;
        j = j + 1;
    }
    proof {
        lemma_digits_end(s@, i as int, j as int);
    }
    if j == i {
        return None;
    }
    Some((value, j))
}

proof fn lemma_digits_end_past(s: Seq<char>, i: int, j: int)
    requires
        0 <= i <= j <= s.len(),
        forall|k: int| i <= k < j ==> is_digit(s[k]),
    ensures
        digits_end(s, i) >= j,
    decreases j - i,
{
    if i < j {
        lemma_digits_end_past(s, i + 1, j);
    } else {
        lemma_digits_end_ge(s, i);
    }
}

proof fn lemma_digits_end_ge(s: Seq<char>, i: int)
    ensures
        digits_end(s, i) >= i,
    decreases s.len() - i,
{
    if 0 <= i < s.len() && is_digit(s[i]) {
        lemma_digits_end_ge(s, i + 1);
    }
}

/// Reads a non-empty list of cells at `i` (see `cells_at`).
fn read_cells(s: &str, i: usize) -> (r: Option<(Vec<usize>, usize)>)
    requires
        i <= s@.len(),
    ensures
        r matches Some((v, j)) ==> cells_at(s@, i as int) matches Some((l, j2)) && j == j2
            && v@.len() == l.len() && (forall|k: int| 0 <= k < l.len() ==> v@[k] as int == l[k]
            && is_cell(l[k])) && j <= s@.len(),
        r is None ==> cells_at(s@, i as int) is None,
        r matches Some((v, j)) ==> forall|k: int| 0 <= k < v@.len() ==> #[trigger] v@[k] < 24,
    decreases s@.len() - i,
{
    let n = s.unicode_len();
    if n < 2 || i > n - 2 {
        return None;
    }
    let c = match parse_cell(s.get_char(i), s.get_char(i + 1)) {
        Some(c) => c,
        None => {
            return None;
        },
    };
    proof {
        crate::notation::lemma_find_cell(s@[i as int], s@[i + 1], 0);
    }
    if i + 2 < n && s.get_char(i + 2) == ',' {
        match read_cells(s, i + 3) {
            Some((rest, j)) => {
                let mut v: Vec<usize> = Vec::new();
                v.push(c);
                let mut rest = rest;
                v.append(&mut rest);
                Some((v, j))
            },
            None => None,
        }
    } else {
        let mut v: Vec<usize> = Vec::new();
        v.push(c);
        Some((v, i + 2))
    }
}

/// Reads a possibly empty list of cells at `i` (see `list_at`).
fn read_list(s: &str, i: usize, end: char) -> (r: Option<(Vec<usize>, usize)>)
    requires
        i <= s@.len(),
    ensures
        r matches Some((v, j)) ==> list_at(s@, i as int, end) matches Some((l, j2)) && j == j2
            && v@.len() == l.len() && (forall|k: int| 0 <= k < l.len() ==> v@[k] as int == l[k]
            && is_cell(l[k])) && j <= s@.len(),
        r is None ==> list_at(s@, i as int, end) is None,
        r matches Some((v, j)) ==> forall|k: int| 0 <= k < v@.len() ==> #[trigger] v@[k] < 24,
{
    if i < s.unicode_len() && s.get_char(i) == end {
        return Some((Vec::new(), i));
    }
    read_cells(s, i)
}

proof fn lemma_paint_at(b: Seq<Node>, l: Seq<int>, n: Node, k: int)
    requires
        0 <= k < b.len(),
        forall|t: int| 0 <= t < l.len() ==> 0 <= #[trigger] l[t] < b.len(),
    ensures
        paint(b, l, n).len() == b.len(),
        paint(b, l, n)[k] == if l.contains(k) {
            n
        } else {
            b[k]
        },
    decreases l.len(),
{
    if l.len() > 0 {
        let init = l.drop_last();
        lemma_paint_at(b, init, n, k);
        lemma_paint_at(b, init, n, l.last());
        if init.contains(k) {
            let t = choose|t: int| 0 <= t < init.len() && init[t] == k;
            assert(l[t] == k);
        }
        if l.contains(k) && l.last() != k {
            let t = choose|t: int| 0 <= t < l.len() && l[t] == k;
            assert(init[t] == k);
        }
        if l.last() == k {
            assert(l[l.len() - 1] == k);
        }
    }
}

/// Puts `n` on the cells of `cells`; fails, leaving the board as it was, when one of them
/// holds `clash`.
fn paint_cells(board: &mut Board, cells: &Vec<usize>, n: Node, clash: Node) -> (r: bool)
    requires
        n != clash,
        forall|k: int| 0 <= k < cells@.len() ==> cells@[k] < 24,
    ensures
        r == forall|k: int| 0 <= k < cells@.len() ==> old(board)@[cells@[k] as int] != clash,
        r ==> final(board)@ == paint(
            old(board)@,
            as_ints(cells@),
            n,
        ),
        forall|k: int| 0 <= k < 24 && old(board)@[k] != clash ==> final(board)@[k] != clash,
{
    let ghost l = as_ints(cells@);
    let ghost start = board@;
    let mut t: usize = 0;
    while t < cells.len()
        invariant
            t <= cells@.len(),
            l == as_ints(cells@),
            forall|k: int| 0 <= k < cells@.len() ==> cells@[k] < 24,
            forall|k: int| 0 <= k < t ==> start[cells@[k] as int] != clash,
            board@ == paint(start, l.subrange(0, t as int), n),
            n != clash,
            forall|k: int| 0 <= k < 24 && start[k] != clash ==> board@[k] != clash,
            start == old(board)@,
            board@.len() == 24,
        decreases cells@.len() - t,
    {
        let c = cells[t];
        proof {
            lemma_paint_at(start, l.subrange(0, t as int), n, c as int);
        }
        if board[c] == clash {
            proof {
                if !l.subrange(0, t as int).contains(c as int) {
                    assert(start[c as int] == clash);
                } else {
                    assert(board@[c as int] == n);
                }
            }
            return false;
        }
        proof {
            if l.subrange(0, t as int).contains(c as int) {
                let k = choose|k: int| 0 <= k < t && l.subrange(0, t as int)[k] == c as int;
                assert(cells@[k] == c);
            }
        }
        board[c] = n;
        proof {
            assert(l.subrange(0, t + 1).drop_last() =~= l.subrange(0, t as int));
        }
        t = t + 1;
    }
    proof {
        assert(l.subrange(0, t as int) =~= l);
    }
    true
}


proof fn lemma_overlap(l1: Seq<int>, l2: Seq<int>, a: Node, b: Node, v: Seq<usize>)
    requires
        a != b,
        a != Node::Empty,
        forall|t: int| 0 <= t < l1.len() ==> is_cell(#[trigger] l1[t]),
        v.len() == l2.len(),
        forall|t: int| 0 <= t < l2.len() ==> v[t] as int == l2[t] && is_cell(l2[t]),
    ensures
        (forall|k: int| 0 <= k < v.len() ==> paint(empty_board(), l1, a)[v[k] as int] != a) <==> (
        forall|k: int| !(#[trigger] l1.contains(k) && l2.contains(k))),
{
    let p = paint(empty_board(), l1, a);
    if forall|k: int| 0 <= k < v.len() ==> p[v[k] as int] != a {
        assert forall|k: int| !(#[trigger] l1.contains(k) && l2.contains(k)) by {
            if l1.contains(k) && l2.contains(k) {
                let t = choose|t: int| 0 <= t < l2.len() && l2[t] == k;
                lemma_paint_at(empty_board(), l1, a, k);
                assert(p[v[t] as int] == a);
            }
        }
    } else {
        let t = choose|t: int| 0 <= t < v.len() && p[v[t] as int] == a;
        lemma_paint_at(empty_board(), l1, a, l2[t]);
        assert(l1.contains(l2[t]));
        assert(l2.contains(l2[t]));
    }
}

/// Paints the two groups of cells on an empty board; `None` when they share a cell.
fn paint_groups(first: Player, l1: &Vec<usize>, second: Player, l2: &Vec<usize>) -> (r: Option<
    Board,
>)
    requires
        first != second,
        forall|k: int| 0 <= k < l1@.len() ==> l1@[k] < 24,
        forall|k: int| 0 <= k < l2@.len() ==> l2@[k] < 24,
    ensures
        r matches Some(b) ==> b@ == paint(
            paint(empty_board(), as_ints(l1@), node_of(first)),
            as_ints(l2@),
            node_of(second),
        ),
        r is None <==> exists|k: int| #[trigger] as_ints(l1@).contains(k) && as_ints(l2@).contains(k),
{
    let ghost s1 = as_ints(l1@);
    let ghost s2 = as_ints(l2@);
    let mut board: Board = [Node::Empty; 24];
    proof {
        assert(board@ =~= empty_board());
    }
    let a = as_node(first);
    let b = as_node(second);
    let ok1 = paint_cells(&mut board, l1, a, b);
    proof {
        assert(ok1);
        lemma_overlap(s1, s2, a, b, l2@);
    }
    if !paint_cells(&mut board, l2, b, a) {
        return None;
    }
    Some(board)
}

/// Reads a game position from a text `<p>:<cells>;<p>:<cells>;<p>;<plies>;<quiet>` (see
/// `game_position_fields`), such as `w:g7,a1;b:a7;b;3;0`: White's or Black's cells may come
/// first. A text off this grammar, or whose two groups belong to one player or share a cell,
/// is an error.
pub fn parse_position(s: &str) -> (r: Result<GamePosition, String>)
    ensures
        r matches Ok(gp) ==> game_position_fields(s@) matches Some(f) && f.valid()
            && gp.position.board@ == f.board() && gp.position.player == f.turn
            && gp.position.plies == f.count && gp.plies_no_advancement == f.quiet,
        r is Err ==> !(game_position_fields(s@) matches Some(f) && f.valid()),
{
    let n = s.unicode_len();
    if n < 2 || s.get_char(1) != ':' {
        return Err("Invalid position string".to_string());
    }
    let first = match read_player(s.get_char(0)) {
        Some(p) => p,
        None => {
            return Err("Invalid position string".to_string());
        },
    };
    let (l1, j1) = match read_list(s, 2, ';') {
        Some(x) => x,
        None => {
            return Err("Invalid position string".to_string());
        },
    };
    if !(j1 < n && n - j1 >= 3 && s.get_char(j1) == ';' && s.get_char(j1 + 2) == ':') {
        return Err("Invalid position string".to_string());
    }
    let second = match read_player(s.get_char(j1 + 1)) {
        Some(p) => p,
        None => {
            return Err("Invalid position string".to_string());
        },
    };
    let (l2, j2) = match read_list(s, j1 + 3, ';') {
        Some(x) => x,
        None => {
            return Err("Invalid position string".to_string());
        },
    };
    if !(j2 < n && n - j2 >= 3 && s.get_char(j2) == ';' && s.get_char(j2 + 2) == ';') {
        return Err("Invalid position string".to_string());
    }
    let turn = match read_player(s.get_char(j2 + 1)) {
        Some(p) => p,
        None => {
            return Err("Invalid position string".to_string());
        },
    };
    let (count, j3) = match read_number(s, j2 + 3, 4) {
        Some(x) => x,
        None => {
            return Err("Invalid position string".to_string());
        },
    };
    if !(j3 < n && s.get_char(j3) == ';') {
        return Err("Invalid position string".to_string());
    }
    let (quiet, j4) = match read_number(s, j3 + 1, 4) {
        Some(x) => x,
        None => {
            return Err("Invalid position string".to_string());
        },
    };
    if j4 != n || first == second {
        return Err("Invalid position string".to_string());
    }
    let ghost f = game_position_fields(s@)->0;
    proof {
        assert(forall|k: int| 0 <= k < l1@.len() ==> l1@[k] < 24);
        assert(forall|k: int| 0 <= k < l2@.len() ==> l2@[k] < 24);
        assert(as_ints(l1@) =~= f.first_cells);
        assert(as_ints(l2@) =~= f.second_cells);
    }
    let board = match paint_groups(first, &l1, second, &l2) {
        Some(b) => b,
        None => {
            return Err("Invalid position string".to_string());
        },
    };
    Ok(
        GamePosition {
            position: Position { board, player: turn, plies: count as i32 },
            plies_no_advancement: quiet as i32,
        },
    )
}

/// The ply count of the turn numbered `count` (from one) with `turn` to move.
pub open spec fn plies_of_turn(count: int, turn: Player) -> int {
    (count - 1) * 2 + if turn == Player::Black {
        1int
    } else {
        0int
    }
}

/// Reads a position from a text `<p>:<p><cells>:<p><cells>:<turn>` (see `setup_fields`),
/// such as `b:wg7,a1:ba7:3`; the turn is numbered from one. A text off this grammar, whose
/// groups belong to one player or share a cell, or whose turn is zero, is an error.
pub fn parse_setup(s: &str) -> (r: Result<Position, String>)
    ensures
        r matches Ok(p) ==> setup_fields(s@) matches Some(f) && f.valid() && f.count >= 1
            && p.board@ == f.board() && p.player == f.turn && p.plies == plies_of_turn(
            f.count,
            f.turn,
        ),
        r is Err ==> !(setup_fields(s@) matches Some(f) && f.valid() && f.count >= 1),
{
    let n = s.unicode_len();
    if n < 3 || s.get_char(1) != ':' {
        return Err("Invalid position string".to_string());
    }
    let turn = match read_player(s.get_char(0)) {
        Some(p) => p,
        None => {
            return Err("Invalid position string".to_string());
        },
    };
    let first = match read_player(s.get_char(2)) {
        Some(p) => p,
        None => {
            return Err("Invalid position string".to_string());
        },
    };
    let (l1, j1) = match read_list(s, 3, ':') {
        Some(x) => x,
        None => {
            return Err("Invalid position string".to_string());
        },
    };
    if !(j1 < n && n - j1 >= 2 && s.get_char(j1) == ':') {
        return Err("Invalid position string".to_string());
    }
    let second = match read_player(s.get_char(j1 + 1)) {
        Some(p) => p,
        None => {
            return Err("Invalid position string".to_string());
        },
    };
    let (l2, j2) = match read_list(s, j1 + 2, ':') {
        Some(x) => x,
        None => {
            return Err("Invalid position string".to_string());
        },
    };
    if !(j2 < n && s.get_char(j2) == ':') {
        return Err("Invalid position string".to_string());
    }
    let (count, j3) = match read_number(s, j2 + 1, 3) {
        Some(x) => x,
        None => {
            return Err("Invalid position string".to_string());
        },
    };
    if j3 != n || first == second || count < 1 {
        return Err("Invalid position string".to_string());
    }
    let ghost f = setup_fields(s@)->0;
    proof {
        assert(forall|k: int| 0 <= k < l1@.len() ==> l1@[k] < 24);
        assert(forall|k: int| 0 <= k < l2@.len() ==> l2@[k] < 24);
        assert(as_ints(l1@) =~= f.first_cells);
        assert(as_ints(l2@) =~= f.second_cells);
    }
    let board = match paint_groups(first, &l1, second, &l2) {
        Some(b) => b,
        None => {
            return Err("Invalid position string".to_string());
        },
    };
    let extra: i32 = match turn {
        Player::White => 0,
        Player::Black => 1,
    };
    Ok(Position { board, player: turn, plies: (count as i32 - 1) * 2 + extra })
}


/// The cells of `b` below `upto` that hold `n`, ascending.
pub open spec fn cells_list(b: Seq<Node>, n: Node, upto: int) -> Seq<int>
    decreases upto,
{
    if upto <= 0 {
        seq![]
    } else if b[upto - 1] == n {
        cells_list(b, n, upto - 1).push(upto - 1)
    } else {
        cells_list(b, n, upto - 1)
    }
}

/// The names of the cells of `l` separated by commas.
pub open spec fn join(l: Seq<int>) -> Seq<char>
    decreases l.len(),
{
    if l.len() == 0 {
        seq![]
    } else if l.len() == 1 {
        name_text(l[0])
    } else {
        name_text(l[0]) + seq![','] + join(l.drop_first())
    }
}

/// The decimal digits of `n`.
pub open spec fn decimal(n: nat) -> Seq<char>
    decreases n,
{
    if n < 10 {
        seq![digit_char(n as int)]
    } else {
        decimal(n / 10) + seq![digit_char((n % 10) as int)]
    }
}

pub open spec fn player_char(p: Player) -> char {
    match p {
        Player::White => 'w',
        Player::Black => 'b',
    }
}

/// The canonical text of a game position: White's cells, Black's cells, the player to move,
/// the plies played and the plies since the last advancement.
pub open spec fn position_text(gp: GamePosition) -> Seq<char> {
    let b = gp.position.board@;
    seq!['w', ':'] + join(cells_list(b, Node::White, 24)) + seq![';', 'b', ':'] + join(
        cells_list(b, Node::Black, 24),
    ) + seq![';', player_char(gp.position.player), ';'] + decimal(gp.position.plies as nat)
        + seq![';'] + decimal(gp.plies_no_advancement as nat)
}

/// The counters of a game position fit the canonical text.
pub open spec fn formattable(gp: GamePosition) -> bool {
    0 <= gp.position.plies <= 9999 && 0 <= gp.plies_no_advancement <= 9999
}

proof fn lemma_join_push(l: Seq<int>, c: int)
    requires
        l.len() > 0,
    ensures
        join(l.push(c)) == join(l) + seq![','] + name_text(c),
    decreases l.len(),
{
    let lc = l.push(c);
    assert(lc[0] == l[0]);
    if l.len() == 1 {
        assert(lc.drop_first() =~= seq![c]);
        assert(join(seq![c]) == name_text(c));
        assert(join(lc) =~= join(l) + seq![','] + name_text(c));
    } else {
        assert(lc.drop_first() =~= l.drop_first().push(c));
        lemma_join_push(l.drop_first(), c);
        assert(join(lc) =~= join(l) + seq![','] + name_text(c));
    }
}

/// Appends the decimal digits of `n`.
pub fn append_decimal(out: &mut String, n: u64)
    ensures
        final(out)@ == old(out)@ + decimal(n as nat),
    decreases n,
{
    if n >= 10 {
        append_decimal(out, n / 10);
    }
    out.append(digit_str((n % 10) as u32));
    proof {
        assert(final(out)@ =~= old(out)@ + decimal(n as nat));
    }
}

/// Appends the names of the cells of `board` that hold `node`, ascending, separated by
/// commas.
fn append_cells(out: &mut String, board: &Board, node: Node)
    ensures
        final(out)@ == old(out)@ + join(cells_list(board@, node, 24)),
{
    let mut i: usize = 0;
    let mut any = false;
    while i < 24
        invariant
            i <= 24,
            out@ == old(out)@ + join(cells_list(board@, node, i as int)),
            any == (cells_list(board@, node, i as int).len() > 0),
        decreases 24 - i,
    {
        if board[i] == node {
            if any {
                out.append(sep_str(','));
                proof {
                    lemma_join_push(cells_list(board@, node, i as int), i as int);
                }
            } else {
                proof {
                    assert(cells_list(board@, node, i as int).push(i as int) =~= seq![i as int]);
                }
            }
            out.append(cell_str(i));
            any = true;
        }
        proof {
            assert(out@ =~= old(out)@ + join(cells_list(board@, node, i + 1)));
        }
        i = i + 1;
    }
}

/// The canonical text of a game position (see `position_text`), which `parse_position` reads
/// back.
pub fn format_position(gp: &GamePosition) -> (r: String)
    requires
        formattable(*gp),
    ensures
        r@ == position_text(*gp),
{
    let mut r = String::new();
    r.append(sep_str('w'));
    r.append(sep_str(':'));
    append_cells(&mut r, &gp.position.board, Node::White);
    r.append(sep_str(';'));
    r.append(sep_str('b'));
    r.append(sep_str(':'));
    append_cells(&mut r, &gp.position.board, Node::Black);
    r.append(sep_str(';'));
    match gp.position.player {
        Player::White => r.append(sep_str('w')),
        Player::Black => r.append(sep_str('b')),
    }
    r.append(sep_str(';'));
    append_decimal(&mut r, gp.position.plies as u64);
    r.append(sep_str(';'));
    append_decimal(&mut r, gp.plies_no_advancement as u64);
    proof {
        assert(r@ =~= position_text(*gp));
    }
    r
}


proof fn lemma_join_len(l: Seq<int>)
    ensures
        l.len() == 0 ==> join(l).len() == 0,
        l.len() > 0 ==> join(l).len() == 3 * l.len() - 1,
        l.len() > 0 ==> join(l)[0] == cell_name(l[0]).0,
    decreases l.len(),
{
    if l.len() > 1 {
        lemma_join_len(l.drop_first());
    }
}

proof fn lemma_cells_at_join(s: Seq<char>, i: int, l: Seq<int>)
    requires
        l.len() > 0,
        forall|k: int| 0 <= k < l.len() ==> is_cell(#[trigger] l[k]),
        0 <= i,
        i + join(l).len() <= s.len(),
        s.subrange(i, i + join(l).len()) == join(l),
        i + join(l).len() == s.len() || s[i + join(l).len()] != ',',
    ensures
        cells_at(s, i) == Some((l, i + join(l).len())),
    decreases l.len(),
{
    lemma_join_len(l);
    let j = join(l);
    assert(s[i] == j[0]);
    assert(s[i + 1] == j[1]);
    crate::notation::lemma_cell_of_name(l[0]);
    if l.len() == 1 {
        assert(seq![l[0]] =~= l);
    } else {
        let rest = l.drop_first();
        lemma_join_len(rest);
        assert(s[i + 2] == j[2]);
        assert(s.subrange(i + 3, i + 3 + join(rest).len()) =~= join(rest)) by {
            assert forall|k: int| 0 <= k < join(rest).len() implies s.subrange(
                i + 3,
                i + 3 + join(rest).len(),
            )[k] == join(rest)[k] by {
                assert(s[i + 3 + k] == j[3 + k]);
            }
        }
        lemma_cells_at_join(s, i + 3, rest);
        assert(seq![l[0]] + rest =~= l);
    }
}

proof fn lemma_decimal_digits(n: nat)
    ensures
        decimal(n).len() >= 1,
        forall|k: int| 0 <= k < decimal(n).len() ==> is_digit(#[trigger] decimal(n)[k]),
        n <= 9999 ==> decimal(n).len() <= 4,
        n <= 999 ==> decimal(n).len() <= 3,
        n <= 99 ==> decimal(n).len() <= 2,
        n <= 9 ==> decimal(n).len() <= 1,
    decreases n,
{
    if n >= 10 {
        lemma_decimal_digits(n / 10);
    }
}

proof fn lemma_digits_value_decimal(s: Seq<char>, i: int, n: nat)
    requires
        0 <= i,
        i + decimal(n).len() <= s.len(),
        s.subrange(i, i + decimal(n).len()) == decimal(n),
    ensures
        digits_value(s, i, i + decimal(n).len()) == n,
    decreases n,
{
    let d = decimal(n);
    let j = i + d.len();
    assert(s[j - 1] == d[d.len() - 1]);
    assert(digit_char((n % 10) as int) as int - '0' as int == n % 10);
    if n >= 10 {
        let h = decimal(n / 10);
        assert(s.subrange(i, i + h.len()) =~= h) by {
            assert forall|k: int| 0 <= k < h.len() implies s.subrange(i, i + h.len())[k] == h[k] by {
                assert(s[i + k] == d[k]);
            }
        }
        lemma_digits_value_decimal(s, i, n / 10);
        assert(d.len() == h.len() + 1);
        assert(digits_value(s, i, j) == digits_value(s, i, j - 1) * 10 + (s[j - 1] as int
            - '0' as int));
        assert(n == (n / 10) * 10 + n % 10);
    } else {
        assert(d.len() == 1);
        assert(digits_value(s, i, j) == digits_value(s, i, i) * 10 + (s[i] as int - '0' as int));
    }
}

proof fn lemma_number_at_decimal(s: Seq<char>, i: int, n: nat, max: int)
    requires
        0 <= i,
        i + decimal(n).len() <= s.len(),
        s.subrange(i, i + decimal(n).len()) == decimal(n),
        i + decimal(n).len() == s.len() || !is_digit(s[i + decimal(n).len()]),
        decimal(n).len() <= max,
    ensures
        number_at(s, i, max) == Some((n as int, i + decimal(n).len())),
{
    lemma_decimal_digits(n);
    let d = decimal(n);
    assert forall|k: int| i <= k < i + d.len() implies is_digit(s[k]) by {
        assert(s[k] == d[k - i]);
    }
    lemma_digits_end(s, i, i + d.len());
    lemma_digits_value_decimal(s, i, n);
}

proof fn lemma_cells_list(b: Seq<Node>, n: Node, upto: int, k: int)
    requires
        0 <= upto <= 24,
    ensures
        cells_list(b, n, upto).contains(k) <==> (0 <= k < upto && b[k] == n),
        forall|t: int|
            0 <= t < cells_list(b, n, upto).len() ==> 0 <= #[trigger] cells_list(b, n, upto)[t]
                < upto,
    decreases upto,
{
    if upto > 0 {
        lemma_cells_list(b, n, upto - 1, k);
        let prev = cells_list(b, n, upto - 1);
        if b[upto - 1] == n {
            let cur = prev.push(upto - 1);
            if prev.contains(k) {
                let t = choose|t: int| 0 <= t < prev.len() && prev[t] == k;
                assert(cur[t] == k);
            }
            if k == upto - 1 {
                assert(cur[prev.len() as int] == k);
            }
            if cur.contains(k) && k != upto - 1 {
                let t = choose|t: int| 0 <= t < cur.len() && cur[t] == k;
                assert(prev[t] == k);
            }
        }
    }
}

proof fn lemma_list_at_join(s: Seq<char>, i: int, l: Seq<int>)
    requires
        forall|k: int| 0 <= k < l.len() ==> is_cell(#[trigger] l[k]),
        0 <= i,
        i + join(l).len() < s.len(),
        s.subrange(i, i + join(l).len()) == join(l),
        s[i + join(l).len()] == ';',
    ensures
        list_at(s, i, ';') == Some((l, i + join(l).len())),
{
    lemma_join_len(l);
    if l.len() == 0 {
        assert(l =~= seq![]);
    } else {
        assert(s[i] == join(l)[0]);
        lemma_cells_at_join(s, i, l);
    }
}

/// The canonical text of a game position reads back as that same position.
pub proof fn lemma_position_round_trip(gp: GamePosition)
    requires
        formattable(gp),
    ensures
        game_position_fields(position_text(gp)) matches Some(f) && f.valid() && f.board()
            == gp.position.board@ && f.turn == gp.position.player && f.count == gp.position.plies
            && f.quiet == gp.plies_no_advancement,
{
    let b = gp.position.board@;
    let lw = cells_list(b, Node::White, 24);
    let lb = cells_list(b, Node::Black, 24);
    let jw = join(lw);
    let jb = join(lb);
    let dp = decimal(gp.position.plies as nat);
    let dq = decimal(gp.plies_no_advancement as nat);
    let pc = player_char(gp.position.player);
    let s = position_text(gp);
    assert forall|k: int| 0 <= k < 24 implies (lw.contains(k) <==> b[k] == Node::White) && (
    lb.contains(k) <==> b[k] == Node::Black) by {
        lemma_cells_list(b, Node::White, 24, k);
        lemma_cells_list(b, Node::Black, 24, k);
    }
    lemma_cells_list(b, Node::White, 24, 0);
    lemma_cells_list(b, Node::Black, 24, 0);
    lemma_decimal_digits(gp.position.plies as nat);
    lemma_decimal_digits(gp.plies_no_advancement as nat);
    let p0 = seq!['w', ':'];
    let p1 = seq![';', 'b', ':'];
    let p2 = seq![';', pc, ';'];
    let p3 = seq![';'];
    assert(s =~= p0 + jw + p1 + jb + p2 + dp + p3 + dq);
    let i1: int = 2 + jw.len() as int;
    let i2: int = i1 + 3 + jb.len() as int;
    let i3: int = i2 + 3 + dp.len() as int;
    assert(s.subrange(2, i1) =~= jw);
    assert(s[i1] == ';');
    assert(s[i1 + 1] == 'b');
    assert(s[i1 + 2] == ':');
    lemma_list_at_join(s, 2, lw);
    assert(s.subrange(i1 + 3, i2) =~= jb);
    assert(s[i2] == ';');
    assert(s[i2 + 1] == pc);
    assert(s[i2 + 2] == ';');
    lemma_list_at_join(s, i1 + 3, lb);
    assert(s.subrange(i2 + 3, i3) =~= dp);
    assert(s[i3] == ';');
    lemma_number_at_decimal(s, i2 + 3, gp.position.plies as nat, 4);
    assert(s.subrange(i3 + 1, s.len() as int) =~= dq);
    lemma_number_at_decimal(s, i3 + 1, gp.plies_no_advancement as nat, 4);
    let f = game_position_fields(s)->0;
    assert forall|k: int| !(#[trigger] f.first_cells.contains(k) && f.second_cells.contains(k)) by {
        if f.first_cells.contains(k) {
            let t = choose|t: int| 0 <= t < lw.len() && lw[t] == k;
            assert(0 <= lw[t] < 24);
        }
    }
    assert forall|k: int| 0 <= k < 24 implies f.board()[k] == b[k] by {
        lemma_paint_at(empty_board(), lw, Node::White, k);
        lemma_paint_at(paint(empty_board(), lw, Node::White), lb, Node::Black, k);
        lemma_paint_at(empty_board(), lw, Node::White, 0);
    }
    lemma_paint_at(empty_board(), lw, Node::White, 0);
    lemma_paint_at(paint(empty_board(), lw, Node::White), lb, Node::Black, 0);
    assert(f.board() =~= b);
}

impl std::str::FromStr for Position {
    type Err = String;

    /// Reads the short form `<p>:<p><cells>:<p><cells>:<turn>` (see `parse_setup`).
    fn from_str(s: &str) -> Result<Position, String> {
        parse_setup(s)
    }
}

impl std::str::FromStr for GamePosition {
    type Err = String;

    /// Reads the canonical form (see `parse_position`).
    fn from_str(s: &str) -> Result<GamePosition, String> {
        parse_position(s)
    }
}

} // verus!

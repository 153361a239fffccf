use vstd::prelude::*;
use vstd::string::*;

use crate::game::{is_cell, Idx, Move};

verus! {

/// The algebraic name of cell `i`: its file (a to g) and rank (1 to 7).
pub open spec fn cell_name(i: int) -> (char, char) {
    if i == 0 {
        ('a', '7')
    } else if i == 1 {
        ('d', '7')
    } else if i == 2 {
        ('g', '7')
    } else if i == 3 {
        ('b', '6')
    } else if i == 4 {
        ('d', '6')
    } else if i == 5 {
        ('f', '6')
    } else if i == 6 {
        ('c', '5')
    } else if i == 7 {
        ('d', '5')
    } else if i == 8 {
        ('e', '5')
    } else if i == 9 {
        ('a', '4')
    } else if i == 10 {
        ('b', '4')
    } else if i == 11 {
        ('c', '4')
    } else if i == 12 {
        ('e', '4')
    } else if i == 13 {
        ('f', '4')
    } else if i == 14 {
        ('g', '4')
    } else if i == 15 {
        ('c', '3')
    } else if i == 16 {
        ('d', '3')
    } else if i == 17 {
        ('e', '3')
    } else if i == 18 {
        ('b', '2')
    } else if i == 19 {
        ('d', '2')
    } else if i == 20 {
        ('f', '2')
    } else if i == 21 {
        ('a', '1')
    } else if i == 22 {
        ('d', '1')
    } else if i == 23 {
        ('g', '1')
    } else {
        (' ', ' ')
    }
}

pub open spec fn name_text(i: int) -> Seq<char> {
    seq![cell_name(i).0, cell_name(i).1]
}

fn cell_chars(i: usize) -> (r: (char, char))
    requires
        i < 24,
    ensures
        r == cell_name(i as int),
{
    match i {
        0 => ('a', '7'),
        1 => ('d', '7'),
        2 => ('g', '7'),
        3 => ('b', '6'),
        4 => ('d', '6'),
        5 => ('f', '6'),
        6 => ('c', '5'),
        7 => ('d', '5'),
        8 => ('e', '5'),
        9 => ('a', '4'),
        10 => ('b', '4'),
        11 => ('c', '4'),
        12 => ('e', '4'),
        13 => ('f', '4'),
        14 => ('g', '4'),
        15 => ('c', '3'),
        16 => ('d', '3'),
        17 => ('e', '3'),
        18 => ('b', '2'),
        19 => ('d', '2'),
        20 => ('f', '2'),
        21 => ('a', '1'),
        22 => ('d', '1'),
        23 => ('g', '1'),
        _ => (' ', ' '),
    }
}

/// The name of cell `i` as a string.
pub fn cell_str(i: usize) -> (r: &'static str)
    requires
        i < 24,
    ensures
        r@ == name_text(i as int),
{
    match i {
        0 => {
            proof {
                reveal_strlit("a7");
            }
            "a7"
        },
        1 => {
            proof {
                reveal_strlit("d7");
            }
            "d7"
        },
        2 => {
            proof {
                reveal_strlit("g7");
            }
            "g7"
        },
        3 => {
            proof {
                reveal_strlit("b6");
            }
            "b6"
        },
        4 => {
            proof {
                reveal_strlit("d6");
            }
            "d6"
        },
        5 => {
            proof {
                reveal_strlit("f6");
            }
            "f6"
        },
        6 => {
            proof {
                reveal_strlit("c5");
            }
            "c5"
        },
        7 => {
            proof {
                reveal_strlit("d5");
            }
            "d5"
        },
        8 => {
            proof {
                reveal_strlit("e5");
            }
            "e5"
        },
        9 => {
            proof {
                reveal_strlit("a4");
            }
            "a4"
        },
        10 => {
            proof {
                reveal_strlit("b4");
            }
            "b4"
        },
        11 => {
            proof {
                reveal_strlit("c4");
            }
            "c4"
        },
        12 => {
            proof {
                reveal_strlit("e4");
            }
            "e4"
        },
        13 => {
            proof {
                reveal_strlit("f4");
            }
            "f4"
        },
        14 => {
            proof {
                reveal_strlit("g4");
            }
            "g4"
        },
        15 => {
            proof {
                reveal_strlit("c3");
            }
            "c3"
        },
        16 => {
            proof {
                reveal_strlit("d3");
            }
            "d3"
        },
        17 => {
            proof {
                reveal_strlit("e3");
            }
            "e3"
        },
        18 => {
            proof {
                reveal_strlit("b2");
            }
            "b2"
        },
        19 => {
            proof {
                reveal_strlit("d2");
            }
            "d2"
        },
        20 => {
            proof {
                reveal_strlit("f2");
            }
            "f2"
        },
        21 => {
            proof {
                reveal_strlit("a1");
            }
            "a1"
        },
        22 => {
            proof {
                reveal_strlit("d1");
            }
            "d1"
        },
        23 => {
            proof {
                reveal_strlit("g1");
            }
            "g1"
        },
        _ => "",
    }
}

/// The name of cell `index`; an error for an index off the board.
pub fn index_to_string(index: Idx) -> (r: Result<&'static str, String>)
    ensures
        r is Ok <==> is_cell(index as int),
        r matches Ok(t) ==> t@ == name_text(index as int),
{
    if 0 <= index && index < 24 {
        Ok(cell_str(index as usize))
    } else {
        Err("Invalid index number".to_string())
    }
}

/// The cell a name denotes; an error for any text that is not the name of a cell.
pub fn index_from_string(s: &str) -> (r: Result<Idx, String>)
    ensures
        r is Ok <==> (s@.len() == 2 && cell_of(s@[0], s@[1]) is Some),
        r matches Ok(i) ==> s@.len() == 2 && cell_of(s@[0], s@[1]) == Some(i as int) && is_cell(
            i as int,
        ) && name_text(i as int) == s@,
{
    if s.unicode_len() != 2 {
        return Err("Invalid index string".to_string());
    }
    match parse_cell(s.get_char(0), s.get_char(1)) {
        Some(i) => {
            proof {
                lemma_find_cell(s@[0], s@[1], 0);
                assert(name_text(i as int) =~= s@);
            }
            Ok(i as Idx)
        },
        None => Err("Invalid index string".to_string()),
    }
}

/// The first cell from `k` on whose name is `(a, b)`.
pub open spec fn find_cell(a: char, b: char, k: int) -> Option<int>
    decreases 24 - k,
{
    if k >= 24 || k < 0 {
        None
    } else if cell_name(k) == (a, b) {
        Some(k)
    } else {
        find_cell(a, b, k + 1)
    }
}

/// The cell named `(a, b)`, if any.
pub open spec fn cell_of(a: char, b: char) -> Option<int> {
    find_cell(a, b, 0)
}

pub proof fn lemma_find_cell(a: char, b: char, k: int)
    requires
        0 <= k <= 24,
    ensures
        find_cell(a, b, k) matches Some(c) ==> k <= c < 24 && cell_name(c) == (a, b),
        find_cell(a, b, k) is None ==> forall|c: int| k <= c < 24 ==> cell_name(c) != (a, b),
    decreases 24 - k,
{
    if k < 24 && cell_name(k) != (a, b) {
        lemma_find_cell(a, b, k + 1);
    }
}

/// Distinct cells have distinct names.
pub proof fn lemma_names_distinct(i: int, j: int)
    requires
        is_cell(i),
        is_cell(j),
        cell_name(i) == cell_name(j),
    ensures
        i == j,
{
}

/// A cell is found by its name.
pub proof fn lemma_cell_of_name(i: int)
    requires
        is_cell(i),
    ensures
        cell_of(cell_name(i).0, cell_name(i).1) == Some(i),
{
    lemma_find_cell(cell_name(i).0, cell_name(i).1, 0);
    match cell_of(cell_name(i).0, cell_name(i).1) {
        Some(c) => lemma_names_distinct(c, i),
        None => {},
    }
}

/// The cell named by the two characters, if any.
pub fn parse_cell(a: char, b: char) -> (r: Option<usize>)
    ensures
        r matches Some(c) ==> cell_of(a, b) == Some(c as int),
        r is None ==> cell_of(a, b) is None,
{
    proof {
        lemma_find_cell(a, b, 0);
    }
    let mut k: usize = 0;
    while k < 24
        invariant
            k <= 24,
            find_cell(a, b, 0) == find_cell(a, b, k as int),
        decreases 24 - k,
    {
        let (x, y) = cell_chars(k);
        if x == a && y == b {
            return Some(k);
        }
        k = k + 1;
    }
    None
}

/// The text of a move: `<cell>` or `<cell>x<cell>` for a placement, `<cell>-<cell>` or
/// `<cell>-<cell>x<cell>` for a move, the capture last.
pub open spec fn move_text(m: Move) -> Seq<char> {
    match m {
        Move::Place { place_index } => name_text(place_index as int),
        Move::PlaceCapture { place_index, capture_index } => name_text(place_index as int)
            + seq!['x'] + name_text(capture_index as int),
        Move::Move { source_index, destination_index } => name_text(source_index as int)
            + seq!['-'] + name_text(destination_index as int),
        Move::MoveCapture { source_index, destination_index, capture_index } => name_text(
            source_index as int,
        ) + seq!['-'] + name_text(destination_index as int) + seq!['x'] + name_text(
            capture_index as int,
        ),
    }
}

/// The text of a decimal digit.
pub fn digit_str(d: u32) -> (r: &'static str)
    requires
        d < 10,
    ensures
        r@ == seq![digit_char(d as int)],
{
    match d {
        0 => {
            proof {
                reveal_strlit("0");
            }
            "0"
        },
        1 => {
            proof {
                reveal_strlit("1");
            }
            "1"
        },
        2 => {
            proof {
                reveal_strlit("2");
            }
            "2"
        },
        3 => {
            proof {
                reveal_strlit("3");
            }
            "3"
        },
        4 => {
            proof {
                reveal_strlit("4");
            }
            "4"
        },
        5 => {
            proof {
                reveal_strlit("5");
            }
            "5"
        },
        6 => {
            proof {
                reveal_strlit("6");
            }
            "6"
        },
        7 => {
            proof {
                reveal_strlit("7");
            }
            "7"
        },
        8 => {
            proof {
                reveal_strlit("8");
            }
            "8"
        },
        9 => {
            proof {
                reveal_strlit("9");
            }
            "9"
        },
        _ => "",
    }
}

pub open spec fn digit_char(d: int) -> char {
    if d == 0 {
        '0'
    } else if d == 1 {
        '1'
    } else if d == 2 {
        '2'
    } else if d == 3 {
        '3'
    } else if d == 4 {
        '4'
    } else if d == 5 {
        '5'
    } else if d == 6 {
        '6'
    } else if d == 7 {
        '7'
    } else if d == 8 {
        '8'
    } else {
        '9'
    }
}


proof fn lemma_move_text_shape(m: Move)
    ensures
        m is Place ==> move_text(m).len() == 2,
        m is PlaceCapture ==> move_text(m).len() == 5 && move_text(m)[2] == 'x',
        m is Move ==> move_text(m).len() == 5 && move_text(m)[2] == '-',
        m is MoveCapture ==> move_text(m).len() == 8 && move_text(m)[2] == '-' && move_text(m)[5]
            == 'x',
        m is Place ==> move_text(m) == name_text(target_of(m)),
        (m is PlaceCapture || m is Move) ==> move_text(m).subrange(0, 2) == name_text(first_of(m))
            && move_text(m).subrange(3, 5) == name_text(second_of(m)),
        m is MoveCapture ==> move_text(m).subrange(0, 2) == name_text(first_of(m))
            && move_text(m).subrange(3, 5) == name_text(second_of(m)) && move_text(m).subrange(6, 8)
            == name_text(third_of(m)),
{
    let t = move_text(m);
    match m {
        Move::Place { .. } => {},
        Move::PlaceCapture { .. } => {
            assert(t.subrange(0, 2) =~= name_text(first_of(m)));
            assert(t.subrange(3, 5) =~= name_text(second_of(m)));
        },
        Move::Move { .. } => {
            assert(t.subrange(0, 2) =~= name_text(first_of(m)));
            assert(t.subrange(3, 5) =~= name_text(second_of(m)));
        },
        Move::MoveCapture { .. } => {
            assert(t.subrange(0, 2) =~= name_text(first_of(m)));
            assert(t.subrange(3, 5) =~= name_text(second_of(m)));
            assert(t.subrange(6, 8) =~= name_text(third_of(m)));
        },
    }
}

spec fn target_of(m: Move) -> int {
    match m {
        Move::Place { place_index } => place_index as int,
        _ => -1,
    }
}

/// The cells of a move in the order its text names them.
spec fn first_of(m: Move) -> int {
    match m {
        Move::Place { place_index } => place_index as int,
        Move::PlaceCapture { place_index, .. } => place_index as int,
        Move::Move { source_index, .. } => source_index as int,
        Move::MoveCapture { source_index, .. } => source_index as int,
    }
}

spec fn second_of(m: Move) -> int {
    match m {
        Move::PlaceCapture { capture_index, .. } => capture_index as int,
        Move::Move { destination_index, .. } => destination_index as int,
        Move::MoveCapture { destination_index, .. } => destination_index as int,
        _ => -1,
    }
}

spec fn third_of(m: Move) -> int {
    match m {
        Move::MoveCapture { capture_index, .. } => capture_index as int,
        _ => -1,
    }
}

proof fn lemma_name_from_text(t: Seq<char>, lo: int, i: int)
    requires
        is_cell(i),
        0 <= lo,
        lo + 2 <= t.len(),
        t.subrange(lo, lo + 2) == name_text(i),
    ensures
        cell_of(t[lo], t[lo + 1]) == Some(i),
{
    assert(t[lo] == t.subrange(lo, lo + 2)[0]);
    assert(t[lo + 1] == t.subrange(lo, lo + 2)[1]);
    lemma_cell_of_name(i);
}

/// The text of a move names it alone: no two moves on the board share a text. So a string
/// that `parse_move` accepts is the text `format_move` gives for the move it parsed, and that
/// move is the only one with this text.
pub proof fn lemma_move_round_trip(m1: Move, m2: Move)
    requires
        m1.on_board(),
        m2.on_board(),
        move_text(m1) == move_text(m2),
    ensures
        m1 == m2,
{
    lemma_move_text_shape(m1);
    lemma_move_text_shape(m2);
    let t = move_text(m1);
    if m1 is Place {
        assert(t.subrange(0, 2) =~= t);
        lemma_name_from_text(t, 0, first_of(m1));
        lemma_name_from_text(t, 0, first_of(m2));
    } else if m1 is MoveCapture {
        lemma_name_from_text(t, 0, first_of(m1));
        lemma_name_from_text(t, 0, first_of(m2));
        lemma_name_from_text(t, 3, second_of(m1));
        lemma_name_from_text(t, 3, second_of(m2));
        lemma_name_from_text(t, 6, third_of(m1));
        lemma_name_from_text(t, 6, third_of(m2));
    } else {
        lemma_name_from_text(t, 0, first_of(m1));
        lemma_name_from_text(t, 0, first_of(m2));
        lemma_name_from_text(t, 3, second_of(m1));
        lemma_name_from_text(t, 3, second_of(m2));
    }
}

/// Reads a move from its text (see `move_text`); any other string is an error.
pub fn parse_move(s: &str) -> (r: Result<Move, String>)
    ensures
        r matches Ok(m) ==> m.on_board() && move_text(m) == s@,
        r is Err ==> forall|m: Move| m.on_board() ==> move_text(m) != s@,
{
    let n = s.unicode_len();
    if n == 2 {
        if let Some(t) = parse_cell(s.get_char(0), s.get_char(1)) {
            proof {
                lemma_find_cell(s@[0], s@[1], 0);
                assert(s@ =~= name_text(t as int));
            }
            return Ok(Move::Place { place_index: t as Idx });
        }
    } else if n == 5 {
        let sep = s.get_char(2);
        let a = parse_cell(s.get_char(0), s.get_char(1));
        let b = parse_cell(s.get_char(3), s.get_char(4));
        if let (Some(x), Some(y)) = (a, b) {
            proof {
                lemma_find_cell(s@[0], s@[1], 0);
                lemma_find_cell(s@[3], s@[4], 0);
            }
            if sep == 'x' {
                let m = Move::PlaceCapture { place_index: x as Idx, capture_index: y as Idx };
                proof {
                    assert(s@ =~= move_text(m));
                }
                return Ok(m);
            } else if sep == '-' {
                let m = Move::Move { source_index: x as Idx, destination_index: y as Idx };
                proof {
                    assert(s@ =~= move_text(m));
                }
                return Ok(m);
            }
        }
    } else if n == 8 {
        let a = parse_cell(s.get_char(0), s.get_char(1));
        let b = parse_cell(s.get_char(3), s.get_char(4));
        let c = parse_cell(s.get_char(6), s.get_char(7));
        if let (Some(x), Some(y), Some(z)) = (a, b, c) {
            if s.get_char(2) == '-' && s.get_char(5) == 'x' {
                proof {
                    lemma_find_cell(s@[0], s@[1], 0);
                    lemma_find_cell(s@[3], s@[4], 0);
                    lemma_find_cell(s@[6], s@[7], 0);
                }
                let m = Move::MoveCapture {
                    source_index: x as Idx,
                    destination_index: y as Idx,
                    capture_index: z as Idx,
                };
                proof {
                    assert(s@ =~= move_text(m));
                }
                return Ok(m);
            }
        }
    }
    proof {
        assert forall|m: Move| m.on_board() implies move_text(m) != s@ by {
            if move_text(m) == s@ {
                lemma_move_text_shape(m);
                let t = s@;
                if m is Place {
                    assert(t.subrange(0, 2) =~= t);
                    lemma_name_from_text(t, 0, first_of(m));
                } else if m is MoveCapture {
                    lemma_name_from_text(t, 0, first_of(m));
                    lemma_name_from_text(t, 3, second_of(m));
                    lemma_name_from_text(t, 6, third_of(m));
                } else {
                    lemma_name_from_text(t, 0, first_of(m));
                    lemma_name_from_text(t, 3, second_of(m));
                }
            }
        }
    }
    Err("Invalid move string".to_string())
}

/// The text of a move (see `move_text`).
pub fn format_move(m: &Move) -> (r: String)
    requires
        m.on_board(),
    ensures
        r@ == move_text(*m),
{
    let mut r = String::new();
    match *m {
        Move::Place { place_index } => {
            r.append(cell_str(place_index as usize));
        },
        Move::PlaceCapture { place_index, capture_index } => {
            r.append(cell_str(place_index as usize));
            r.append(sep_str('x'));
            r.append(cell_str(capture_index as usize));
        },
        Move::Move { source_index, destination_index } => {
            r.append(cell_str(source_index as usize));
            r.append(sep_str('-'));
            r.append(cell_str(destination_index as usize));
        },
        Move::MoveCapture { source_index, destination_index, capture_index } => {
            r.append(cell_str(source_index as usize));
            r.append(sep_str('-'));
            r.append(cell_str(destination_index as usize));
            r.append(sep_str('x'));
            r.append(cell_str(capture_index as usize));
        },
    }
    proof {
        assert(r@ =~= move_text(*m));
    }
    r
}

/// The one-character string of a separator of the notation.
pub fn sep_str(c: char) -> (r: &'static str)
    requires
        c == 'x' || c == '-' || c == ':' || c == ';' || c == ',' || c == 'w' || c == 'b' || c
            == ' ',
    ensures
        r@ == seq![c],
{
    if c == 'x' {
        proof {
            reveal_strlit("x");
        }
        "x"
    } else if c == '-' {
        proof {
            reveal_strlit("-");
        }
        "-"
    } else if c == ':' {
        proof {
            reveal_strlit(":");
        }
        ":"
    } else if c == ';' {
        proof {
            reveal_strlit(";");
        }
        ";"
    } else if c == ',' {
        proof {
            reveal_strlit(",");
        }
        ","
    } else if c == 'w' {
        proof {
            reveal_strlit("w");
        }
        "w"
    } else if c == 'b' {
        proof {
            reveal_strlit("b");
        }
        "b"
    } else {
        proof {
            reveal_strlit(" ");
        }
        " "
    }
}


impl std::str::FromStr for Move {
    type Err = String;

    /// Reads a move from its text (see `parse_move`).
    fn from_str(s: &str) -> Result<Move, String> {
        parse_move(s)
    }
}

} // verus!

use vstd::prelude::*;
use vstd::string::*;

use crate::game::{Move, Position};
use crate::notation::{move_text, parse_move};
use crate::position_text::{digits_value, is_digit, parse_setup, plies_of_turn, setup_fields};

verus! {

/// The parameters of a `go` command.
#[derive(Clone, Copy, Debug, PartialEq, Eq)]
pub struct GoParameters {
    pub ponder: bool,
    pub wtime: Option<u32>,
    pub btime: Option<u32>,
    pub depth: Option<i32>,
    pub movetime: Option<u32>,
}

/// A command of the protocol, read from its tokens.
#[derive(Clone, Debug)]
pub enum Command {
    Gbgp,
    Debug(bool),
    IsReady,
    SetOption { name: String, value: Option<String> },
    NewGame,
    Position { position: Position, moves: Vec<Move> },
    Go(GoParameters),
    Stop,
    PonderHit,
    Quit,
}

pub open spec fn views(ts: Seq<String>) -> Seq<Seq<char>> {
    ts.map_values(|t: String| t@)
}

pub open spec fn is_sep(c: char) -> bool {
    c == ' ' || c == '\t' || c == '\n' || c == '\r'
}

/// The tokens of `s[start..]` and beyond, after `acc`: the maximal runs of characters other
/// than spaces, tabs and line ends.
pub open spec fn tokens_from(s: Seq<char>, i: int, start: int, acc: Seq<Seq<char>>) -> Seq<
    Seq<char>,
>
    decreases s.len() - i,
{
    let flushed = if i > start {
        acc.push(s.subrange(start, i))
    } else {
        acc
    };
    if i >= s.len() || i < 0 {
        flushed
    } else if is_sep(s[i]) {
        tokens_from(s, i + 1, i + 1, flushed)
    } else {
        tokens_from(s, i + 1, start, acc)
    }
}

pub open spec fn tokens_of(s: Seq<char>) -> Seq<Seq<char>> {
    tokens_from(s, 0, 0, seq![])
}

/// Splits a line of input into its tokens (see `tokens_of`).
pub fn tokenize_command_input(input: &str) -> (r: Vec<String>)
    ensures
        views(r@) == tokens_of(input@),
{
    let n = input.unicode_len();
    let mut r: Vec<String> = Vec::new();
    proof {
        assert(views(r@) =~= seq![]);
    }
    let mut start: usize = 0;
    let mut i: usize = 0;
    while i < n
        invariant
            n == input@.len(),
            start <= i <= n,
            tokens_from(input@, i as int, start as int, views(r@)) == tokens_of(input@),
        decreases n - i,
    {
        if is_sep_char(input.get_char(i)) {
            if i > start {
                let t = input.substring_char(start, i).to_string();
                proof {
                    assert(views(r@.push(t)) =~= views(r@).push(input@.subrange(start as int, i as int)));
                }
                r.push(t);
            }
            start = i + 1;
        }
        i = i + 1;
    }
    if i > start {
        let t = input.substring_char(start, i).to_string();
        proof {
            assert(views(r@.push(t)) =~= views(r@).push(input@.subrange(start as int, i as int)));
        }
        r.push(t);
    }
    r
}

fn is_sep_char(c: char) -> (r: bool)
    ensures
        r == is_sep(c),
{
    c == ' ' || c == '\t' || c == '\n' || c == '\r'
}

/// Whether two strings hold the same characters.
pub fn same_text(a: &str, b: &str) -> (r: bool)
    ensures
        r == (a@ == b@),
{
    let n = a.unicode_len();
    if n != b.unicode_len() {
        return false;
    }
    let mut i: usize = 0;
    while i < n
        invariant
            n == a@.len(),
            n == b@.len(),
            i <= n,
            forall|k: int| 0 <= k < i ==> a@[k] == b@[k],
        decreases n - i,
    {
        if a.get_char(i) != b.get_char(i) {
            return false;
        }
        i = i + 1;
    }
    proof {
        assert(a@ =~= b@);
    }
    true
}

/// The first index from `k` on where `key` stands among `toks`.
pub open spec fn first_index(toks: Seq<Seq<char>>, key: Seq<char>, k: int) -> Option<int>
    decreases toks.len() - k,
{
    if k < 0 || k >= toks.len() {
        None
    } else if toks[k] == key {
        Some(k)
    } else {
        first_index(toks, key, k + 1)
    }
}

fn find_token(tokens: &Vec<String>, key: &str) -> (r: Option<usize>)
    ensures
        r matches Some(k) ==> first_index(views(tokens@), key@, 0) == Some(k as int) && k
            < tokens@.len(),
        r is None ==> first_index(views(tokens@), key@, 0) is None,
{
    let mut k: usize = 0;
    while k < tokens.len()
        invariant
            k <= tokens@.len(),
            first_index(views(tokens@), key@, 0) == first_index(views(tokens@), key@, k as int),
        decreases tokens@.len() - k,
    {
        if same_text(tokens[k].as_str(), key) {
            return Some(k);
        }
        k = k + 1;
    }
    None
}

pub open spec fn all_digits(t: Seq<char>) -> bool {
    forall|k: int| 0 <= k < t.len() ==> is_digit(#[trigger] t[k])
}

/// The unsigned number a token spells: an optional `+`, then decimal digits.
pub open spec fn unsigned_of(t: Seq<char>) -> Option<int> {
    let body = if t.len() > 0 && t[0] == '+' {
        t.drop_first()
    } else {
        t
    };
    if body.len() >= 1 && all_digits(body) {
        Some(digits_value(body, 0, body.len() as int))
    } else {
        None
    }
}

/// The `u32` a token spells, if it spells one in range.
pub open spec fn u32_of(t: Seq<char>) -> Option<int> {
    match unsigned_of(t) {
        Some(v) => if v <= u32::MAX {
            Some(v)
        } else {
            None
        },
        None => None,
    }
}

/// The `i32` a token spells: an optional sign, then decimal digits, in range.
pub open spec fn i32_of(t: Seq<char>) -> Option<int> {
    if t.len() > 0 && t[0] == '-' {
        match unsigned_of(t.drop_first()) {
            Some(v) => if t.len() > 1 && t[1] != '+' && v <= 0x8000_0000 {
                Some(-v)
            } else {
                None
            },
            None => None,
        }
    } else {
        match unsigned_of(t) {
            Some(v) => if v <= i32::MAX {
                Some(v)
            } else {
                None
            },
            None => None,
        }
    }
}

proof fn lemma_digits_value_nonneg(s: Seq<char>, i: int, j: int)
    requires
        forall|x: int| i <= x < j ==> is_digit(s[x]),
    ensures
        digits_value(s, i, j) >= 0,
    decreases j - i,
{
    if i < j {
        lemma_digits_value_nonneg(s, i, j - 1);
    }
}

proof fn lemma_digits_value_grows(s: Seq<char>, i: int, j: int, k: int)
    requires
        i <= j <= k,
        forall|x: int| i <= x < k ==> is_digit(s[x]),
    ensures
        digits_value(s, i, j) <= digits_value(s, i, k),
    decreases k - j,
{
    if j < k {
        lemma_digits_value_grows(s, i, j, k - 1);
        lemma_digits_value_nonneg(s, i, k - 1);
    }
}

/// Reads the digits of `t` from `from` to its end; `None` when one is no digit or the value
/// passes `limit`.
fn read_digits(t: &str, from: usize, limit: u64) -> (r: Option<u64>)
    requires
        from <= t@.len(),
        limit <= u32::MAX,
    ensures
        r matches Some(v) ==> v <= limit && (forall|k: int|
            from <= k < t@.len() ==> is_digit(#[trigger] t@[k])) && v == digits_value(
            t@.subrange(from as int, t@.len() as int),
            0,
            t@.len() - from,
        ),
        r is None ==> !((forall|k: int| from <= k < t@.len() ==> is_digit(#[trigger] t@[k]))
            && digits_value(t@.subrange(from as int, t@.len() as int), 0, t@.len() - from)
            <= limit),
{
    let n = t.unicode_len();
    let ghost body = t@.subrange(from as int, n as int);
    let mut value: u64 = 0;
    let mut i: usize = from;
    while i < n
        invariant
            from <= i <= n,
            n == t@.len(),
            body == t@.subrange(from as int, n as int),
            limit <= u32::MAX,
            forall|k: int| from <= k < i ==> is_digit(t@[k]),
            value == digits_value(body, 0, i - from),
            value <= limit,
        decreases n - i,
    {
        let c = t.get_char(i);
        if !('0' <= c && c <= '9') {
            return None;
        }
        proof {
            assert(body[i - from] == c);
        }
        value = value * 10 + (c as u64 - '0' as u64);
        i = i + 1;
        if value > limit {
            proof {
                assert forall|k: int| 0 <= k < i - from implies is_digit(body[k]) by {
                    assert(body[k] == t@[from + k]);
                }
                if forall|k: int| from <= k < n ==> is_digit(#[trigger] t@[k]) {
                    assert forall|k: int| 0 <= k < n - from implies is_digit(body[k]) by {
                        assert(body[k] == t@[from + k]);
                    }
                    lemma_digits_value_grows(body, 0, i - from, n - from);
                }
            }
            return None;
        }
    }
    Some(value)
}

/// The `u32` a token spells (see `u32_of`).
pub fn parse_u32(t: &str) -> (r: Option<u32>)
    ensures
        r matches Some(v) ==> u32_of(t@) == Some(v as int),
        r is None ==> u32_of(t@) is None,
{
    let n = t.unicode_len();
    let from: usize = if n > 0 && t.get_char(0) == '+' {
        1
    } else {
        0
    };
    let ghost body = if t@.len() > 0 && t@[0] == '+' {
        t@.drop_first()
    } else {
        t@
    };
    proof {
        assert(body =~= t@.subrange(from as int, n as int));
    }
    if from >= n {
        return None;
    }
    proof {
        assert(body.len() == n - from);
    }
    match read_digits(t, from, u32::MAX as u64) {
        Some(v) => {
            proof {
                assert forall|k: int| 0 <= k < body.len() implies is_digit(#[trigger] body[k]) by {
                    assert(body[k] == t@[from + k]);
                }
            }
            Some(v as u32)
        },
        None => {
            proof {
                if all_digits(body) {
                    assert forall|k: int| from <= k < n implies is_digit(#[trigger] t@[k]) by {
                        assert(t@[k] == body[k - from]);
                    }
                    assert(digits_value(body, 0, body.len() as int) > u32::MAX);
                    assert(unsigned_of(t@) == Some(digits_value(body, 0, body.len() as int)));
                } else {
                    assert(unsigned_of(t@) is None);
                }
                assert(u32_of(t@) is None);
            }
            None
        },
    }
}

/// The `i32` a token spells (see `i32_of`).
pub fn parse_i32(t: &str) -> (r: Option<i32>)
    ensures
        r matches Some(v) ==> i32_of(t@) == Some(v as int),
        r is None ==> i32_of(t@) is None,
{
    let n = t.unicode_len();
    let negative = n > 0 && t.get_char(0) == '-';
    let mut from: usize = 0;
    if negative {
        from = 1;
    }
    if from < n && t.get_char(from) == '+' {
        if negative {
            return None;
        }
        from = from + 1;
    }
    let ghost rest = if negative {
        t@.drop_first()
    } else {
        t@
    };
    let ghost body = if rest.len() > 0 && rest[0] == '+' {
        rest.drop_first()
    } else {
        rest
    };
    proof {
        assert(body =~= t@.subrange(from as int, n as int));
    }
    if from >= n {
        return None;
    }
    let limit: u64 = if negative {
        0x8000_0000
    } else {
        0x7fff_ffff
    };
    match read_digits(t, from, limit) {
        Some(v) => {
            proof {
                assert forall|k: int| 0 <= k < body.len() implies is_digit(#[trigger] body[k]) by {
                    assert(body[k] == t@[from + k]);
                }
            }
            if negative {
                Some((0 - v as i64) as i32)
            } else {
                Some(v as i32)
            }
        },
        None => {
            proof {
                if all_digits(body) {
                    assert forall|k: int| from <= k < n implies is_digit(#[trigger] t@[k]) by {
                        assert(t@[k] == body[k - from]);
                    }
                }
            }
            None
        },
    }
}


pub open spec fn opt_u32(o: Option<u32>) -> Option<int> {
    match o {
        Some(v) => Some(v as int),
        None => None,
    }
}

pub open spec fn opt_i32(o: Option<i32>) -> Option<int> {
    match o {
        Some(v) => Some(v as int),
        None => None,
    }
}

/// A numeric parameter after the first `key` among the tokens: absent (`Some(None)`), its
/// value, or `None` when the token after `key` is missing or spells no `u32`.
pub open spec fn u32_field(toks: Seq<Seq<char>>, key: Seq<char>) -> Option<Option<int>> {
    match first_index(toks, key, 0) {
        None => Some(None),
        Some(k) => if k + 1 < toks.len() {
            match u32_of(toks[k + 1]) {
                Some(v) => Some(Some(v)),
                None => None,
            }
        } else {
            None
        },
    }
}

/// As `u32_field`, for an `i32`.
pub open spec fn i32_field(toks: Seq<Seq<char>>, key: Seq<char>) -> Option<Option<int>> {
    match first_index(toks, key, 0) {
        None => Some(None),
        Some(k) => if k + 1 < toks.len() {
            match i32_of(toks[k + 1]) {
                Some(v) => Some(Some(v)),
                None => None,
            }
        } else {
            None
        },
    }
}

fn u32_param(tokens: &Vec<String>, key: &str) -> (r: Result<Option<u32>, String>)
    ensures
        r matches Ok(o) ==> u32_field(views(tokens@), key@) == Some(opt_u32(o)),
        r is Err ==> u32_field(views(tokens@), key@) is None,
{
    match find_token(tokens, key) {
        None => Ok(None),
        Some(k) => {
            if k < tokens.len() - 1 {
                match parse_u32(tokens[k + 1].as_str()) {
                    Some(v) => Ok(Some(v)),
                    None => Err("Could not parse value".to_string()),
                }
            } else {
                Err("Expected token after parameter".to_string())
            }
        },
    }
}

fn i32_param(tokens: &Vec<String>, key: &str) -> (r: Result<Option<i32>, String>)
    ensures
        r matches Ok(o) ==> i32_field(views(tokens@), key@) == Some(opt_i32(o)),
        r is Err ==> i32_field(views(tokens@), key@) is None,
{
    match find_token(tokens, key) {
        None => Ok(None),
        Some(k) => {
            if k < tokens.len() - 1 {
                match parse_i32(tokens[k + 1].as_str()) {
                    Some(v) => Ok(Some(v)),
                    None => Err("Could not parse value".to_string()),
                }
            } else {
                Err("Expected token after parameter".to_string())
            }
        },
    }
}

/// The tokens of a `go` command are well formed: each of `wtime`, `btime`, `depth` and
/// `movetime` is absent or followed by a number.
pub open spec fn go_ok(toks: Seq<Seq<char>>) -> bool {
    &&& u32_field(toks, "wtime"@) is Some
    &&& u32_field(toks, "btime"@) is Some
    &&& i32_field(toks, "depth"@) is Some
    &&& u32_field(toks, "movetime"@) is Some
}

pub open spec fn go_spec(toks: Seq<Seq<char>>, g: GoParameters) -> bool {
    &&& g.ponder == (first_index(toks, "ponder"@, 0) is Some)
    &&& u32_field(toks, "wtime"@) == Some(opt_u32(g.wtime))
    &&& u32_field(toks, "btime"@) == Some(opt_u32(g.btime))
    &&& i32_field(toks, "depth"@) == Some(opt_i32(g.depth))
    &&& u32_field(toks, "movetime"@) == Some(opt_u32(g.movetime))
}

/// Reads the parameters of `go [ponder] [wtime N] [btime N] [depth N] [movetime N]`, in any
/// order; the first occurrence of each keyword counts.
pub fn go(tokens: &Vec<String>) -> (r: Result<GoParameters, String>)
    ensures
        r is Ok <==> go_ok(views(tokens@)),
        r matches Ok(g) ==> go_spec(views(tokens@), g),
{
    let ponder = find_token(tokens, "ponder").is_some();
    let wtime = u32_param(tokens, "wtime")?;
    let btime = u32_param(tokens, "btime")?;
    let depth = i32_param(tokens, "depth")?;
    let movetime = u32_param(tokens, "movetime")?;
    Ok(GoParameters { ponder, wtime, btime, depth, movetime })
}

/// The position named by the tokens of a `position` command: `startpos`, or `pos` and a text
/// `parse_setup` reads.
pub open spec fn position_spec(toks: Seq<Seq<char>>, p: Position) -> bool {
    ||| (toks.len() > 1 && toks[1] == "startpos"@ && p.is_initial())
    ||| (toks.len() > 2 && toks[1] == "pos"@ && setup_spec(toks[2], p))
}

/// `p` is the position the text `t` describes (see `parse_setup`).
pub open spec fn setup_spec(t: Seq<char>, p: Position) -> bool {
    setup_fields(t) matches Some(f) && f.valid() && f.count >= 1 && p.board@ == f.board()
        && p.player == f.turn && p.plies == plies_of_turn(f.count, f.turn)
}

pub open spec fn setup_ok(t: Seq<char>) -> bool {
    setup_fields(t) matches Some(f) && f.valid() && f.count >= 1
}

pub open spec fn position_ok(toks: Seq<Seq<char>>) -> bool {
    ||| (toks.len() > 1 && toks[1] == "startpos"@)
    ||| (toks.len() > 2 && toks[1] == "pos"@ && setup_ok(toks[2]))
}

/// Where the moves of a `position` command start: after the first `moves`, if any.
pub open spec fn moves_start(toks: Seq<Seq<char>>) -> int {
    match first_index(toks, "moves"@, 0) {
        Some(k) => k + 1,
        None => toks.len() as int,
    }
}

/// Some move on the board has the text `t`.
pub open spec fn is_move_text(t: Seq<char>) -> bool {
    exists|m: Move| #[trigger] move_text(m) == t && m.on_board()
}

pub open spec fn moves_ok(toks: Seq<Seq<char>>) -> bool {
    forall|j: int| moves_start(toks) <= j < toks.len() ==> is_move_text(#[trigger] toks[j])
}

pub open spec fn moves_spec(toks: Seq<Seq<char>>, ms: Seq<Move>) -> bool {
    &&& ms.len() == toks.len() - moves_start(toks)
    &&& forall|j: int|
        0 <= j < ms.len() ==> #[trigger] ms[j].on_board() && move_text(ms[j]) == toks[moves_start(
            toks,
        ) + j]
}

/// Reads `position (startpos | pos <text>) [moves <move>...]`: the position and the moves
/// played from it.
pub fn position(tokens: &Vec<String>) -> (r: Result<(Position, Vec<Move>), String>)
    ensures
        r is Ok <==> position_ok(views(tokens@)) && moves_ok(views(tokens@)),
        r matches Ok((p, ms)) ==> position_spec(views(tokens@), p) && moves_spec(
            views(tokens@),
            ms@,
        ),
{
    let ghost toks = views(tokens@);
    proof {
        reveal_strlit("pos");
        reveal_strlit("startpos");
    }
    if tokens.len() < 2 {
        return Err("Expected token after `position`".to_string());
    }
    proof {
        assert(toks[1] == tokens@[1]@);
        assert(tokens@.len() > 2 ==> toks[2] == tokens@[2]@);
        assert("pos"@.len() != "startpos"@.len());
    }
    let position = if same_text(tokens[1].as_str(), "pos") {
        if tokens.len() < 3 {
            return Err("Expected token after `pos`".to_string());
        }
        parse_setup(tokens[2].as_str())?
    } else if same_text(tokens[1].as_str(), "startpos") {
        Position::default()
    } else {
        return Err("Invalid token after `position`".to_string());
    };
    let start: usize = match find_token(tokens, "moves") {
        Some(k) => k + 1,
        None => tokens.len(),
    };
    let mut moves: Vec<Move> = Vec::new();
    let mut j: usize = start;
    while j < tokens.len()
        invariant
            toks == views(tokens@),
            start == moves_start(toks),
            start <= j <= tokens@.len(),
            moves@.len() == j - start,
            forall|i: int|
                0 <= i < moves@.len() ==> #[trigger] moves@[i].on_board() && move_text(moves@[i])
                    == toks[start + i],
            forall|i: int| start <= i < j ==> is_move_text(#[trigger] toks[i]),
        decreases tokens@.len() - j,
    {
        let m = match parse_move(tokens[j].as_str()) {
            Ok(m) => m,
            Err(e) => {
                proof {
                    assert(!is_move_text(toks[j as int]));
                }
                return Err(e);
            },
        };
        moves.push(m);
        proof {
            assert(move_text(m) == toks[j as int] && m.on_board());
            assert(is_move_text(toks[j as int]));
        }
        j = j + 1;
    }
    proof {
        assert(position_spec(toks, position));
        assert(moves_spec(toks, moves@));
    }
    Ok((position, moves))
}

pub open spec fn debug_spec(toks: Seq<Seq<char>>) -> Option<bool> {
    if toks.len() > 1 && toks[1] == "on"@ {
        Some(true)
    } else if toks.len() > 1 && toks[1] == "off"@ {
        Some(false)
    } else {
        None
    }
}

/// Reads `debug (on | off)`.
pub fn debug(tokens: &Vec<String>) -> (r: Result<bool, String>)
    ensures
        r matches Ok(b) ==> debug_spec(views(tokens@)) == Some(b),
        r is Err ==> debug_spec(views(tokens@)) is None,
{
    if tokens.len() < 2 {
        return Err("Expected token after `debug`".to_string());
    }
    if same_text(tokens[1].as_str(), "on") {
        Ok(true)
    } else if same_text(tokens[1].as_str(), "off") {
        Ok(false)
    } else {
        Err("Invalid token after `debug`".to_string())
    }
}

/// The token after the first `key`: `None` when `key` is absent, `Some(None)` when nothing
/// follows it.
pub open spec fn after_key(toks: Seq<Seq<char>>, key: Seq<char>) -> Option<Option<Seq<char>>> {
    match first_index(toks, key, 0) {
        Some(k) => if k + 1 < toks.len() {
            Some(Some(toks[k + 1]))
        } else {
            Some(None)
        },
        None => None,
    }
}

pub open spec fn setoption_ok(toks: Seq<Seq<char>>) -> bool {
    after_key(toks, "name"@) matches Some(Some(_)) && !(after_key(toks, "value"@) matches Some(
        None,
    ))
}

pub open spec fn setoption_spec(toks: Seq<Seq<char>>, name: String, value: Option<String>) -> bool {
    after_key(toks, "name"@) == Some(Some(name@)) && match value {
        Some(v) => after_key(toks, "value"@) == Some(Some(v@)),
        None => after_key(toks, "value"@) is None,
    }
}

/// Reads `setoption name <name> [value <value>]`.
pub fn setoption(tokens: &Vec<String>) -> (r: Result<(String, Option<String>), String>)
    ensures
        r is Ok <==> setoption_ok(views(tokens@)),
        r matches Ok((name, value)) ==> setoption_spec(views(tokens@), name, value),
{
    let name = match find_token(tokens, "name") {
        Some(k) => {
            if k < tokens.len() - 1 {
                tokens[k + 1].clone()
            } else {
                return Err("Expected token after `name`".to_string());
            }
        },
        None => {
            return Err("Expected token after `setoption`".to_string());
        },
    };
    let value = match find_token(tokens, "value") {
        Some(k) => {
            if k < tokens.len() - 1 {
                Some(tokens[k + 1].clone())
            } else {
                return Err("Expected token after `value`".to_string());
            }
        },
        None => None,
    };
    Ok((name, value))
}


/// The command that the tokens of a line spell.
pub open spec fn command_spec(toks: Seq<Seq<char>>, c: Command) -> bool {
    toks.len() > 0 && match c {
        Command::Gbgp => toks[0] == "gbgp"@,
        Command::Debug(b) => toks[0] == "debug"@ && debug_spec(toks) == Some(b),
        Command::IsReady => toks[0] == "isready"@,
        Command::SetOption { name, value } => toks[0] == "setoption"@ && setoption_spec(
            toks,
            name,
            value,
        ),
        Command::NewGame => toks[0] == "newgame"@,
        Command::Position { position, moves } => toks[0] == "position"@ && position_spec(
            toks,
            position,
        ) && moves_spec(toks, moves@),
        Command::Go(g) => toks[0] == "go"@ && go_spec(toks, g),
        Command::Stop => toks[0] == "stop"@,
        Command::PonderHit => toks[0] == "ponderhit"@,
        Command::Quit => toks[0] == "quit"@,
    }
}

/// The tokens of a line spell a well-formed command.
pub open spec fn command_ok(toks: Seq<Seq<char>>) -> bool {
    toks.len() > 0 && {
        let h = toks[0];
        ||| h == "gbgp"@
        ||| (h == "debug"@ && debug_spec(toks) is Some)
        ||| h == "isready"@
        ||| (h == "setoption"@ && setoption_ok(toks))
        ||| h == "newgame"@
        ||| (h == "position"@ && position_ok(toks) && moves_ok(toks))
        ||| (h == "go"@ && go_ok(toks))
        ||| h == "stop"@
        ||| h == "ponderhit"@
        ||| h == "quit"@
    }
}

/// Reads a command from the tokens of a line; an unknown or malformed command is an error.
pub fn execute_command(tokens: &Vec<String>) -> (r: Result<Command, String>)
    ensures
        r is Ok <==> command_ok(views(tokens@)),
        r matches Ok(c) ==> command_spec(views(tokens@), c),
{
    proof {
        reveal_strlit("gbgp");
        reveal_strlit("debug");
        reveal_strlit("isready");
        reveal_strlit("setoption");
        reveal_strlit("newgame");
        reveal_strlit("position");
        reveal_strlit("go");
        reveal_strlit("stop");
        reveal_strlit("ponderhit");
        reveal_strlit("quit");
    }
    if tokens.len() == 0 {
        return Err("Empty command".to_string());
    }
    let ghost toks = views(tokens@);
    proof {
        assert(toks[0] == tokens@[0]@);
    }
    let head = tokens[0].as_str();
    proof {
        assert("setoption"@[0] != "ponderhit"@[0]);
        assert("isready"@[0] != "newgame"@[0]);
        assert("gbgp"@[0] != "stop"@[0] && "stop"@[0] != "quit"@[0] && "gbgp"@[0] != "quit"@[0]);
    }
    if same_text(head, "gbgp") {
        Ok(Command::Gbgp)
    } else if same_text(head, "debug") {
        let b = debug(tokens)?;
        Ok(Command::Debug(b))
    } else if same_text(head, "isready") {
        Ok(Command::IsReady)
    } else if same_text(head, "setoption") {
        let (name, value) = setoption(tokens)?;
        Ok(Command::SetOption { name, value })
    } else if same_text(head, "newgame") {
        Ok(Command::NewGame)
    } else if same_text(head, "position") {
        let (position, moves) = position(tokens)?;
        Ok(Command::Position { position, moves })
    } else if same_text(head, "go") {
        let g = go(tokens)?;
        Ok(Command::Go(g))
    } else if same_text(head, "stop") {
        Ok(Command::Stop)
    } else if same_text(head, "ponderhit") {
        Ok(Command::PonderHit)
    } else if same_text(head, "quit") {
        Ok(Command::Quit)
    } else {
        Err("Invalid command".to_string())
    }
}

} // verus!

use vstd::prelude::*;
use vstd::string::*;

use crate::evaluation::Eval;
use crate::game::{Move, PvLine};
use crate::notation::{format_move, move_text, sep_str};
use crate::position_text::{append_decimal, decimal};

verus! {

/// A score as reported: an evaluation, or the number of moves to a forced win (negative for
/// a forced loss).
#[derive(Clone, Copy, Debug, PartialEq, Eq, Structural)]
pub enum Score {
    Eval(Eval),
    Win(i32),
}

/// A line of the engine's identity.
#[derive(Clone, Debug)]
pub enum Identifier {
    Name(String),
    Author(String),
}

/// The decimal text of an integer, with a minus sign when negative.
pub open spec fn int_text(n: int) -> Seq<char> {
    if n < 0 {
        seq!['-'] + decimal((-n) as nat)
    } else {
        decimal(n as nat)
    }
}

pub fn append_int(out: &mut String, n: i64)
    requires
        n > i64::MIN,
    ensures
        final(out)@ == old(out)@ + int_text(n as int),
{
    if n < 0 {
        out.append(sep_str('-'));
        append_decimal(out, (-n) as u64);
    } else {
        append_decimal(out, n as u64);
    }
    proof {
        assert(final(out)@ =~= old(out)@ + int_text(n as int));
    }
}

pub open spec fn option_text(name: Seq<char>, descriptor: Seq<char>) -> Seq<char> {
    "option name "@ + name + seq![' '] + descriptor + seq!['\n']
}

/// The line that announces an option: its name, then its type and bounds as the option
/// describes them (see the `display` methods of the options).
pub fn option(name: &str, descriptor: &str) -> (r: String)
    ensures
        r@ == option_text(name@, descriptor@),
{
    proof {
        reveal_strlit("option name ");
        reveal_strlit("\n");
    }
    let mut r = String::new();
    r.append("option name ");
    r.append(name);
    r.append(sep_str(' '));
    r.append(descriptor);
    r.append("\n");
    proof {
        assert(r@ =~= option_text(name@, descriptor@));
    }
    r
}

pub open spec fn id_text(identifier: Identifier) -> Seq<char> {
    match identifier {
        Identifier::Name(name) => "id name "@ + name@ + seq!['\n'],
        Identifier::Author(author) => "id author "@ + author@ + seq!['\n'],
    }
}

/// The line that gives the engine's name or author.
pub fn id(identifier: Identifier) -> (r: String)
    ensures
        r@ == id_text(identifier),
{
    let mut r = String::new();
    match identifier {
        Identifier::Name(name) => {
            proof {
                reveal_strlit("id name ");
                reveal_strlit("\n");
            }
            r.append("id name ");
            r.append(name.as_str());
            r.append("\n");
        },
        Identifier::Author(author) => {
            proof {
                reveal_strlit("id author ");
                reveal_strlit("\n");
            }
            r.append("id author ");
            r.append(author.as_str());
            r.append("\n");
        },
    }
    proof {
        assert(r@ =~= id_text(identifier));
    }
    r
}

/// The answer to the handshake.
pub fn gbgpok() -> (r: String)
    ensures
        r@ == "gbgpok\n"@,
{
    proof {
        reveal_strlit("gbgpok\n");
    }
    "gbgpok\n".to_string()
}

/// The answer to `isready`.
pub fn readyok() -> (r: String)
    ensures
        r@ == "readyok\n"@,
{
    proof {
        reveal_strlit("readyok\n");
    }
    "readyok\n".to_string()
}

pub open spec fn bestmove_text(best_move: Option<Move>, ponder_move: Option<Move>) -> Seq<char> {
    match best_move {
        Some(b) => match ponder_move {
            Some(p) => "bestmove "@ + move_text(b) + " ponder "@ + move_text(p) + seq!['\n'],
            None => "bestmove "@ + move_text(b) + seq!['\n'],
        },
        None => "bestmove none\n"@,
    }
}

/// The line that reports the best move, with the move to ponder on if any; `bestmove none`
/// when there is no move.
pub fn bestmove(best_move: Option<&Move>, ponder_move: Option<&Move>) -> (r: String)
    requires
        best_move matches Some(m) ==> m.on_board(),
        ponder_move matches Some(m) ==> m.on_board(),
    ensures
        r@ == bestmove_text(
            match best_move {
                Some(m) => Some(*m),
                None => None,
            },
            match ponder_move {
                Some(m) => Some(*m),
                None => None,
            },
        ),
{
    proof {
        reveal_strlit("bestmove ");
        reveal_strlit(" ponder ");
        reveal_strlit("bestmove none\n");
        reveal_strlit("\n");
    }
    match best_move {
        Some(b) => {
            let mut r = String::new();
            r.append("bestmove ");
            let text = format_move(b);
            r.append(text.as_str());
            if let Some(p) = ponder_move {
                r.append(" ponder ");
                let text = format_move(p);
                r.append(text.as_str());
            }
            r.append("\n");
            proof {
                assert(r@ =~= bestmove_text(
                    Some(*b),
                    match ponder_move {
                        Some(m) => Some(*m),
                        None => None,
                    },
                ));
            }
            r
        },
        None => "bestmove none\n".to_string(),
    }
}

/// `" " + move_text(m)` for each move of `ms`.
pub open spec fn moves_text(ms: Seq<Move>) -> Seq<char>
    decreases ms.len(),
{
    if ms.len() == 0 {
        seq![]
    } else {
        moves_text(ms.drop_last()) + seq![' '] + move_text(ms.last())
    }
}

pub open spec fn field_text(key: Seq<char>, value: Option<int>) -> Seq<char> {
    match value {
        Some(v) => key + int_text(v),
        None => seq![],
    }
}

pub open spec fn score_text(score: Option<Score>) -> Seq<char> {
    match score {
        Some(Score::Eval(e)) => " score eval "@ + int_text(e as int),
        Some(Score::Win(w)) => " score win "@ + int_text(w as int),
        None => seq![],
    }
}

fn append_field(out: &mut String, key: &str, value: Option<i64>)
    requires
        value matches Some(v) ==> v > i64::MIN,
    ensures
        final(out)@ == old(out)@ + field_text(
            key@,
            match value {
                Some(v) => Some(v as int),
                None => None,
            },
        ),
{
    if let Some(v) = value {
        out.append(key);
        append_int(out, v);
    }
    proof {
        assert(final(out)@ =~= old(out)@ + field_text(
            key@,
            match value {
                Some(v) => Some(v as int),
                None => None,
            },
        ));
    }
}

pub open spec fn currmove_text(currmove: Option<Move>) -> Seq<char> {
    match currmove {
        Some(m) => " currmove "@ + move_text(m),
        None => seq![],
    }
}

pub open spec fn pv_text(pv: Option<Seq<Move>>) -> Seq<char> {
    match pv {
        Some(ms) => " pv"@ + moves_text(ms),
        None => seq![],
    }
}

pub open spec fn opt_int<T>(value: Option<T>, f: spec_fn(T) -> int) -> Option<int> {
    match value {
        Some(v) => Some(f(v)),
        None => None,
    }
}

fn append_score(out: &mut String, score: Option<Score>)
    ensures
        final(out)@ == old(out)@ + score_text(score),
{
    proof {
        reveal_strlit(" score eval ");
        reveal_strlit(" score win ");
    }
    match score {
        Some(Score::Eval(e)) => {
            out.append(" score eval ");
            append_int(out, e as i64);
        },
        Some(Score::Win(w)) => {
            out.append(" score win ");
            append_int(out, w as i64);
        },
        None => {},
    }
    proof {
        assert(final(out)@ =~= old(out)@ + score_text(score));
    }
}

fn append_currmove(out: &mut String, currmove: Option<Move>)
    requires
        currmove matches Some(m) ==> m.on_board(),
    ensures
        final(out)@ == old(out)@ + currmove_text(currmove),
{
    proof {
        reveal_strlit(" currmove ");
    }
    if let Some(m) = currmove {
        out.append(" currmove ");
        let text = format_move(&m);
        out.append(text.as_str());
    }
    proof {
        assert(final(out)@ =~= old(out)@ + currmove_text(currmove));
    }
}

fn append_pv(out: &mut String, pv: Option<&PvLine>)
    requires
        pv matches Some(l) ==> forall|k: int|
            0 <= k < l.moves@.len() ==> #[trigger] l.moves@[k].on_board(),
    ensures
        final(out)@ == old(out)@ + pv_text(
            match pv {
                Some(l) => Some(l.moves@),
                None => None,
            },
        ),
{
    proof {
        reveal_strlit(" pv");
    }
    if let Some(line) = pv {
        out.append(" pv");
        let ghost s4 = out@;
        let mut i: usize = 0;
        while i < line.moves.len()
            invariant
                i <= line.moves@.len(),
                forall|k: int| 0 <= k < line.moves@.len() ==> #[trigger] line.moves@[k].on_board(),
                out@ == s4 + moves_text(line.moves@.subrange(0, i as int)),
            decreases line.moves@.len() - i,
        {
            out.append(sep_str(' '));
            let text = format_move(&line.moves[i]);
            out.append(text.as_str());
            proof {
                let sub = line.moves@.subrange(0, i + 1);
                assert(sub.drop_last() =~= line.moves@.subrange(0, i as int));
                assert(out@ =~= s4 + moves_text(sub));
            }
            i = i + 1;
        }
        proof {
            assert(line.moves@.subrange(0, i as int) =~= line.moves@);
        }
    }
    proof {
        assert(final(out)@ =~= old(out)@ + pv_text(
            match pv {
                Some(l) => Some(l.moves@),
                None => None,
            },
        ));
    }
}

pub open spec fn info_text(
    depth: Option<i32>,
    time: Option<u64>,
    nodes: Option<u64>,
    score: Option<Score>,
    currmove: Option<Move>,
    currmovenumber: Option<i32>,
    hashfull: Option<i32>,
    nps: Option<i32>,
    pv: Option<Seq<Move>>,
) -> Seq<char> {
    "info"@ + field_text(" depth "@, opt_int(depth, |d: i32| d as int)) + field_text(
        " time "@,
        opt_int(time, |t: u64| t as int),
    ) + field_text(" nodes "@, opt_int(nodes, |n: u64| n as int)) + score_text(score)
        + currmove_text(currmove) + field_text(
        " currmovenumber "@,
        opt_int(currmovenumber, |n: i32| n as int),
    ) + field_text(" hashfull "@, opt_int(hashfull, |n: i32| n as int)) + field_text(
        " nps "@,
        opt_int(nps, |n: i32| n as int),
    ) + pv_text(pv) + seq!['\n']
}

fn wide_i32(v: Option<i32>) -> (r: Option<i64>)
    ensures
        r matches Some(x) ==> x > i64::MIN,
        (match r {
            Some(x) => Some(x as int),
            None => None,
        }) == opt_int(v, |n: i32| n as int),
{
    match v {
        Some(n) => Some(n as i64),
        None => None,
    }
}

fn wide_u64(v: Option<u64>) -> (r: Option<i64>)
    requires
        v matches Some(n) ==> n <= i64::MAX,
    ensures
        r matches Some(x) ==> x > i64::MIN,
        (match r {
            Some(x) => Some(x as int),
            None => None,
        }) == opt_int(v, |n: u64| n as int),
{
    match v {
        Some(n) => Some(n as i64),
        None => None,
    }
}

/// The line that reports progress of a search; each given field appears, in a fixed order.
#[verifier::rlimit(50)]
pub fn info(
    depth: Option<i32>,
    time: Option<u64>,
    nodes: Option<u64>,
    score: Option<Score>,
    currmove: Option<Move>,
    currmovenumber: Option<i32>,
    hashfull: Option<i32>,
    nps: Option<i32>,
    pv: Option<&PvLine>,
) -> (r: String)
    requires
        time matches Some(t) ==> t <= i64::MAX,
        nodes matches Some(n) ==> n <= i64::MAX,
        currmove matches Some(m) ==> m.on_board(),
        pv matches Some(l) ==> forall|k: int|
            0 <= k < l.moves@.len() ==> #[trigger] l.moves@[k].on_board(),
    ensures
        r@ == info_text(
            depth,
            time,
            nodes,
            score,
            currmove,
            currmovenumber,
            hashfull,
            nps,
            match pv {
                Some(l) => Some(l.moves@),
                None => None,
            },
        ),
{
    proof {
        reveal_strlit("info");
        reveal_strlit("\n");
    }
    let mut r = String::new();
    r.append("info");
    let ghost a0 = r@;
    append_field(&mut r, " depth ", wide_i32(depth));
    let ghost a1 = r@;
    append_field(&mut r, " time ", wide_u64(time));
    let ghost a2 = r@;
    append_field(&mut r, " nodes ", wide_u64(nodes));
    let ghost a3 = r@;
    append_score(&mut r, score);
    let ghost a4 = r@;
    append_currmove(&mut r, currmove);
    let ghost a5 = r@;
    append_field(&mut r, " currmovenumber ", wide_i32(currmovenumber));
    let ghost a6 = r@;
    append_field(&mut r, " hashfull ", wide_i32(hashfull));
    let ghost a7 = r@;
    append_field(&mut r, " nps ", wide_i32(nps));
    let ghost a8 = r@;
    append_pv(&mut r, pv);
    let ghost a9 = r@;
    r.append("\n");
    proof {
        reveal_strlit(" depth ");
        reveal_strlit(" time ");
        reveal_strlit(" nodes ");
        reveal_strlit(" currmovenumber ");
        reveal_strlit(" hashfull ");
        reveal_strlit(" nps ");
        assert(r@ =~= info_text(
            depth,
            time,
            nodes,
            score,
            currmove,
            currmovenumber,
            hashfull,
            nps,
            match pv {
                Some(l) => Some(l.moves@),
                None => None,
            },
        ));
    }
    r
}

} // verus!

//! UCI line classifier and parser: classify one complete protocol line and
//! extract its typed fields.

use vstd::prelude::*;

use crate::codec::{spec_decode, decode, Move};
use crate::tokens::{spec_tokens, tokenize, eq_bytes, spec_parse_i64, parse_i64};

verus! {

/// Whether a reported score is exact or only a known bound.
#[derive(Clone, Copy, Debug, PartialEq, Eq, Structural)]
pub enum Bound {
    Exact,
    AtLeast,
    AtMost,
}

/// A signed centipawn score together with its bound qualifier.
#[derive(Clone, Copy, Debug, PartialEq, Eq, Structural)]
pub struct EvaluationReport {
    pub score: i64,
    pub bound: Bound,
}

/// Centipawn stand-in for a mate announcement: `score mate N` is mapped to
/// this magnitude, with the sign of N.
pub const MATE_SCORE: i64 = 1000000;

/// The classification of one complete protocol line.
#[derive(Debug)]
pub enum LineEvent {
    /// A line that begins with the word `info`: its score, if one is
    /// reported, and its principal variation, if one is reported.
    Info { score: Option<EvaluationReport>, pv: Option<Vec<Move>> },
    /// The terminal line, beginning with the word `bestmove`. `token` is
    /// `None` when the engine signals that it has no legal move (the literal
    /// `(none)`); a `bestmove` line with no token at all carries the empty
    /// token, which no move decodes from.
    BestMove { token: Option<Vec<u8>>, ponder: Option<Vec<u8>> },
    /// Any other line (`id`, `option`, `readyok`, blank lines, ...).
    Ignorable,
}

pub open spec fn kw_info() -> Seq<u8> {
    seq![105u8, 110u8, 102u8, 111u8]
}

pub open spec fn kw_bestmove() -> Seq<u8> {
    seq![98u8, 101u8, 115u8, 116u8, 109u8, 111u8, 118u8, 101u8]
}

pub open spec fn kw_score() -> Seq<u8> {
    seq![115u8, 99u8, 111u8, 114u8, 101u8]
}

pub open spec fn kw_cp() -> Seq<u8> {
    seq![99u8, 112u8]
}

pub open spec fn kw_mate() -> Seq<u8> {
    seq![109u8, 97u8, 116u8, 101u8]
}

pub open spec fn kw_pv() -> Seq<u8> {
    seq![112u8, 118u8]
}

pub open spec fn kw_lowerbound() -> Seq<u8> {
    seq![108u8, 111u8, 119u8, 101u8, 114u8, 98u8, 111u8, 117u8, 110u8, 100u8]
}

pub open spec fn kw_upperbound() -> Seq<u8> {
    seq![117u8, 112u8, 112u8, 101u8, 114u8, 98u8, 111u8, 117u8, 110u8, 100u8]
}

pub open spec fn kw_none() -> Seq<u8> {
    seq![40u8, 110u8, 111u8, 110u8, 101u8, 41u8]
}

pub open spec fn kw_ponder() -> Seq<u8> {
    seq![112u8, 111u8, 110u8, 100u8, 101u8, 114u8]
}

/// The least index at or after `i` whose token equals `kw`.
pub open spec fn find_tok(ts: Seq<Seq<u8>>, kw: Seq<u8>, i: int) -> Option<int>
    decreases ts.len() - i,
{
    if i < 0 || i >= ts.len() {
        None
    } else if ts[i] == kw {
        Some(i)
    } else {
        find_tok(ts, kw, i + 1)
    }
}

/// The bound qualifier of a score: `lowerbound` anywhere at or after `from`
/// makes it at-least, else `upperbound` makes it at-most, else it is exact.
pub open spec fn spec_bound(ts: Seq<Seq<u8>>, from: int) -> Bound {
    if find_tok(ts, kw_lowerbound(), from) is Some {
        Bound::AtLeast
    } else if find_tok(ts, kw_upperbound(), from) is Some {
        Bound::AtMost
    } else {
        Bound::Exact
    }
}

/// The score a line's tokens report: the first `score` token decides; it
/// must be followed by `cp` or `mate` and a well-formed numeral, else the
/// line reports no score. A mate count maps to `MATE_SCORE` with its sign.
pub open spec fn spec_score(ts: Seq<Seq<u8>>) -> Option<EvaluationReport> {
    match find_tok(ts, kw_score(), 0) {
        None => None,
        Some(i) => if i + 2 < ts.len() && ts[i + 1] == kw_cp() {
            match spec_parse_i64(ts[i + 2]) {
                None => None,
                Some(v) => Some(EvaluationReport { score: v, bound: spec_bound(ts, i + 3) }),
            }
        } else if i + 2 < ts.len() && ts[i + 1] == kw_mate() {
            match spec_parse_i64(ts[i + 2]) {
                None => None,
                Some(v) => Some(
                    EvaluationReport {
                        score: if v >= 0 {
                            MATE_SCORE
                        } else {
                            (-MATE_SCORE) as i64
                        },
                        bound: spec_bound(ts, i + 3),
                    },
                ),
            }
        } else {
            None
        },
    }
}

/// The moves decoded from a token sequence, in order; tokens that are not
/// move tokens are dropped. `acc` holds the moves decoded so far.
pub open spec fn decode_toks(ts: Seq<Seq<u8>>, acc: Seq<Move>) -> Seq<Move>
    decreases ts.len(),
{
    if ts.len() == 0 {
        acc
    } else {
        match spec_decode(ts[0]) {
            Some(m) => decode_toks(ts.drop_first(), acc.push(m)),
            None => decode_toks(ts.drop_first(), acc),
        }
    }
}

/// The principal variation a line's tokens report: every token after the
/// first `pv` token, decoded, undecodable tokens dropped.
pub open spec fn spec_pv(ts: Seq<Seq<u8>>) -> Option<Seq<Move>> {
    match find_tok(ts, kw_pv(), 0) {
        None => None,
        Some(i) => Some(decode_toks(ts.skip(i + 1), Seq::empty())),
    }
}

/// The move token of a `bestmove` line: the second token, or `None` when
/// that token is the literal `(none)`; a missing token reads as empty.
pub open spec fn spec_bm_token(ts: Seq<Seq<u8>>) -> Option<Seq<u8>> {
    if ts.len() >= 2 {
        if ts[1] == kw_none() {
            None
        } else {
            Some(ts[1])
        }
    } else {
        Some(Seq::empty())
    }
}

/// The ponder token of a `bestmove` line, when one follows the move token.
pub open spec fn spec_bm_ponder(ts: Seq<Seq<u8>>) -> Option<Seq<u8>> {
    if ts.len() >= 4 && ts[2] == kw_ponder() {
        Some(ts[3])
    } else {
        None
    }
}

/// A line whose first token is the word `info`.
pub open spec fn is_info_line(s: Seq<u8>) -> bool {
    spec_tokens(s).len() > 0 && spec_tokens(s)[0] == kw_info()
}

/// A line whose first token is the word `bestmove`.
pub open spec fn is_bestmove_line(s: Seq<u8>) -> bool {
    spec_tokens(s).len() > 0 && spec_tokens(s)[0] == kw_bestmove()
}

pub open spec fn view_opt_moves(o: Option<Vec<Move>>) -> Option<Seq<Move>> {
    match o {
        Some(v) => Some(v@),
        None => None,
    }
}

pub open spec fn view_opt_bytes(o: Option<Vec<u8>>) -> Option<Seq<u8>> {
    match o {
        Some(v) => Some(v@),
        None => None,
    }
}

/// Find the first token at or after `from` that equals `kw`.
fn find_token(ts: &Vec<Vec<u8>>, kw: &[u8], from: usize) -> (r: Option<usize>)
    requires
        from <= ts@.len(),
    ensures
        match r {
            Some(j) => from <= j < ts@.len() && find_tok(ts.deep_view(), kw@, from as int)
                == Some(j as int),
            None => find_tok(ts.deep_view(), kw@, from as int) is None,
        },
{
    let ghost dv = ts.deep_view();
    proof {
        assert(dv.len() == ts@.len());
    }
    let n = ts.len();
    let mut i: usize = from;
    while i < n
        invariant
            from <= i <= n,
            n == ts@.len(),
            dv == ts.deep_view(),
            dv.len() == n,
            find_tok(dv, kw@, from as int) == find_tok(dv, kw@, i as int),
        decreases n - i,
    {
        proof {
            assert(dv[i as int] == ts@[i as int]@);
        }
        if eq_bytes(ts[i].as_slice(), kw) {
            return Some(i);
        }
        i = i + 1;
    }
    None
}

/// Copy a byte slice into an owned vector.
fn copy_bytes(s: &[u8]) -> (r: Vec<u8>)
    ensures
        r@ == s@,
{
    let mut v: Vec<u8> = Vec::new();
    let n = s.len();
    let mut i: usize = 0;
    while i < n
        invariant
            i <= n,
            n == s@.len(),
            v@ == s@.subrange(0, i as int),
        decreases n - i,
    {
        v.push(s[i]);
        proof {
            assert(v@ =~= s@.subrange(0, i + 1));
        }
        i = i + 1;
    }
    proof {
        assert(s@.subrange(0, n as int) =~= s@);
    }
    v
}

/// The bound qualifier of a score, read from the tokens at or after `from`.
fn extract_bound(ts: &Vec<Vec<u8>>, from: usize) -> (r: Bound)
    requires
        from <= ts@.len(),
    ensures
        r == spec_bound(ts.deep_view(), from as int),
{
    let kw_lb: [u8; 10] = [108, 111, 119, 101, 114, 98, 111, 117, 110, 100];
    let kw_ub: [u8; 10] = [117, 112, 112, 101, 114, 98, 111, 117, 110, 100];
    proof {
        assert(kw_lb@ =~= kw_lowerbound());
        assert(kw_ub@ =~= kw_upperbound());
    }
    if find_token(ts, kw_lb.as_slice(), from).is_some() {
        Bound::AtLeast
    } else if find_token(ts, kw_ub.as_slice(), from).is_some() {
        Bound::AtMost
    } else {
        Bound::Exact
    }
}

/// The score reported by a line's tokens, if any.
fn extract_score(ts: &Vec<Vec<u8>>) -> (r: Option<EvaluationReport>)
    ensures
        r == spec_score(ts.deep_view()),
{
    let ghost dv = ts.deep_view();
    let kw_sc: [u8; 5] = [115, 99, 111, 114, 101];
    let kw_c: [u8; 2] = [99, 112];
    let kw_m: [u8; 4] = [109, 97, 116, 101];
    proof {
        assert(kw_sc@ =~= kw_score());
        assert(kw_c@ =~= kw_cp());
        assert(kw_m@ =~= kw_mate());
        assert(dv.len() == ts@.len());
    }
    match find_token(ts, kw_sc.as_slice(), 0) {
        None => None,
        Some(i) => {
            if ts.len() - i > 2 {
                proof {
                    assert(dv[i + 1] == ts@[i as int + 1]@);
                    assert(dv[i + 2] == ts@[i as int + 2]@);
                }
                let is_cp = eq_bytes(ts[i + 1].as_slice(), kw_c.as_slice());
                let is_mate = if is_cp {
                    false
                } else {
                    eq_bytes(ts[i + 1].as_slice(), kw_m.as_slice())
                };
                if is_cp {
                    match parse_i64(ts[i + 2].as_slice()) {
                        None => None,
                        Some(v) => Some(
                            EvaluationReport { score: v, bound: extract_bound(ts, i + 3) },
                        ),
                    }
                } else if is_mate {
                    match parse_i64(ts[i + 2].as_slice()) {
                        None => None,
                        Some(v) => {
                            let s: i64 = if v >= 0 {
                                MATE_SCORE
                            } else {
                                -MATE_SCORE
                            };
                            Some(EvaluationReport { score: s, bound: extract_bound(ts, i + 3) })
                        },
                    }
                } else {
                    None
                }
            } else {
                None
            }
        },
    }
}

/// The decoded moves of the tokens at or after `from`.
fn decode_moves(ts: &Vec<Vec<u8>>, from: usize) -> (r: Vec<Move>)
    requires
        from <= ts@.len(),
    ensures
        r@ == decode_toks(ts.deep_view().skip(from as int), Seq::empty()),
{
    let ghost dv = ts.deep_view();
    proof {
        assert(dv.len() == ts@.len());
    }
    let n = ts.len();
    let mut out: Vec<Move> = Vec::new();
    let mut i: usize = from;
    proof {
        assert(out@ =~= Seq::<Move>::empty());
    }
    while i < n
        invariant
            from <= i <= n,
            n == ts@.len(),
            dv == ts.deep_view(),
            dv.len() == n,
            decode_toks(dv.skip(i as int), out@) == decode_toks(
                dv.skip(from as int),
                Seq::empty(),
            ),
        decreases n - i,
    {
        let ghost pre = dv.skip(i as int);
        proof {
            assert(pre.len() == n - i);
            assert(pre[0] == dv[i as int]);
            assert(dv[i as int] == ts@[i as int]@);
            assert(pre.drop_first() =~= dv.skip(i as int + 1));
        }
        match decode(ts[i].as_slice()) {
            Ok(m) => {
                out.push(m);
            },
            Err(_) => {},
        }
        i = i + 1;
    }
    proof {
        assert(dv.skip(n as int) =~= Seq::<Seq<u8>>::empty());
    }
    out
}

/// The principal variation a line's tokens report, if any.
fn extract_pv(ts: &Vec<Vec<u8>>) -> (r: Option<Vec<Move>>)
    ensures
        view_opt_moves(r) == spec_pv(ts.deep_view()),
{
    let kw_p: [u8; 2] = [112, 118];
    proof {
        assert(kw_p@ =~= kw_pv());
    }
    let n = ts.len();
    match find_token(ts, kw_p.as_slice(), 0) {
        None => None,
        Some(i) => {
            proof {
                assert(i < n);
            }
            Some(decode_moves(ts, i + 1))
        },
    }
}

/// Classify one complete protocol line and extract its typed fields.
///
/// A line whose first token is `info` yields `Info` with exactly the score
/// and principal variation the line reports; one whose first token is
/// `bestmove` yields `BestMove` with its move and ponder tokens; every other
/// line is `Ignorable`.
pub fn parse_line(line: &[u8]) -> (r: LineEvent)
    ensures
        is_info_line(line@) ==> (r matches LineEvent::Info { score, pv } && score == spec_score(
            spec_tokens(line@),
        ) && view_opt_moves(pv) == spec_pv(spec_tokens(line@))),
        is_bestmove_line(line@) ==> (r matches LineEvent::BestMove { token, ponder }
            && view_opt_bytes(token) == spec_bm_token(spec_tokens(line@)) && view_opt_bytes(ponder)
            == spec_bm_ponder(spec_tokens(line@))),
        !is_info_line(line@) && !is_bestmove_line(line@) ==> r == LineEvent::Ignorable,
{
    let ts = tokenize(line);
    let ghost dv = ts.deep_view();
    proof {
        assert(dv.len() == ts@.len());
    }
    if ts.len() == 0 {
        return LineEvent::Ignorable;
    }
    proof {
        assert(dv[0] == ts@[0]@);
    }
    let kw_i: [u8; 4] = [105, 110, 102, 111];
    let kw_bm: [u8; 8] = [98, 101, 115, 116, 109, 111, 118, 101];
    let kw_no: [u8; 6] = [40, 110, 111, 110, 101, 41];
    let kw_po: [u8; 6] = [112, 111, 110, 100, 101, 114];
    proof {
        assert(kw_i@ =~= kw_info());
        assert(kw_bm@ =~= kw_bestmove());
        assert(kw_no@ =~= kw_none());
        assert(kw_po@ =~= kw_ponder());
    }
    if eq_bytes(ts[0].as_slice(), kw_i.as_slice()) {
        let score = extract_score(&ts);
        let pv = extract_pv(&ts);
        LineEvent::Info { score, pv }
    } else if eq_bytes(ts[0].as_slice(), kw_bm.as_slice()) {
        let token: Option<Vec<u8>> = if ts.len() >= 2 {
            proof {
                assert(dv[1] == ts@[1]@);
            }
            if eq_bytes(ts[1].as_slice(), kw_no.as_slice()) {
                None
            } else {
                Some(copy_bytes(ts[1].as_slice()))
            }
        } else {
            let empty: Vec<u8> = Vec::new();
            proof {
                assert(empty@ =~= Seq::<u8>::empty());
            }
            Some(empty)
        };
        let ponder: Option<Vec<u8>> = if ts.len() >= 4 {
            proof {
                assert(dv[2] == ts@[2]@);
                assert(dv[3] == ts@[3]@);
            }
            if eq_bytes(ts[2].as_slice(), kw_po.as_slice()) {
                Some(copy_bytes(ts[3].as_slice()))
            } else {
                None
            }
        } else {
            None
        };
        LineEvent::BestMove { token, ponder }
    } else {
        LineEvent::Ignorable
    }
}

} // verus!

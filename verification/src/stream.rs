//! Streaming response accumulator: consumes arbitrarily-chunked raw bytes,
//! reassembles complete newline-terminated lines, folds each line into the
//! running result, and detects the terminal line.

use vstd::prelude::*;

use crate::codec::{spec_decode, decode, Move};
use crate::line::{
    spec_score, spec_pv, spec_bm_token, is_info_line, is_bestmove_line, parse_line, LineEvent,
    EvaluationReport, kw_info, kw_bestmove,
};
use crate::tokens::spec_tokens;

verus! {

/// Why a session ends without a decision.
#[derive(Clone, Copy, Debug, PartialEq, Eq, Structural)]
pub enum ErrorKind {
    /// The engine executable could not be launched.
    SpawnFailure,
    /// The engine's output stream closed before a `bestmove` line.
    StreamClosedPrematurely,
    /// The terminal line's move token decodes to no move.
    UnparsableBestMove,
    /// The engine reports that it has no legal move.
    NoLegalMove,
    /// The rules engine rejected the decoded move.
    EngineProposedIllegalMove,
    /// A supervisory timeout cancelled the session.
    EngineTimeout,
}

/// The accumulator's progress: still collecting lines, terminated with a
/// resolved move, or aborted with an error.
#[derive(Clone, Copy, Debug, PartialEq, Eq, Structural)]
pub enum Phase {
    Collecting,
    Terminated { best: Move },
    Aborted { error: ErrorKind },
}

/// The terminal artifact of one session: the selected move, the last
/// evaluation seen (absent when no scored `info` line arrived), and the last
/// principal variation seen (empty when none arrived).
#[derive(Debug)]
pub struct EngineDecision {
    pub best: Move,
    pub evaluation: Option<EvaluationReport>,
    pub pv: Vec<Move>,
}

/// The abstract state of an accumulator: the buffered trailing partial line
/// and the running result.
#[verifier::ext_equal]
pub ghost struct AbsAccum {
    pub pending: Seq<u8>,
    pub eval: Option<EvaluationReport>,
    pub pv: Seq<Move>,
    pub phase: Phase,
}

/// The least index at or after `i` holding byte `c`.
pub open spec fn find_byte(s: Seq<u8>, c: u8, i: int) -> Option<int>
    decreases s.len() - i,
{
    if i < 0 || i >= s.len() {
        None
    } else if s[i] == c {
        Some(i)
    } else {
        find_byte(s, c, i + 1)
    }
}

/// How one complete line changes the running result. An `info` line's score,
/// when present, replaces the report, and its variation, when present and
/// non-empty, replaces the variation; a `bestmove` line ends the session;
/// every other line changes nothing. The buffer is untouched.
pub open spec fn apply_line(st: AbsAccum, line: Seq<u8>) -> AbsAccum {
    let ts = spec_tokens(line);
    if is_info_line(line) {
        let e = match spec_score(ts) {
            Some(r) => Some(r),
            None => st.eval,
        };
        let p = match spec_pv(ts) {
            Some(mv) => if mv.len() > 0 {
                mv
            } else {
                st.pv
            },
            None => st.pv,
        };
        AbsAccum { eval: e, pv: p, ..st }
    } else if is_bestmove_line(line) {
        match spec_bm_token(ts) {
            None => AbsAccum { phase: Phase::Aborted { error: ErrorKind::NoLegalMove }, ..st },
            Some(t) => match spec_decode(t) {
                Some(m) => AbsAccum { phase: Phase::Terminated { best: m }, ..st },
                None => AbsAccum {
                    phase: Phase::Aborted { error: ErrorKind::UnparsableBestMove },
                    ..st
                },
            },
        }
    } else {
        st
    }
}

/// The session is over: a `bestmove` line arrived or the session aborted.
pub open spec fn abs_done(st: AbsAccum) -> bool {
    !(st.phase is Collecting)
}

/// Repeatedly split the first complete line off the front of the buffer and
/// apply it, until no complete line remains or the session is done.
pub open spec fn abs_drain(st: AbsAccum) -> AbsAccum
    decreases st.pending.len(),
    via abs_drain_decreases
{
    if abs_done(st) {
        st
    } else {
        match find_byte(st.pending, 10, 0) {
            None => st,
            Some(i) => {
                let line = st.pending.take(i);
                let rest = st.pending.skip(i + 1);
                let st1 = apply_line(AbsAccum { pending: rest, ..st }, line);
                abs_drain(AbsAccum { pending: rest, ..st1 })
            },
        }
    }
}

#[via_fn]
proof fn abs_drain_decreases(st: AbsAccum) {
    lemma_find_byte_some(st.pending, 10, 0);
}

/// A found byte lies at or after the start of the search, inside the
/// sequence.
proof fn lemma_find_byte_some(s: Seq<u8>, c: u8, i: int)
    ensures
        find_byte(s, c, i) matches Some(j) ==> i <= j < s.len() && s[j] == c,
    decreases s.len() - i,
{
    if 0 <= i < s.len() && s[i] != c {
        lemma_find_byte_some(s, c, i + 1);
    }
}

/// When the search finds nothing, the byte is nowhere in the searched part.
proof fn lemma_find_byte_none(s: Seq<u8>, c: u8, i: int)
    requires
        0 <= i <= s.len(),
    ensures
        find_byte(s, c, i) is None ==> forall|k: int| i <= k < s.len() ==> s[k] != c,
    decreases s.len() - i,
{
    if i < s.len() {
        lemma_find_byte_none(s, c, i + 1);
    }
}

/// Feeding a chunk: append it to the buffer, then drain complete lines.
pub open spec fn abs_feed(st: AbsAccum, bytes: Seq<u8>) -> AbsAccum {
    abs_drain(AbsAccum { pending: st.pending + bytes, ..st })
}

/// The accumulator a fresh session starts from.
pub open spec fn abs_init() -> AbsAccum {
    AbsAccum {
        pending: Seq::empty(),
        eval: None,
        pv: Seq::empty(),
        phase: Phase::Collecting,
    }
}

/// Streaming response accumulator. `feed` consumes byte chunks in any
/// division; chunk boundaries never change the outcome.
pub struct Accumulator {
    buf: Vec<u8>,
    eval: Option<EvaluationReport>,
    pv: Vec<Move>,
    phase: Phase,
}

impl View for Accumulator {
    type V = AbsAccum;

    closed spec fn view(&self) -> AbsAccum {
        AbsAccum { pending: self.buf@, eval: self.eval, pv: self.pv@, phase: self.phase }
    }
}

fn find_nl(buf: &[u8]) -> (r: Option<usize>)
    ensures
        match r {
            Some(j) => j < buf@.len() && find_byte(buf@, 10, 0) == Some(j as int),
            None => find_byte(buf@, 10, 0) is None,
        },
{
    let n = buf.len();
    let mut i: usize = 0;
    while i < n
        invariant
            i <= n,
            n == buf@.len(),
            find_byte(buf@, 10, 0) == find_byte(buf@, 10, i as int),
        decreases n - i,
    {
        if buf[i] == 10 {
            return Some(i);
        }
        i = i + 1;
    }
    None
}

fn copy_moves(s: &Vec<Move>) -> (r: Vec<Move>)
    ensures
        r@ == s@,
{
    let mut v: Vec<Move> = Vec::new();
    let n = s.len();
    let mut i: usize = 0;
    while i < n
        invariant
            i <= n,
            n == s@.len(),
            v@ == s@.subrange(0, i as int),
        decreases n - i,
    {
        v.push(s[i]);
        proof {
            assert(v@ =~= s@.subrange(0, i + 1));
        }
        i = i + 1;
    }
    proof {
        assert(s@.subrange(0, n as int) =~= s@);
    }
    v
}

impl Accumulator {
    /// A fresh accumulator: empty buffer, no report, empty variation.
    pub fn new() -> (r: Accumulator)
        ensures
            r@ == abs_init(),
    {
        let r = Accumulator { buf: Vec::new(), eval: None, pv: Vec::new(), phase: Phase::Collecting };
        proof {
            assert(r@ =~= abs_init());
        }
        r
    }

    /// True once a terminal line arrived or the session aborted.
    pub fn is_done(&self) -> (r: bool)
        ensures
            r == abs_done(self@),
    {
        match self.phase {
            Phase::Collecting => false,
            _ => true,
        }
    }

    /// Append a chunk to the buffer, then extract and apply every complete
    /// newline-terminated line; a trailing partial line stays buffered.
    pub fn feed(&mut self, chunk: &[u8])
        ensures
            final(self)@ == abs_feed(old(self)@, chunk@),
    {
        let n = chunk.len();
        let mut i: usize = 0;
        proof {
            assert(self.buf@ =~= old(self)@.pending + chunk@.subrange(0, 0));
        }
        while i < n
            invariant
                i <= n,
                n == chunk@.len(),
                self.buf@ == old(self)@.pending + chunk@.subrange(0, i as int),
                self.eval == old(self)@.eval,
                self.pv@ == old(self)@.pv,
                self.phase == old(self)@.phase,
            decreases n - i,
        {
            self.buf.push(chunk[i]);
            proof {
                assert(self.buf@ =~= old(self)@.pending + chunk@.subrange(0, i + 1));
            }
            i = i + 1;
        }
        proof {
            assert(chunk@.subrange(0, n as int) =~= chunk@);
            assert(self@ =~= (AbsAccum { pending: old(self)@.pending + chunk@, ..old(self)@ }));
        }
        let ghost target = abs_feed(old(self)@, chunk@);
        loop
            invariant
                abs_drain(self@) == target,
            ensures
                self@ == target,
            decreases self@.pending.len(),
        {
            let collecting = match self.phase {
                Phase::Collecting => true,
                _ => false,
            };
            if !collecting {
                proof {
                    assert(abs_drain(self@) == self@);
                }
                break ;
            }
            let nl = find_nl(self.buf.as_slice());
            match nl {
                None => {
                    proof {
                        assert(abs_drain(self@) == self@);
                    }
                    break ;
                },
                Some(i) => {
                    let ghost pre = self@;
                    let ghost line = pre.pending.take(i as int);
                    let ghost rest = pre.pending.skip(i as int + 1);
                    let ghost st1 = apply_line(AbsAccum { pending: rest, ..pre }, line);
                    let blen = self.buf.len();
                    proof {
                        assert(i < blen);
                    }
                    let tail = self.buf.split_off(i + 1);
                    let ev = parse_line(&self.buf.as_slice()[0..i]);
                    proof {
                        assert(self.buf@.subrange(0, i as int) =~= line);
                        assert(tail@ =~= rest);
                        assert(kw_info().len() == 4);
                        assert(kw_bestmove().len() == 8);
                    }
                    match ev {
                        LineEvent::Info { score, pv } => {
                            match score {
                                Some(rep) => {
                                    self.eval = Some(rep);
                                },
                                None => {},
                            }
                            match pv {
                                Some(mv) => {
                                    if mv.len() > 0 {
                                        self.pv = mv;
                                    }
                                },
                                None => {},
                            }
                        },
                        LineEvent::BestMove { token, ponder: _ } => {
                            match token {
                                None => {
                                    self.phase = Phase::Aborted {
                                        error: ErrorKind::NoLegalMove,
                                    };
                                },
                                Some(t) => {
                                    match decode(t.as_slice()) {
                                        Ok(m) => {
                                            self.phase = Phase::Terminated { best: m };
                                        },
                                        Err(_) => {
                                            self.phase = Phase::Aborted {
                                                error: ErrorKind::UnparsableBestMove,
                                            };
                                        },
                                    }
                                },
                            }
                        },
                        LineEvent::Ignorable => {},
                    }
                    self.buf = tail;
                    proof {
                        assert(self@ =~= st1);
                        assert(st1.pending.len() < pre.pending.len());
                    }
                },
            }
        }
    }

    /// The session's outcome once reading has stopped. In `Collecting` the
    /// stream closed before a terminal line, which is premature; a
    /// terminated session yields its decision; an aborted one its error.
    pub fn outcome(&self) -> (r: Result<EngineDecision, ErrorKind>)
        ensures
            match self@.phase {
                Phase::Collecting => r == Err::<EngineDecision, ErrorKind>(
                    ErrorKind::StreamClosedPrematurely,
                ),
                Phase::Terminated { best } => r matches Ok(d) && d.best == best && d.evaluation
                    == self@.eval && d.pv@ == self@.pv,
                Phase::Aborted { error } => r == Err::<EngineDecision, ErrorKind>(error),
            },
    {
        match self.phase {
            Phase::Collecting => Err(ErrorKind::StreamClosedPrematurely),
            Phase::Terminated { best } => Ok(
                EngineDecision { best, evaluation: self.eval, pv: copy_moves(&self.pv) },
            ),
            Phase::Aborted { error } => Err(error),
        }
    }
}

proof fn lemma_find_byte_append(s: Seq<u8>, b: Seq<u8>, c: u8, i: int)
    requires
        0 <= i <= s.len(),
    ensures
        find_byte(s, c, i) is Some ==> find_byte(s + b, c, i) == find_byte(s, c, i),
    decreases s.len() - i,
{
    if i < s.len() {
        assert((s + b)[i] == s[i]);
        if s[i] == c {
        } else {
            lemma_find_byte_append(s, b, c, i + 1);
        }
    }
}

proof fn lemma_drain_append(st: AbsAccum, b: Seq<u8>)
    ensures
        abs_drain(
            AbsAccum { pending: abs_drain(st).pending + b, ..abs_drain(st) },
        ) == abs_drain(AbsAccum { pending: st.pending + b, ..st }),
    decreases st.pending.len(),
{
    if abs_done(st) {
    } else {
        match find_byte(st.pending, 10, 0) {
            None => {
            },
            Some(i) => {
                lemma_find_byte_append(st.pending, b, 10, 0);
                lemma_find_byte_some(st.pending, 10, 0);
                let line = st.pending.take(i);
                let rest = st.pending.skip(i + 1);
                let st1 = apply_line(AbsAccum { pending: rest, ..st }, line);
                let stb = AbsAccum { pending: st.pending + b, ..st };
                assert(stb.pending.take(i) =~= line);
                assert(stb.pending.skip(i + 1) =~= rest + b);
                let st1b = apply_line(AbsAccum { pending: rest + b, ..stb }, line);
                assert(st1b =~= (AbsAccum { pending: st1.pending + b, ..st1 }));
                lemma_drain_append(st1, b);
            },
        }
    }
}

/// Law: chunk boundaries never matter. Feeding a byte stream in two chunks
/// leaves the accumulator exactly as feeding it whole does, so any division
/// of a transcript into chunks yields the identical outcome.
pub proof fn lemma_feed_split(st: AbsAccum, a: Seq<u8>, b: Seq<u8>)
    ensures
        abs_feed(abs_feed(st, a), b) == abs_feed(st, a + b),
{
    let sta = AbsAccum { pending: st.pending + a, ..st };
    lemma_drain_append(sta, b);
    assert(sta.pending + b =~= st.pending + (a + b));
    assert((AbsAccum { pending: sta.pending + b, ..sta }) =~= (AbsAccum {
        pending: st.pending + (a + b),
        ..st
    }));
}

/// Draining is idempotent: a drained accumulator drains to itself.
proof fn lemma_drain_idempotent(st: AbsAccum)
    ensures
        abs_drain(abs_drain(st)) == abs_drain(st),
    decreases st.pending.len(),
{
    if !abs_done(st) {
        match find_byte(st.pending, 10, 0) {
            None => {
            },
            Some(i) => {
                lemma_find_byte_some(st.pending, 10, 0);
                let line = st.pending.take(i);
                let rest = st.pending.skip(i + 1);
                let st1 = apply_line(AbsAccum { pending: rest, ..st }, line);
                lemma_drain_idempotent(AbsAccum { pending: rest, ..st1 });
            },
        }
    }
}

/// The bytes of a list of chunks, in order.
pub open spec fn concat_chunks(cs: Seq<Seq<u8>>) -> Seq<u8>
    decreases cs.len(),
{
    if cs.len() == 0 {
        Seq::empty()
    } else {
        cs[0] + concat_chunks(cs.drop_first())
    }
}

/// The accumulator after feeding each chunk of a list, in order.
pub open spec fn feed_all(st: AbsAccum, cs: Seq<Seq<u8>>) -> AbsAccum
    decreases cs.len(),
{
    if cs.len() == 0 {
        st
    } else {
        feed_all(abs_feed(st, cs[0]), cs.drop_first())
    }
}

/// Law: any division of a byte stream into chunks, mid-line splits and
/// single-byte chunks included, leaves a drained accumulator exactly where
/// feeding the stream whole does. A fresh accumulator is drained.
pub proof fn lemma_feed_chunks(st: AbsAccum, cs: Seq<Seq<u8>>)
    requires
        abs_drain(st) == st,
    ensures
        feed_all(st, cs) == abs_feed(st, concat_chunks(cs)),
    decreases cs.len(),
{
    if cs.len() == 0 {
        assert(st.pending + Seq::<u8>::empty() =~= st.pending);
        assert((AbsAccum { pending: st.pending + concat_chunks(cs), ..st }) =~= st);
    } else {
        let st1 = abs_feed(st, cs[0]);
        lemma_drain_idempotent(AbsAccum { pending: st.pending + cs[0], ..st });
        lemma_feed_chunks(st1, cs.drop_first());
        lemma_feed_split(st, cs[0], concat_chunks(cs.drop_first()));
    }
}

/// Law: feeding one complete newline-terminated line applies exactly that
/// line to the running result.
pub proof fn lemma_feed_line(st: AbsAccum, l: Seq<u8>)
    requires
        st.phase is Collecting,
        st.pending.len() == 0,
        find_byte(l, 10, 0) is None,
    ensures
        abs_feed(st, l.push(10)) == apply_line(st, l),
{
    let p = st.pending + l.push(10);
    assert(p =~= l.push(10));
    lemma_find_byte_none(l, 10, 0);
    assert(forall|k: int| 0 <= k < l.len() ==> p[k] == l[k]);
    lemma_find_byte_at(p, 10, l.len() as int);
    assert(p.take(l.len() as int) =~= l);
    assert(p.skip(l.len() as int + 1) =~= Seq::<u8>::empty());
    let st1 = apply_line(AbsAccum { pending: Seq::empty(), ..st }, l);
    assert((AbsAccum { pending: Seq::empty(), ..st }) =~= st);
    assert(abs_drain(st1) == st1);
}

/// `c` first occurs in `s` at `j` when it stands at `j` and nowhere before.
proof fn lemma_find_byte_at(s: Seq<u8>, c: u8, j: int)
    requires
        0 <= j < s.len(),
        s[j] == c,
        forall|k: int| 0 <= k < j ==> s[k] != c,
    ensures
        find_byte(s, c, 0) == Some(j),
{
    lemma_find_byte_from(s, c, 0, j);
}

proof fn lemma_find_byte_from(s: Seq<u8>, c: u8, i: int, j: int)
    requires
        0 <= i <= j < s.len(),
        s[j] == c,
        forall|k: int| i <= k < j ==> s[k] != c,
    ensures
        find_byte(s, c, i) == Some(j),
    decreases j - i,
{
    if i < j {
        lemma_find_byte_from(s, c, i + 1, j);
    }
}

/// Law: reports are replaced whole, never merged. After two scored `info`
/// lines the running report is the second line's, whatever came before.
pub proof fn lemma_last_score_wins(st: AbsAccum, l1: Seq<u8>, l2: Seq<u8>)
    requires
        st.phase is Collecting,
        st.pending.len() == 0,
        find_byte(l1, 10, 0) is None,
        find_byte(l2, 10, 0) is None,
        is_info_line(l1),
        is_info_line(l2),
        spec_score(spec_tokens(l1)) is Some,
        spec_score(spec_tokens(l2)) is Some,
    ensures
        abs_feed(abs_feed(st, l1.push(10)), l2.push(10)).eval == spec_score(spec_tokens(l2)),
{
    lemma_feed_line(st, l1);
    let st1 = apply_line(st, l1);
    assert(st1.phase is Collecting);
    assert(st1.pending.len() == 0);
    lemma_feed_line(st1, l2);
}

/// Law: the principal variation is replaced whole by the latest `info` line
/// that carries a non-empty one, never appended to.
pub proof fn lemma_last_pv_wins(st: AbsAccum, l1: Seq<u8>, l2: Seq<u8>)
    requires
        st.phase is Collecting,
        st.pending.len() == 0,
        find_byte(l1, 10, 0) is None,
        find_byte(l2, 10, 0) is None,
        is_info_line(l1),
        is_info_line(l2),
        spec_pv(spec_tokens(l2)) is Some,
        spec_pv(spec_tokens(l2)).unwrap().len() > 0,
    ensures
        abs_feed(abs_feed(st, l1.push(10)), l2.push(10)).pv == spec_pv(spec_tokens(l2)).unwrap(),
{
    lemma_feed_line(st, l1);
    let st1 = apply_line(st, l1);
    assert(st1.phase is Collecting);
    assert(st1.pending.len() == 0);
    lemma_feed_line(st1, l2);
}

} // verus!

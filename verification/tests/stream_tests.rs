use uci_session::codec::{Coordinate, Move};
use uci_session::line::{Bound, EvaluationReport};
use uci_session::stream::{Accumulator, EngineDecision, ErrorKind};

fn mv(ff: u8, fr: u8, tf: u8, tr: u8) -> Move {
    Move {
        origin: Coordinate { file: ff, rank: fr },
        dest: Coordinate { file: tf, rank: tr },
        promotion: None,
    }
}

fn run_whole(transcript: &[u8]) -> Result<EngineDecision, ErrorKind> {
    let mut acc = Accumulator::new();
    acc.feed(transcript);
    acc.outcome()
}

#[test]
fn scenario_full_search() {
    let mut acc = Accumulator::new();
    assert!(!acc.is_done());
    acc.feed(b"info depth 1 score cp 35 pv e2e4 e7e5\n");
    assert!(!acc.is_done());
    acc.feed(b"bestmove e2e4\n");
    assert!(acc.is_done());
    let d = acc.outcome().unwrap();
    assert_eq!(d.best, mv(4, 1, 4, 3));
    assert_eq!(d.evaluation, Some(EvaluationReport { score: 35, bound: Bound::Exact }));
    assert_eq!(d.pv, vec![mv(4, 1, 4, 3), mv(4, 6, 4, 4)]);
}

#[test]
fn scenario_no_legal_move() {
    let mut acc = Accumulator::new();
    acc.feed(b"bestmove (none)\n");
    assert!(acc.is_done());
    assert_eq!(acc.outcome().err(), Some(ErrorKind::NoLegalMove));
}

#[test]
fn scenario_stream_closed_prematurely() {
    let mut acc = Accumulator::new();
    acc.feed(b"info depth 1 score cp 35\n");
    assert!(!acc.is_done());
    // The stream closes here: no terminal line ever arrived.
    assert_eq!(acc.outcome().err(), Some(ErrorKind::StreamClosedPrematurely));
}

#[test]
fn scenario_unparsable_bestmove() {
    let mut acc = Accumulator::new();
    acc.feed(b"bestmove zz99\n");
    assert!(acc.is_done());
    assert_eq!(acc.outcome().err(), Some(ErrorKind::UnparsableBestMove));
}

#[test]
fn scenario_upperbound_score() {
    let mut acc = Accumulator::new();
    acc.feed(b"info score cp -120 upperbound pv d2d4\n");
    acc.feed(b"bestmove d2d4\n");
    let d = acc.outcome().unwrap();
    assert_eq!(d.best, mv(3, 1, 3, 3));
    assert_eq!(d.evaluation, Some(EvaluationReport { score: -120, bound: Bound::AtMost }));
    assert_eq!(d.pv, vec![mv(3, 1, 3, 3)]);
}

#[test]
fn chunk_boundaries_do_not_matter() {
    let transcript: &[u8] =
        b"id name SomeEngine\nreadyok\ninfo depth 1 score cp 13 pv g1f3\ninfo depth 2 score cp 35 lowerbound pv e2e4 e7e5\nbestmove e2e4 ponder e7e5\n";
    let whole = run_whole(transcript).unwrap();

    // One byte at a time.
    let mut acc = Accumulator::new();
    for b in transcript {
        acc.feed(&[*b]);
    }
    let d = acc.outcome().unwrap();
    assert_eq!(d.best, whole.best);
    assert_eq!(d.evaluation, whole.evaluation);
    assert_eq!(d.pv, whole.pv);

    // A ragged mid-line split.
    let mut acc = Accumulator::new();
    acc.feed(&transcript[..40]);
    acc.feed(&transcript[40..41]);
    acc.feed(&transcript[41..]);
    let d = acc.outcome().unwrap();
    assert_eq!(d.best, whole.best);
    assert_eq!(d.evaluation, whole.evaluation);
    assert_eq!(d.pv, whole.pv);
}

#[test]
fn later_score_replaces_earlier() {
    let mut acc = Accumulator::new();
    acc.feed(b"info depth 1 score cp 13\n");
    acc.feed(b"info depth 2 score cp -7 upperbound\n");
    acc.feed(b"bestmove e2e4\n");
    let d = acc.outcome().unwrap();
    assert_eq!(d.evaluation, Some(EvaluationReport { score: -7, bound: Bound::AtMost }));
}

#[test]
fn later_pv_replaces_earlier() {
    let mut acc = Accumulator::new();
    acc.feed(b"info pv e2e4 e7e5 g1f3\n");
    acc.feed(b"info pv d2d4\n");
    acc.feed(b"bestmove d2d4\n");
    let d = acc.outcome().unwrap();
    assert_eq!(d.pv, vec![mv(3, 1, 3, 3)]);
}

#[test]
fn empty_pv_does_not_erase_earlier() {
    let mut acc = Accumulator::new();
    acc.feed(b"info pv e2e4\n");
    acc.feed(b"info pv\n");
    acc.feed(b"bestmove e2e4\n");
    let d = acc.outcome().unwrap();
    assert_eq!(d.pv, vec![mv(4, 1, 4, 3)]);
}

#[test]
fn unscored_info_keeps_earlier_report() {
    let mut acc = Accumulator::new();
    acc.feed(b"info score cp 21\n");
    acc.feed(b"info depth 5 nodes 100000\n");
    acc.feed(b"bestmove e2e4\n");
    let d = acc.outcome().unwrap();
    assert_eq!(d.evaluation, Some(EvaluationReport { score: 21, bound: Bound::Exact }));
}

#[test]
fn decision_without_info_lines() {
    let d = run_whole(b"bestmove g1f3\n").unwrap();
    assert_eq!(d.best, mv(6, 0, 5, 2));
    assert_eq!(d.evaluation, None);
    assert_eq!(d.pv, Vec::<Move>::new());
}

#[test]
fn promotion_bestmove() {
    let d = run_whole(b"bestmove e7e8q\n").unwrap();
    assert_eq!(
        d.best,
        Move {
            promotion: Some(uci_session::codec::Promotion::Queen),
            ..mv(4, 6, 4, 7)
        }
    );
}

#[test]
fn lines_after_terminal_line_are_ignored() {
    let mut acc = Accumulator::new();
    acc.feed(b"bestmove e2e4\ninfo score cp 999\n");
    let d = acc.outcome().unwrap();
    assert_eq!(d.best, mv(4, 1, 4, 3));
    assert_eq!(d.evaluation, None);
}

#[test]
fn partial_line_waits_for_newline() {
    let mut acc = Accumulator::new();
    acc.feed(b"bestmove e2e4");
    assert!(!acc.is_done());
    acc.feed(b"\n");
    assert!(acc.is_done());
    assert_eq!(acc.outcome().unwrap().best, mv(4, 1, 4, 3));
}

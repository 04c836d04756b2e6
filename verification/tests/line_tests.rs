use uci_session::codec::{Coordinate, Move};
use uci_session::line::{parse_line, Bound, EvaluationReport, LineEvent, MATE_SCORE};
use uci_session::tokens::{parse_i64, tokenize};

fn mv(ff: u8, fr: u8, tf: u8, tr: u8) -> Move {
    Move {
        origin: Coordinate { file: ff, rank: fr },
        dest: Coordinate { file: tf, rank: tr },
        promotion: None,
    }
}

#[test]
fn tokenize_splits_on_whitespace() {
    let ts = tokenize(b"info  depth 1\t score\r\n");
    let expect: Vec<Vec<u8>> = vec![
        b"info".to_vec(),
        b"depth".to_vec(),
        b"1".to_vec(),
        b"score".to_vec(),
    ];
    assert_eq!(ts, expect);
    assert_eq!(tokenize(b""), Vec::<Vec<u8>>::new());
    assert_eq!(tokenize(b"   "), Vec::<Vec<u8>>::new());
}

#[test]
fn parse_i64_accepts_plain_numerals() {
    assert_eq!(parse_i64(b"0"), Some(0));
    assert_eq!(parse_i64(b"35"), Some(35));
    assert_eq!(parse_i64(b"-120"), Some(-120));
    assert_eq!(parse_i64(b"007"), Some(7));
}

#[test]
fn parse_i64_rejects_malformed_numerals() {
    assert_eq!(parse_i64(b""), None);
    assert_eq!(parse_i64(b"-"), None);
    assert_eq!(parse_i64(b"12a4"), None);
    assert_eq!(parse_i64(b"+35"), None);
    assert_eq!(parse_i64(b"99999999999999999999"), None);
}

#[test]
fn info_line_with_score_and_pv() {
    let ev = parse_line(b"info depth 1 score cp 35 pv e2e4 e7e5");
    match ev {
        LineEvent::Info { score, pv } => {
            assert_eq!(score, Some(EvaluationReport { score: 35, bound: Bound::Exact }));
            assert_eq!(pv, Some(vec![mv(4, 1, 4, 3), mv(4, 6, 4, 4)]));
        }
        _ => panic!("expected an info event"),
    }
}

#[test]
fn info_line_with_bounds() {
    match parse_line(b"info score cp 10 lowerbound") {
        LineEvent::Info { score, .. } => {
            assert_eq!(score, Some(EvaluationReport { score: 10, bound: Bound::AtLeast }));
        }
        _ => panic!("expected an info event"),
    }
    match parse_line(b"info score cp -120 upperbound pv d2d4") {
        LineEvent::Info { score, .. } => {
            assert_eq!(score, Some(EvaluationReport { score: -120, bound: Bound::AtMost }));
        }
        _ => panic!("expected an info event"),
    }
}

#[test]
fn info_line_with_mate_score() {
    match parse_line(b"info score mate 3") {
        LineEvent::Info { score, .. } => {
            assert_eq!(score, Some(EvaluationReport { score: MATE_SCORE, bound: Bound::Exact }));
        }
        _ => panic!("expected an info event"),
    }
    match parse_line(b"info score mate -2") {
        LineEvent::Info { score, .. } => {
            assert_eq!(score, Some(EvaluationReport { score: -MATE_SCORE, bound: Bound::Exact }));
        }
        _ => panic!("expected an info event"),
    }
}

#[test]
fn info_line_with_malformed_score_reports_none() {
    match parse_line(b"info score cp abc pv e2e4") {
        LineEvent::Info { score, pv } => {
            assert_eq!(score, None);
            assert_eq!(pv, Some(vec![mv(4, 1, 4, 3)]));
        }
        _ => panic!("expected an info event"),
    }
    match parse_line(b"info score nodes 500") {
        LineEvent::Info { score, pv } => {
            assert_eq!(score, None);
            assert_eq!(pv, None);
        }
        _ => panic!("expected an info event"),
    }
}

#[test]
fn pv_drops_undecodable_tokens() {
    match parse_line(b"info pv e2e4 castle e7e5") {
        LineEvent::Info { pv, .. } => {
            assert_eq!(pv, Some(vec![mv(4, 1, 4, 3), mv(4, 6, 4, 4)]));
        }
        _ => panic!("expected an info event"),
    }
}

#[test]
fn bestmove_line_with_token() {
    match parse_line(b"bestmove e2e4") {
        LineEvent::BestMove { token, ponder } => {
            assert_eq!(token, Some(b"e2e4".to_vec()));
            assert_eq!(ponder, None);
        }
        _ => panic!("expected a bestmove event"),
    }
}

#[test]
fn bestmove_line_with_ponder() {
    match parse_line(b"bestmove e2e4 ponder e7e5") {
        LineEvent::BestMove { token, ponder } => {
            assert_eq!(token, Some(b"e2e4".to_vec()));
            assert_eq!(ponder, Some(b"e7e5".to_vec()));
        }
        _ => panic!("expected a bestmove event"),
    }
}

#[test]
fn bestmove_line_with_none_token() {
    match parse_line(b"bestmove (none)") {
        LineEvent::BestMove { token, ponder } => {
            assert_eq!(token, None);
            assert_eq!(ponder, None);
        }
        _ => panic!("expected a bestmove event"),
    }
}

#[test]
fn other_lines_are_ignorable() {
    assert!(matches!(parse_line(b""), LineEvent::Ignorable));
    assert!(matches!(parse_line(b"readyok"), LineEvent::Ignorable));
    assert!(matches!(parse_line(b"id name SomeEngine 16"), LineEvent::Ignorable));
    assert!(matches!(
        parse_line(b"option name Hash type spin default 16"),
        LineEvent::Ignorable
    ));
    // Classification is by whole token, not prefix.
    assert!(matches!(parse_line(b"information 1"), LineEvent::Ignorable));
    assert!(matches!(parse_line(b"bestmoves e2e4"), LineEvent::Ignorable));
}

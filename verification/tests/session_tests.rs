use uci_session::session::startup_commands;

#[test]
fn startup_commands_for_initial_position() {
    let fen = b"rnbqkbnr/pppppppp/8/8/8/8/PPPPPPPP/RNBQKBNR w KQkq - 0 1";
    let expect: Vec<u8> = [
        b"uci\n".as_slice(),
        b"isready\n",
        b"ucinewgame\n",
        b"position fen rnbqkbnr/pppppppp/8/8/8/8/PPPPPPPP/RNBQKBNR w KQkq - 0 1\n",
        b"setoption name Skill Level value 20\n",
        b"setoption name Contempt value 100\n",
        b"setoption name UCI_LimitStrength value false\n",
        b"go movetime 5000\n",
    ]
    .concat();
    assert_eq!(startup_commands(fen), expect);
}

#[test]
fn startup_commands_splice_the_fen_whole() {
    let fen = b"8/8/8/8/8/8/8/K6k w - - 0 99";
    let out = startup_commands(fen);
    let text = String::from_utf8(out).unwrap();
    assert!(text.starts_with("uci\nisready\nucinewgame\nposition fen 8/8/8/8/8/8/8/K6k w - - 0 99\n"));
    assert!(text.ends_with("go movetime 5000\n"));
}

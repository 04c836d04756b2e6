use uci_session::codec::{decode, encode, Coordinate, Move, ParseError, Promotion};

fn mv(ff: u8, fr: u8, tf: u8, tr: u8) -> Move {
    Move {
        origin: Coordinate { file: ff, rank: fr },
        dest: Coordinate { file: tf, rank: tr },
        promotion: None,
    }
}

fn promo(ff: u8, fr: u8, tf: u8, tr: u8, p: Promotion) -> Move {
    Move { promotion: Some(p), ..mv(ff, fr, tf, tr) }
}

#[test]
fn decode_plain_move() {
    assert_eq!(decode(b"e2e4"), Ok(mv(4, 1, 4, 3)));
    assert_eq!(decode(b"a1h8"), Ok(mv(0, 0, 7, 7)));
    assert_eq!(decode(b"h8a1"), Ok(mv(7, 7, 0, 0)));
}

#[test]
fn decode_promotion_move() {
    assert_eq!(decode(b"e7e8q"), Ok(promo(4, 6, 4, 7, Promotion::Queen)));
    assert_eq!(decode(b"a2a1r"), Ok(promo(0, 1, 0, 0, Promotion::Rook)));
    assert_eq!(decode(b"b7b8b"), Ok(promo(1, 6, 1, 7, Promotion::Bishop)));
    assert_eq!(decode(b"g2g1n"), Ok(promo(6, 1, 6, 0, Promotion::Knight)));
}

#[test]
fn encode_plain_move() {
    assert_eq!(encode(&mv(4, 1, 4, 3)), b"e2e4".to_vec());
    assert_eq!(encode(&mv(0, 0, 7, 7)), b"a1h8".to_vec());
}

#[test]
fn encode_promotion_move() {
    assert_eq!(encode(&promo(4, 6, 4, 7, Promotion::Queen)), b"e7e8q".to_vec());
    assert_eq!(encode(&promo(6, 1, 6, 0, Promotion::Knight)), b"g2g1n".to_vec());
}

#[test]
fn round_trip_all_plain_moves() {
    for ff in 0..8u8 {
        for fr in 0..8u8 {
            for tf in 0..8u8 {
                for tr in 0..8u8 {
                    let m = mv(ff, fr, tf, tr);
                    assert_eq!(decode(&encode(&m)), Ok(m));
                }
            }
        }
    }
}

#[test]
fn round_trip_promotions() {
    for p in [Promotion::Queen, Promotion::Rook, Promotion::Bishop, Promotion::Knight] {
        let m = promo(4, 6, 4, 7, p);
        assert_eq!(decode(&encode(&m)), Ok(m));
    }
}

#[test]
fn decode_rejects_wrong_length() {
    assert_eq!(decode(b""), Err(ParseError::MalformedToken));
    assert_eq!(decode(b"e2e"), Err(ParseError::MalformedToken));
    assert_eq!(decode(b"e2e4qq"), Err(ParseError::MalformedToken));
}

#[test]
fn decode_rejects_out_of_range_coordinates() {
    assert_eq!(decode(b"i2e4"), Err(ParseError::MalformedToken));
    assert_eq!(decode(b"e9e4"), Err(ParseError::MalformedToken));
    assert_eq!(decode(b"e2i4"), Err(ParseError::MalformedToken));
    assert_eq!(decode(b"e2e0"), Err(ParseError::MalformedToken));
    assert_eq!(decode(b"zz99"), Err(ParseError::MalformedToken));
    assert_eq!(decode(b"0000"), Err(ParseError::MalformedToken));
}

#[test]
fn decode_rejects_bad_promotion_letter() {
    assert_eq!(decode(b"e7e8k"), Err(ParseError::MalformedToken));
    assert_eq!(decode(b"e7e8Q"), Err(ParseError::MalformedToken));
    assert_eq!(decode(b"e7e8 "), Err(ParseError::MalformedToken));
}

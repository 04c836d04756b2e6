//! Move notation codec: the engine's plain algebraic move tokens.
//!
//! A move token is 4 or 5 ASCII bytes: origin file (`a`..`h`), origin rank
//! (`1`..`8`), destination file, destination rank, and an optional trailing
//! promotion letter (`q`, `r`, `b` or `n`).

use vstd::prelude::*;

verus! {

/// Byte value of the letter `a`, the first file.
pub const FILE_BASE: u8 = 97;

/// Byte value of the digit `1`, the first rank.
pub const RANK_BASE: u8 = 49;

/// The piece a pawn may be promoted to.
#[derive(Clone, Copy, Debug, PartialEq, Eq, Structural)]
pub enum Promotion {
    Queen,
    Rook,
    Bishop,
    Knight,
}

/// A board coordinate: a file and a rank, each in `0..8`.
#[derive(Clone, Copy, Debug, PartialEq, Eq, Structural)]
pub struct Coordinate {
    pub file: u8,
    pub rank: u8,
}

impl Coordinate {
    /// Both components lie on the board.
    pub open spec fn wf(self) -> bool {
        self.file < 8 && self.rank < 8
    }
}

/// A move: origin and destination coordinates plus an optional promotion.
/// Equality is structural.
#[derive(Clone, Copy, Debug, PartialEq, Eq, Structural)]
pub struct Move {
    pub origin: Coordinate,
    pub dest: Coordinate,
    pub promotion: Option<Promotion>,
}

impl Move {
    /// Origin and destination lie on the board.
    pub open spec fn wf(self) -> bool {
        self.origin.wf() && self.dest.wf()
    }
}

/// The one way decoding fails: the token is not a well-formed move token.
#[derive(Clone, Copy, Debug, PartialEq, Eq, Structural)]
pub enum ParseError {
    MalformedToken,
}

/// The letter that encodes a promotion piece.
pub open spec fn promo_byte(p: Promotion) -> u8 {
    match p {
        Promotion::Queen => 113,  // q
        Promotion::Rook => 114,  // r
        Promotion::Bishop => 98,  // b
        Promotion::Knight => 110,  // n
    }
}

/// The file denoted by a byte: `a`..`h` map to 0..8, all else is rejected.
pub open spec fn file_of_byte(b: u8) -> Option<u8> {
    if FILE_BASE <= b && b < FILE_BASE + 8 {
        Some((b - FILE_BASE) as u8)
    } else {
        None
    }
}

/// The rank denoted by a byte: `1`..`8` map to 0..8, all else is rejected.
pub open spec fn rank_of_byte(b: u8) -> Option<u8> {
    if RANK_BASE <= b && b < RANK_BASE + 8 {
        Some((b - RANK_BASE) as u8)
    } else {
        None
    }
}

/// The promotion piece denoted by a byte, if any.
pub open spec fn promo_of_byte(b: u8) -> Option<Promotion> {
    if b == promo_byte(Promotion::Queen) {
        Some(Promotion::Queen)
    } else if b == promo_byte(Promotion::Rook) {
        Some(Promotion::Rook)
    } else if b == promo_byte(Promotion::Bishop) {
        Some(Promotion::Bishop)
    } else if b == promo_byte(Promotion::Knight) {
        Some(Promotion::Knight)
    } else {
        None
    }
}

/// The token that encodes a move: origin file and rank, destination file and
/// rank, and the promotion letter exactly when a promotion is present.
pub open spec fn spec_encode(m: Move) -> Seq<u8> {
    let base = seq![
        (m.origin.file + FILE_BASE) as u8,
        (m.origin.rank + RANK_BASE) as u8,
        (m.dest.file + FILE_BASE) as u8,
        (m.dest.rank + RANK_BASE) as u8,
    ];
    match m.promotion {
        None => base,
        Some(p) => base.push(promo_byte(p)),
    }
}

/// The move a token denotes: `Some` exactly on well-formed 4- or 5-byte move
/// tokens, `None` on every other byte sequence.
pub open spec fn spec_decode(t: Seq<u8>) -> Option<Move> {
    if t.len() == 4 || t.len() == 5 {
        match (file_of_byte(t[0]), rank_of_byte(t[1]), file_of_byte(t[2]), rank_of_byte(t[3])) {
            (Some(f0), Some(r0), Some(f1), Some(r1)) => {
                let origin = Coordinate { file: f0, rank: r0 };
                let dest = Coordinate { file: f1, rank: r1 };
                if t.len() == 4 {
                    Some(Move { origin, dest, promotion: None })
                } else {
                    match promo_of_byte(t[4]) {
                        Some(p) => Some(Move { origin, dest, promotion: Some(p) }),
                        None => None,
                    }
                }
            },
            _ => None,
        }
    } else {
        None
    }
}

fn decode_file(b: u8) -> (r: Option<u8>)
    ensures
        r == file_of_byte(b),
{
    if FILE_BASE <= b && b < FILE_BASE + 8 {
        Some(b - FILE_BASE)
    } else {
        None
    }
}

fn decode_rank(b: u8) -> (r: Option<u8>)
    ensures
        r == rank_of_byte(b),
{
    if RANK_BASE <= b && b < RANK_BASE + 8 {
        Some(b - RANK_BASE)
    } else {
        None
    }
}

fn decode_promo(b: u8) -> (r: Option<Promotion>)
    ensures
        r == promo_of_byte(b),
{
    if b == 113 {
        Some(Promotion::Queen)
    } else if b == 114 {
        Some(Promotion::Rook)
    } else if b == 98 {
        Some(Promotion::Bishop)
    } else if b == 110 {
        Some(Promotion::Knight)
    } else {
        None
    }
}

/// Decode a move token. Succeeds exactly on the well-formed tokens; every
/// malformed token (wrong length, out-of-range file or rank, unknown
/// promotion letter) is rejected whole, never decoded in part.
pub fn decode(token: &[u8]) -> (r: Result<Move, ParseError>)
    ensures
        match r {
            Ok(m) => spec_decode(token@) == Some(m) && m.wf(),
            Err(e) => spec_decode(token@) is None && e == ParseError::MalformedToken,
        },
{
    let n = token.len();
    if n != 4 && n != 5 {
        return Err(ParseError::MalformedToken);
    }
    let f0 = decode_file(token[0]);
    let r0 = decode_rank(token[1]);
    let f1 = decode_file(token[2]);
    let r1 = decode_rank(token[3]);
    match (f0, r0, f1, r1) {
        (Some(f0), Some(r0), Some(f1), Some(r1)) => {
            let origin = Coordinate { file: f0, rank: r0 };
            let dest = Coordinate { file: f1, rank: r1 };
            if n == 4 {
                Ok(Move { origin, dest, promotion: None })
            } else {
                match decode_promo(token[4]) {
                    Some(p) => Ok(Move { origin, dest, promotion: Some(p) }),
                    None => Err(ParseError::MalformedToken),
                }
            }
        },
        _ => Err(ParseError::MalformedToken),
    }
}

fn promo_letter(p: Promotion) -> (r: u8)
    ensures
        r == promo_byte(p),
{
    match p {
        Promotion::Queen => 113,
        Promotion::Rook => 114,
        Promotion::Bishop => 98,
        Promotion::Knight => 110,
    }
}

/// Encode a move as its token. The exact inverse of `decode`.
pub fn encode(m: &Move) -> (r: Vec<u8>)
    requires
        m.wf(),
    ensures
        r@ == spec_encode(*m),
{
    let mut v: Vec<u8> = Vec::new();
    v.push(m.origin.file + FILE_BASE);
    v.push(m.origin.rank + RANK_BASE);
    v.push(m.dest.file + FILE_BASE);
    v.push(m.dest.rank + RANK_BASE);
    match m.promotion {
        Some(p) => {
            v.push(promo_letter(p));
        },
        None => {},
    }
    proof {
        assert(v@ =~= spec_encode(*m));
    }
    v
}

/// Law: the codec round-trips. Decoding the encoding of any well-formed move
/// gives that move back.
pub proof fn lemma_round_trip(m: Move)
    requires
        m.wf(),
    ensures
        spec_decode(spec_encode(m)) == Some(m),
{
    let t = spec_encode(m);
    assert(file_of_byte(t[0]) == Some(m.origin.file));
    assert(rank_of_byte(t[1]) == Some(m.origin.rank));
    assert(file_of_byte(t[2]) == Some(m.dest.file));
    assert(rank_of_byte(t[3]) == Some(m.dest.rank));
    match m.promotion {
        None => {},
        Some(p) => {
            assert(promo_of_byte(t[4]) == Some(p));
        },
    }
}

} // verus!


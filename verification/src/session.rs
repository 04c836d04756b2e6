//! Engine session support: the fixed startup and search command sequence
//! written to the engine before its output is read.
//!
//! One session speaks to a freshly spawned engine process. The caller writes
//! `startup_commands` to the engine's input whole, then reads output chunks
//! and feeds them to an `Accumulator` until it is done or the stream closes.

use vstd::prelude::*;

verus! {

/// The bytes before the FEN string: `uci`, `isready` and `ucinewgame` lines,
/// then `position fen ` up to the splice point.
pub open spec fn cmd_prefix() -> Seq<u8> {
    seq![
        117u8, 99u8, 105u8, 10u8,  // uci
        105u8, 115u8, 114u8, 101u8, 97u8, 100u8, 121u8, 10u8,  // isready
        117u8, 99u8, 105u8, 110u8, 101u8, 119u8, 103u8, 97u8, 109u8, 101u8, 10u8,  // ucinewgame
        112u8, 111u8, 115u8, 105u8, 116u8, 105u8, 111u8, 110u8, 32u8,  // position
        102u8, 101u8, 110u8, 32u8,  // fen
    ]
}

/// The bytes after the FEN string: the fixed search policy (skill level 20,
/// contempt 100, strength limiting off) and `go movetime 5000`.
pub open spec fn cmd_suffix() -> Seq<u8> {
    seq![
        10u8,
        115u8, 101u8, 116u8, 111u8, 112u8, 116u8, 105u8, 111u8, 110u8, 32u8,  // setoption
        110u8, 97u8, 109u8, 101u8, 32u8,  // name
        83u8, 107u8, 105u8, 108u8, 108u8, 32u8, 76u8, 101u8, 118u8, 101u8, 108u8, 32u8,  // Skill Level
        118u8, 97u8, 108u8, 117u8, 101u8, 32u8, 50u8, 48u8, 10u8,  // value 20
        115u8, 101u8, 116u8, 111u8, 112u8, 116u8, 105u8, 111u8, 110u8, 32u8,  // setoption
        110u8, 97u8, 109u8, 101u8, 32u8,  // name
        67u8, 111u8, 110u8, 116u8, 101u8, 109u8, 112u8, 116u8, 32u8,  // Contempt
        118u8, 97u8, 108u8, 117u8, 101u8, 32u8, 49u8, 48u8, 48u8, 10u8,  // value 100
        115u8, 101u8, 116u8, 111u8, 112u8, 116u8, 105u8, 111u8, 110u8, 32u8,  // setoption
        110u8, 97u8, 109u8, 101u8, 32u8,  // name
        85u8, 67u8, 73u8, 95u8, 76u8, 105u8, 109u8, 105u8, 116u8,  // UCI_Limit
        83u8, 116u8, 114u8, 101u8, 110u8, 103u8, 116u8, 104u8, 32u8,  // Strength
        118u8, 97u8, 108u8, 117u8, 101u8, 32u8,  // value
        102u8, 97u8, 108u8, 115u8, 101u8, 10u8,  // false
        103u8, 111u8, 32u8,  // go
        109u8, 111u8, 118u8, 101u8, 116u8, 105u8, 109u8, 101u8, 32u8,  // movetime
        53u8, 48u8, 48u8, 48u8, 10u8,  // 5000
    ]
}

/// The whole command sequence one session writes: the fixed prefix, the
/// position's FEN string, and the fixed policy and search commands.
pub open spec fn spec_commands(fen: Seq<u8>) -> Seq<u8> {
    cmd_prefix() + fen + cmd_suffix()
}

/// Append a byte slice to a vector.
fn append_slice(v: &mut Vec<u8>, s: &[u8])
    ensures
        final(v)@ == old(v)@ + s@,
{
    let n = s.len();
    let mut i: usize = 0;
    proof {
        assert(v@ =~= old(v)@ + s@.subrange(0, 0));
    }
    while i < n
        invariant
            i <= n,
            n == s@.len(),
            v@ == old(v)@ + s@.subrange(0, i as int),
        decreases n - i,
    {
        v.push(s[i]);
        proof {
            assert(v@ =~= old(v)@ + s@.subrange(0, i + 1));
        }
        i = i + 1;
    }
    proof {
        assert(s@.subrange(0, n as int) =~= s@);
    }
}

/// The startup protocol for one search of the given position, as the exact
/// bytes to write, whole, to the engine's input before reading its output.
pub fn startup_commands(fen: &[u8]) -> (r: Vec<u8>)
    ensures
        r@ == spec_commands(fen@),
{
    let prefix: [u8; 36] = [
        117, 99, 105, 10, 105, 115, 114, 101, 97, 100, 121, 10, 117, 99, 105, 110, 101, 119, 103,
        97, 109, 101, 10, 112, 111, 115, 105, 116, 105, 111, 110, 32, 102, 101, 110, 32,
    ];
    let suffix: [u8; 133] = [
        10, 115, 101, 116, 111, 112, 116, 105, 111, 110, 32, 110, 97, 109, 101, 32, 83, 107, 105,
        108, 108, 32, 76, 101, 118, 101, 108, 32, 118, 97, 108, 117, 101, 32, 50, 48, 10, 115,
        101, 116, 111, 112, 116, 105, 111, 110, 32, 110, 97, 109, 101, 32, 67, 111, 110, 116, 101,
        109, 112, 116, 32, 118, 97, 108, 117, 101, 32, 49, 48, 48, 10, 115, 101, 116, 111, 112,
        116, 105, 111, 110, 32, 110, 97, 109, 101, 32, 85, 67, 73, 95, 76, 105, 109, 105, 116, 83,
        116, 114, 101, 110, 103, 116, 104, 32, 118, 97, 108, 117, 101, 32, 102, 97, 108, 115, 101,
        10, 103, 111, 32, 109, 111, 118, 101, 116, 105, 109, 101, 32, 53, 48, 48, 48, 10,
    ];
    proof {
        assert(prefix@ =~= cmd_prefix());
        assert(suffix@ =~= cmd_suffix());
    }
    let mut v: Vec<u8> = Vec::new();
    append_slice(&mut v, prefix.as_slice());
    append_slice(&mut v, fen);
    append_slice(&mut v, suffix.as_slice());
    proof {
        assert(v@ =~= spec_commands(fen@));
    }
    v
}

} // verus!

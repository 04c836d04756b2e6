//! Byte-level text helpers: whitespace tokenization of one protocol line,
//! byte-sequence comparison, and decimal integer tokens.

use vstd::prelude::*;

verus! {

/// Bytes that separate tokens: space, tab, carriage return, newline.
pub open spec fn is_ws(b: u8) -> bool {
    b == 32 || b == 9 || b == 13 || b == 10
}

/// One step of tokenization: `s` is the unread rest of the line, `cur` the
/// token being gathered, `acc` the tokens already complete.
pub open spec fn toks(s: Seq<u8>, cur: Seq<u8>, acc: Seq<Seq<u8>>) -> Seq<Seq<u8>>
    decreases s.len(),
{
    if s.len() == 0 {
        if cur.len() == 0 {
            acc
        } else {
            acc.push(cur)
        }
    } else if is_ws(s[0]) {
        if cur.len() == 0 {
            toks(s.drop_first(), Seq::empty(), acc)
        } else {
            toks(s.drop_first(), Seq::empty(), acc.push(cur))
        }
    } else {
        toks(s.drop_first(), cur.push(s[0]), acc)
    }
}

/// The whitespace-separated tokens of a line, in order, each non-empty.
pub open spec fn spec_tokens(s: Seq<u8>) -> Seq<Seq<u8>> {
    toks(s, Seq::empty(), Seq::empty())
}

/// Split a line into its whitespace-separated tokens.
pub fn tokenize(line: &[u8]) -> (r: Vec<Vec<u8>>)
    ensures
        r.deep_view() == spec_tokens(line@),
{
    let n = line.len();
    let mut out: Vec<Vec<u8>> = Vec::new();
    let mut cur: Vec<u8> = Vec::new();
    let mut i: usize = 0;
    proof {
        assert(line@.skip(0) =~= line@);
        assert(cur@ =~= Seq::<u8>::empty());
        assert(out.deep_view() =~~= Seq::<Seq<u8>>::empty());
    }
    while i < n
        invariant
            i <= n,
            n == line@.len(),
            toks(line@.skip(i as int), cur@, out.deep_view()) == spec_tokens(line@),
        decreases n - i,
    {
        let ghost pre = line@.skip(i as int);
        proof {
            assert(pre.len() == n - i);
            assert(pre[0] == line@[i as int]);
            assert(pre.drop_first() =~= line@.skip(i as int + 1));
        }
        let b = line[i];
        if b == 32 || b == 9 || b == 13 || b == 10 {
            if cur.len() > 0 {
                let ghost ov = out.deep_view();
                let ghost cv = cur@;
                out.push(cur);
                cur = Vec::new();
                proof {
                    assert(out.deep_view() =~~= ov.push(cv));
                    assert(cur@ =~= Seq::<u8>::empty());
                }
            } else {
                proof {
                    assert(cur@ =~= Seq::<u8>::empty());
                }
            }
        } else {
            cur.push(b);
        }
        i = i + 1;
    }
    proof {
        assert(line@.skip(n as int) =~= Seq::<u8>::empty());
    }
    if cur.len() > 0 {
        let ghost ov = out.deep_view();
        let ghost cv = cur@;
        out.push(cur);
        proof {
            assert(out.deep_view() =~~= ov.push(cv));
        }
    }
    out
}

/// Compare two byte sequences for equality.
pub fn eq_bytes(a: &[u8], b: &[u8]) -> (r: bool)
    ensures
        r == (a@ == b@),
{
    if a.len() != b.len() {
        return false;
    }
    let n = a.len();
    let mut i: usize = 0;
    while i < n
        invariant
            i <= n,
            n == a@.len(),
            a@.len() == b@.len(),
            forall|j: int| 0 <= j < i ==> a@[j] == b@[j],
        decreases n - i,
    {
        if a[i] != b[i] {
            return false;
        }
        i = i + 1;
    }
    proof {
        assert(a@ =~= b@);
    }
    true
}

/// A decimal digit byte, `0`..`9`.
pub open spec fn is_digit(b: u8) -> bool {
    48 <= b && b <= 57
}

pub open spec fn all_digits(s: Seq<u8>) -> bool {
    forall|i: int| 0 <= i < s.len() ==> is_digit(#[trigger] s[i])
}

/// The value of a sequence of digit bytes read as a decimal numeral.
pub open spec fn dec_val(s: Seq<u8>) -> int
    decreases s.len(),
{
    if s.len() == 0 {
        0
    } else {
        dec_val(s.drop_last()) * 10 + (s.last() - 48)
    }
}

/// The signed integer a token denotes: an optional leading minus sign
/// followed by one or more decimal digits; anything else denotes nothing.
pub open spec fn spec_int_of(t: Seq<u8>) -> Option<int> {
    if t.len() >= 1 && t[0] == 45 {
        let d = t.drop_first();
        if d.len() >= 1 && all_digits(d) {
            Some(-dec_val(d))
        } else {
            None
        }
    } else if t.len() >= 1 && all_digits(t) {
        Some(dec_val(t))
    } else {
        None
    }
}

/// The integer a token denotes, when its magnitude is at most `i64::MAX`;
/// a numeral of larger magnitude is treated as malformed.
pub open spec fn spec_parse_i64(t: Seq<u8>) -> Option<i64> {
    match spec_int_of(t) {
        None => None,
        Some(v) => if -0x7fff_ffff_ffff_ffff <= v <= 0x7fff_ffff_ffff_ffff {
            Some(v as i64)
        } else {
            None
        },
    }
}

proof fn lemma_dec_val_nonneg(s: Seq<u8>)
    requires
        all_digits(s),
    ensures
        dec_val(s) >= 0,
    decreases s.len(),
{
    if s.len() > 0 {
        assert(all_digits(s.drop_last()));
        lemma_dec_val_nonneg(s.drop_last());
    }
}

/// A decimal numeral is at least as large as any of its prefixes.
proof fn lemma_dec_val_prefix(s: Seq<u8>, i: int)
    requires
        all_digits(s),
        0 <= i <= s.len(),
    ensures
        dec_val(s.subrange(0, i)) <= dec_val(s),
    decreases s.len() - i,
{
    if i == s.len() {
        assert(s.subrange(0, i) =~= s);
    } else {
        lemma_dec_val_prefix(s, i + 1);
        let a = s.subrange(0, i);
        let b = s.subrange(0, i + 1);
        assert(b.drop_last() =~= a);
        assert(all_digits(a));
        lemma_dec_val_nonneg(a);
        assert(dec_val(b) == dec_val(a) * 10 + (s[i] - 48));
    }
}

/// Parse the digits of `t` from index `start` on, as a nonnegative numeral.
/// Returns the value when every remaining byte is a digit, there is at least
/// one, and the value fits an `i64`.
fn parse_digits(t: &[u8], start: usize) -> (r: Option<i64>)
    requires
        start <= t@.len(),
    ensures
        ({
            let d = t@.skip(start as int);
            match r {
                Some(v) => d.len() >= 1 && all_digits(d) && v == dec_val(d) && v >= 0,
                None => !(d.len() >= 1 && all_digits(d) && dec_val(d)
                    <= 0x7fff_ffff_ffff_ffff),
            }
        }),
{
    let ghost d = t@.skip(start as int);
    let n = t.len();
    if start == n {
        return None;
    }
    let mut acc: i64 = 0;
    let mut i: usize = start;
    while i < n
        invariant
            start <= i <= n,
            n == t@.len(),
            d == t@.skip(start as int),
            d.len() == n - start,
            all_digits(d.subrange(0, i - start)),
            acc == dec_val(d.subrange(0, i - start)),
            0 <= acc,
        decreases n - i,
    {
        let b = t[i];
        proof {
            assert(d[i - start] == t@[i as int]);
        }
        if !(48 <= b && b <= 57) {
            proof {
                assert(!is_digit(d[i - start]));
                assert(!all_digits(d));
            }
            return None;
        }
        let dg = b - 48;
        let ghost p = d.subrange(0, i - start);
        let ghost q = d.subrange(0, i - start + 1);
        proof {
            assert(q.drop_last() =~= p);
            assert(q.last() == d[i - start]);
            assert(dec_val(q) == acc * 10 + dg);
            assert(all_digits(q));
        }
        if acc > (0x7fff_ffff_ffff_ffffi64 - (dg as i64)) / 10 {
            proof {
                assert(acc * 10 + dg > 0x7fff_ffff_ffff_ffff) by (nonlinear_arith)
                    requires
                        acc > (0x7fff_ffff_ffff_ffffi64 - (dg as i64)) / 10,
                        0 <= dg <= 9,
                        acc >= 0,
                ;
                if all_digits(d) {
                    lemma_dec_val_prefix(d, i - start + 1);
                    assert(dec_val(d) >= dec_val(q) > 0x7fff_ffff_ffff_ffff);
                }
            }
            return None;
        }
        proof {
            assert(acc * 10 + dg <= 0x7fff_ffff_ffff_ffff) by (nonlinear_arith)
                requires
                    acc <= (0x7fff_ffff_ffff_ffffi64 - (dg as i64)) / 10,
                    0 <= dg <= 9,
                    acc >= 0,
            ;
        }
        acc = acc * 10 + (dg as i64);
        i = i + 1;
    }
    proof {
        assert(d.subrange(0, n - start) =~= d);
    }
    Some(acc)
}

/// Parse a signed decimal token. Succeeds exactly on tokens of an optional
/// minus sign and one or more digits whose value's magnitude fits an `i64`.
pub fn parse_i64(t: &[u8]) -> (r: Option<i64>)
    ensures
        r == spec_parse_i64(t@),
{
    if t.len() == 0 {
        return None;
    }
    if t[0] == 45 {
        proof {
            assert(t@.skip(1) =~= t@.drop_first());
        }
        match parse_digits(t, 1) {
            Some(v) => Some(-v),
            None => None,
        }
    } else {
        proof {
            assert(t@.skip(0) =~= t@);
        }
        parse_digits(t, 0)
    }
}

} // verus!

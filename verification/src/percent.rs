//! Percent-coding of proxy-form URL targets.
//!
//! A rewritten link carries the absolute target URL percent-encoded into the
//! proxy's `/~/` path segment; an inbound request carries such a segment to
//! be decoded again. The encoder keeps only unreserved bytes and escapes
//! everything else as `%XX` with upper-case hex digits; the decoder accepts
//! any `%`-escape and is proved to invert the encoder exactly
//! (`lemma_pct_round_trip`).

use vstd::prelude::*;

verus! {

/// RFC 3986 unreserved bytes: ASCII alphanumerics and `-`, `.`, `_`, `~`.
pub open spec fn is_unreserved(b: u8) -> bool {
    (48 <= b && b <= 57) || (65 <= b && b <= 90) || (97 <= b && b <= 122) || b == 45 || b == 46
        || b == 95 || b == 126
}

/// Upper-case hex digit for a nibble.
pub open spec fn hex_digit(n: u8) -> u8 {
    if n < 10 {
        (48 + n) as u8
    } else {
        (55 + n) as u8
    }
}

/// Is `b` an ASCII hex digit (either case)?
pub open spec fn is_hex(b: u8) -> bool {
    (48 <= b && b <= 57) || (65 <= b && b <= 70) || (97 <= b && b <= 102)
}

/// Numeric value of a hex digit byte.
pub open spec fn hex_val(b: u8) -> u8 {
    if 48 <= b && b <= 57 {
        (b - 48) as u8
    } else if 65 <= b && b <= 70 {
        (b - 55) as u8
    } else if 97 <= b && b <= 102 {
        (b - 87) as u8
    } else {
        0
    }
}

/// Encoding of one byte: itself if unreserved, `%XX` otherwise.
pub open spec fn encode_byte(b: u8) -> Seq<u8> {
    if is_unreserved(b) {
        seq![b]
    } else {
        seq![37u8, hex_digit(b / 16), hex_digit(b % 16)]
    }
}

/// Encoding of the suffix of `s` that starts at `i`.
pub open spec fn pct_encode_from(s: Seq<u8>, i: int) -> Seq<u8>
    decreases s.len() - i,
{
    if i < 0 || i >= s.len() {
        Seq::empty()
    } else {
        encode_byte(s[i]) + pct_encode_from(s, i + 1)
    }
}

/// Percent-encoding of a whole byte sequence.
pub open spec fn pct_encode(s: Seq<u8>) -> Seq<u8> {
    pct_encode_from(s, 0)
}

/// Decoding of the suffix of `s` that starts at `i`; `None` on a truncated
/// or non-hex escape.
pub open spec fn pct_decode_from(s: Seq<u8>, i: int) -> Option<Seq<u8>>
    decreases s.len() - i,
{
    if i < 0 {
        None
    } else if i >= s.len() {
        Some(Seq::empty())
    } else if s[i] == 37 {
        if i + 2 < s.len() && is_hex(s[i + 1]) && is_hex(s[i + 2]) {
            match pct_decode_from(s, i + 3) {
                Some(rest) => Some(
                    seq![((16 * hex_val(s[i + 1]) + hex_val(s[i + 2])) as u8)] + rest,
                ),
                None => None,
            }
        } else {
            None
        }
    } else {
        match pct_decode_from(s, i + 1) {
            Some(rest) => Some(seq![s[i]] + rest),
            None => None,
        }
    }
}

/// Percent-decoding of a whole byte sequence.
pub open spec fn pct_decode(s: Seq<u8>) -> Option<Seq<u8>> {
    pct_decode_from(s, 0)
}

pub fn is_unreserved_ex(b: u8) -> (r: bool)
    ensures
        r == is_unreserved(b),
{
    (48 <= b && b <= 57) || (65 <= b && b <= 90) || (97 <= b && b <= 122) || b == 45 || b == 46
        || b == 95 || b == 126
}

pub fn hex_digit_ex(n: u8) -> (r: u8)
    requires
        n < 16,
    ensures
        r == hex_digit(n),
{
    if n < 10 {
        48 + n
    } else {
        55 + n
    }
}

pub fn is_hex_ex(b: u8) -> (r: bool)
    ensures
        r == is_hex(b),
{
    (48 <= b && b <= 57) || (65 <= b && b <= 70) || (97 <= b && b <= 102)
}

pub fn hex_val_ex(b: u8) -> (r: u8)
    ensures
        r == hex_val(b),
{
    if 48 <= b && b <= 57 {
        b - 48
    } else if 65 <= b && b <= 70 {
        b - 55
    } else if 97 <= b && b <= 102 {
        b - 87
    } else {
        0
    }
}

/// Percent-encode `s`.
pub fn percent_encode(s: &[u8]) -> (r: Vec<u8>)
    ensures
        r@ == pct_encode(s@),
{
    let mut out: Vec<u8> = Vec::new();
    assert(pct_encode(s@) =~= out@ + pct_encode_from(s@, 0));
    let mut i: usize = 0;
    while i < s.len()
        invariant
            i <= s@.len(),
            pct_encode(s@) == out@ + pct_encode_from(s@, i as int),
        decreases s@.len() - i,
    {
        let b = s[i];
        let ghost old_out = out@;
        if is_unreserved_ex(b) {
            out.push(b);
        } else {
            out.push(37);
            out.push(hex_digit_ex(b / 16));
            out.push(hex_digit_ex(b % 16));
        }
        assert(out@ == old_out + encode_byte(s@[i as int])) by {
            assert(out@ =~= old_out + encode_byte(s@[i as int]));
        }
        assert(pct_encode(s@) == out@ + pct_encode_from(s@, i + 1)) by {
            assert(old_out + (encode_byte(s@[i as int]) + pct_encode_from(s@, i + 1)) =~= (old_out
                + encode_byte(s@[i as int])) + pct_encode_from(s@, i + 1));
        }
        i += 1;
    }
    assert(pct_encode(s@) =~= out@);
    out
}

/// Prefix `p` pushed in front of a decode result, failure kept as failure.
pub open spec fn opt_prepend(p: Seq<u8>, o: Option<Seq<u8>>) -> Option<Seq<u8>> {
    match o {
        Some(t) => Some(p + t),
        None => None,
    }
}

/// Percent-decode `s`; `None` exactly on a malformed escape.
pub fn percent_decode(s: &[u8]) -> (r: Option<Vec<u8>>)
    ensures
        match r {
            Some(v) => pct_decode(s@) == Some(v@),
            None => pct_decode(s@) is None,
        },
{
    let mut out: Vec<u8> = Vec::new();
    assert(opt_prepend(out@, pct_decode_from(s@, 0)) == pct_decode(s@)) by {
        match pct_decode_from(s@, 0) {
            Some(t) => {
                assert(out@ + t =~= t);
            },
            None => {},
        }
    }
    let mut i: usize = 0;
    while i < s.len()
        invariant
            i <= s@.len(),
            opt_prepend(out@, pct_decode_from(s@, i as int)) == pct_decode(s@),
        decreases s@.len() - i,
    {
        let b = s[i];
        let ghost old_out = out@;
        if b == 37 {
            if s.len() - i < 3 || !is_hex_ex(s[i + 1]) || !is_hex_ex(s[i + 2]) {
                return None;
            }
            let v = 16 * hex_val_ex(s[i + 1]) + hex_val_ex(s[i + 2]);
            out.push(v);
            proof {
                let rest = pct_decode_from(s@, i + 3);
                match rest {
                    Some(t) => {
                        assert(old_out + (seq![v] + t) =~= out@ + t);
                    },
                    None => {},
                }
            }
            i += 3;
        } else {
            out.push(b);
            proof {
                let rest = pct_decode_from(s@, i + 1);
                match rest {
                    Some(t) => {
                        assert(old_out + (seq![b] + t) =~= out@ + t);
                    },
                    None => {},
                }
            }
            i += 1;
        }
    }
    proof {
        assert(pct_decode_from(s@, i as int) == Some(Seq::<u8>::empty()));
        assert(out@ + Seq::<u8>::empty() =~= out@);
    }
    Some(out)
}

/// Decoding picks up after a leading sequence exactly where it would have
/// started on the trailing sequence alone.
proof fn lemma_decode_shift(a: Seq<u8>, b: Seq<u8>, k: int)
    requires
        0 <= k,
    ensures
        pct_decode_from(a + b, a.len() + k) == pct_decode_from(b, k),
    decreases b.len() - k,
{
    let t = a + b;
    if k >= b.len() {
        assert(pct_decode_from(t, a.len() + k) == Some(Seq::<u8>::empty()));
    } else {
        assert(t[a.len() + k] == b[k]);
        if b[k] == 37 {
            if k + 2 < b.len() && is_hex(b[k + 1]) && is_hex(b[k + 2]) {
                assert(t[a.len() + k + 1] == b[k + 1]);
                assert(t[a.len() + k + 2] == b[k + 2]);
                lemma_decode_shift(a, b, k + 3);
            } else {
                if k + 2 < b.len() {
                    assert(t[a.len() + k + 1] == b[k + 1]);
                    assert(t[a.len() + k + 2] == b[k + 2]);
                }
            }
        } else {
            lemma_decode_shift(a, b, k + 1);
        }
    }
}

/// Decoding the encoding of the suffix of `s` at `i` gives that suffix back.
proof fn lemma_encode_decode_from(s: Seq<u8>, i: int)
    requires
        0 <= i <= s.len(),
    ensures
        pct_decode(pct_encode_from(s, i)) == Some(s.skip(i)),
    decreases s.len() - i,
{
    if i >= s.len() {
        assert(s.skip(i) =~= Seq::<u8>::empty());
    } else {
        lemma_encode_decode_from(s, i + 1);
        let eb = encode_byte(s[i]);
        let rest = pct_encode_from(s, i + 1);
        let t = eb + rest;
        assert(pct_encode_from(s, i) == t);
        if is_unreserved(s[i]) {
            assert(t[0] == s[i]);
            assert(t[0] != 37);
            lemma_decode_shift(eb, rest, 0);
            assert(pct_decode_from(t, 1) == pct_decode_from(rest, 0));
            assert(pct_decode(t) == Some(seq![s[i]] + s.skip(i + 1)));
            assert(seq![s[i]] + s.skip(i + 1) =~= s.skip(i));
        } else {
            let b = s[i];
            assert(t[0] == 37);
            assert(t[1] == hex_digit(b / 16));
            assert(t[2] == hex_digit(b % 16));
            assert(is_hex(hex_digit(b / 16)));
            assert(is_hex(hex_digit(b % 16)));
            assert(hex_val(hex_digit(b / 16)) == b / 16);
            assert(hex_val(hex_digit(b % 16)) == b % 16);
            assert(16 * (b / 16) + b % 16 == b);
            assert(2 < t.len());
            lemma_decode_shift(eb, rest, 0);
            assert(pct_decode_from(t, 3) == pct_decode_from(rest, 0));
            assert(pct_decode(t) == Some(seq![b] + s.skip(i + 1)));
            assert(seq![b] + s.skip(i + 1) =~= s.skip(i));
        }
    }
}

/// Round trip: decoding a percent-encoded sequence restores it exactly.
/// This is what lets a proxy-form link be re-resolved to the original
/// target.
pub proof fn lemma_pct_round_trip(s: Seq<u8>)
    ensures
        pct_decode(pct_encode(s)) == Some(s),
{
    lemma_encode_decode_from(s, 0);
    assert(s.skip(0) =~= s);
}

} // verus!

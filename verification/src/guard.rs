//! The origin guard: the SSRF check that rejects a resolved target whose
//! literal host is `localhost`, a numeric IPv4 address outside the
//! globally routable space (private, loopback, link-local, multicast and
//! other reserved blocks), or a bracketed IPv6 literal in one of the
//! corresponding blocks.
//!
//! The guard inspects only the literal host text of the resolved URL; a
//! hostname that merely resolves to a private address at connect time is a
//! known limitation of this design and is not caught here.

use vstd::prelude::*;
use vstd::string::StrSliceExecFns;
use vstd::string::StringSliceAdditionalSpecFns;
use crate::ascii::eq_bytes;
use crate::percent::{hex_val, hex_val_ex, is_hex, is_hex_ex};

verus! {

pub open spec fn is_digit(b: u8) -> bool {
    48 <= b && b <= 57
}

/// First index at or after `i` that does not hold a decimal digit.
pub open spec fn digit_run_end(s: Seq<u8>, i: int) -> int
    decreases s.len() - i,
{
    if 0 <= i < s.len() && is_digit(s[i]) {
        digit_run_end(s, i + 1)
    } else {
        i
    }
}

/// Value of the decimal digits `s[i..j)`.
pub open spec fn digits_val(s: Seq<u8>, i: int, j: int) -> int
    decreases j - i,
{
    if j <= i {
        0
    } else {
        digits_val(s, i, j - 1) * 10 + (s[j - 1] - 48)
    }
}

/// One dotted-quad octet starting at `i`: one to three digits, no leading
/// zero, value at most 255. Returns the value and the index after it.
pub open spec fn octet_at(s: Seq<u8>, i: int) -> Option<(u8, int)> {
    let e = digit_run_end(s, i);
    if 1 <= e - i <= 3 && (e - i == 1 || s[i] != 48) && digits_val(s, i, e) <= 255 {
        Some(((digits_val(s, i, e)) as u8, e))
    } else {
        None
    }
}

/// The standard textual IPv4 form: four octets separated by dots, nothing
/// before or after.
pub open spec fn spec_parse_ipv4(s: Seq<u8>) -> Option<(u8, u8, u8, u8)> {
    match octet_at(s, 0) {
        Some((a, e1)) => if e1 < s.len() && s[e1] == 46 {
            match octet_at(s, e1 + 1) {
                Some((b, e2)) => if e2 < s.len() && s[e2] == 46 {
                    match octet_at(s, e2 + 1) {
                        Some((c, e3)) => if e3 < s.len() && s[e3] == 46 {
                            match octet_at(s, e3 + 1) {
                                Some((d, e4)) => if e4 == s.len() {
                                    Some((a, b, c, d))
                                } else {
                                    None
                                },
                                None => None,
                            }
                        } else {
                            None
                        },
                        None => None,
                    }
                } else {
                    None
                },
                None => None,
            }
        } else {
            None
        },
        None => None,
    }
}

/// Is the address globally routable? Excluded blocks: "this network"
/// (0.0.0.0/8), private ranges, the shared range (100.64.0.0/10), loopback,
/// link-local, the protocol-assignment block 192.0.0.0/24 (but for the two
/// globally reachable addresses 192.0.0.9 and 192.0.0.10), documentation
/// and benchmarking ranges, and everything from 240.0.0.0 up, broadcast
/// included. Multicast (224.0.0.0/4) is kept out too.
pub open spec fn ipv4_global(a: u8, b: u8, c: u8, d: u8) -> bool {
    !(a == 0 || a == 10 || (a == 172 && 16 <= b && b <= 31) || (a == 192 && b == 168) || (a == 100
        && 64 <= b && b <= 127) || a == 127 || (a == 169 && b == 254) || (a == 192 && b == 0 && c
        == 0 && !(d == 9 || d == 10)) || (a == 192 && b == 0 && c == 2) || (a == 198 && b == 51
        && c == 100) || (a == 203 && b == 0 && c == 113) || (a == 198 && (b == 18 || b == 19)) || (
    224 <= a && a <= 239) || a >= 240)
}

/// First index in `[i, j)` that holds no hex digit, else `j`.
pub open spec fn hex_end(s: Seq<u8>, i: int, j: int) -> int
    decreases j - i,
{
    if i < j && is_hex(s[i]) {
        hex_end(s, i + 1, j)
    } else {
        i
    }
}

/// First index in `[i, j)` that holds a colon, else `j`.
pub open spec fn colon_or_end(s: Seq<u8>, i: int, j: int) -> int
    decreases j - i,
{
    if i < j && s[i] != 58 {
        colon_or_end(s, i + 1, j)
    } else {
        i
    }
}

/// Value of the hex digits `s[i..j)`.
pub open spec fn hex_group_val(s: Seq<u8>, i: int, j: int) -> int
    decreases j - i,
{
    if j <= i {
        0
    } else {
        hex_group_val(s, i, j - 1) * 16 + hex_val(s[j - 1])
    }
}

proof fn lemma_colon_or_end(s: Seq<u8>, i: int, j: int)
    ensures
        i <= j ==> i <= colon_or_end(s, i, j) <= j,
    decreases j - i,
{
    if i < j && s[i] != 58 {
        lemma_colon_or_end(s, i + 1, j);
    }
}

#[via_fn]
proof fn parse_pieces_via(s: Seq<u8>, i: int, j: int, allow_v4: bool) {
    lemma_colon_or_end(s, i, j);
}

/// The colon-separated pieces of `s[i..j)` as 16-bit groups: each piece
/// is one to four hex digits, or — when `allow_v4` and it is the last
/// piece — a dotted-quad IPv4 tail standing for the two final groups.
/// `None` on an empty or malformed piece.
pub open spec fn parse_pieces(s: Seq<u8>, i: int, j: int, allow_v4: bool) -> Option<Seq<u16>>
    decreases j - i,
    via parse_pieces_via
{
    if i < 0 || i >= j || j > s.len() {
        None
    } else {
        let e = colon_or_end(s, i, j);
        if e == i {
            None
        } else if hex_end(s, i, e) == e && e - i <= 4 {
            let g = hex_group_val(s, i, e) as u16;
            if e >= j {
                Some(seq![g])
            } else {
                match parse_pieces(s, e + 1, j, allow_v4) {
                    Some(rest) => Some(seq![g] + rest),
                    None => None,
                }
            }
        } else if allow_v4 && e >= j {
            match spec_parse_ipv4(s.subrange(i, j)) {
                Some((a, b, c, d)) => Some(seq![(a * 256 + b) as u16, (c * 256 + d) as u16]),
                None => None,
            }
        } else {
            None
        }
    }
}

/// First index at or after `i` where `::` stands, else the length.
pub open spec fn dcolon_from(s: Seq<u8>, i: int) -> int
    decreases s.len() - i,
{
    if 0 <= i && i + 1 < s.len() {
        if s[i] == 58 && s[i + 1] == 58 {
            i
        } else {
            dcolon_from(s, i + 1)
        }
    } else {
        s.len() as int
    }
}

pub open spec fn zero_groups(n: int) -> Seq<u16> {
    Seq::new(n as nat, |k: int| 0u16)
}

/// The textual IPv6 form (inside the brackets): colon-separated groups of
/// at most four hex digits each, at most one `::` standing in for the
/// elided zero groups, and optionally a dotted-quad tail; eight groups in
/// all.
pub open spec fn spec_parse_ipv6(s: Seq<u8>) -> Option<Seq<u16>> {
    let k = dcolon_from(s, 0);
    if k == s.len() {
        match parse_pieces(s, 0, s.len() as int, true) {
            Some(g) => if g.len() == 8 {
                Some(g)
            } else {
                None
            },
            None => None,
        }
    } else {
        let lg = if k == 0 {
            Some(Seq::<u16>::empty())
        } else {
            parse_pieces(s, 0, k, false)
        };
        let rg = if k + 2 == s.len() {
            Some(Seq::<u16>::empty())
        } else {
            parse_pieces(s, k + 2, s.len() as int, true)
        };
        match (lg, rg) {
            (Some(l), Some(r)) => if l.len() + r.len() <= 7 {
                Some(l + zero_groups(8 - l.len() - r.len()) + r)
            } else {
                None
            },
            _ => None,
        }
    }
}

/// Is the address globally routable? Excluded: unspecified (`::`),
/// loopback (`::1`), link-local (`fe80::/10`), unique-local
/// (`fc00::/7`), multicast (`ff00::/8`), and an IPv4-mapped address
/// (`::ffff:0:0/96`) whose embedded IPv4 address is itself not globally
/// routable.
pub open spec fn ipv6_global(g: Seq<u16>) -> bool {
    !((g[0] == 0 && g[1] == 0 && g[2] == 0 && g[3] == 0 && g[4] == 0 && g[5] == 0 && g[6] == 0 && (
    g[7] == 0 || g[7] == 1)) || (0xfe80 <= g[0] && g[0] <= 0xfebf) || (0xfc00 <= g[0] && g[0]
        <= 0xfdff) || g[0] >= 0xff00 || (g[0] == 0 && g[1] == 0 && g[2] == 0 && g[3] == 0 && g[4]
        == 0 && g[5] == 0xffff && !ipv4_global(
        (g[6] / 256) as u8,
        (g[6] % 256) as u8,
        (g[7] / 256) as u8,
        (g[7] % 256) as u8,
    )))
}

/// A host is blocked when it is the literal `localhost`, an IPv4 literal
/// that is not globally routable, or a bracketed IPv6 literal that is
/// not.
pub open spec fn blocked_host(h: Seq<u8>) -> bool {
    h == "localhost".spec_bytes() || (match spec_parse_ipv4(h) {
        Some((a, b, c, d)) => !ipv4_global(a, b, c, d),
        None => false,
    }) || (h.len() >= 2 && h[0] == 91 && h[h.len() - 1] == 93 && (match spec_parse_ipv6(
        h.subrange(1, h.len() - 1),
    ) {
        Some(g) => !ipv6_global(g),
        None => false,
    }))
}

/// The canonical decimal rendering of one octet: no leading zeros.
pub open spec fn dec_rep(n: u8) -> Seq<u8> {
    if n < 10 {
        seq![(48 + n) as u8]
    } else if n < 100 {
        seq![(48 + n / 10) as u8, (48 + n % 10) as u8]
    } else {
        seq![(48 + n / 100) as u8, (48 + (n / 10) % 10) as u8, (48 + n % 10) as u8]
    }
}

/// The canonical dotted-quad text of an address.
pub open spec fn ipv4_text(a: u8, b: u8, c: u8, d: u8) -> Seq<u8> {
    dec_rep(a) + seq![46u8] + dec_rep(b) + seq![46u8] + dec_rep(c) + seq![46u8] + dec_rep(d)
}

proof fn lemma_dec_rep(n: u8)
    ensures
        1 <= dec_rep(n).len() <= 3,
        forall|k: int| 0 <= k < dec_rep(n).len() ==> is_digit(#[trigger] dec_rep(n)[k]),
        dec_rep(n).len() > 1 ==> dec_rep(n)[0] != 48,
        digits_val(dec_rep(n), 0, dec_rep(n).len() as int) == n,
{
    let p = dec_rep(n);
    if n < 10 {
        assert(digits_val(p, 0, 1) == digits_val(p, 0, 0) * 10 + (p[0] - 48));
    } else if n < 100 {
        assert(digits_val(p, 0, 1) == digits_val(p, 0, 0) * 10 + (p[0] - 48));
        assert(digits_val(p, 0, 2) == digits_val(p, 0, 1) * 10 + (p[1] - 48));
        assert((n / 10) * 10 + n % 10 == n);
    } else {
        assert(digits_val(p, 0, 1) == digits_val(p, 0, 0) * 10 + (p[0] - 48));
        assert(digits_val(p, 0, 2) == digits_val(p, 0, 1) * 10 + (p[1] - 48));
        assert(digits_val(p, 0, 3) == digits_val(p, 0, 2) * 10 + (p[2] - 48));
        assert(n / 10 == (n / 100) * 10 + (n / 10) % 10);
        assert((n / 10) * 10 + n % 10 == n);
    }
}

proof fn lemma_digits_val_congruent(s: Seq<u8>, i: int, p: Seq<u8>, m: int)
    requires
        0 <= i,
        0 <= m <= p.len(),
        i + p.len() <= s.len(),
        forall|k: int| 0 <= k < p.len() ==> s[i + k] == #[trigger] p[k],
    ensures
        digits_val(s, i, i + m) == digits_val(p, 0, m),
    decreases m,
{
    if m > 0 {
        lemma_digits_val_congruent(s, i, p, m - 1);
        assert(s[i + (m - 1)] == p[m - 1]);
    }
}

proof fn lemma_digit_run_end_exact(s: Seq<u8>, i: int, j: int)
    requires
        0 <= i <= j <= s.len(),
        forall|k: int| i <= k < j ==> is_digit(#[trigger] s[k]),
        j == s.len() || !is_digit(s[j]),
    ensures
        digit_run_end(s, i) == j,
    decreases j - i,
{
    if i < j {
        lemma_digit_run_end_exact(s, i + 1, j);
    }
}

/// The dotted-quad grammar accepts every canonical rendering: the guard's
/// notion of an IPv4 literal contains each address under its standard
/// text.
pub proof fn lemma_ipv4_canonical(a: u8, b: u8, c: u8, d: u8)
    ensures
        spec_parse_ipv4(ipv4_text(a, b, c, d)) == Some((a, b, c, d)),
{
    let s = ipv4_text(a, b, c, d);
    let p1 = dec_rep(a);
    let p2 = dec_rep(b);
    let p3 = dec_rep(c);
    let p4 = dec_rep(d);
    let l1 = p1.len() as int;
    let l2 = p2.len() as int;
    let l3 = p3.len() as int;
    let l4 = p4.len() as int;
    lemma_dec_rep(a);
    lemma_dec_rep(b);
    lemma_dec_rep(c);
    lemma_dec_rep(d);
    let o2 = l1 + 1;
    let o3 = l1 + 1 + l2 + 1;
    let o4 = l1 + 1 + l2 + 1 + l3 + 1;
    assert(s.len() == l1 + l2 + l3 + l4 + 3);
    assert(forall|k: int| 0 <= k < l1 ==> s[k] == #[trigger] p1[k]);
    assert(s[l1] == 46);
    assert(forall|k: int| 0 <= k < l2 ==> s[o2 + k] == #[trigger] p2[k]);
    assert(s[o3 - 1] == 46);
    assert(forall|k: int| 0 <= k < l3 ==> s[o3 + k] == #[trigger] p3[k]);
    assert(s[o4 - 1] == 46);
    assert(forall|k: int| 0 <= k < l4 ==> s[o4 + k] == #[trigger] p4[k]);

    lemma_digit_run_end_exact(s, 0, l1);
    lemma_digits_val_congruent(s, 0, p1, l1);
    assert(octet_at(s, 0) == Some((a, l1)));

    lemma_digit_run_end_exact(s, o2, o2 + l2);
    lemma_digits_val_congruent(s, o2, p2, l2);
    assert(octet_at(s, o2) == Some((b, o2 + l2)));

    lemma_digit_run_end_exact(s, o3, o3 + l3);
    lemma_digits_val_congruent(s, o3, p3, l3);
    assert(octet_at(s, o3) == Some((c, o3 + l3)));

    lemma_digit_run_end_exact(s, o4, o4 + l4);
    lemma_digits_val_congruent(s, o4, p4, l4);
    assert(octet_at(s, o4) == Some((d, o4 + l4)));
}

proof fn lemma_dec_rep_inverse(p: Seq<u8>)
    requires
        1 <= p.len() <= 3,
        forall|k: int| 0 <= k < p.len() ==> is_digit(#[trigger] p[k]),
        p.len() > 1 ==> p[0] != 48,
        digits_val(p, 0, p.len() as int) <= 255,
    ensures
        p =~= dec_rep(digits_val(p, 0, p.len() as int) as u8),
{
    let n = digits_val(p, 0, p.len() as int);
    assert(digits_val(p, 0, 1) == digits_val(p, 0, 0) * 10 + (p[0] - 48));
    if p.len() == 2 {
        assert(digits_val(p, 0, 2) == digits_val(p, 0, 1) * 10 + (p[1] - 48));
        assert(n / 10 == p[0] - 48 && n % 10 == p[1] - 48) by (nonlinear_arith)
            requires
                n == (p[0] - 48) * 10 + (p[1] - 48),
                1 <= p[0] - 48 <= 9,
                0 <= p[1] - 48 <= 9,
        ;
    } else if p.len() == 3 {
        assert(digits_val(p, 0, 2) == digits_val(p, 0, 1) * 10 + (p[1] - 48));
        assert(digits_val(p, 0, 3) == digits_val(p, 0, 2) * 10 + (p[2] - 48));
        assert(n / 100 == p[0] - 48 && (n / 10) % 10 == p[1] - 48 && n % 10 == p[2] - 48)
            by (nonlinear_arith)
            requires
                n == ((p[0] - 48) * 10 + (p[1] - 48)) * 10 + (p[2] - 48),
                1 <= p[0] - 48 <= 9,
                0 <= p[1] - 48 <= 9,
                0 <= p[2] - 48 <= 9,
        ;
    }
}

/// The converse: the grammar accepts nothing but the canonical texts —
/// what parses as `(a, b, c, d)` is the standard rendering of
/// `(a, b, c, d)`, character for character.
#[verifier::rlimit(100)]
pub proof fn lemma_ipv4_only_canonical(s: Seq<u8>, a: u8, b: u8, c: u8, d: u8)
    requires
        spec_parse_ipv4(s) == Some((a, b, c, d)),
    ensures
        s == ipv4_text(a, b, c, d),
{
    match octet_at(s, 0) {
        Some((a1, e1)) => match octet_at(s, e1 + 1) {
            Some((b1, e2)) => match octet_at(s, e2 + 1) {
                Some((c1, e3)) => match octet_at(s, e3 + 1) {
                    Some((d1, e4)) => {
                        lemma_digit_run_end(s, 0);
                        lemma_digit_run_end(s, e1 + 1);
                        lemma_digit_run_end(s, e2 + 1);
                        lemma_digit_run_end(s, e3 + 1);
                        let p1 = s.subrange(0, e1);
                        let p2 = s.subrange(e1 + 1, e2);
                        let p3 = s.subrange(e2 + 1, e3);
                        let p4 = s.subrange(e3 + 1, e4);
                        lemma_digits_val_congruent(s, 0, p1, p1.len() as int);
                        lemma_digits_val_congruent(s, e1 + 1, p2, p2.len() as int);
                        lemma_digits_val_congruent(s, e2 + 1, p3, p3.len() as int);
                        lemma_digits_val_congruent(s, e3 + 1, p4, p4.len() as int);
                        lemma_dec_rep_inverse(p1);
                        lemma_dec_rep_inverse(p2);
                        lemma_dec_rep_inverse(p3);
                        lemma_dec_rep_inverse(p4);
                        assert(s =~= p1 + seq![46u8] + p2 + seq![46u8] + p3 + seq![46u8] + p4);
                    },
                    None => {},
                },
                None => {},
            },
            None => {},
        },
        None => {},
    }
}

/// The guard's policy in one statement: every address outside the
/// globally routable space is blocked under its standard dotted-quad
/// text, as the literal `localhost` is blocked by name.
pub proof fn lemma_guard_blocks_non_global(a: u8, b: u8, c: u8, d: u8)
    requires
        !ipv4_global(a, b, c, d),
    ensures
        blocked_host(ipv4_text(a, b, c, d)),
{
    lemma_ipv4_canonical(a, b, c, d);
}

proof fn lemma_digit_run_end(s: Seq<u8>, i: int)
    requires
        0 <= i <= s.len(),
    ensures
        i <= digit_run_end(s, i) <= s.len(),
        forall|k: int| i <= k < digit_run_end(s, i) ==> is_digit(s[k]),
        digit_run_end(s, i) == s.len() || !is_digit(s[digit_run_end(s, i)]),
    decreases s.len() - i,
{
    if i < s.len() && is_digit(s[i]) {
        lemma_digit_run_end(s, i + 1);
    }
}

fn digit_run_end_ex(s: &[u8], i: usize) -> (r: usize)
    requires
        i <= s@.len(),
    ensures
        r == digit_run_end(s@, i as int),
{
    let mut j: usize = i;
    while j < s.len() && 48 <= s[j] && s[j] <= 57
        invariant
            i <= j <= s@.len(),
            digit_run_end(s@, i as int) == digit_run_end(s@, j as int),
        decreases s@.len() - j,
    {
        j += 1;
    }
    j
}

fn parse_octet(s: &[u8], i: usize) -> (r: Option<(u8, usize)>)
    requires
        i <= s@.len(),
    ensures
        match r {
            Some((v, e)) => octet_at(s@, i as int) == Some((v, e as int)) && i < e <= s@.len(),
            None => octet_at(s@, i as int) is None,
        },
{
    let e = digit_run_end_ex(s, i);
    proof {
        lemma_digit_run_end(s@, i as int);
    }
    if e - i < 1 || e - i > 3 {
        return None;
    }
    if e - i > 1 && s[i] == 48 {
        return None;
    }
    let v: u32 = if e - i == 1 {
        (s[i] - 48) as u32
    } else if e - i == 2 {
        (s[i] - 48) as u32 * 10 + (s[i + 1] - 48) as u32
    } else {
        (s[i] - 48) as u32 * 100 + (s[i + 1] - 48) as u32 * 10 + (s[i + 2] - 48) as u32
    };
    proof {
        let ii = i as int;
        let ee = e as int;
        assert(digits_val(s@, ii, ii) == 0);
        assert(digits_val(s@, ii, ii + 1) == digits_val(s@, ii, ii) * 10 + (s@[ii] - 48));
        if ee - ii >= 2 {
            assert(digits_val(s@, ii, ii + 2) == digits_val(s@, ii, ii + 1) * 10 + (s@[ii + 1]
                - 48));
        }
        if ee - ii >= 3 {
            assert(digits_val(s@, ii, ii + 3) == digits_val(s@, ii, ii + 2) * 10 + (s@[ii + 2]
                - 48));
        }
    }
    assert(v == digits_val(s@, i as int, e as int));
    if v > 255 {
        return None;
    }
    Some((v as u8, e))
}

/// Parse a textual IPv4 literal, exactly as the dotted-quad grammar above
/// has it.
pub fn parse_ipv4(s: &[u8]) -> (r: Option<(u8, u8, u8, u8)>)
    ensures
        r == spec_parse_ipv4(s@),
{
    let Some((a, e1)) = parse_octet(s, 0) else { return None };
    if e1 >= s.len() || s[e1] != 46 {
        return None;
    }
    let Some((b, e2)) = parse_octet(s, e1 + 1) else { return None };
    if e2 >= s.len() || s[e2] != 46 {
        return None;
    }
    let Some((c, e3)) = parse_octet(s, e2 + 1) else { return None };
    if e3 >= s.len() || s[e3] != 46 {
        return None;
    }
    let Some((d, e4)) = parse_octet(s, e3 + 1) else { return None };
    if e4 != s.len() {
        return None;
    }
    Some((a, b, c, d))
}

/// Is the address globally routable?
pub fn ipv4_global_ex(a: u8, b: u8, c: u8, d: u8) -> (r: bool)
    ensures
        r == ipv4_global(a, b, c, d),
{
    !(a == 0 || a == 10 || (a == 172 && 16 <= b && b <= 31) || (a == 192 && b == 168) || (a == 100
        && 64 <= b && b <= 127) || a == 127 || (a == 169 && b == 254) || (a == 192 && b == 0 && c
        == 0 && !(d == 9 || d == 10)) || (a == 192 && b == 0 && c == 2) || (a == 198 && b == 51
        && c == 100) || (a == 203 && b == 0 && c == 113) || (a == 198 && (b == 18 || b == 19)) || (
    224 <= a && a <= 239) || a >= 240)
}

fn colon_or_end_ex(s: &[u8], i: usize, j: usize) -> (r: usize)
    requires
        i <= j <= s@.len(),
    ensures
        r == colon_or_end(s@, i as int, j as int),
        i <= r <= j,
{
    let mut k: usize = i;
    while k < j && s[k] != 58
        invariant
            i <= k <= j <= s@.len(),
            colon_or_end(s@, i as int, j as int) == colon_or_end(s@, k as int, j as int),
        decreases j - k,
    {
        k += 1;
    }
    k
}

fn hex_end_ex(s: &[u8], i: usize, j: usize) -> (r: usize)
    requires
        i <= j <= s@.len(),
    ensures
        r == hex_end(s@, i as int, j as int),
        i <= r <= j,
{
    let mut k: usize = i;
    while k < j && is_hex_ex(s[k])
        invariant
            i <= k <= j <= s@.len(),
            hex_end(s@, i as int, j as int) == hex_end(s@, k as int, j as int),
        decreases j - k,
    {
        k += 1;
    }
    k
}

fn dcolon_from_ex(s: &[u8]) -> (r: usize)
    ensures
        r == dcolon_from(s@, 0),
        r <= s@.len(),
        r < s@.len() ==> r + 2 <= s@.len(),
{
    proof {
        lemma_dcolon_from(s@, 0);
    }
    if s.len() < 2 {
        return s.len();
    }
    let mut k: usize = 0;
    while k + 1 < s.len()
        invariant
            s@.len() <= usize::MAX,
            k + 1 <= s@.len(),
            dcolon_from(s@, 0) == dcolon_from(s@, k as int),
        decreases s@.len() - k,
    {
        if s[k] == 58 && s[k + 1] == 58 {
            return k;
        }
        k += 1;
    }
    s.len()
}

proof fn lemma_dcolon_from(s: Seq<u8>, i: int)
    requires
        0 <= i,
    ensures
        dcolon_from(s, i) <= s.len(),
        dcolon_from(s, i) < s.len() ==> dcolon_from(s, i) + 2 <= s.len(),
    decreases s.len() - i,
{
    if i + 1 < s.len() && !(s[i] == 58 && s[i + 1] == 58) {
        lemma_dcolon_from(s, i + 1);
    }
}

fn hex_group_val_ex(s: &[u8], i: usize, e: usize) -> (r: u16)
    requires
        i <= e <= s@.len(),
        1 <= e - i <= 4,
    ensures
        r == hex_group_val(s@, i as int, e as int),
{
    let val: u32 = if e - i == 1 {
        hex_val_ex(s[i]) as u32
    } else if e - i == 2 {
        hex_val_ex(s[i]) as u32 * 16 + hex_val_ex(s[i + 1]) as u32
    } else if e - i == 3 {
        (hex_val_ex(s[i]) as u32 * 16 + hex_val_ex(s[i + 1]) as u32) * 16 + hex_val_ex(
            s[i + 2],
        ) as u32
    } else {
        ((hex_val_ex(s[i]) as u32 * 16 + hex_val_ex(s[i + 1]) as u32) * 16 + hex_val_ex(
            s[i + 2],
        ) as u32) * 16 + hex_val_ex(s[i + 3]) as u32
    };
    proof {
        let ii = i as int;
        let ee = e as int;
        assert(hex_group_val(s@, ii, ii) == 0);
        assert(hex_group_val(s@, ii, ii + 1) == hex_group_val(s@, ii, ii) * 16 + hex_val(s@[ii]));
        if ee - ii >= 2 {
            assert(hex_group_val(s@, ii, ii + 2) == hex_group_val(s@, ii, ii + 1) * 16 + hex_val(
                s@[ii + 1],
            ));
        }
        if ee - ii >= 3 {
            assert(hex_group_val(s@, ii, ii + 3) == hex_group_val(s@, ii, ii + 2) * 16 + hex_val(
                s@[ii + 2],
            ));
        }
        if ee - ii >= 4 {
            assert(hex_group_val(s@, ii, ii + 4) == hex_group_val(s@, ii, ii + 3) * 16 + hex_val(
                s@[ii + 3],
            ));
        }
    }
    assert(val == hex_group_val(s@, i as int, e as int));
    assert(val <= 0xffff);
    val as u16
}

fn parse_pieces_ex(s: &[u8], i: usize, j: usize, allow_v4: bool) -> (r: Option<Vec<u16>>)
    requires
        i <= j <= s@.len(),
    ensures
        match r {
            Some(v) => parse_pieces(s@, i as int, j as int, allow_v4) == Some(v@),
            None => parse_pieces(s@, i as int, j as int, allow_v4) is None,
        },
    decreases j - i,
{
    if i >= j {
        return None;
    }
    let e = colon_or_end_ex(s, i, j);
    if e == i {
        return None;
    }
    let he = hex_end_ex(s, i, e);
    if he == e && e - i <= 4 {
        let g: u16 = hex_group_val_ex(s, i, e);
        if e >= j {
            let mut out: Vec<u16> = Vec::new();
            out.push(g);
            assert(out@ =~= seq![g]);
            Some(out)
        } else {
            match parse_pieces_ex(s, e + 1, j, allow_v4) {
                Some(mut rest) => {
                    let ghost rest0 = rest@;
                    rest.insert(0, g);
                    assert(rest@ =~= seq![g] + rest0);
                    Some(rest)
                },
                None => None,
            }
        }
    } else if allow_v4 && e >= j {
        match parse_ipv4(&s[i..j]) {
            Some((a, b, c, d)) => {
                let g1: u16 = a as u16 * 256 + b as u16;
                let g2: u16 = c as u16 * 256 + d as u16;
                let mut out: Vec<u16> = Vec::new();
                out.push(g1);
                out.push(g2);
                assert(out@ =~= seq![((a * 256 + b) as u16), ((c * 256 + d) as u16)]);
                Some(out)
            },
            None => None,
        }
    } else {
        None
    }
}

/// Parse a bracket-less textual IPv6 literal into its eight groups.
pub fn parse_ipv6(s: &[u8]) -> (r: Option<Vec<u16>>)
    ensures
        match r {
            Some(v) => spec_parse_ipv6(s@) == Some(v@) && v@.len() == 8,
            None => spec_parse_ipv6(s@) is None,
        },
{
    let k = dcolon_from_ex(s);
    if k == s.len() {
        match parse_pieces_ex(s, 0, s.len(), true) {
            Some(g) => {
                if g.len() == 8 {
                    Some(g)
                } else {
                    None
                }
            },
            None => None,
        }
    } else {
        let left: Option<Vec<u16>> = if k == 0 {
            Some(Vec::new())
        } else {
            parse_pieces_ex(s, 0, k, false)
        };
        let right: Option<Vec<u16>> = if k + 2 == s.len() {
            Some(Vec::new())
        } else {
            parse_pieces_ex(s, k + 2, s.len(), true)
        };
        match (left, right) {
            (Some(l), Some(rg)) => {
                if l.len() <= 7 && rg.len() <= 7 - l.len() {
                    let zeros: usize = 8 - l.len() - rg.len();
                    let mut out = l;
                    let ghost lv = out@;
                    let mut p: usize = 0;
                    while p < zeros
                        invariant
                            p <= zeros,
                            out@ =~= lv + zero_groups(p as int),
                        decreases zeros - p,
                    {
                        out.push(0);
                        assert(out@ =~= lv + zero_groups(p + 1));
                        p += 1;
                    }
                    out.extend_from_slice(rg.as_slice());
                    assert(out@ =~= lv + zero_groups(zeros as int) + rg@);
                    Some(out)
                } else {
                    None
                }
            },
            _ => None,
        }
    }
}

/// Is the address globally routable?
pub fn ipv6_global_ex(g: &Vec<u16>) -> (r: bool)
    requires
        g@.len() == 8,
    ensures
        r == ipv6_global(g@),
{
    !((g[0] == 0 && g[1] == 0 && g[2] == 0 && g[3] == 0 && g[4] == 0 && g[5] == 0 && g[6] == 0 && (
    g[7] == 0 || g[7] == 1)) || (0xfe80 <= g[0] && g[0] <= 0xfebf) || (0xfc00 <= g[0] && g[0]
        <= 0xfdff) || g[0] >= 0xff00 || (g[0] == 0 && g[1] == 0 && g[2] == 0 && g[3] == 0 && g[4]
        == 0 && g[5] == 0xffff && !ipv4_global_ex(
        (g[6] / 256) as u8,
        (g[6] % 256) as u8,
        (g[7] / 256) as u8,
        (g[7] % 256) as u8,
    )))
}

/// The origin guard's decision on one literal host.
pub fn host_blocked(h: &[u8]) -> (r: bool)
    ensures
        r == blocked_host(h@),
{
    let lit = "localhost".as_bytes_vec();
    if eq_bytes(h, lit.as_slice()) {
        return true;
    }
    let v4_hit = match parse_ipv4(h) {
        Some((a, b, c, d)) => !ipv4_global_ex(a, b, c, d),
        None => false,
    };
    if v4_hit {
        return true;
    }
    if h.len() >= 2 && h[0] == 91 && h[h.len() - 1] == 93 {
        match parse_ipv6(&h[1..h.len() - 1]) {
            Some(g) => {
                if !ipv6_global_ex(&g) {
                    return true;
                }
            },
            None => {},
        }
    }
    false
}

} // verus!

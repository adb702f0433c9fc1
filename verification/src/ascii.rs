//! Byte-level ASCII helpers shared by the header transforms, the origin
//! guard and the HTML rewriter. Header names and other protocol tokens are
//! compared case-insensitively, so everything here is stated over the
//! lower-case image of a byte sequence.

use vstd::prelude::*;

verus! {

/// The lower-case image of one byte: ASCII letters are folded, everything
/// else is untouched.
pub open spec fn lower_byte(b: u8) -> u8 {
    if 65 <= b && b <= 90 {
        (b + 32) as u8
    } else {
        b
    }
}

/// The lower-case image of a byte sequence.
pub open spec fn ascii_lower(s: Seq<u8>) -> Seq<u8> {
    s.map_values(|b: u8| lower_byte(b))
}

/// `s` begins with `p`, ignoring ASCII case.
pub open spec fn starts_with_lower(s: Seq<u8>, p: Seq<u8>) -> bool {
    s.len() >= p.len() && ascii_lower(s.take(p.len() as int)) == ascii_lower(p)
}

/// ASCII whitespace as it separates tokens inside an HTML tag.
pub open spec fn is_space(b: u8) -> bool {
    b == 32 || b == 9 || b == 10 || b == 13 || b == 12
}

pub fn lower_byte_ex(b: u8) -> (r: u8)
    ensures
        r == lower_byte(b),
{
    if 65 <= b && b <= 90 {
        b + 32
    } else {
        b
    }
}

pub fn is_space_ex(b: u8) -> (r: bool)
    ensures
        r == is_space(b),
{
    b == 32 || b == 9 || b == 10 || b == 13 || b == 12
}

/// Exact byte-sequence equality.
pub fn eq_bytes(a: &[u8], b: &[u8]) -> (r: bool)
    ensures
        r == (a@ == b@),
{
    if a.len() != b.len() {
        assert(a@ != b@) by {
            assert(a@.len() != b@.len());
        }
        return false;
    }
    let mut i: usize = 0;
    while i < a.len()
        invariant
            i <= a@.len(),
            a@.len() == b@.len(),
            forall|j: int| 0 <= j < i ==> a@[j] == b@[j],
        decreases a@.len() - i,
    {
        if a[i] != b[i] {
            return false;
        }
        i += 1;
    }
    assert(a@ =~= b@);
    true
}

/// Byte-sequence equality up to ASCII case.
pub fn eq_ignore_case(a: &[u8], b: &[u8]) -> (r: bool)
    ensures
        r == (ascii_lower(a@) == ascii_lower(b@)),
{
    if a.len() != b.len() {
        assert(ascii_lower(a@).len() != ascii_lower(b@).len());
        return false;
    }
    let mut i: usize = 0;
    while i < a.len()
        invariant
            i <= a@.len(),
            a@.len() == b@.len(),
            forall|j: int| 0 <= j < i ==> lower_byte(a@[j]) == lower_byte(b@[j]),
        decreases a@.len() - i,
    {
        if lower_byte_ex(a[i]) != lower_byte_ex(b[i]) {
            assert(ascii_lower(a@)[i as int] != ascii_lower(b@)[i as int]);
            return false;
        }
        i += 1;
    }
    assert(ascii_lower(a@) =~= ascii_lower(b@));
    true
}

/// Case-insensitive prefix test.
pub fn starts_with_ignore_case(s: &[u8], p: &[u8]) -> (r: bool)
    ensures
        r == starts_with_lower(s@, p@),
{
    if s.len() < p.len() {
        return false;
    }
    let mut i: usize = 0;
    while i < p.len()
        invariant
            i <= p@.len(),
            s@.len() >= p@.len(),
            forall|j: int| 0 <= j < i ==> lower_byte(s@[j]) == lower_byte(p@[j]),
        decreases p@.len() - i,
    {
        if lower_byte_ex(s[i]) != lower_byte_ex(p[i]) {
            assert(ascii_lower(s@.take(p@.len() as int))[i as int] != ascii_lower(p@)[i as int]);
            return false;
        }
        i += 1;
    }
    assert(ascii_lower(s@.take(p@.len() as int)) =~= ascii_lower(p@));
    true
}

} // verus!

//! Header classification for both directions of the proxy.
//!
//! Client-to-upstream: hop-by-hop headers and headers that only make sense
//! between the client and the proxy (cookies, proxy authentication, the
//! client's own `Host`, `User-Agent`, `Referer` and `Origin`) are dropped;
//! everything else is forwarded unchanged, and `Host` and `User-Agent` are
//! set afresh for the target.
//!
//! Upstream-to-client: hop-by-hop headers and the stale `Content-Length`
//! are dropped; location-bearing headers are rewritten into the proxy's
//! `/~/` URL space; `Set-Cookie` is rescoped to the proxy's own origin by
//! stripping its `Domain` and `Path` attributes; everything else passes
//! through unchanged.

use vstd::prelude::*;
use vstd::slice::slice_to_vec;
use vstd::string::StrSliceExecFns;
use vstd::string::StringSliceAdditionalSpecFns;
use crate::ascii::{ascii_lower, eq_ignore_case, lower_byte, lower_byte_ex};
use crate::urlkit::{proxy_form, spec_proxy_form};

verus! {

/// The identity this proxy presents upstream in place of the client's own
/// `User-Agent`.
pub open spec fn proxy_message() -> Seq<u8> {
    "hopgate proxy".spec_bytes()
}

pub fn proxy_message_ex() -> (r: Vec<u8>)
    ensures
        r@ == proxy_message(),
{
    "hopgate proxy".as_bytes_vec()
}

/// Case-insensitive equality of a header name and a fixed token.
pub open spec fn name_is(name: Seq<u8>, token: Seq<u8>) -> bool {
    ascii_lower(name) == ascii_lower(token)
}

/// Headers meaningful only on one network segment, never forwarded across
/// the proxy in either direction.
pub open spec fn is_hop_by_hop(name: Seq<u8>) -> bool {
    name_is(name, "connection".spec_bytes()) || name_is(name, "keep-alive".spec_bytes())
        || name_is(name, "transfer-encoding".spec_bytes()) || name_is(name, "te".spec_bytes())
        || name_is(name, "trailer".spec_bytes()) || name_is(name, "upgrade".spec_bytes())
        || name_is(name, "proxy-authenticate".spec_bytes()) || name_is(
        name,
        "proxy-authorization".spec_bytes(),
    )
}

fn is_hop_by_hop_ex(name: &[u8]) -> (r: bool)
    ensures
        r == is_hop_by_hop(name@),
{
    eq_ignore_case(name, "connection".as_bytes_vec().as_slice()) || eq_ignore_case(
        name,
        "keep-alive".as_bytes_vec().as_slice(),
    ) || eq_ignore_case(name, "transfer-encoding".as_bytes_vec().as_slice()) || eq_ignore_case(
        name,
        "te".as_bytes_vec().as_slice(),
    ) || eq_ignore_case(name, "trailer".as_bytes_vec().as_slice()) || eq_ignore_case(
        name,
        "upgrade".as_bytes_vec().as_slice(),
    ) || eq_ignore_case(name, "proxy-authenticate".as_bytes_vec().as_slice()) || eq_ignore_case(
        name,
        "proxy-authorization".as_bytes_vec().as_slice(),
    )
}

/// Inbound headers that are dropped on the way upstream: hop-by-hop ones,
/// and those that belong to the client-proxy leg alone.
pub open spec fn c2s_drop(name: Seq<u8>) -> bool {
    is_hop_by_hop(name) || name_is(name, "host".spec_bytes()) || name_is(
        name,
        "user-agent".spec_bytes(),
    ) || name_is(name, "cookie".spec_bytes()) || name_is(name, "referer".spec_bytes()) || name_is(
        name,
        "origin".spec_bytes(),
    )
}

/// The classification of one header during a transform: dropped, passed
/// through unchanged, or rewritten to a new value.
pub enum HeaderDecisionSpec {
    Drop,
    Pass,
    Rewrite(Seq<u8>),
}

/// The classification of one header, as executable data.
pub enum HeaderDecision {
    Drop,
    Pass,
    Rewrite(Vec<u8>),
}

impl View for HeaderDecision {
    type V = HeaderDecisionSpec;

    open spec fn view(&self) -> HeaderDecisionSpec {
        match self {
            HeaderDecision::Drop => HeaderDecisionSpec::Drop,
            HeaderDecision::Pass => HeaderDecisionSpec::Pass,
            HeaderDecision::Rewrite(v) => HeaderDecisionSpec::Rewrite(v@),
        }
    }
}

/// What a decision makes of the header it classified.
pub open spec fn apply_decision(
    name: Seq<u8>,
    value: Seq<u8>,
    d: HeaderDecisionSpec,
) -> Option<(Seq<u8>, Seq<u8>)> {
    match d {
        HeaderDecisionSpec::Drop => None,
        HeaderDecisionSpec::Pass => Some((name, value)),
        HeaderDecisionSpec::Rewrite(v) => Some((name, v)),
    }
}

/// The client-to-upstream classification: drop the client-leg headers,
/// pass everything else unchanged.
pub open spec fn spec_c2s_decision(name: Seq<u8>, value: Seq<u8>) -> HeaderDecisionSpec {
    if c2s_drop(name) {
        HeaderDecisionSpec::Drop
    } else {
        HeaderDecisionSpec::Pass
    }
}

/// The client-to-upstream decision on one header.
pub open spec fn spec_c2s(name: Seq<u8>, value: Seq<u8>) -> Option<(Seq<u8>, Seq<u8>)> {
    apply_decision(name, value, spec_c2s_decision(name, value))
}

/// Classify one inbound header.
pub fn c2s_decision(name: &[u8], value: &[u8]) -> (r: HeaderDecision)
    ensures
        r@ == spec_c2s_decision(name@, value@),
{
    if is_hop_by_hop_ex(name) || eq_ignore_case(name, "host".as_bytes_vec().as_slice())
        || eq_ignore_case(name, "user-agent".as_bytes_vec().as_slice()) || eq_ignore_case(
        name,
        "cookie".as_bytes_vec().as_slice(),
    ) || eq_ignore_case(name, "referer".as_bytes_vec().as_slice()) || eq_ignore_case(
        name,
        "origin".as_bytes_vec().as_slice(),
    ) {
        HeaderDecision::Drop
    } else {
        HeaderDecision::Pass
    }
}

/// Decide one inbound header: `None` drops it, `Some` forwards it
/// unchanged.
pub fn transform_header_c2s(name: &[u8], value: &[u8]) -> (r: Option<(Vec<u8>, Vec<u8>)>)
    ensures
        match r {
            Some(p) => spec_c2s(name@, value@) == Some((p.0@, p.1@)),
            None => spec_c2s(name@, value@) is None,
        },
{
    match c2s_decision(name, value) {
        HeaderDecision::Drop => None,
        HeaderDecision::Pass => Some((slice_to_vec(name), slice_to_vec(value))),
        HeaderDecision::Rewrite(v) => Some((slice_to_vec(name), v)),
    }
}

/// Upstream headers dropped on the way to the client: hop-by-hop ones,
/// and the stale `Content-Length` (the body may be rewritten below).
pub open spec fn s2c_drop(name: Seq<u8>) -> bool {
    is_hop_by_hop(name) || name_is(name, "content-length".spec_bytes())
}

/// Does this header carry a location on the target's origin?
pub open spec fn is_location_header(name: Seq<u8>) -> bool {
    name_is(name, "location".spec_bytes()) || name_is(name, "content-location".spec_bytes())
}

/// The upstream-to-client classification, with the resolved target URL as
/// rewrite context: drop it, rewrite a location into the proxy's `/~/`
/// space (dropping one that does not resolve rather than leaking it),
/// rescope a `Set-Cookie`, or pass it through.
pub open spec fn spec_s2c_decision(
    name: Seq<u8>,
    value: Seq<u8>,
    base: Seq<u8>,
) -> HeaderDecisionSpec {
    if s2c_drop(name) {
        HeaderDecisionSpec::Drop
    } else if is_location_header(name) {
        match spec_proxy_form(base, value) {
            Some(v) => HeaderDecisionSpec::Rewrite(v),
            None => HeaderDecisionSpec::Drop,
        }
    } else if name_is(name, "set-cookie".spec_bytes()) {
        HeaderDecisionSpec::Rewrite(strip_cookie_scope(value))
    } else {
        HeaderDecisionSpec::Pass
    }
}

/// The upstream-to-client decision on one header.
pub open spec fn spec_s2c(name: Seq<u8>, value: Seq<u8>, base: Seq<u8>) -> Option<
    (Seq<u8>, Seq<u8>),
> {
    apply_decision(name, value, spec_s2c_decision(name, value, base))
}

/// First index at or after `i` that holds a `;`.
pub open spec fn next_semi(v: Seq<u8>, i: int) -> int
    decreases v.len() - i,
{
    if 0 <= i < v.len() && v[i] != 59 {
        next_semi(v, i + 1)
    } else {
        i
    }
}

/// First index at or after `i` that holds no space.
pub open spec fn skip_spaces(v: Seq<u8>, i: int) -> int
    decreases v.len() - i,
{
    if 0 <= i < v.len() && v[i] == 32 {
        skip_spaces(v, i + 1)
    } else {
        i
    }
}

/// Does `p` stand in `v` at position `t`, ignoring ASCII case?
pub open spec fn prefix_at_lower(v: Seq<u8>, t: int, p: Seq<u8>) -> bool {
    0 <= t && t + p.len() <= v.len() && ascii_lower(v.subrange(t, t + p.len())) == ascii_lower(p)
}

/// Does the cookie attribute starting at `i` scope the cookie to a domain
/// or path?
pub open spec fn cookie_scope_attr_at(v: Seq<u8>, i: int) -> bool {
    let t = skip_spaces(v, i);
    prefix_at_lower(v, t, "domain=".spec_bytes()) || prefix_at_lower(v, t, "path=".spec_bytes())
}

proof fn lemma_next_semi(v: Seq<u8>, i: int)
    ensures
        next_semi(v, i) >= i,
        i <= v.len() ==> next_semi(v, i) <= v.len(),
        i >= v.len() ==> next_semi(v, i) == i,
    decreases v.len() - i,
{
    if 0 <= i < v.len() && v[i] != 59 {
        lemma_next_semi(v, i + 1);
    }
}

#[via_fn]
proof fn cookie_from_via(v: Seq<u8>, i: int, first: bool) {
    lemma_next_semi(v, i);
}

/// The `Set-Cookie` value from segment start `i` on, with `Domain` and
/// `Path` attributes removed. The leading name-value pair is always kept.
pub open spec fn cookie_from(v: Seq<u8>, i: int, first: bool) -> Seq<u8>
    decreases v.len() - i,
    via cookie_from_via
{
    if i < 0 || i > v.len() {
        Seq::empty()
    } else {
        let e = next_semi(v, i);
        let seg = v.subrange(i, e);
        let keep = first || !cookie_scope_attr_at(v, i);
        let rest = if e >= v.len() {
            Seq::empty()
        } else {
            cookie_from(v, e + 1, false)
        };
        if keep {
            (if first {
                seg
            } else {
                seq![59u8] + seg
            }) + rest
        } else {
            rest
        }
    }
}

/// A `Set-Cookie` value rescoped to the proxy's origin.
pub open spec fn strip_cookie_scope(v: Seq<u8>) -> Seq<u8> {
    cookie_from(v, 0, true)
}

fn next_semi_ex(v: &[u8], i: usize) -> (r: usize)
    requires
        i <= v@.len(),
    ensures
        r == next_semi(v@, i as int),
        i <= r <= v@.len(),
{
    proof {
        lemma_next_semi(v@, i as int);
    }
    let mut j: usize = i;
    while j < v.len() && v[j] != 59
        invariant
            i <= j <= v@.len(),
            next_semi(v@, i as int) == next_semi(v@, j as int),
        decreases v@.len() - j,
    {
        j += 1;
    }
    j
}

fn skip_spaces_ex(v: &[u8], i: usize) -> (r: usize)
    requires
        i <= v@.len(),
    ensures
        r == skip_spaces(v@, i as int),
        i <= r <= v@.len(),
{
    let mut j: usize = i;
    while j < v.len() && v[j] == 32
        invariant
            i <= j <= v@.len(),
            skip_spaces(v@, i as int) == skip_spaces(v@, j as int),
        decreases v@.len() - j,
    {
        j += 1;
    }
    j
}

fn prefix_at_ci(v: &[u8], t: usize, p: &[u8]) -> (r: bool)
    requires
        t <= v@.len(),
    ensures
        r == prefix_at_lower(v@, t as int, p@),
{
    if v.len() - t < p.len() {
        return false;
    }
    let mut i: usize = 0;
    while i < p.len()
        invariant
            i <= p@.len(),
            v@.len() <= usize::MAX,
            t + p@.len() <= v@.len(),
            forall|j: int| 0 <= j < i ==> lower_byte(v@[t + j]) == lower_byte(p@[j]),
        decreases p@.len() - i,
    {
        assert(t + i < v@.len());
        if lower_byte_ex(v[t + i]) != lower_byte_ex(p[i]) {
            assert(ascii_lower(v@.subrange(t as int, t + p@.len()))[i as int] != ascii_lower(
                p@,
            )[i as int]);
            return false;
        }
        i += 1;
    }
    assert(ascii_lower(v@.subrange(t as int, t + p@.len())) =~= ascii_lower(p@));
    true
}

/// Strip `Domain` and `Path` attributes from a `Set-Cookie` value.
pub fn strip_cookie_scope_ex(v: &[u8]) -> (r: Vec<u8>)
    ensures
        r@ == strip_cookie_scope(v@),
{
    let mut out: Vec<u8> = Vec::new();
    let mut i: usize = 0;
    let mut first: bool = true;
    assert(strip_cookie_scope(v@) =~= out@ + cookie_from(v@, 0, true));
    loop
        invariant_except_break
            strip_cookie_scope(v@) == out@ + cookie_from(v@, i as int, first),
        invariant
            i <= v@.len(),
        ensures
            strip_cookie_scope(v@) == out@,
        decreases v@.len() - i + 1,
    {
        let e = next_semi_ex(v, i);
        let t = skip_spaces_ex(v, i);
        let scope = prefix_at_ci(v, t, "domain=".as_bytes_vec().as_slice()) || prefix_at_ci(
            v,
            t,
            "path=".as_bytes_vec().as_slice(),
        );
        let keep = first || !scope;
        let ghost old_out = out@;
        if keep {
            if !first {
                out.push(59);
            }
            out.extend_from_slice(&v[i..e]);
        }
        proof {
            let seg = v@.subrange(i as int, e as int);
            let rest = if e >= v@.len() {
                Seq::<u8>::empty()
            } else {
                cookie_from(v@, e + 1, false)
            };
            if keep {
                if first {
                    assert(out@ =~= old_out + seg);
                    assert(old_out + (seg + rest) =~= out@ + rest);
                } else {
                    assert(out@ =~= old_out + (seq![59u8] + seg));
                    assert(old_out + ((seq![59u8] + seg) + rest) =~= out@ + rest);
                }
            }
        }
        if e >= v.len() {
            proof {
                assert(out@ + Seq::<u8>::empty() =~= out@);
            }
            break;
        }
        i = e + 1;
        first = false;
    }
    out
}

/// Classify one upstream header against the resolved target `base`.
pub fn s2c_decision(name: &[u8], value: &[u8], base: &[u8]) -> (r: HeaderDecision)
    ensures
        r@ == spec_s2c_decision(name@, value@, base@),
{
    if is_hop_by_hop_ex(name) || eq_ignore_case(name, "content-length".as_bytes_vec().as_slice()) {
        HeaderDecision::Drop
    } else if eq_ignore_case(name, "location".as_bytes_vec().as_slice()) || eq_ignore_case(
        name,
        "content-location".as_bytes_vec().as_slice(),
    ) {
        match proxy_form(base, value) {
            Some(v) => HeaderDecision::Rewrite(v),
            None => HeaderDecision::Drop,
        }
    } else if eq_ignore_case(name, "set-cookie".as_bytes_vec().as_slice()) {
        HeaderDecision::Rewrite(strip_cookie_scope_ex(value))
    } else {
        HeaderDecision::Pass
    }
}

/// Decide one upstream header against the resolved target `base`: `None`
/// drops it, `Some` gives what the client sees.
pub fn transform_header_s2c(name: &[u8], value: &[u8], base: &[u8]) -> (r: Option<
    (Vec<u8>, Vec<u8>),
>)
    ensures
        match r {
            Some(p) => spec_s2c(name@, value@, base@) == Some((p.0@, p.1@)),
            None => spec_s2c(name@, value@, base@) is None,
        },
{
    match s2c_decision(name, value, base) {
        HeaderDecision::Drop => None,
        HeaderDecision::Pass => Some((slice_to_vec(name), slice_to_vec(value))),
        HeaderDecision::Rewrite(v) => Some((slice_to_vec(name), v)),
    }
}

/// A header list as plain byte sequences.
pub open spec fn headers_view(hs: Seq<(Vec<u8>, Vec<u8>)>) -> Seq<(Seq<u8>, Seq<u8>)> {
    hs.map_values(|p: (Vec<u8>, Vec<u8>)| (p.0@, p.1@))
}

/// The client-to-upstream decisions applied to the headers from `i` on.
pub open spec fn c2s_list_from(hs: Seq<(Seq<u8>, Seq<u8>)>, i: int) -> Seq<(Seq<u8>, Seq<u8>)>
    decreases hs.len() - i,
{
    if i < 0 || i >= hs.len() {
        Seq::empty()
    } else {
        match spec_c2s(hs[i].0, hs[i].1) {
            Some(p) => seq![p] + c2s_list_from(hs, i + 1),
            None => c2s_list_from(hs, i + 1),
        }
    }
}

/// The forwarded form of a whole inbound header list.
pub open spec fn spec_c2s_list(hs: Seq<(Seq<u8>, Seq<u8>)>) -> Seq<(Seq<u8>, Seq<u8>)> {
    c2s_list_from(hs, 0)
}

/// Apply the client-to-upstream decision to every inbound header.
pub fn c2s_list(hs: &Vec<(Vec<u8>, Vec<u8>)>) -> (r: Vec<(Vec<u8>, Vec<u8>)>)
    ensures
        headers_view(r@) == spec_c2s_list(headers_view(hs@)),
{
    let ghost hv = headers_view(hs@);
    let mut out: Vec<(Vec<u8>, Vec<u8>)> = Vec::new();
    assert(spec_c2s_list(hv) =~= headers_view(out@) + c2s_list_from(hv, 0));
    let mut i: usize = 0;
    while i < hs.len()
        invariant
            i <= hs@.len(),
            hv == headers_view(hs@),
            spec_c2s_list(hv) == headers_view(out@) + c2s_list_from(hv, i as int),
        decreases hs@.len() - i,
    {
        let ghost old_view = headers_view(out@);
        match transform_header_c2s(hs[i].0.as_slice(), hs[i].1.as_slice()) {
            Some(p) => {
                out.push(p);
                proof {
                    assert(headers_view(out@) =~= old_view + seq![
                        (hv[i as int].0, hv[i as int].1),
                    ]);
                    assert(old_view + (seq![(hv[i as int].0, hv[i as int].1)] + c2s_list_from(
                        hv,
                        i + 1,
                    )) =~= headers_view(out@) + c2s_list_from(hv, i + 1));
                }
            },
            None => {},
        }
        i += 1;
    }
    assert(spec_c2s_list(hv) =~= headers_view(out@));
    out
}

/// The upstream-to-client decisions applied to the headers from `i` on.
pub open spec fn s2c_list_from(hs: Seq<(Seq<u8>, Seq<u8>)>, base: Seq<u8>, i: int) -> Seq<
    (Seq<u8>, Seq<u8>),
>
    decreases hs.len() - i,
{
    if i < 0 || i >= hs.len() {
        Seq::empty()
    } else {
        match spec_s2c(hs[i].0, hs[i].1, base) {
            Some(p) => seq![p] + s2c_list_from(hs, base, i + 1),
            None => s2c_list_from(hs, base, i + 1),
        }
    }
}

/// The client-facing form of a whole upstream header list.
pub open spec fn spec_s2c_list(hs: Seq<(Seq<u8>, Seq<u8>)>, base: Seq<u8>) -> Seq<
    (Seq<u8>, Seq<u8>),
> {
    s2c_list_from(hs, base, 0)
}

/// Apply the upstream-to-client decision to every upstream header.
pub fn s2c_list(hs: &Vec<(Vec<u8>, Vec<u8>)>, base: &[u8]) -> (r: Vec<(Vec<u8>, Vec<u8>)>)
    ensures
        headers_view(r@) == spec_s2c_list(headers_view(hs@), base@),
{
    let ghost hv = headers_view(hs@);
    let mut out: Vec<(Vec<u8>, Vec<u8>)> = Vec::new();
    assert(spec_s2c_list(hv, base@) =~= headers_view(out@) + s2c_list_from(hv, base@, 0));
    let mut i: usize = 0;
    while i < hs.len()
        invariant
            i <= hs@.len(),
            hv == headers_view(hs@),
            spec_s2c_list(hv, base@) == headers_view(out@) + s2c_list_from(hv, base@, i as int),
        decreases hs@.len() - i,
    {
        let ghost old_view = headers_view(out@);
        match transform_header_s2c(hs[i].0.as_slice(), hs[i].1.as_slice(), base) {
            Some(p) => {
                let ghost pv = (p.0@, p.1@);
                out.push(p);
                proof {
                    assert(headers_view(out@) =~= old_view + seq![pv]);
                    assert(old_view + (seq![pv] + s2c_list_from(hv, base@, i + 1)) =~= headers_view(
                        out@,
                    ) + s2c_list_from(hv, base@, i + 1));
                }
            },
            None => {},
        }
        i += 1;
    }
    assert(spec_s2c_list(hv, base@) =~= headers_view(out@));
    out
}

proof fn lemma_c2s_from_strips_hop_by_hop(hs: Seq<(Seq<u8>, Seq<u8>)>, i: int, j: int)
    requires
        0 <= j < c2s_list_from(hs, i).len(),
    ensures
        !is_hop_by_hop(c2s_list_from(hs, i)[j].0),
    decreases hs.len() - i,
{
    if 0 <= i < hs.len() {
        match spec_c2s(hs[i].0, hs[i].1) {
            Some(p) => {
                if j > 0 {
                    lemma_c2s_from_strips_hop_by_hop(hs, i + 1, j - 1);
                }
            },
            None => {
                lemma_c2s_from_strips_hop_by_hop(hs, i + 1, j);
            },
        }
    }
}

/// No hop-by-hop header survives the client-to-upstream transform,
/// wherever it stands in the inbound list.
pub proof fn lemma_c2s_strips_hop_by_hop(hs: Seq<(Seq<u8>, Seq<u8>)>, j: int)
    requires
        0 <= j < spec_c2s_list(hs).len(),
    ensures
        !is_hop_by_hop(spec_c2s_list(hs)[j].0),
{
    lemma_c2s_from_strips_hop_by_hop(hs, 0, j);
}

proof fn lemma_s2c_from_strips_hop_by_hop(
    hs: Seq<(Seq<u8>, Seq<u8>)>,
    base: Seq<u8>,
    i: int,
    j: int,
)
    requires
        0 <= j < s2c_list_from(hs, base, i).len(),
    ensures
        !is_hop_by_hop(s2c_list_from(hs, base, i)[j].0),
    decreases hs.len() - i,
{
    if 0 <= i < hs.len() {
        match spec_s2c(hs[i].0, hs[i].1, base) {
            Some(p) => {
                if j > 0 {
                    lemma_s2c_from_strips_hop_by_hop(hs, base, i + 1, j - 1);
                }
            },
            None => {
                lemma_s2c_from_strips_hop_by_hop(hs, base, i + 1, j);
            },
        }
    }
}

/// No hop-by-hop header survives the upstream-to-client transform either.
pub proof fn lemma_s2c_strips_hop_by_hop(hs: Seq<(Seq<u8>, Seq<u8>)>, base: Seq<u8>, j: int)
    requires
        0 <= j < spec_s2c_list(hs, base).len(),
    ensures
        !is_hop_by_hop(spec_s2c_list(hs, base)[j].0),
{
    lemma_s2c_from_strips_hop_by_hop(hs, base, 0, j);
}

/// The value of the first header named `name` (ignoring case) from `i` on.
pub open spec fn find_header_from(hs: Seq<(Seq<u8>, Seq<u8>)>, name: Seq<u8>, i: int) -> Option<
    Seq<u8>,
>
    decreases hs.len() - i,
{
    if i < 0 || i >= hs.len() {
        None
    } else if name_is(hs[i].0, name) {
        Some(hs[i].1)
    } else {
        find_header_from(hs, name, i + 1)
    }
}

/// The value of the first header named `name`, ignoring case.
pub open spec fn spec_find_header(hs: Seq<(Seq<u8>, Seq<u8>)>, name: Seq<u8>) -> Option<Seq<u8>> {
    find_header_from(hs, name, 0)
}

/// Look a header up by name, ignoring case.
pub fn find_header(hs: &Vec<(Vec<u8>, Vec<u8>)>, name: &[u8]) -> (r: Option<Vec<u8>>)
    ensures
        match r {
            Some(v) => spec_find_header(headers_view(hs@), name@) == Some(v@),
            None => spec_find_header(headers_view(hs@), name@) is None,
        },
{
    let ghost hv = headers_view(hs@);
    let mut i: usize = 0;
    while i < hs.len()
        invariant
            i <= hs@.len(),
            hv == headers_view(hs@),
            spec_find_header(hv, name@) == find_header_from(hv, name@, i as int),
        decreases hs@.len() - i,
    {
        if eq_ignore_case(hs[i].0.as_slice(), name) {
            return Some(slice_to_vec(hs[i].1.as_slice()));
        }
        i += 1;
    }
    None
}

} // verus!

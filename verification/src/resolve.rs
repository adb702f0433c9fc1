//! The URL resolver: from the raw `/~/` path segment and the inbound query
//! string to one absolute target URL.
//!
//! The segment is percent-decoded, parsed strictly, and — when parsing
//! fails only for want of a scheme — parsed again with `https://` written
//! in front. A non-empty inbound query replaces whatever query the target
//! carried. The resolver never consults the network.

use vstd::prelude::*;
use vstd::string::StrSliceExecFns;
use crate::percent::{lemma_pct_round_trip, pct_decode, pct_encode, percent_decode};
use crate::response::ProxyError;
use crate::urlkit::{
    fits_url_limit, https_prefix, opt_bytes, parse_url, url_parse, url_with_query, with_query,
    ParseOutcome, TargetUrl, UrlParseSpec,
};

verus! {

/// The absolute URL a decoded target segment resolves to, before the query
/// is attached: the strict parse, or the parse with `https://` assumed.
pub open spec fn spec_resolve_parsed(s: Seq<u8>) -> Option<(Seq<u8>, Option<Seq<u8>>)> {
    match url_parse(s) {
        UrlParseSpec::Parsed { text, host } => Some((text, host)),
        UrlParseSpec::NoScheme => match url_parse(https_prefix() + s) {
            UrlParseSpec::Parsed { text, host } => Some((text, host)),
            _ => None,
        },
        UrlParseSpec::Failed => None,
    }
}

/// The resolver's result on a decoded target segment and the raw inbound
/// query bytes (empty bytes meaning no query was sent). A target and
/// query that together pass the url crate's `u32` offset limit are
/// rejected outright: past it the query cannot be attached.
pub open spec fn spec_resolve(s: Seq<u8>, q: Seq<u8>) -> Option<(Seq<u8>, Option<Seq<u8>>)> {
    match spec_resolve_parsed(s) {
        Some((t, h)) => if q.len() == 0 {
            Some((t, h))
        } else if !fits_url_limit(t, q) {
            None
        } else {
            match url_with_query(t, q) {
                Some(t2) => Some((t2, h)),
                None => None,
            }
        },
        None => None,
    }
}

/// Resolve an already percent-decoded target segment and attach the
/// inbound query.
pub fn resolve_decoded(s: &[u8], query: &[u8]) -> (r: Result<TargetUrl, ProxyError>)
    ensures
        match r {
            Ok(u) => spec_resolve(s@, query@) == Some((u.text@, opt_bytes(u.host))) && u.wf(),
            Err(e) => spec_resolve(s@, query@) is None && e is InvalidTarget,
        },
{
    let first = parse_url(s);
    let u = match first {
        ParseOutcome::Parsed(u) => u,
        ParseOutcome::NoScheme => {
            let mut pre: Vec<u8> = "https://".as_bytes_vec();
            pre.extend_from_slice(s);
            assert(pre@ =~= https_prefix() + s@);
            match parse_url(pre.as_slice()) {
                ParseOutcome::Parsed(u) => u,
                _ => {
                    return Err(ProxyError::InvalidTarget);
                },
            }
        },
        ParseOutcome::Failed => {
            return Err(ProxyError::InvalidTarget);
        },
    };
    if query.len() == 0 {
        Ok(u)
    } else if u.text.len() as u64 >= 0x1_0000_0000u64 || query.len() as u64 >= 0x1_0000_0000u64
        || u.text.len() as u64 + 3 * (query.len() as u64) + 1 >= 0x1_0000_0000u64 {
        // Past the url crate's u32 offset limit — the query counted at
        // its worst-case encoded size — it cannot be attached; the
        // target is reported unusable.
        Err(ProxyError::InvalidTarget)
    } else {
        match with_query(&u, query) {
            Some(v) => Ok(v),
            None => Err(ProxyError::InvalidTarget),
        }
    }
}

/// Resolve a raw `/~/` path segment: percent-decode it, then resolve the
/// decoded target.
pub fn resolve_target(raw: &[u8], query: &[u8]) -> (r: Result<TargetUrl, ProxyError>)
    ensures
        match r {
            Ok(u) => pct_decode(raw@) matches Some(s) && spec_resolve(s, query@) == Some(
                (u.text@, opt_bytes(u.host)),
            ) && u.wf(),
            Err(e) => e is InvalidTarget && match pct_decode(raw@) {
                Some(s) => spec_resolve(s, query@) is None,
                None => true,
            },
        },
{
    match percent_decode(raw) {
        Some(decoded) => resolve_decoded(decoded.as_slice(), query),
        None => Err(ProxyError::InvalidTarget),
    }
}

/// A target that lacks a scheme resolves exactly as the same target with
/// `https://` written in front: assuming the scheme and being given it
/// explicitly give one and the same URL.
///
/// The second premise holds of the URL parser itself — a string that
/// begins with `https://` has a scheme, so its parse cannot fail for want
/// of one — but in ghost code it is known only through the parser's
/// contract, so it stands here as a premise.
pub proof fn lemma_missing_scheme_assumes_https(s: Seq<u8>, q: Seq<u8>)
    requires
        url_parse(s) is NoScheme,
        !(url_parse(https_prefix() + s) is NoScheme),
    ensures
        spec_resolve(s, q) == spec_resolve(https_prefix() + s, q),
{
    assert(spec_resolve_parsed(s) == spec_resolve_parsed(https_prefix() + s));
}

/// Re-resolving a proxy-form link reproduces the original absolute URL
/// exactly: the percent-encoded path segment decodes back to the very
/// serialization it was made from, and resolving that serialization with
/// no inbound query returns the same URL and host. The premise — the
/// serialization parses back to itself — is what the URL boundary states
/// of every serialization it hands out: parsing, query replacement and
/// reference resolution all return parse fixpoints.
pub proof fn lemma_proxy_link_round_trip(text: Seq<u8>, host: Option<Seq<u8>>)
    requires
        url_parse(text) == (UrlParseSpec::Parsed { text, host }),
    ensures
        pct_decode(pct_encode(text)) == Some(text),
        spec_resolve(text, Seq::empty()) == Some((text, host)),
{
    lemma_pct_round_trip(text);
}

} // verus!

//! The URL operations the pipeline leans on the `url` crate for: parsing
//! an absolute URL, replacing its query component, and resolving a
//! relative reference against a base.
//!
//! A parsed URL is carried as [`TargetUrl`]: the plain bytes the rest of
//! the pipeline reads (the full serialization and the host component).
//! What the `url` crate computes is given a name by an uninterpreted spec
//! function; each trusted wrapper below states its result through that
//! name, and the verified code builds on those contracts.

use vstd::prelude::*;
use vstd::string::StringSliceAdditionalSpecFns;
use vstd::utf8::valid_utf8;
use crate::percent::{pct_encode, percent_encode};

verus! {

/// What the pipeline reads of a parsed absolute URL: the full
/// serialization and the host component, as plain bytes. A URL such as
/// `data:` or `mailto:` has no host.
pub struct TargetUrl {
    pub text: Vec<u8>,
    pub host: Option<Vec<u8>>,
}

/// The byte view of an optional byte vector.
pub open spec fn opt_bytes(o: Option<Vec<u8>>) -> Option<Seq<u8>> {
    match o {
        Some(v) => Some(v@),
        None => None,
    }
}

/// Outcome of parsing one candidate target, at the spec level.
pub enum UrlParseSpec {
    /// An absolute URL: its serialization and its host component.
    Parsed { text: Seq<u8>, host: Option<Seq<u8>> },
    /// The candidate has no scheme (and so is a relative reference).
    NoScheme,
    /// Malformed in any other way, or not text at all.
    Failed,
}

/// What `url::Url::parse` makes of `s`: a function of the bytes alone.
pub uninterp spec fn url_parse(s: Seq<u8>) -> UrlParseSpec;

/// The serialization of the URL `u` with its query component replaced by
/// `q`; `None` when `q` is not text. A function of the bytes alone.
pub uninterp spec fn url_with_query(u: Seq<u8>, q: Seq<u8>) -> Option<Seq<u8>>;

/// The serialization of the reference `rel` resolved against the absolute
/// URL `base`; `None` when the resolution fails. A function of the bytes
/// alone.
pub uninterp spec fn url_join(base: Seq<u8>, rel: Seq<u8>) -> Option<Seq<u8>>;

impl TargetUrl {
    /// A well-formed target is a fixpoint of parsing: its serialization
    /// parses back to the same serialization and host.
    pub open spec fn wf(&self) -> bool {
        url_parse(self.text@) == (UrlParseSpec::Parsed {
            text: self.text@,
            host: opt_bytes(self.host),
        })
    }
}

pub open spec fn https_prefix() -> Seq<u8> {
    "https://".spec_bytes()
}

pub open spec fn has_https_prefix(s: Seq<u8>) -> bool {
    s.len() >= https_prefix().len() && s.take(https_prefix().len() as int) == https_prefix()
}

/// Outcome of parsing one candidate target.
pub enum ParseOutcome {
    Parsed(TargetUrl),
    NoScheme,
    Failed,
}

/// Relies on `url::Url::parse`: it returns the parsed URL exactly when the
/// input is an absolute URL, and fails with `RelativeUrlWithoutBase`
/// exactly when the input has no scheme — so never on an input that
/// begins with `https://`. The serialization is the parser's fixpoint:
/// parsing it again returns the same URL, with the same `host_str`.
/// Input that is not UTF-8 cannot be a URL and counts as `Failed`.
#[verifier::external_body]
pub(crate) fn parse_url(s: &[u8]) -> (r: ParseOutcome)
    ensures
        match r {
            ParseOutcome::Parsed(u) => url_parse(s@) == (UrlParseSpec::Parsed {
                text: u.text@,
                host: opt_bytes(u.host),
            }) && u.wf(),
            ParseOutcome::NoScheme => url_parse(s@) is NoScheme && !has_https_prefix(s@),
            ParseOutcome::Failed => url_parse(s@) is Failed,
        },
{
    let Ok(text) = std::str::from_utf8(s) else { return ParseOutcome::Failed };
    match url::Url::parse(text) {
        Ok(u) => {
            let host = u.host_str().map(|h| h.as_bytes().to_vec());
            ParseOutcome::Parsed(TargetUrl { host, text: String::from(u).into_bytes() })
        },
        Err(url::ParseError::RelativeUrlWithoutBase) => ParseOutcome::NoScheme,
        Err(_) => ParseOutcome::Failed,
    }
}

/// The `url` crate records component offsets as `u32` (its
/// `ParseError::Overflow` marks the limit), and `set_query` asserts that
/// limit on the serialization it writes. Writing the query adds one `?`
/// and percent-encodes it at up to three bytes per byte, so a URL and
/// query under this bound re-serialize within the limit.
pub open spec fn fits_url_limit(t: Seq<u8>, q: Seq<u8>) -> bool {
    t.len() + 3 * q.len() + 1 < 0x1_0000_0000
}

/// Relies on `url::Url::set_query`: it replaces the query component of the
/// serialization and leaves the host alone, accepting any textual query —
/// so it fails only when `q` is not UTF-8. Were the rewritten
/// serialization (the query at its encoded size) to pass the crate's
/// `u32` offset limit, `set_query` would not return
/// (`to_u32(..).unwrap()`, also on restoring a fragment); the
/// precondition keeps such inputs out, counting the query at three bytes
/// per byte plus the `?`, and the resolver tests that bound before
/// calling. Under it the result also stays reparseable, so it is again a
/// parse fixpoint.
#[verifier::external_body]
pub(crate) fn with_query(u: &TargetUrl, q: &[u8]) -> (r: Option<TargetUrl>)
    requires
        u.wf(),
        fits_url_limit(u.text@, q@),
    ensures
        match r {
            Some(v) => url_with_query(u.text@, q@) == Some(v.text@) && v.host == u.host && v.wf(),
            None => url_with_query(u.text@, q@) is None && !valid_utf8(q@),
        },
{
    let Ok(text) = std::str::from_utf8(&u.text) else { return None };
    let Ok(qs) = std::str::from_utf8(q) else { return None };
    let Ok(mut parsed) = url::Url::parse(text) else { return None };
    parsed.set_query(Some(qs));
    Some(TargetUrl { host: u.host.clone(), text: String::from(parsed).into_bytes() })
}

/// Relies on `url::Url::join` (with `url::Url::parse` for the base): RFC
/// 3986 resolution of a reference against a base URL, returning the
/// resolved URL's serialization, or failing when the base does not parse
/// or the reference cannot be resolved. As with every URL the crate
/// returns, the serialization is a parse fixpoint: parsing it back gives
/// the same serialization.
#[verifier::external_body]
pub(crate) fn join_url(base: &[u8], rel: &[u8]) -> (r: Option<Vec<u8>>)
    ensures
        match r {
            Some(v) => url_join(base@, rel@) == Some(v@) && (url_parse(v@) matches
                UrlParseSpec::Parsed { text, .. } && text == v@),
            None => url_join(base@, rel@) is None,
        },
{
    let Ok(bt) = std::str::from_utf8(base) else { return None };
    let Ok(rt) = std::str::from_utf8(rel) else { return None };
    let Ok(b) = url::Url::parse(bt) else { return None };
    let Ok(j) = b.join(rt) else { return None };
    Some(String::from(j).into_bytes())
}

/// The proxy's own path prefix, `/~/`.
pub open spec fn proxy_prefix() -> Seq<u8> {
    seq![47u8, 126u8, 47u8]
}

/// The proxy-form link for `reference` seen from `base`: the reference
/// resolved to an absolute URL and percent-encoded into the `/~/` path
/// space, or `None` when it does not resolve.
pub open spec fn spec_proxy_form(base: Seq<u8>, reference: Seq<u8>) -> Option<Seq<u8>> {
    match url_join(base, reference) {
        Some(abs) => Some(proxy_prefix() + pct_encode(abs)),
        None => None,
    }
}

/// Rewrite one reference into proxy form.
pub fn proxy_form(base: &[u8], reference: &[u8]) -> (r: Option<Vec<u8>>)
    ensures
        match r {
            Some(v) => spec_proxy_form(base@, reference@) == Some(v@),
            None => spec_proxy_form(base@, reference@) is None,
        },
{
    match join_url(base, reference) {
        Some(abs) => {
            let mut out: Vec<u8> = Vec::new();
            out.push(47);
            out.push(126);
            out.push(47);
            let enc = percent_encode(abs.as_slice());
            out.extend_from_slice(enc.as_slice());
            assert(out@ =~= proxy_prefix() + pct_encode(abs@));
            Some(out)
        },
        None => None,
    }
}

} // verus!

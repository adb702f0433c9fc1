//! The proxy's error taxonomy, the fixed error responses, and the
//! buffer-or-stream decision for the upstream body.
//!
//! Upstream HTTP error statuses are not proxy errors: they pass through
//! with their own status and body. Only the four conditions below turn
//! into responses of the proxy's own.

use vstd::prelude::*;
use vstd::string::StrSliceExecFns;
use vstd::string::StringSliceAdditionalSpecFns;
use crate::ascii::starts_with_lower;
use crate::ascii::starts_with_ignore_case;

verus! {

/// Everything that can go wrong inside the proxy itself.
#[derive(Debug)]
pub enum ProxyError {
    /// The target segment is not a usable URL: reported to the caller, not
    /// a crash.
    InvalidTarget,
    /// The origin guard tripped: answered with a fixed, explicit text.
    OriginForbidden,
    /// The upstream call failed at the transport level; carries the
    /// transport's own description. Never retried.
    TransportError(Vec<u8>),
    /// The HTML rewrite failed; unrewritten output is never sent instead.
    RewriteError,
}

pub open spec fn invalid_target_text() -> Seq<u8> {
    "Invalid URL".spec_bytes()
}

pub open spec fn blocked_text() -> Seq<u8> {
    "Localhost is off limits. Nice try.".spec_bytes()
}

pub open spec fn transport_error_text(desc: Seq<u8>) -> Seq<u8> {
    "Transport error: ".spec_bytes() + desc
}

pub open spec fn rewrite_error_text() -> Seq<u8> {
    "Failed to rewrite the document.".spec_bytes()
}

/// The status and plain-text body answering one proxy error: 400 for a bad
/// target, a fixed 500 for each of the rest.
pub fn error_response(e: &ProxyError) -> (r: (u16, Vec<u8>))
    ensures
        match e {
            ProxyError::InvalidTarget => r.0 == 400 && r.1@ == invalid_target_text(),
            ProxyError::OriginForbidden => r.0 == 500 && r.1@ == blocked_text(),
            ProxyError::TransportError(d) => r.0 == 500 && r.1@ == transport_error_text(d@),
            ProxyError::RewriteError => r.0 == 500 && r.1@ == rewrite_error_text(),
        },
{
    match e {
        ProxyError::InvalidTarget => (400, "Invalid URL".as_bytes_vec()),
        ProxyError::OriginForbidden => (500, "Localhost is off limits. Nice try.".as_bytes_vec()),
        ProxyError::TransportError(d) => {
            let mut body = "Transport error: ".as_bytes_vec();
            body.extend_from_slice(d.as_slice());
            (500, body)
        },
        ProxyError::RewriteError => (500, "Failed to rewrite the document.".as_bytes_vec()),
    }
}

/// How the upstream body is handled: buffered in full (HTML, which must be
/// rewritten before any byte goes out) or streamed through untouched
/// (everything else, so large payloads are never held in memory).
pub enum BodyPlan {
    Buffer,
    Stream,
}

/// Does the declared content type name an HTML document?
pub open spec fn is_html_content_type(ct: Seq<u8>) -> bool {
    starts_with_lower(ct, "text/html".spec_bytes())
}

pub open spec fn opt_ref_bytes(o: Option<&Vec<u8>>) -> Option<Seq<u8>> {
    match o {
        Some(v) => Some(v@),
        None => None,
    }
}

/// The buffer-or-stream decision for a declared content type: `Buffer`
/// exactly for HTML, `Stream` for everything else, a missing content type
/// included.
pub open spec fn spec_body_plan(ct: Option<Seq<u8>>) -> BodyPlan {
    match ct {
        Some(c) => if is_html_content_type(c) {
            BodyPlan::Buffer
        } else {
            BodyPlan::Stream
        },
        None => BodyPlan::Stream,
    }
}

/// Decide how the upstream body is handled, from the declared content
/// type.
pub fn body_plan(ct: Option<&Vec<u8>>) -> (r: BodyPlan)
    ensures
        r == spec_body_plan(opt_ref_bytes(ct)),
{
    match ct {
        Some(c) => {
            if starts_with_ignore_case(c.as_slice(), "text/html".as_bytes_vec().as_slice()) {
                BodyPlan::Buffer
            } else {
                BodyPlan::Stream
            }
        },
        None => BodyPlan::Stream,
    }
}

/// A body that is not HTML is streamed, never buffered — whatever the
/// content type says otherwise, and also when none is declared.
pub proof fn lemma_non_html_streams(ct: Option<Seq<u8>>)
    requires
        match ct {
            Some(c) => !is_html_content_type(c),
            None => true,
        },
    ensures
        spec_body_plan(ct) is Stream,
{
}

} // verus!

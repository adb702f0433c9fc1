//! The request/response pipeline: what the proxy decides, as two pure
//! functions.
//!
//! [`plan_request`] turns the inbound request into either an outbound
//! request description or a proxy error — the origin guard runs here,
//! so a blocked target never yields an outbound request at all.
//! [`plan_response`] turns the upstream status and headers into the
//! client-facing status, headers and body-handling decision; the status
//! always passes through unchanged, upstream error statuses included.

use vstd::prelude::*;
use vstd::slice::slice_to_vec;
use vstd::string::StrSliceExecFns;
use vstd::string::StringSliceAdditionalSpecFns;
use crate::guard::{blocked_host, host_blocked};
use crate::headers::{
    c2s_list, find_header, headers_view, proxy_message, proxy_message_ex, s2c_list, spec_c2s_list,
    spec_find_header, spec_s2c_list,
};
use crate::percent::pct_decode;
use crate::resolve::{resolve_target, spec_resolve};
use crate::response::{body_plan, spec_body_plan, BodyPlan, ProxyError};
use crate::urlkit::{opt_bytes, TargetUrl};

verus! {

/// The one outbound call the proxy makes, described as data: method and
/// resolved URL, the transformed headers, and the body to send. The
/// transport that performs it must disable redirect-following and bound
/// the call with the configured timeout.
pub struct OutboundRequest {
    pub method: Vec<u8>,
    pub url: TargetUrl,
    pub headers: Vec<(Vec<u8>, Vec<u8>)>,
    pub body: Vec<u8>,
}

/// The headers sent upstream: the forwarded inbound headers, then `Host`
/// set to the target's own host, then `User-Agent` set to the proxy's
/// identity.
pub open spec fn spec_outbound_headers(
    hs: Seq<(Seq<u8>, Seq<u8>)>,
    host: Option<Seq<u8>>,
) -> Seq<(Seq<u8>, Seq<u8>)> {
    spec_c2s_list(hs) + (match host {
        Some(h) => seq![("Host".spec_bytes(), h)],
        None => Seq::empty(),
    }) + seq![("User-Agent".spec_bytes(), proxy_message())]
}

/// Resolve, guard and transform the inbound request. A blocked or invalid
/// target is answered with an error before any outbound request exists;
/// transport and rewrite errors never arise here.
pub fn plan_request(
    raw_target: &[u8],
    query: &[u8],
    method: &[u8],
    headers: &Vec<(Vec<u8>, Vec<u8>)>,
    body: &[u8],
) -> (r: Result<OutboundRequest, ProxyError>)
    ensures
        match r {
            Ok(req) => {
                &&& pct_decode(raw_target@) matches Some(s) && spec_resolve(s, query@) == Some(
                    (req.url.text@, opt_bytes(req.url.host)),
                )
                &&& req.url.wf()
                &&& match opt_bytes(req.url.host) {
                    Some(h) => !blocked_host(h),
                    None => true,
                }
                &&& req.method@ == method@
                &&& headers_view(req.headers@) == spec_outbound_headers(
                    headers_view(headers@),
                    opt_bytes(req.url.host),
                )
                &&& req.body@ == body@
            },
            Err(e) => match e {
                ProxyError::InvalidTarget => match pct_decode(raw_target@) {
                    Some(s) => spec_resolve(s, query@) is None,
                    None => true,
                },
                ProxyError::OriginForbidden => pct_decode(raw_target@) matches Some(s)
                    && spec_resolve(s, query@) matches Some((t, h)) && h matches Some(hb)
                    && blocked_host(hb),
                _ => false,
            },
        },
        // The origin guard, stated on its own: a resolved target whose
        // host is blocked is answered with `OriginForbidden` — and with
        // nothing else — so no outbound request ever exists for it.
        (match pct_decode(raw_target@) {
            Some(s) => match spec_resolve(s, query@) {
                Some((t, h)) => match h {
                    Some(hb) => blocked_host(hb),
                    None => false,
                },
                None => false,
            },
            None => false,
        }) <==> (r matches Err(ProxyError::OriginForbidden)),
{
    let url = match resolve_target(raw_target, query) {
        Ok(u) => u,
        Err(e) => {
            return Err(e);
        },
    };
    match &url.host {
        Some(h) => {
            if host_blocked(h.as_slice()) {
                return Err(ProxyError::OriginForbidden);
            }
        },
        None => {},
    }
    let mut out = c2s_list(headers);
    let ghost filtered = headers_view(out@);
    match &url.host {
        Some(h) => {
            out.push(("Host".as_bytes_vec(), slice_to_vec(h.as_slice())));
        },
        None => {},
    }
    out.push(("User-Agent".as_bytes_vec(), proxy_message_ex()));
    proof {
        assert(headers_view(out@) =~= spec_outbound_headers(
            headers_view(headers@),
            opt_bytes(url.host),
        ));
    }
    Ok(OutboundRequest { method: slice_to_vec(method), url, headers: out, body: slice_to_vec(body) })
}

/// The headers the client receives: the transformed upstream headers,
/// then the fixed `Referrer-Policy: unsafe-url`.
pub open spec fn spec_client_headers(
    hs: Seq<(Seq<u8>, Seq<u8>)>,
    base: Seq<u8>,
) -> Seq<(Seq<u8>, Seq<u8>)> {
    spec_s2c_list(hs, base) + seq![("Referrer-Policy".spec_bytes(), "unsafe-url".spec_bytes())]
}

/// The client-facing answer to one upstream response: its own status
/// unchanged, the transformed headers, and the body decision.
pub struct ResponsePlan {
    pub status: u16,
    pub headers: Vec<(Vec<u8>, Vec<u8>)>,
    pub body: BodyPlan,
}

/// Transform the upstream response. The status — a 404 or any other
/// upstream error included — passes through as it came; the body is
/// buffered for rewriting exactly when the upstream declared HTML, and
/// streamed through otherwise.
pub fn plan_response(status: u16, upstream_headers: &Vec<(Vec<u8>, Vec<u8>)>, base: &TargetUrl) -> (r:
    ResponsePlan)
    ensures
        r.status == status,
        headers_view(r.headers@) == spec_client_headers(
            headers_view(upstream_headers@),
            base.text@,
        ),
        r.body == spec_body_plan(
            spec_find_header(headers_view(upstream_headers@), "content-type".spec_bytes()),
        ),
{
    let mut hs = s2c_list(upstream_headers, base.text.as_slice());
    hs.push(("Referrer-Policy".as_bytes_vec(), "unsafe-url".as_bytes_vec()));
    proof {
        assert(headers_view(hs@) =~= spec_client_headers(
            headers_view(upstream_headers@),
            base.text@,
        ));
    }
    let ct = find_header(upstream_headers, "content-type".as_bytes_vec().as_slice());
    let body = body_plan(ct.as_ref());
    ResponsePlan { status, headers: hs, body }
}

} // verus!

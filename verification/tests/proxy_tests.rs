use hopgate::guard::host_blocked;
use hopgate::headers::{c2s_decision, s2c_decision, transform_header_c2s, transform_header_s2c,
    HeaderDecision};
use hopgate::percent::{percent_decode, percent_encode};
use hopgate::pipeline::{plan_request, plan_response};
use hopgate::resolve::{resolve_decoded, resolve_target};
use hopgate::response::{error_response, BodyPlan, ProxyError};
use hopgate::rewrite::rewrite;

fn no_headers() -> Vec<(Vec<u8>, Vec<u8>)> {
    Vec::new()
}

fn resolved(target: &str) -> hopgate::urlkit::TargetUrl {
    resolve_decoded(target.as_bytes(), b"").expect("target should resolve")
}

#[test]
fn missing_scheme_assumes_https() {
    let bare = resolve_decoded(b"example.com/x", b"").expect("bare host should resolve");
    let explicit = resolve_decoded(b"https://example.com/x", b"").expect("should resolve");
    assert_eq!(bare.text, explicit.text);
    assert_eq!(bare.text, b"https://example.com/x".to_vec());
    assert_eq!(bare.host, Some(b"example.com".to_vec()));
}

#[test]
fn other_parse_failures_are_invalid_target() {
    assert!(matches!(
        resolve_decoded(b"https://", b""),
        Err(ProxyError::InvalidTarget)
    ));
    assert!(matches!(
        resolve_decoded(b"http://[bad", b""),
        Err(ProxyError::InvalidTarget)
    ));
}

#[test]
fn malformed_escape_is_invalid_target() {
    assert!(matches!(
        resolve_target(b"example.com%zz", b""),
        Err(ProxyError::InvalidTarget)
    ));
}

#[test]
fn inbound_query_replaces_target_query() {
    let u = resolve_target(b"https%3A%2F%2Fexample.com%2Fa%3Fx%3D1", b"y=2")
        .expect("should resolve");
    assert_eq!(u.text, b"https://example.com/a?y=2".to_vec());
}

#[test]
fn target_query_kept_when_inbound_is_empty() {
    let u = resolve_target(b"https%3A%2F%2Fexample.com%2Fa%3Fx%3D1", b"").expect("should resolve");
    assert_eq!(u.text, b"https://example.com/a?x=1".to_vec());
}

#[test]
fn guard_blocks_localhost_and_private_ranges() {
    assert!(host_blocked(b"localhost"));
    assert!(host_blocked(b"127.0.0.1"));
    assert!(host_blocked(b"10.0.0.1"));
    assert!(host_blocked(b"192.168.1.1"));
    assert!(host_blocked(b"172.16.0.1"));
    assert!(host_blocked(b"169.254.1.1"));
    assert!(host_blocked(b"100.64.0.1"));
    assert!(host_blocked(b"224.0.0.1"));
    assert!(host_blocked(b"0.0.0.0"));
    assert!(host_blocked(b"255.255.255.255"));
    assert!(host_blocked(b"240.0.0.1"));
    assert!(host_blocked(b"198.18.0.1"));
    assert!(host_blocked(b"192.0.2.1"));
}

#[test]
fn guard_allows_global_hosts() {
    assert!(!host_blocked(b"example.com"));
    assert!(!host_blocked(b"8.8.8.8"));
    assert!(!host_blocked(b"1.1.1.1"));
    assert!(!host_blocked(b"172.32.0.1"));
    assert!(!host_blocked(b"192.0.0.9"));
    assert!(!host_blocked(b"100.128.0.1"));
}

#[test]
fn guard_ignores_non_literals() {
    // Not the dotted-quad grammar: octet out of range, leading zero, junk.
    assert!(!host_blocked(b"256.1.1.1"));
    assert!(!host_blocked(b"010.0.0.1"));
    assert!(!host_blocked(b"10.0.0"));
    assert!(!host_blocked(b"10.0.0.1.2"));
    assert!(!host_blocked(b"10.0.0.x"));
}

#[test]
fn guard_blocks_ipv6_literals() {
    assert!(host_blocked(b"[::1]"));
    assert!(host_blocked(b"[::]"));
    assert!(host_blocked(b"[0:0:0:0:0:0:0:1]"));
    assert!(host_blocked(b"[fe80::1]"));
    assert!(host_blocked(b"[fc00::1]"));
    assert!(host_blocked(b"[fdab:1::2]"));
    assert!(host_blocked(b"[ff02::1]"));
    assert!(host_blocked(b"[::ffff:127.0.0.1]"));
    assert!(host_blocked(b"[::ffff:7f00:1]"));
    assert!(host_blocked(b"[::ffff:10.0.0.1]"));
}

#[test]
fn guard_allows_global_ipv6_and_ignores_malformed() {
    assert!(!host_blocked(b"[2001:4860:4860::8888]"));
    assert!(!host_blocked(b"[2606:4700::1111]"));
    assert!(!host_blocked(b"[::ffff:8.8.8.8]"));
    // Not the grammar: double compression, an over-long group, a stray
    // colon, brackets missing.
    assert!(!host_blocked(b"[1::2::3]"));
    assert!(!host_blocked(b"[12345::]"));
    assert!(!host_blocked(b"[:::1]"));
    assert!(!host_blocked(b"::1"));
}

#[test]
fn blocked_ipv6_target_never_becomes_an_outbound_request() {
    let r = plan_request(
        b"http%3A%2F%2F%5B%3A%3A1%5D%2F",
        b"",
        b"GET",
        &no_headers(),
        b"",
    );
    assert!(matches!(r, Err(ProxyError::OriginForbidden)));
}

#[test]
fn blocked_target_never_becomes_an_outbound_request() {
    // The plan for a blocked host is the fixed error; no request value
    // exists that a transport could execute.
    let r = plan_request(
        b"http%3A%2F%2Flocalhost%2Fsecret",
        b"",
        b"GET",
        &no_headers(),
        b"",
    );
    match r {
        Err(ProxyError::OriginForbidden) => {
            let (status, body) = error_response(&ProxyError::OriginForbidden);
            assert_eq!(status, 500);
            assert_eq!(body, b"Localhost is off limits. Nice try.".to_vec());
        }
        _ => panic!("expected the origin guard to trip"),
    }
    let r = plan_request(b"http%3A%2F%2F127.0.0.1%2F", b"", b"GET", &no_headers(), b"");
    assert!(matches!(r, Err(ProxyError::OriginForbidden)));
}

#[test]
fn c2s_drops_client_leg_headers() {
    assert!(transform_header_c2s(b"Cookie", b"id=1").is_none());
    assert!(transform_header_c2s(b"Connection", b"keep-alive").is_none());
    assert!(transform_header_c2s(b"Proxy-Authorization", b"Basic x").is_none());
    assert!(transform_header_c2s(b"Host", b"proxy.example").is_none());
    assert!(transform_header_c2s(b"User-Agent", b"browser").is_none());
    assert!(transform_header_c2s(b"Referer", b"https://proxy.example/~/x").is_none());
}

#[test]
fn c2s_forwards_negotiation_headers_unchanged() {
    let kept = transform_header_c2s(b"Accept", b"text/html").expect("should forward");
    assert_eq!(kept, (b"Accept".to_vec(), b"text/html".to_vec()));
    let kept = transform_header_c2s(b"If-None-Match", b"\"abc\"").expect("should forward");
    assert_eq!(kept, (b"If-None-Match".to_vec(), b"\"abc\"".to_vec()));
}

#[test]
fn outbound_request_sets_host_and_identity() {
    let mut headers = no_headers();
    headers.push((b"Accept".to_vec(), b"*/*".to_vec()));
    headers.push((b"Cookie".to_vec(), b"id=1".to_vec()));
    let req = plan_request(
        b"https%3A%2F%2Fexample.com%2Fa",
        b"",
        b"POST",
        &headers,
        b"payload",
    )
    .expect("should plan");
    assert_eq!(req.method, b"POST".to_vec());
    assert_eq!(req.body, b"payload".to_vec());
    assert_eq!(req.url.text, b"https://example.com/a".to_vec());
    assert_eq!(
        req.headers,
        vec![
            (b"Accept".to_vec(), b"*/*".to_vec()),
            (b"Host".to_vec(), b"example.com".to_vec()),
            (b"User-Agent".to_vec(), b"hopgate proxy".to_vec()),
        ]
    );
}

#[test]
fn s2c_rewrites_location_into_proxy_space() {
    let base = resolved("https://example.com/a");
    let (name, value) =
        transform_header_s2c(b"Location", b"/login", &base.text).expect("should rewrite");
    assert_eq!(name, b"Location".to_vec());
    assert_eq!(value, b"/~/https%3A%2F%2Fexample.com%2Flogin".to_vec());
}

#[test]
fn s2c_rescopes_set_cookie() {
    let base = resolved("https://example.com/a");
    let (_, value) = transform_header_s2c(
        b"Set-Cookie",
        b"id=1; Domain=example.com; Path=/; Secure",
        &base.text,
    )
    .expect("should keep the cookie");
    assert_eq!(value, b"id=1; Secure".to_vec());
}

#[test]
fn s2c_drops_hop_by_hop_and_content_length() {
    let base = resolved("https://example.com/a");
    assert!(transform_header_s2c(b"Transfer-Encoding", b"chunked", &base.text).is_none());
    assert!(transform_header_s2c(b"Connection", b"close", &base.text).is_none());
    assert!(transform_header_s2c(b"Content-Length", b"42", &base.text).is_none());
}

#[test]
fn response_plan_streams_non_html() {
    let base = resolved("https://example.com/a");
    let mut headers = no_headers();
    headers.push((b"Content-Type".to_vec(), b"application/octet-stream".to_vec()));
    let plan = plan_response(200, &headers, &base);
    assert!(matches!(plan.body, BodyPlan::Stream));
    let plan = plan_response(200, &no_headers(), &base);
    assert!(matches!(plan.body, BodyPlan::Stream));
}

#[test]
fn response_plan_buffers_html_for_rewriting() {
    let base = resolved("https://example.com/a");
    let mut headers = no_headers();
    headers.push((b"Content-Type".to_vec(), b"text/html; charset=utf-8".to_vec()));
    let plan = plan_response(200, &headers, &base);
    assert!(matches!(plan.body, BodyPlan::Buffer));
    let mut headers = no_headers();
    headers.push((b"Content-Type".to_vec(), b"TEXT/HTML".to_vec()));
    let plan = plan_response(200, &headers, &base);
    assert!(matches!(plan.body, BodyPlan::Buffer));
}

#[test]
fn upstream_404_passes_through() {
    let base = resolved("https://example.com/missing");
    let mut headers = no_headers();
    headers.push((b"Content-Type".to_vec(), b"text/plain".to_vec()));
    let plan = plan_response(404, &headers, &base);
    assert_eq!(plan.status, 404);
    assert!(matches!(plan.body, BodyPlan::Stream));
}

#[test]
fn response_plan_adds_referrer_policy() {
    let base = resolved("https://example.com/a");
    let plan = plan_response(200, &no_headers(), &base);
    assert_eq!(
        plan.headers,
        vec![(b"Referrer-Policy".to_vec(), b"unsafe-url".to_vec())]
    );
}

#[test]
fn transport_error_embeds_description() {
    let (status, body) = error_response(&ProxyError::TransportError(b"timed out".to_vec()));
    assert_eq!(status, 500);
    assert_eq!(body, b"Transport error: timed out".to_vec());
}

#[test]
fn invalid_target_is_a_client_error() {
    let (status, body) = error_response(&ProxyError::InvalidTarget);
    assert_eq!(status, 400);
    assert_eq!(body, b"Invalid URL".to_vec());
}

#[test]
fn relative_link_rewrites_through_proxy() {
    let base = resolved("https://example.com/bar/");
    let out = rewrite(b"<a href=\"/foo\">x</a>", &base).expect("should rewrite");
    assert_eq!(
        out,
        b"<a href=\"/~/https%3A%2F%2Fexample.com%2Ffoo\">x</a>".to_vec()
    );
    // The decoded target of the rewritten link is the resolved original.
    let segment = b"https%3A%2F%2Fexample.com%2Ffoo";
    assert_eq!(
        percent_decode(segment).expect("decodes"),
        b"https://example.com/foo".to_vec()
    );
}

#[test]
fn absolute_and_unquoted_links_rewrite_too() {
    let base = resolved("https://example.com/bar/");
    let out = rewrite(b"<img src=http://other.example/i.png>", &base).expect("should rewrite");
    assert_eq!(
        out,
        b"<img src=\"/~/http%3A%2F%2Fother.example%2Fi.png\">".to_vec()
    );
    let out = rewrite(b"<a href='a/b'>y</a>", &base).expect("should rewrite");
    assert_eq!(
        out,
        b"<a href=\"/~/https%3A%2F%2Fexample.com%2Fbar%2Fa%2Fb\">y</a>".to_vec()
    );
}

#[test]
fn comments_fragments_and_inert_schemes_are_untouched() {
    let base = resolved("https://example.com/bar/");
    let doc: &[u8] = b"<!-- <a href=\"/x\"> --><a href=\"#top\">t</a><a href=\"javascript:void(0)\">j</a>";
    let out = rewrite(doc, &base).expect("should pass through");
    assert_eq!(out, doc.to_vec());
}

#[test]
fn malformed_markup_passes_through() {
    let base = resolved("https://example.com/bar/");
    let doc: &[u8] = b"<a href=";
    assert_eq!(rewrite(doc, &base).expect("best effort"), doc.to_vec());
    let doc: &[u8] = b"<<>< 1 > <b data-x='<a href=\"/y\">'>";
    assert!(rewrite(doc, &base).is_ok());
}

#[test]
fn unresolvable_reference_fails_the_rewrite() {
    let base = resolved("https://example.com/bar/");
    assert!(matches!(
        rewrite(b"<a href=\"http://[bad\">x</a>", &base),
        Err(ProxyError::RewriteError)
    ));
}

#[test]
fn header_decisions_are_tagged() {
    assert!(matches!(c2s_decision(b"cookie", b"id=1"), HeaderDecision::Drop));
    assert!(matches!(c2s_decision(b"Accept", b"*/*"), HeaderDecision::Pass));
    let base = resolved("https://example.com/a");
    assert!(matches!(
        s2c_decision(b"Server", b"nginx", &base.text),
        HeaderDecision::Pass
    ));
    match s2c_decision(b"location", b"/x", &base.text) {
        HeaderDecision::Rewrite(v) => {
            assert_eq!(v, b"/~/https%3A%2F%2Fexample.com%2Fx".to_vec())
        }
        _ => panic!("a location header must be rewritten"),
    }
}

#[test]
fn resolver_normalizes_the_target() {
    // The resolved URL is the parser's serialization, not the raw input.
    let u = resolve_decoded(b"example.com", b"").expect("should resolve");
    assert_eq!(u.text, b"https://example.com/".to_vec());
}

#[test]
fn empty_inputs_are_handled() {
    let base = resolved("https://example.com/");
    assert_eq!(rewrite(b"", &base).expect("empty document"), Vec::<u8>::new());
    assert_eq!(percent_encode(b""), Vec::<u8>::new());
    assert_eq!(percent_decode(b"").expect("empty segment"), Vec::<u8>::new());
    assert!(matches!(
        resolve_target(b"", b""),
        Err(ProxyError::InvalidTarget)
    ));
}

#[test]
fn proxy_form_link_round_trips() {
    let original = b"https://example.com/a%20b?q=1".to_vec();
    let encoded = percent_encode(&original);
    let decoded = percent_decode(&encoded).expect("decodes");
    assert_eq!(decoded, original);
    let u = resolve_target(&encoded, b"").expect("should resolve");
    assert_eq!(u.text, original);
}

//! A single-hop forwarding proxy core: target-URL resolution, an SSRF guard,
//! header filtering in both directions, and HTML link rewriting, so that a
//! client navigating through the proxy's `/~/` URL space keeps routing
//! through the proxy.
//!
//! The pipeline here is pure: it turns an inbound request into either an
//! error response or an outbound request description, and an upstream
//! response into a client response plan. The one network call and the
//! server plumbing live outside this crate.

pub mod ascii;
pub mod guard;
pub mod headers;
pub mod percent;
pub mod pipeline;
pub mod resolve;
pub mod rewrite;
pub mod response;
pub mod urlkit;

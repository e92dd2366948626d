//! The decisions of the proxy pipeline: what a request is answered with, which
//! address of an upstream is tried first, and what follows a failed attempt.

use crate::error::Error;
use crate::host::{opt_str_view, parent_host, req_host, spec_req_host, sub_host, HostHeader};
use crate::outside::{same_text, share};
use crate::route::{Protocol, Route, SiteConf, Upstream};
use std::sync::Arc;
use vstd::prelude::*;
use vstd::string::{StrSliceExecFns, StringExecFns};
use vstd::utf8::encode_utf8;

verus! {

/// A response that the proxy writes itself.
#[derive(Debug)]
pub struct Reply {
    pub status: u16,
    pub location: Option<String>,
    pub body: String,
}

/// A reply as plain mathematics.
pub struct ReplyView {
    pub status: int,
    pub location: Option<Seq<char>>,
    pub body: Seq<char>,
}

impl View for Reply {
    type V = ReplyView;

    open spec fn view(&self) -> ReplyView {
        ReplyView {
            status: self.status as int,
            location: match self.location {
                Some(l) => Some(l@),
                None => None,
            },
            body: self.body@,
        }
    }
}

/// What becomes of a request.
#[derive(Debug)]
pub enum Plan {
    /// It goes to one of the addresses of this upstream.
    Forward(Arc<Upstream>),
    /// The proxy answers it.
    Answer(Reply),
}

/// Whether a byte may stand in the value of a header.
pub open spec fn header_byte_ok(b: u8) -> bool {
    (b >= 32 && b != 127) || b == 9
}

/// Whether a text may be the value of a header: each of its bytes may.
pub open spec fn header_value_ok(text: Seq<char>) -> bool {
    forall|i: int|
        0 <= i < encode_utf8(text).len() ==> header_byte_ok(#[trigger] encode_utf8(text)[i])
}

/// `HeaderValue::from_str`, for its verdict only. It accepts a text whose bytes
/// are all at least 32 and not 127, or a tab; the message of its error is a
/// fixed text.
#[verifier::external_body]
pub(crate) fn check_header_value(text: &str) -> (verdict: core::result::Result<(), String>)
    ensures
        verdict is Ok <==> header_value_ok(text@),
        verdict matches Err(m) ==> m@ == "failed to parse header value"@,
{
    hyper::header::HeaderValue::from_str(text).map(|_| ()).map_err(|e| e.to_string())
}

/// Where a redirect points: the same path and query on `host`, over https.
pub open spec fn location_of(host: Seq<char>, path_and_query: Seq<char>) -> Seq<char> {
    "https://"@ + host + path_and_query
}

/// The redirect to `host`.
pub open spec fn moved_to(host: Seq<char>, path_and_query: Seq<char>) -> ReplyView {
    ReplyView { status: 301, location: Some(location_of(host, path_and_query)), body: Seq::empty() }
}

/// The answer to a request for a host that the table does not know.
pub open spec fn not_found() -> ReplyView {
    ReplyView { status: 404, location: None, body: "404: Not Found"@ }
}

/// The answer that reports an error: status 500, with the error's text as body.
pub open spec fn failed(e: Error) -> ReplyView {
    ReplyView { status: 500, location: None, body: e.spec_text() }
}

/// What the table says of a host.
pub enum Verdict {
    /// The host has a site, with this upstream.
    Known(Upstream),
    /// The host has none, but its parent has.
    Parent(Seq<char>),
    /// Neither has.
    Unknown,
}

/// Looks `host` up, then its parent.
pub open spec fn verdict(sites: Map<Seq<char>, SiteConf>, host: Seq<char>) -> Verdict {
    if sites.contains_key(host) {
        Verdict::Known(*sites[host].upstream)
    } else {
        match parent_host(host) {
            Some(parent) => if sites.contains_key(parent) {
                Verdict::Parent(parent)
            } else {
                Verdict::Unknown
            },
            None => Verdict::Unknown,
        }
    }
}

/// Builds the text of a redirect's target.
pub fn location(host: &str, path_and_query: &str) -> (target: String)
    ensures
        target@ == location_of(host@, path_and_query@),
{
    String::from_str("https://").concat(host).concat(path_and_query)
}

/// Decides what becomes of a request for `host`. A host of the table is
/// forwarded to its upstream; should the upstream have no address, which a
/// valid table rules out, that is an error. A host whose parent is in the
/// table is sent there with a 301. Any other host gets a 404.
pub fn _proxy(route: &Route, host: &str, path_and_query: &str) -> (plan: core::result::Result<
    Plan,
    Error,
>)
    ensures
        match verdict(route.sites(), host@) {
            Verdict::Known(upstream) => if upstream.addr_li@.len() == 0 {
                plan matches Err(Error::UpstreamNotFound)
            } else {
                plan matches Ok(Plan::Forward(u)) && *u == upstream
            },
            Verdict::Parent(parent) => if header_value_ok(location_of(parent, path_and_query@)) {
                plan matches Ok(Plan::Answer(reply)) && reply@ == moved_to(
                    parent,
                    path_and_query@,
                )
            } else {
                plan matches Err(Error::Http(m)) && m@ == "failed to parse header value"@
            },
            Verdict::Unknown => plan matches Ok(Plan::Answer(reply)) && reply@ == not_found(),
        },
        route.valid() ==> !(plan matches Err(Error::UpstreamNotFound)),
{
    if let Some(site_conf) = route.conf_by_host(host) {
        if site_conf.upstream.addr_li.len() == 0 {
            return Err(Error::UpstreamNotFound);
        }
        return Ok(Plan::Forward(share(&site_conf.upstream)));
    }
    if let Some(parent) = sub_host(host) {
        if route.contains_host(parent.as_str()) {
            let target = location(parent.as_str(), path_and_query);
            return match check_header_value(target.as_str()) {
                Ok(_) => Ok(
                    Plan::Answer(
                        Reply { status: 301, location: Some(target), body: String::new() },
                    ),
                ),
                Err(m) => Err(Error::Http(m)),
            };
        }
    }
    Ok(
        Plan::Answer(
            Reply { status: 404, location: None, body: String::from_str("404: Not Found") },
        ),
    )
}

/// The answer that reports `e`: a 500 with the error's text.
pub fn failure(e: &Error) -> (reply: Reply)
    ensures
        reply@ == failed(*e),
{
    Reply { status: 500, location: None, body: e.text() }
}

/// The view of an optional path and query, empty where the URI has none.
pub open spec fn path_or_empty(path_and_query: Option<&str>) -> Seq<char> {
    match path_and_query {
        Some(p) => p@,
        None => Seq::empty(),
    }
}

/// The whole decision for one request: the host is read from the request, the
/// plan is made for it, and an error becomes a 500.
pub fn proxy(
    route: &Route,
    header: &HostHeader,
    uri_host: Option<&str>,
    path_and_query: Option<&str>,
) -> (plan: Plan)
    ensures
        ({
            let host = spec_req_host(*header, opt_str_view(uri_host));
            let path = path_or_empty(path_and_query);
            match verdict(route.sites(), host) {
                Verdict::Known(upstream) => if upstream.addr_li@.len() == 0 {
                    plan matches Plan::Answer(reply) && reply@ == failed(Error::UpstreamNotFound)
                } else {
                    plan matches Plan::Forward(u) && *u == upstream
                },
                Verdict::Parent(parent) => plan matches Plan::Answer(reply) && reply@ == (
                if header_value_ok(location_of(parent, path)) {
                    moved_to(parent, path)
                } else {
                    ReplyView {
                        status: 500,
                        location: None,
                        body: "http: failed to parse header value"@,
                    }
                }),
                Verdict::Unknown => plan matches Plan::Answer(reply) && reply@ == not_found(),
            }
        }),
{
    let host = req_host(header, uri_host);
    let path = match path_and_query {
        Some(p) => p,
        None => {
            proof {
                reveal_strlit("");
            }
            ""
        },
    };
    match _proxy(route, host, path) {
        Ok(plan) => plan,
        Err(e) => {
            proof {
                if e is Http {
                    reveal_strlit("http: ");
                    reveal_strlit("failed to parse header value");
                    reveal_strlit("http: failed to parse header value");
                    assert(e.spec_text() =~= "http: failed to parse header value"@);
                }
            }
            Plan::Answer(failure(&e))
        },
    }
}

/// One try at an upstream: the index of the address, and how many tries
/// failed before it.
#[derive(Clone, Copy, Debug, PartialEq, Eq, Structural)]
pub struct Attempt {
    pub pos: usize,
    pub retry: usize,
}

/// The counter after one more request: one more, and zero after the largest
/// value.
pub open spec fn advanced(n: usize) -> usize {
    if n == usize::MAX {
        0
    } else {
        (n + 1) as usize
    }
}

/// The first try of a request. It takes the value of the shared counter,
/// modulo the number of addresses, as the index to start at, and advances the
/// counter by one.
pub fn first_attempt(counter: &mut usize, upstream: &Upstream) -> (first: Attempt)
    requires
        upstream.addr_li@.len() >= 1,
    ensures
        *final(counter) == advanced(*old(counter)),
        first.pos == (*old(counter) as int) % (upstream.addr_li@.len() as int),
        first.retry == 0,
{
    let n = *counter;
    *counter = n.wrapping_add(1);
    Attempt { pos: n % upstream.addr_li.len(), retry: 0 }
}

/// The try that follows a failed one, if there is one: the next address, in a
/// circle. There is none once `max_retry` failures were followed by a try.
pub open spec fn spec_next_attempt(failed: Attempt, upstream: Upstream) -> Option<Attempt> {
    if failed.retry >= upstream.max_retry {
        None
    } else {
        Some(
            Attempt {
                pos: ((failed.pos + 1) % (upstream.addr_li@.len() as int)) as usize,
                retry: (failed.retry + 1) as usize,
            },
        )
    }
}

/// Decides what follows a failed try: another try, or `None`, on which the
/// last error is reported.
pub fn next_attempt(failed: Attempt, upstream: &Upstream) -> (next: Option<Attempt>)
    requires
        upstream.addr_li@.len() >= 1,
        failed.pos < upstream.addr_li@.len(),
    ensures
        next == spec_next_attempt(failed, *upstream),
        next matches Some(a) ==> a.pos < upstream.addr_li@.len(),
{
    if failed.retry >= upstream.max_retry {
        return None;
    }
    let len = upstream.addr_li.len();
    let pos = (failed.pos + 1) % len;
    Some(Attempt { pos, retry: failed.retry + 1 })
}

/// The try after `k` failures, counted from the first try.
pub open spec fn nth_attempt(first: Attempt, upstream: Upstream, k: nat) -> Option<Attempt>
    decreases k,
{
    if k == 0 {
        Some(first)
    } else {
        match nth_attempt(first, upstream, (k - 1) as nat) {
            Some(a) => spec_next_attempt(a, upstream),
            None => None,
        }
    }
}

/// A request is tried at most `max_retry + 1` times, and the tries walk the
/// addresses in a circle: after `k` failures there is another try exactly when
/// `k <= max_retry`, and it goes to the address `k` places after the first.
pub proof fn lemma_attempts(first: Attempt, upstream: Upstream, k: nat)
    requires
        upstream.addr_li@.len() >= 1,
        first.pos < upstream.addr_li@.len(),
        first.retry == 0,
    ensures
        nth_attempt(first, upstream, k) is Some <==> k <= upstream.max_retry,
        nth_attempt(first, upstream, k) matches Some(a) ==> a.retry == k && a.pos == (first.pos
            + k) % (upstream.addr_li@.len() as int),
    decreases k,
{
    let len = upstream.addr_li@.len() as int;
    if k == 0 {
        let p = first.pos as int;
        assert(p % len == p) by (nonlinear_arith)
            requires
                0 <= p < len,
        ;
    } else {
        lemma_attempts(first, upstream, (k - 1) as nat);
        if let Some(a) = nth_attempt(first, upstream, (k - 1) as nat) {
            let before = first.pos + k - 1;
            assert(((before % len) + 1) % len == (before + 1) % len) by (nonlinear_arith)
                requires
                    len > 0,
                    before >= 0,
            ;
            assert(0 <= (before + 1) % len < len) by (nonlinear_arith)
                requires
                    len > 0,
            ;
            assert(len == upstream.addr_li.len());
        }
    }
}

/// The version of HTTP that a request is written in.
#[derive(Clone, Copy, Debug, PartialEq, Eq, Structural)]
pub enum Version {
    Http09,
    Http10,
    Http11,
    H2,
    H3,
}

/// One header of a request. The name is in lower case, as the HTTP codec
/// keeps it.
#[derive(Debug)]
pub struct Header {
    pub name: String,
    pub value: Vec<u8>,
}

/// The part of a request's head that the pipeline rewrites.
#[derive(Debug)]
pub struct Head {
    pub version: Version,
    pub headers: Vec<Header>,
}

/// Whether a header survives the rewrite: every header but `connection`.
pub open spec fn passes(h: Header) -> bool {
    h.name@ != "connection"@
}

/// Rewrites the head of a request for an upstream that speaks HTTP/1.1: the
/// version becomes 1.1, and the request asks to keep the connection alive,
/// whatever it asked before. The other headers stay, in their order.
pub fn upstream_head(head: Head, protocol: Protocol) -> (out: Head)
    ensures
        out.version == Version::Http11,
        out.headers@.len() >= 1,
        out.headers@.last().name@ == "connection"@,
        out.headers@.last().value@ == encode_utf8("keep-alive"@),
        out.headers@.drop_last() == head.headers@.filter(|h: Header| passes(h)),
{
    let ghost before = head.headers@;
    let mut headers = head.headers;
    let mut i: usize = 0;
    let ghost mut done: int = 0;
    while i < headers.len()
        invariant
            0 <= done <= before.len(),
            i <= headers@.len(),
            headers@.len() - i == before.len() - done,
            headers@.subrange(0, i as int) == before.subrange(0, done).filter(
                |h: Header| passes(h),
            ),
            headers@.subrange(i as int, headers@.len() as int) == before.subrange(
                done,
                before.len() as int,
            ),
        decreases headers@.len() - i,
    {
        let ghost current = headers@;
        assert(current[i as int] == current.subrange(i as int, current.len() as int)[0]);
        assert(before[done] == before.subrange(done, before.len() as int)[0]);
        proof {
            let seen = before.subrange(0, done);
            assert(before.subrange(0, done + 1) == seen.push(before[done]));
            seen.lemma_filter_push(before[done], |h: Header| passes(h));
        }
        if same_text(headers[i].name.as_str(), "connection") {
            headers.remove(i);
            proof {
                assert(headers@.subrange(0, i as int) == current.subrange(0, i as int));
                assert(headers@.subrange(i as int, headers@.len() as int) == current.subrange(
                    i as int,
                    current.len() as int,
                ).subrange(1, current.len() - i));
                assert(before.subrange(done + 1, before.len() as int) == before.subrange(
                    done,
                    before.len() as int,
                ).subrange(1, before.len() - done));
                done = done + 1;
            }
        } else {
            proof {
                assert(headers@.subrange(0, i + 1) == current.subrange(0, i as int).push(
                    current[i as int],
                ));
                assert(headers@.subrange(i + 1, headers@.len() as int) == current.subrange(
                    i as int,
                    current.len() as int,
                ).subrange(1, current.len() - i));
                assert(before.subrange(done + 1, before.len() as int) == before.subrange(
                    done,
                    before.len() as int,
                ).subrange(1, before.len() - done));
                done = done + 1;
            }
            i += 1;
        }
    }
    proof {
        assert(headers@.subrange(0, i as int) == headers@);
        assert(before.subrange(0, done) == before);
    }
    let ghost filtered = headers@;
    match protocol {
        Protocol::H1 => {
            headers.push(
                Header { name: String::from_str("connection"), value: "keep-alive".as_bytes_vec() },
            );
        },
    }
    assert(headers@.drop_last() == filtered);
    Head { version: Version::Http11, headers }
}

} // verus!

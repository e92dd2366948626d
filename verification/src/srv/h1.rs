//! The h1 listener's service: a request for a host of the routing table, or
//! for a child of one, is sent on to https; any other gets a 404.

use crate::host::{
    opt_str_view, opt_view, parent_host, req_host, spec_req_host, sub_host, HostHeader,
};
use crate::proxy::{check_header_value, header_value_ok, location, location_of, Reply, ReplyView};
use crate::route::{Route, SiteConf};
use vstd::prelude::*;

verus! {

/// The reason phrase that goes with a status code, where it has one.
pub uninterp spec fn reason_phrase(status: u16) -> Option<Seq<char>>;

/// `StatusCode::from_u16` and `StatusCode::canonical_reason`: the standard
/// reason phrase of a status code, `None` where the code is no status code or
/// has no phrase. The phrases of the three codes that the listener answers
/// with are stated.
#[verifier::external_body]
fn canonical_reason(status: u16) -> (reason: Option<String>)
    ensures
        opt_view(reason) == reason_phrase(status),
        status == 301 ==> opt_view(reason) == Some("Moved Permanently"@),
        status == 404 ==> opt_view(reason) == Some("Not Found"@),
        status == 500 ==> opt_view(reason) == Some("Internal Server Error"@),
{
    hyper::StatusCode::from_u16(status).ok().and_then(|s| s.canonical_reason()).map(String::from)
}

/// The body that goes with a status: none for a redirect, the reason phrase
/// for any other status, and none where there is no phrase.
pub open spec fn body_of(status: u16) -> Seq<char> {
    if 300 <= status < 400 {
        Seq::empty()
    } else {
        match reason_phrase(status) {
            Some(r) => r,
            None => Seq::empty(),
        }
    }
}

/// The response with this status and no headers.
pub fn response(status: u16) -> (reply: Reply)
    ensures
        reply@ == (ReplyView { status: status as int, location: None, body: body_of(status) }),
        status == 404 ==> reply.body@ == "Not Found"@,
        status == 500 ==> reply.body@ == "Internal Server Error"@,
{
    let body = if 300 <= status && status < 400 {
        String::new()
    } else {
        match canonical_reason(status) {
            Some(r) => r,
            None => String::new(),
        }
    };
    Reply { status, location: None, body }
}

/// The host that a request is sent on to: the host itself where the table has
/// it, else its parent where the table has that, else none.
pub open spec fn target_of(sites: Map<Seq<char>, SiteConf>, host: Seq<char>) -> Option<Seq<char>> {
    if sites.contains_key(host) {
        Some(host)
    } else {
        match parent_host(host) {
            Some(parent) => if sites.contains_key(parent) {
                Some(parent)
            } else {
                None
            },
            None => None,
        }
    }
}

/// The view of an optional path and query, `/` where the URI has none.
pub open spec fn path_or_root(path_and_query: Option<&str>) -> Seq<char> {
    match path_and_query {
        Some(p) => p@,
        None => "/"@,
    }
}

/// What the h1 listener answers.
pub open spec fn spec_redirect(
    sites: Map<Seq<char>, SiteConf>,
    host: Seq<char>,
    path: Seq<char>,
) -> ReplyView {
    match target_of(sites, host) {
        Some(target) => if header_value_ok(location_of(target, path)) {
            ReplyView { status: 301, location: Some(location_of(target, path)), body: Seq::empty() }
        } else {
            ReplyView { status: 500, location: None, body: "Internal Server Error"@ }
        },
        None => ReplyView { status: 404, location: None, body: "Not Found"@ },
    }
}

/// Answers a request that came over plain HTTP. A known host, or the child of
/// one, is redirected to `https://` with the same path and query; the body of
/// the redirect is empty. A target that cannot stand in a header gives a 500,
/// an unknown host a 404, each with its reason phrase as body.
pub fn redirect(
    route: &Route,
    header: &HostHeader,
    uri_host: Option<&str>,
    path_and_query: Option<&str>,
) -> (reply: Reply)
    ensures
        reply@ == spec_redirect(
            route.sites(),
            spec_req_host(*header, opt_str_view(uri_host)),
            path_or_root(path_and_query),
        ),
{
    let host = req_host(header, uri_host);
    let pq = match path_and_query {
        Some(p) => p,
        None => "/",
    };
    let target = if route.contains_host(host) {
        location(host, pq)
    } else {
        match sub_host(host) {
            Some(parent) => {
                if route.contains_host(parent.as_str()) {
                    location(parent.as_str(), pq)
                } else {
                    return response(404);
                }
            },
            None => {
                return response(404);
            },
        }
    };
    match check_header_value(target.as_str()) {
        Ok(_) => Reply { status: 301, location: Some(target), body: String::new() },
        Err(_) => response(500),
    }
}

} // verus!

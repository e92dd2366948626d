use gway::srv::h1::{redirect, response};
use gway::{Endpoint, HostHeader, Protocol, Route, Upstream};

fn table() -> Route {
    let mut route = Route::new();
    let upstream = Upstream {
        addr_li: vec![Endpoint { v6: false, ip: 0x7f00_0001, port: 9080, flowinfo: 0, scope_id: 0 }],
        connect_timeout_sec: 5,
        request_timeout_sec: 10,
        max_retry: 3,
        protocol: Protocol::H1,
    };
    route.add_upstream("test_upstream".to_string(), upstream);
    route.set("018007.xyz".to_string(), "018007.xyz".to_string(), "test_upstream");
    route
}

#[test]
fn test_h1_redirect_and_not_found() {
    let route = table();
    let path = "/test-path";
    let known = HostHeader::Text("018007.xyz".to_string());
    let res = redirect(&route, &known, None, Some(path));
    assert_eq!(res.status, 301);
    assert_eq!(res.location.as_deref(), Some("https://018007.xyz/test-path"));
    assert_eq!(res.body, "");

    let unknown = HostHeader::Text("unknown.com".to_string());
    let res_404 = redirect(&route, &unknown, None, Some(path));
    assert_eq!(res_404.status, 404);
    assert_eq!(res_404.location, None);
    assert_eq!(res_404.body, "Not Found");
}

#[test]
fn redirect_sends_a_child_to_its_parent() {
    let route = table();
    let header = HostHeader::Text("sub.018007.xyz".to_string());
    let res = redirect(&route, &header, None, Some("/x?y=z"));
    assert_eq!(res.status, 301);
    assert_eq!(res.location.as_deref(), Some("https://018007.xyz/x?y=z"));
    assert_eq!(res.body, "");
}

#[test]
fn redirect_without_path_goes_to_the_root() {
    let route = table();
    let header = HostHeader::Text("018007.xyz".to_string());
    let res = redirect(&route, &header, None, None);
    assert_eq!(res.location.as_deref(), Some("https://018007.xyz/"));
}

#[test]
fn redirect_reads_the_host_of_the_uri() {
    let route = table();
    let res = redirect(&route, &HostHeader::Absent, Some("018007.xyz"), Some("/p"));
    assert_eq!(res.status, 301);
    assert_eq!(res.location.as_deref(), Some("https://018007.xyz/p"));
}

#[test]
fn redirect_unknown_host_is_404_not_500() {
    let route = table();
    for host in ["unknown.com", "a.b.018007.xyz", "xyz", "", ".", "018007.xyz."] {
        let res = redirect(&route, &HostHeader::Text(host.to_string()), None, Some("/"));
        assert_eq!(res.status, 404, "host {host:?}");
        assert_eq!(res.body, "Not Found");
    }
    let res = redirect(&route, &HostHeader::Unreadable, Some("018007.xyz"), Some("/"));
    assert_eq!(res.status, 404);
}

#[test]
fn redirect_with_bad_location_is_500() {
    let route = table();
    let header = HostHeader::Text("018007.xyz".to_string());
    let res = redirect(&route, &header, None, Some("/a\u{0}b"));
    assert_eq!(res.status, 500);
    assert_eq!(res.body, "Internal Server Error");
    assert_eq!(res.location, None);
}

#[test]
fn response_body_is_the_reason_unless_redirect() {
    assert_eq!(response(404).body, "Not Found");
    assert_eq!(response(500).body, "Internal Server Error");
    assert_eq!(response(200).body, "OK");
    assert_eq!(response(418).body, "I'm a teapot");
    assert_eq!(response(301).body, "");
    assert_eq!(response(399).body, "");
    assert_eq!(response(400).body, "Bad Request");
    assert_eq!(response(299).body, "");
    assert_eq!(response(0).body, "");
    assert_eq!(response(1000).body, "");
    assert_eq!(response(404).status, 404);
    assert_eq!(response(404).location, None);
}

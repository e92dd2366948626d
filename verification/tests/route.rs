use gway::{Endpoint, Protocol, Route, SiteConf, Upstream};
use std::sync::Arc;

fn v4(a: u8, b: u8, c: u8, d: u8, port: u16) -> Endpoint {
    Endpoint { v6: false, ip: u32::from_be_bytes([a, b, c, d]) as u128, port, flowinfo: 0, scope_id: 0 }
}

fn upstream(ports: &[u16]) -> Upstream {
    Upstream {
        addr_li: ports.iter().map(|p| v4(127, 0, 0, 1, *p)).collect(),
        connect_timeout_sec: 5,
        request_timeout_sec: 10,
        max_retry: 3,
        protocol: Protocol::H1,
    }
}

#[test]
fn default_route_knows_nothing() {
    let route = Route::default();
    assert!(!route.contains_host("018007.xyz"));
    assert!(route.hosts_of("test_upstream").is_none());
}

#[test]
fn new_route_knows_nothing() {
    let route = Route::new();
    assert!(!route.contains_host("018007.xyz"));
    assert!(route.conf_by_host("018007.xyz").is_none());
    assert!(route.hosts_of("test_upstream").is_none());
}

#[test]
fn set_points_a_host_at_an_upstream() {
    let mut route = Route::new();
    route.add_upstream("test_upstream".to_string(), upstream(&[8081, 8082]));
    route.set("test.018007.xyz".to_string(), "018007.xyz".to_string(), "test_upstream");
    let conf = route.conf_by_host("test.018007.xyz").unwrap();
    assert_eq!(conf.cert_host, "018007.xyz");
    assert_eq!(conf.upstream.addr_li, vec![v4(127, 0, 0, 1, 8081), v4(127, 0, 0, 1, 8082)]);
    assert_eq!(conf.upstream.max_retry, 3);
    assert_eq!(conf.upstream.connect_timeout_sec, 5);
    assert_eq!(conf.upstream.request_timeout_sec, 10);
    assert_eq!(conf.upstream.protocol, Protocol::H1);
    assert!(route.contains_host("test.018007.xyz"));
}

#[test]
fn lookup_is_by_exact_match() {
    let mut route = Route::new();
    route.add_upstream("up".to_string(), upstream(&[1]));
    route.set("018007.xyz".to_string(), "018007.xyz".to_string(), "up");
    assert!(route.contains_host("018007.xyz"));
    assert!(!route.contains_host("sub.018007.xyz"));
    assert!(!route.contains_host("018007.XYZ"));
    assert!(!route.contains_host("18007.xyz"));
    assert!(route.conf_by_host("sub.018007.xyz").is_none());
    assert!(!route.contains_host(""));
}

#[test]
fn set_with_unknown_upstream_changes_nothing() {
    let mut route = Route::new();
    route.add_upstream("up".to_string(), upstream(&[1]));
    route.set("018007.xyz".to_string(), "018007.xyz".to_string(), "other");
    assert!(!route.contains_host("018007.xyz"));
    assert_eq!(route.hosts_of("up"), Some(vec![]));
    assert_eq!(route.hosts_of("other"), None);
}

#[test]
fn set_can_be_chained() {
    let mut route = Route::new();
    route.add_upstream("up".to_string(), upstream(&[1]));
    route
        .set("a.example".to_string(), "example".to_string(), "up")
        .set("b.example".to_string(), "example".to_string(), "up");
    assert!(route.contains_host("a.example"));
    assert!(route.contains_host("b.example"));
    assert_eq!(route.hosts_of("up"), Some(vec!["a.example".to_string(), "b.example".to_string()]));
}

#[test]
fn set_again_replaces_the_site() {
    let mut route = Route::new();
    route.add_upstream("one".to_string(), upstream(&[1]));
    route.add_upstream("two".to_string(), upstream(&[2, 3]));
    route.set("018007.xyz".to_string(), "first".to_string(), "one");
    route.set("018007.xyz".to_string(), "second".to_string(), "two");
    let conf = route.conf_by_host("018007.xyz").unwrap();
    assert_eq!(conf.cert_host, "second");
    assert_eq!(conf.upstream.addr_li.len(), 2);
    assert_eq!(route.hosts_of("one"), Some(vec!["018007.xyz".to_string()]));
    assert_eq!(route.hosts_of("two"), Some(vec!["018007.xyz".to_string()]));
}

#[test]
fn a_host_is_kept_once_in_the_host_set() {
    let mut route = Route::new();
    route.add_upstream("up".to_string(), upstream(&[1]));
    route.set("018007.xyz".to_string(), "a".to_string(), "up");
    route.set("018007.xyz".to_string(), "b".to_string(), "up");
    assert_eq!(route.hosts_of("up"), Some(vec!["018007.xyz".to_string()]));
    assert_eq!(route.conf_by_host("018007.xyz").unwrap().cert_host, "b");
}

#[test]
fn add_upstream_again_replaces_it_and_forgets_its_hosts() {
    let mut route = Route::new();
    route.add_upstream("up".to_string(), upstream(&[1]));
    route.set("018007.xyz".to_string(), "018007.xyz".to_string(), "up");
    route.add_upstream("up".to_string(), upstream(&[7, 8, 9]));
    assert_eq!(route.hosts_of("up"), Some(vec![]));
    assert_eq!(route.conf_by_host("018007.xyz").unwrap().upstream.addr_li.len(), 1);
    route.set("other.xyz".to_string(), "other.xyz".to_string(), "up");
    assert_eq!(route.conf_by_host("other.xyz").unwrap().upstream.addr_li.len(), 3);
}

#[test]
fn upstream_names_are_told_apart() {
    let mut route = Route::new();
    route.add_upstream("up".to_string(), upstream(&[1]));
    route.add_upstream("up2".to_string(), upstream(&[2, 3]));
    route.set("a".to_string(), "a".to_string(), "up2");
    assert_eq!(route.conf_by_host("a").unwrap().upstream.addr_li.len(), 2);
    assert_eq!(route.hosts_of("up"), Some(vec![]));
    assert_eq!(route.hosts_of("up2"), Some(vec!["a".to_string()]));
}

#[test]
fn every_site_has_an_address() {
    let mut route = Route::new();
    route.add_upstream("one".to_string(), upstream(&[1]));
    route.add_upstream("two".to_string(), upstream(&[2, 3]));
    let hosts = ["a.example", "b.example", "c.example"];
    route.set(hosts[0].to_string(), "x".to_string(), "one");
    route.set(hosts[1].to_string(), "x".to_string(), "two");
    route.set(hosts[2].to_string(), "x".to_string(), "two");
    for host in hosts {
        assert!(route.conf_by_host(host).unwrap().upstream.addr_li.len() >= 1);
    }
}

#[test]
fn site_conf_new_and_duplicate() {
    let up = Arc::new(upstream(&[1]));
    let conf = SiteConf::new(up.clone(), "018007.xyz".to_string());
    let copy = conf.duplicate();
    assert!(Arc::ptr_eq(&conf.upstream, &up));
    assert!(Arc::ptr_eq(&copy.upstream, &up));
    assert_eq!(copy.cert_host, "018007.xyz");
}

#[test]
fn endpoint_key_round_trip() {
    let e = Endpoint { v6: true, ip: 1, port: 443, flowinfo: 7, scope_id: 9 };
    assert_eq!(e.key(), (true, 1, 443, 7, 9));
    assert_eq!(Endpoint::from_key(e.key()), e);
    let f = v4(10, 0, 0, 1, 80);
    assert_eq!(f.key(), (false, 0x0a00_0001, 80, 0, 0));
}

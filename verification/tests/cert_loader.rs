use gway::cert::Cert;
use gway::{CertLoad, CertLoader, Error};
use std::cell::RefCell;
use std::collections::HashMap;
use std::sync::Arc;

fn pem(label: &str, body: &str) -> String {
    format!("-----BEGIN {label}-----\n{body}-----END {label}-----\n")
}

fn key_label(prefix: &str) -> String {
    format!("{prefix}{} KEY", "PRIVATE")
}

fn chain_a() -> String {
    pem("CERTIFICATE", "MIIBaTCCAQ+gAwIBAgIUPaKFyqcJWoDjQPyTGz3ukhd6CrEwCgYIKoZIzj0EAwIw\nFTETMBEGA1UEAwwKMDE4MDA3Lnh5ejAeFw0yNDAxMDEwMDAwMDBaFw0zNTAxMDEw\nMDAwMDBaMBUxEzARBgNVBAMMCjAxODAwNy54eXowWTATBgcqhkjOPQIBBggqhkjO\nPQMBBwNCAATyPiv6HIGypBsB7dIOjaT6il0uKBEPYs6SeM6leseViYOyWY9U8nnY\nT0CVI+Cp4Wb6rciBSVeMOa56UYErORMKoz0wOzA5BgNVHREEMjAwggwqLjAxODAw\nNy54eXqHBH8AAAGCCjAxODAwNy54eXqCDnd3dy4wMTgwMDcueHl6MAoGCCqGSM49\nBAMCA0gAMEUCIQCM9T2YIPrfAXtHGqmaOtqjeZY84mMrKivENDrurmNgrgIgRrfJ\nDk81YVAaIQP0phgnZOqWYTE1jfN+WAMk3FvhIDM=\n")
}

fn key_a() -> String {
    pem(&key_label(""), "MIGHAgEAMBMGByqGSM49AgEGCCqGSM49AwEHBG0wawIBAQQgbtksVXtLPV6GoViv\nW8BHgQcTwmSfvRZivbZ2L7TiX0ShRANCAATyPiv6HIGypBsB7dIOjaT6il0uKBEP\nYs6SeM6leseViYOyWY9U8nnYT0CVI+Cp4Wb6rciBSVeMOa56UYErORMK\n")
}

fn chain_b() -> String {
    pem("CERTIFICATE", "MIIBMDCB1qADAgECAhQiwjoD1yf5NtVmROpWJ3v9+mMR6TAKBggqhkjOPQQDAjAY\nMRYwFAYDVQQDDA1wbGFpbi5leGFtcGxlMB4XDTI0MDEwMTAwMDAwMFoXDTMwMDYw\nMTEyMDAwMFowGDEWMBQGA1UEAwwNcGxhaW4uZXhhbXBsZTBZMBMGByqGSM49AgEG\nCCqGSM49AwEHA0IABHgqkoSM2TK79P3uIRGTI4mCl4WIkmcie8KpTAnjUvH942u2\nds1FZ/7l2NMCt7C5s2r/g0BCLyNJ2bKDOtNYRp0wCgYIKoZIzj0EAwIDSQAwRgIh\nAJ3A9VFEipctW9MFRxgaS1xJtqq/oJIGQTGZpAfxDrRNAiEAjJhssy64XA7uDcqN\nS51Bta+wjse6NEiulEF+zkuGRCQ=\n")
}

fn key_b() -> String {
    pem(&key_label("EC "), "MHcCAQEEICp8rax+tRboyXUV3MxnZ0TzOC73lmFpne3CIzYwk2HnoAoGCCqGSM49\nAwEHoUQDQgAEeCqShIzZMrv0/e4hEZMjiYKXhYiSZyJ7wqlMCeNS8f3ja7Z2zUVn\n/uXY0wK3sLmzav+DQEIvI0nZsoM601hGnQ==\n")
}

fn chain_c() -> String {
    pem("CERTIFICATE", "MIIBZDCCAQqgAwIBAgIUVXGYRj+1joGtK96YA6DfC3biiW8wCgYIKoZIzj0EAwIw\nFjEUMBIGA1UEAwwLdGllLmV4YW1wbGUwHhcNMjQwMTAxMDAwMDAwWhcNMzEwMzE1\nMjM1OTU5WjAWMRQwEgYDVQQDDAt0aWUuZXhhbXBsZTBZMBMGByqGSM49AgEGCCqG\nSM49AwEHA0IABMBuKxoRKmmsm+0TEx7lnKpqrbGr4qhL3WHN6SZ/c2Bjy5U+rrVU\nmaYTT0W6rQK3CeQk60mFuphlLYvqlg1HgyWjNjA0MDIGA1UdEQQrMCmCCmJiLmV4\nYW1wbGWCCmFhLmV4YW1wbGWCD2xvbmcuYWEuZXhhbXBsZTAKBggqhkjOPQQDAgNI\nADBFAiBj6mH5MpWtqsy5FX30LdhwlqWjw+jeo6BYUfqlgYTu7AIhAIHsmIbrqUMV\ncC/lagNCDRA4ZYu+MASabYL+Itc6pBVn\n")
}

fn key_c() -> String {
    pem(&key_label(""), "MIGHAgEAMBMGByqGSM49AgEGCCqGSM49AwEHBG0wawIBAQQgLsvUVGa+Z0GL6C9e\nzS+iiilAz90pdw90NDD5C17N6rihRANCAATAbisaESpprJvtExMe5Zyqaq2xq+Ko\nS91hzekmf3NgY8uVPq61VJmmE09Fuq0CtwnkJOtJhbqYZS2L6pYNR4Ml\n")
}

fn chain_d() -> String {
    pem("CERTIFICATE", "MIIBRDCB66ADAgECAhQyQtAjvrousah6sLmQyScKyDXHBzAKBggqhkjOPQQDAjAV\nMRMwEQYDVQQDDAowMTgwMDcueHl6MB4XDTI0MDEwMTAwMDAwMFoXDTM2MDEwMTAw\nMDAwMFowFTETMBEGA1UEAwwKMDE4MDA3Lnh5ejBZMBMGByqGSM49AgEGCCqGSM49\nAwEHA0IABElyO3cZnnb+lY4vuqeWCL/Ms1udw40rFtOdwilKTh/7nNNfLbVCy3V8\n1WBrGbveatixiBanSZcdVespRDlXHY+jGTAXMBUGA1UdEQQOMAyCCjAxODAwNy54\neXowCgYIKoZIzj0EAwIDSAAwRQIhAMtZuh10FuprT4SuMr5dasjks9uz4dRi83Oo\nkJjTY5WoAiA+vkG+bR0l2Fa0QpIqX9tRzz8d9I7m6FSO6jyZD+YbYQ==\n")
}

fn key_d() -> String {
    pem(&key_label(""), "MIGHAgEAMBMGByqGSM49AgEGCCqGSM49AwEHBG0wawIBAQQgad/pV1/ElxtellA3\nvsaWK/C7j7ciGbWe8EPTs0cGb8uhRANCAARJcjt3GZ52/pWOL7qnlgi/zLNbncON\nKxbTncIpSk4f+5zTXy21Qst1fNVgaxm73mrYsYgWp0mXHVXrKUQ5Vx2P\n")
}

const DAY_A: i64 = 23741;
const DAY_B: i64 = 22066;
const DAY_C: i64 = 22353;
const DAY_D: i64 = 24106;

/// A provider with a fixed answer for each host, which notes what it was asked.
struct Fixed {
    answers: HashMap<String, (String, String)>,
    failing: Option<String>,
    asked: RefCell<Vec<String>>,
}

impl Fixed {
    fn new() -> Self {
        Fixed { answers: HashMap::new(), failing: None, asked: RefCell::new(Vec::new()) }
    }

    fn with(mut self, host: &str, chain: String, key: String) -> Self {
        self.answers.insert(host.to_string(), (chain, key));
        self
    }

    fn failing_on(mut self, host: &str) -> Self {
        self.failing = Some(host.to_string());
        self
    }
}

impl CertLoad for Fixed {
    fn load(&self, host: &str) -> Result<Option<Arc<Cert>>, Error> {
        self.asked.borrow_mut().push(host.to_string());
        if self.failing.as_deref() == Some(host) {
            return Err(Error::Io("disk on fire".to_string()));
        }
        match self.answers.get(host) {
            Some((chain, key)) => Cert::new(chain.clone(), key.clone()).map(|c| Some(Arc::new(c))),
            None => Ok(None),
        }
    }
}

fn cert_a() -> Arc<Cert> {
    Arc::new(Cert::new(chain_a(), key_a()).unwrap())
}

fn cert_b() -> Arc<Cert> {
    Arc::new(Cert::new(chain_b(), key_b()).unwrap())
}

fn cert_c() -> Arc<Cert> {
    Arc::new(Cert::new(chain_c(), key_c()).unwrap())
}

fn cert_d() -> Arc<Cert> {
    Arc::new(Cert::new(chain_d(), key_d()).unwrap())
}

#[test]
fn new_loader_is_empty() {
    let loader = CertLoader::new(Fixed::new());
    assert!(loader.cached_cert("018007.xyz").is_none());
    assert_eq!(loader.days(), Vec::<i64>::new());
    assert_eq!(loader.hosts_on(DAY_A), Vec::<String>::new());
}

#[test]
fn take_in_caches_under_shortest_dns_name() {
    let mut loader = CertLoader::new(Fixed::new());
    let cert = cert_a();
    let back = loader.take_in(cert.clone()).unwrap();
    assert!(Arc::ptr_eq(&back, &cert));
    let cached = loader.cached_cert("018007.xyz").unwrap();
    assert!(Arc::ptr_eq(&cached, &cert));
    assert!(loader.cached_cert("*.018007.xyz").is_none());
    assert!(loader.cached_cert("www.018007.xyz").is_none());
    assert!(loader.cached_cert("127.0.0.1").is_none());
}

#[test]
fn take_in_lists_the_name_under_the_expiry_day() {
    let mut loader = CertLoader::new(Fixed::new());
    loader.take_in(cert_a()).unwrap();
    assert_eq!(loader.days(), vec![DAY_A]);
    assert_eq!(DAY_A, 2051222400 / 86400);
    assert_eq!(loader.hosts_on(DAY_A), vec!["018007.xyz".to_string()]);
}

#[test]
fn take_in_expiry_day_counts_whole_days() {
    let mut loader = CertLoader::new(Fixed::new());
    loader.take_in(cert_c()).unwrap();
    assert_eq!(DAY_C, 1931385599 / 86400);
    assert_eq!(loader.days(), vec![22353]);
}

#[test]
fn take_in_takes_the_first_of_equally_short_names() {
    let mut loader = CertLoader::new(Fixed::new());
    loader.take_in(cert_c()).unwrap();
    assert!(loader.cached_cert("bb.example").is_some());
    assert!(loader.cached_cert("aa.example").is_none());
    assert_eq!(loader.hosts_on(DAY_C), vec!["bb.example".to_string()]);
}

#[test]
fn take_in_without_dns_name_changes_nothing() {
    let mut loader = CertLoader::new(Fixed::new());
    let cert = cert_b();
    let back = loader.take_in(cert.clone()).unwrap();
    assert!(Arc::ptr_eq(&back, &cert));
    assert_eq!(loader.days(), Vec::<i64>::new());
    assert!(loader.cached_cert("plain.example").is_none());
    assert_eq!(loader.hosts_on(DAY_B), Vec::<String>::new());
}

#[test]
fn take_in_unreadable_leaf_is_parse_error() {
    let mut loader = CertLoader::new(Fixed::new());
    let broken = Cert::assemble(
        String::new(),
        String::new(),
        Ok(vec![vec![0x30, 0x03, 0x01, 0x01, 0x00]]),
        Ok(Some(gway::cert::PrivateKey { kind: gway::cert::KeyKind::Pkcs8, der: vec![] })),
    )
    .unwrap();
    let e = loader.take_in(Arc::new(broken)).unwrap_err();
    assert!(matches!(e, Error::CertParse(_)));
    assert_eq!(loader.days(), Vec::<i64>::new());
}

#[test]
fn take_in_twice_lists_the_name_twice_on_one_day() {
    let mut loader = CertLoader::new(Fixed::new());
    loader.take_in(cert_a()).unwrap();
    loader.take_in(cert_a()).unwrap();
    assert_eq!(loader.days(), vec![DAY_A]);
    assert_eq!(loader.hosts_on(DAY_A), vec!["018007.xyz".to_string(), "018007.xyz".to_string()]);
}

#[test]
fn take_in_renewal_lists_the_name_on_two_days() {
    let mut loader = CertLoader::new(Fixed::new());
    loader.take_in(cert_a()).unwrap();
    let renewed = cert_d();
    loader.take_in(renewed.clone()).unwrap();
    assert_eq!(loader.days(), vec![DAY_A, DAY_D]);
    assert_eq!(loader.hosts_on(DAY_A), vec!["018007.xyz".to_string()]);
    assert_eq!(loader.hosts_on(DAY_D), vec!["018007.xyz".to_string()]);
    assert!(Arc::ptr_eq(&loader.cached_cert("018007.xyz").unwrap(), &renewed));
}

#[test]
fn days_come_in_increasing_order() {
    let mut loader = CertLoader::new(Fixed::new());
    loader.take_in(cert_d()).unwrap();
    loader.take_in(cert_c()).unwrap();
    loader.take_in(cert_a()).unwrap();
    assert_eq!(loader.days(), vec![DAY_C, DAY_A, DAY_D]);
}

#[test]
fn get_loads_once_and_then_hits_the_cache() {
    let provider = Fixed::new().with("018007.xyz", chain_a(), key_a());
    let mut loader = CertLoader::new(provider);
    let first = loader.get("018007.xyz").unwrap();
    let second = loader.get("018007.xyz").unwrap();
    assert!(Arc::ptr_eq(&first, &second));
    assert_eq!(first.rustls.fullchain[0].len(), 365);
    assert_eq!(loader.hosts_on(DAY_A), vec!["018007.xyz".to_string()]);
}

#[test]
fn get_falls_back_to_the_parent() {
    let provider = Fixed::new().with("018007.xyz", chain_a(), key_a());
    let mut loader = CertLoader::new(provider);
    let cert = loader.get("sub.018007.xyz").unwrap();
    assert_eq!(cert.rustls.fullchain[0].len(), 365);
    assert!(loader.cached_cert("018007.xyz").is_some());
    assert!(loader.cached_cert("sub.018007.xyz").is_none());
}

#[test]
fn get_goes_up_one_label_only() {
    let provider = Fixed::new().with("018007.xyz", chain_a(), key_a());
    let mut loader = CertLoader::new(provider);
    let e = loader.get("a.b.018007.xyz").unwrap_err();
    match e {
        Error::CertNotFound(host) => assert_eq!(host, "a.b.018007.xyz"),
        other => panic!("unexpected error {other:?}"),
    }
}

#[test]
fn get_unknown_host_is_not_found() {
    let mut loader = CertLoader::new(Fixed::new());
    match loader.get("unknown.com").unwrap_err() {
        Error::CertNotFound(host) => assert_eq!(host, "unknown.com"),
        other => panic!("unexpected error {other:?}"),
    }
    match loader.get("sub.unknown.com").unwrap_err() {
        Error::CertNotFound(host) => assert_eq!(host, "sub.unknown.com"),
        other => panic!("unexpected error {other:?}"),
    }
    assert_eq!(loader.days(), Vec::<i64>::new());
}

#[test]
fn get_passes_on_the_providers_error() {
    let provider = Fixed::new().failing_on("018007.xyz");
    let mut loader = CertLoader::new(provider);
    match loader.get("018007.xyz").unwrap_err() {
        Error::Io(m) => assert_eq!(m, "disk on fire"),
        other => panic!("unexpected error {other:?}"),
    }
    match loader.get("sub.018007.xyz").unwrap_err() {
        Error::Io(m) => assert_eq!(m, "disk on fire"),
        other => panic!("unexpected error {other:?}"),
    }
}

#[test]
fn get_hands_out_a_certificate_without_dns_name_uncached() {
    let provider = Fixed::new().with("plain.example", chain_b(), key_b());
    let mut loader = CertLoader::new(provider);
    let cert = loader.get("plain.example").unwrap();
    assert_eq!(cert.rustls.fullchain[0].len(), 308);
    assert!(loader.cached_cert("plain.example").is_none());
}

#[test]
fn cert_by_host_does_not_look_at_the_parent() {
    let provider = Fixed::new().with("018007.xyz", chain_a(), key_a());
    let mut loader = CertLoader::new(provider);
    assert!(loader.cert_by_host("sub.018007.xyz").unwrap().is_none());
    assert!(loader.cert_by_host("018007.xyz").unwrap().is_some());
}

#[test]
fn settle_passes_failures_and_absence_on() {
    let mut loader = CertLoader::new(Fixed::new());
    assert!(matches!(loader.settle(Ok(None)), Ok(None)));
    assert!(matches!(loader.settle(Err(Error::NoHost)), Err(Error::NoHost)));
    assert!(matches!(loader.settle(Ok(Some(cert_a()))), Ok(Some(_))));
    assert!(loader.cached_cert("018007.xyz").is_some());
}

#[test]
fn rm_expired_at_removes_days_before_the_bound() {
    let mut loader = CertLoader::new(Fixed::new());
    loader.take_in(cert_c()).unwrap();
    loader.take_in(cert_a()).unwrap();
    loader.rm_expired_at(DAY_C - 1, 2);
    assert_eq!(loader.days(), vec![DAY_A]);
    assert!(loader.cached_cert("bb.example").is_none());
    assert!(loader.cached_cert("018007.xyz").is_some());
    for day in loader.days() {
        assert!(day >= DAY_C - 1 + 2);
    }
}

#[test]
fn rm_expired_at_keeps_the_day_of_the_bound() {
    let mut loader = CertLoader::new(Fixed::new());
    loader.take_in(cert_c()).unwrap();
    loader.rm_expired_at(DAY_C - 2, 2);
    assert_eq!(loader.days(), vec![DAY_C]);
    assert!(loader.cached_cert("bb.example").is_some());
    loader.rm_expired_at(DAY_C - 1, 2);
    assert_eq!(loader.days(), Vec::<i64>::new());
    assert!(loader.cached_cert("bb.example").is_none());
}

#[test]
fn rm_expired_at_far_future_removes_everything() {
    let mut loader = CertLoader::new(Fixed::new());
    loader.take_in(cert_c()).unwrap();
    loader.take_in(cert_a()).unwrap();
    loader.take_in(cert_d()).unwrap();
    loader.rm_expired_at(i64::MAX, i64::MAX);
    assert_eq!(loader.days(), Vec::<i64>::new());
    assert!(loader.cached_cert("018007.xyz").is_none());
}

#[test]
fn rm_expired_at_far_past_removes_nothing() {
    let mut loader = CertLoader::new(Fixed::new());
    loader.take_in(cert_c()).unwrap();
    loader.rm_expired_at(i64::MIN, i64::MIN);
    assert_eq!(loader.days(), vec![DAY_C]);
}

#[test]
fn rm_expired_at_old_day_takes_the_renewed_certificate_along() {
    let mut loader = CertLoader::new(Fixed::new());
    loader.take_in(cert_a()).unwrap();
    loader.take_in(cert_d()).unwrap();
    loader.rm_expired_at(DAY_A, 2);
    assert_eq!(loader.days(), vec![DAY_D]);
    assert!(loader.cached_cert("018007.xyz").is_none());
    assert_eq!(loader.hosts_on(DAY_D), vec!["018007.xyz".to_string()]);
}

#[test]
fn rm_expired_reads_the_clock() {
    let mut loader = CertLoader::new(Fixed::new());
    loader.take_in(cert_a()).unwrap();
    let today = loader.rm_expired(2);
    assert!(today > 19_000);
    let expected: Vec<i64> = if DAY_A >= today + 2 { vec![DAY_A] } else { vec![] };
    assert_eq!(loader.days(), expected);
    let today = loader.rm_expired(i64::MAX);
    assert!(today > 19_000);
    assert_eq!(loader.days(), Vec::<i64>::new());
}

#[test]
fn each_cached_name_stands_under_one_day() {
    let provider = Fixed::new()
        .with("018007.xyz", chain_a(), key_a())
        .with("bb.example", chain_c(), key_c())
        .with("plain.example", chain_b(), key_b());
    let mut loader = CertLoader::new(provider);
    for host in ["018007.xyz", "www.018007.xyz", "bb.example", "plain.example", "018007.xyz"] {
        loader.get(host).unwrap();
    }
    for (key, day) in [("018007.xyz", DAY_A), ("bb.example", DAY_C)] {
        assert!(loader.cached_cert(key).is_some());
        let days: Vec<i64> = loader
            .days()
            .into_iter()
            .filter(|d| loader.hosts_on(*d).iter().any(|h| h == key))
            .collect();
        assert_eq!(days, vec![day]);
    }
    assert_eq!(loader.days(), vec![DAY_C, DAY_A]);
}

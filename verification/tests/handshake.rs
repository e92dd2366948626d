use gway::cert::{Cert, KeyKind, PrivateKey};
use gway::srv::h2::{server_name, tls_setup};
use gway::srv::h3::{body_frame, cert_failed, on_client_hello, Received};
use gway::Error;

#[test]
fn empty_sni_is_refused() {
    assert!(matches!(server_name(None), Err(Error::SniMissing)));
    assert!(matches!(server_name(Some("")), Err(Error::SniMissing)));
}

#[test]
fn sni_is_read() {
    assert_eq!(server_name(Some("018007.xyz")).unwrap(), "018007.xyz");
    assert_eq!(server_name(Some(".")).unwrap(), ".");
}

#[test]
fn tls_setup_offers_h2_without_client_auth() {
    let key = PrivateKey { kind: KeyKind::Sec1, der: vec![4, 5, 6] };
    let cert = Cert::assemble(
        String::new(),
        String::new(),
        Ok(vec![vec![1, 2, 3], vec![], vec![9]]),
        Ok(Some(key)),
    )
    .unwrap();
    let setup = tls_setup(&cert);
    assert_eq!(setup.fullchain, vec![vec![1, 2, 3], vec![], vec![9]]);
    assert_eq!(setup.key.kind, KeyKind::Sec1);
    assert_eq!(setup.key.der, vec![4, 5, 6]);
    assert_eq!(setup.alpn, vec![b"h2".to_vec()]);
    assert!(!setup.client_auth);
}

#[test]
fn h3_hello_without_sni_fails_the_handshake() {
    match on_client_hello(None) {
        Err(Error::CertNotFound(m)) => assert_eq!(m, "sni not found"),
        other => panic!("unexpected outcome {other:?}"),
    }
}

#[test]
fn h3_hello_with_sni_names_the_host() {
    assert_eq!(on_client_hello(Some("018007.xyz")).unwrap(), "018007.xyz");
    assert_eq!(on_client_hello(Some("")).unwrap(), "");
}

#[test]
fn h3_cert_failure_names_host_and_cause() {
    let cause = Error::CertNotFound("018007.xyz".to_string());
    match cert_failed("018007.xyz", &cause) {
        Error::CertNotFound(m) => assert_eq!(m, "cert not found for 018007.xyz: CertNotFound"),
        other => panic!("unexpected error {other:?}"),
    }
    let cause = Error::Io("denied".to_string());
    match cert_failed("a.b", &cause) {
        Error::CertNotFound(m) => assert_eq!(m, "cert not found for a.b: io: denied"),
        other => panic!("unexpected error {other:?}"),
    }
}

#[test]
fn h3_body_frames() {
    match body_frame(Received::Data(vec![1, 2, 3])) {
        Some(Ok(chunk)) => assert_eq!(chunk, vec![1, 2, 3]),
        other => panic!("unexpected frame {other:?}"),
    }
    assert!(body_frame(Received::End).is_none());
    match body_frame(Received::Failed("reset".to_string())) {
        Some(Err(Error::H3Stream(m))) => assert_eq!(m, "reset"),
        other => panic!("unexpected frame {other:?}"),
    }
}

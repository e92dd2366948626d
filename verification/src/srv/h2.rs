//! The h2 listener's handshake: the certificate is chosen by the name that
//! the client asks for, and a client that asks for none is dropped.

use crate::cert::{Cert, KeyKind, PrivateKey};
use crate::error::Error;
use vstd::prelude::*;

verus! {

/// What the stream-side TLS is set up with for one connection.
#[derive(Debug)]
pub struct TlsSetup {
    /// The chain, leaf first, each certificate in DER.
    pub fullchain: Vec<Vec<u8>>,
    /// The private key.
    pub key: PrivateKey,
    /// The protocols offered.
    pub alpn: Vec<Vec<u8>>,
    /// Whether the client must show a certificate.
    pub client_auth: bool,
}

/// The protocols that the h2 listener offers: `h2` alone.
pub open spec fn h2_alpn() -> Seq<Seq<u8>> {
    seq![seq![0x68u8, 0x32u8]]
}

/// The name that a client asks for, if it asks for one that is not empty.
pub open spec fn asked_name(sni: Option<&str>) -> Option<Seq<char>> {
    match sni {
        Some(name) => if name@.len() > 0 {
            Some(name@)
        } else {
            None
        },
        None => None,
    }
}

/// Reads the server name of a client's hello. A hello without a name, or with
/// an empty one, is refused, and the connection is dropped.
pub fn server_name<'a>(sni: Option<&'a str>) -> (name: core::result::Result<&'a str, Error>)
    ensures
        match asked_name(sni) {
            Some(asked) => name matches Ok(n) && n@ == asked,
            None => name matches Err(Error::SniMissing),
        },
{
    match sni {
        Some(name) => {
            if name.is_empty() {
                Err(Error::SniMissing)
            } else {
                Ok(name)
            }
        },
        None => Err(Error::SniMissing),
    }
}

fn copy_bytes(bytes: &Vec<u8>) -> (copy: Vec<u8>)
    ensures
        copy@ == bytes@,
{
    let mut copy: Vec<u8> = Vec::new();
    let mut i: usize = 0;
    while i < bytes.len()
        invariant
            i <= bytes@.len(),
            copy@ == bytes@.subrange(0, i as int),
        decreases bytes@.len() - i,
    {
        copy.push(bytes[i]);
        assert(bytes@.subrange(0, i + 1) == bytes@.subrange(0, i as int).push(bytes@[i as int]));
        i += 1;
    }
    assert(bytes@.subrange(0, i as int) == bytes@);
    copy
}

/// What the TLS of a connection is set up with, once the certificate is
/// chosen: the certificate's chain and key, `h2` as the one protocol, and no
/// certificate asked of the client.
pub fn tls_setup(cert: &Cert) -> (setup: TlsSetup)
    ensures
        setup.fullchain.deep_view() == cert.rustls.fullchain.deep_view(),
        setup.key.kind == cert.rustls.key.kind,
        setup.key.der@ == cert.rustls.key.der@,
        setup.alpn.deep_view() == h2_alpn(),
        !setup.client_auth,
{
    let chain = &cert.rustls.fullchain;
    let mut fullchain: Vec<Vec<u8>> = Vec::new();
    let mut i: usize = 0;
    while i < chain.len()
        invariant
            i <= chain@.len(),
            fullchain@.len() == i,
            forall|k: int| 0 <= k < i ==> (#[trigger] fullchain@[k])@ == chain@[k]@,
        decreases chain@.len() - i,
    {
        fullchain.push(copy_bytes(&chain[i]));
        i += 1;
    }
    assert(fullchain.deep_view() =~~= chain.deep_view());
    let mut h2: Vec<u8> = Vec::new();
    h2.push(0x68u8);
    h2.push(0x32u8);
    let mut alpn: Vec<Vec<u8>> = Vec::new();
    alpn.push(h2);
    assert(alpn.deep_view() =~~= h2_alpn());
    TlsSetup {
        fullchain,
        key: PrivateKey { kind: cert.rustls.key.kind, der: copy_bytes(&cert.rustls.key.der) },
        alpn,
        client_auth: false,
    }
}

} // verus!

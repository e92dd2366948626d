//! A certificate as the proxy holds it: the chain and the private key in DER,
//! and what the QUIC side is configured with.

use crate::error::Error;
use std::sync::Arc;
use vstd::prelude::*;
use vstd::string::StringExecFns;
use vstd::utf8::encode_utf8;

verus! {

/// The encoding of a private key.
#[derive(Clone, Copy, Debug, PartialEq, Eq, Structural)]
pub enum KeyKind {
    Pkcs1,
    Sec1,
    Pkcs8,
    /// An encoding that the proxy does not know.
    Other,
}

/// A private key in DER.
#[derive(Debug)]
pub struct PrivateKey {
    pub kind: KeyKind,
    pub der: Vec<u8>,
}

/// What the stream-side TLS needs: the chain, leaf first, and the key.
#[derive(Debug)]
pub struct Rusttls {
    pub fullchain: Vec<Vec<u8>>,
    pub key: PrivateKey,
}

/// What the QUIC-side TLS is configured with: the protocols it offers, and the
/// chain and the key as they were given.
#[derive(Debug)]
pub struct QuicTls {
    pub alpn: Vec<Vec<u8>>,
    pub fullchain_pem: String,
    pub key_pem: String,
}

/// A certificate. It is not changed once made, and is shared by handles.
#[derive(Debug)]
pub struct Cert {
    pub quic: Arc<QuicTls>,
    pub rustls: Arc<Rusttls>,
}

/// The certificates that a PEM text holds, each in DER, in the order of the
/// text; `None` where the text cannot be read.
pub uninterp spec fn pem_chain(pem: Seq<u8>) -> Option<Seq<Seq<u8>>>;

/// The first private key that a PEM text holds, with its encoding: `None`
/// where the text cannot be read, `Some(None)` where it holds no key.
pub uninterp spec fn pem_key(pem: Seq<u8>) -> Option<Option<(KeyKind, Seq<u8>)>>;

/// A parsed chain as plain mathematics.
pub open spec fn chain_view(chain: core::result::Result<Vec<Vec<u8>>, String>) -> Option<
    Seq<Seq<u8>>,
> {
    match chain {
        Ok(c) => Some(c.deep_view()),
        Err(_) => None,
    }
}

/// A parsed key as plain mathematics.
pub open spec fn key_view(key: core::result::Result<Option<PrivateKey>, String>) -> Option<
    Option<(KeyKind, Seq<u8>)>,
> {
    match key {
        Ok(Some(k)) => Some(Some((k.kind, k.der@))),
        Ok(None) => Some(None),
        Err(_) => None,
    }
}

/// `rustls_pemfile::certs`, read to its end: the certificates of a PEM text,
/// or the first error in its text.
#[verifier::external_body]
fn read_chain(pem: &[u8]) -> (chain: core::result::Result<Vec<Vec<u8>>, String>)
    ensures
        chain_view(chain) == pem_chain(pem@),
{
    let mut reader = std::io::Cursor::new(pem);
    rustls_pemfile::certs(&mut reader).map(
        |item| item.map(|der| der.as_ref().to_vec()).map_err(|e| format!("{e:?}")),
    ).collect()
}

/// `rustls_pemfile::private_key`: the first private key of a PEM text, if it
/// has one, or the error in its text.
#[verifier::external_body]
fn read_key(pem: &[u8]) -> (key: core::result::Result<Option<PrivateKey>, String>)
    ensures
        key_view(key) == pem_key(pem@),
{
    let mut reader = std::io::Cursor::new(pem);
    rustls_pemfile::private_key(&mut reader).map(
        |found| found.map(
            |k| PrivateKey {
                kind: match k {
                    rustls_pki_types::PrivateKeyDer::Pkcs1(_) => KeyKind::Pkcs1,
                    rustls_pki_types::PrivateKeyDer::Sec1(_) => KeyKind::Sec1,
                    rustls_pki_types::PrivateKeyDer::Pkcs8(_) => KeyKind::Pkcs8,
                    _ => KeyKind::Other,
                },
                der: k.secret_der().to_vec(),
            },
        ),
    ).map_err(|e| format!("{e:?}"))
}

/// The protocols that the QUIC side offers: `h3` alone.
pub open spec fn quic_alpn() -> Seq<Seq<u8>> {
    seq![seq![0x68u8, 0x33u8]]
}

/// What `Cert::new` makes of a chain and a key that were read.
pub enum Parsed {
    /// The chain cannot be read, or holds no certificate, or the key cannot be
    /// read.
    Malformed,
    /// The key's text holds no key.
    NoKey,
    /// The key is in an encoding that the proxy does not know.
    UnknownKey,
    /// A chain, leaf first, and a key.
    Good(Seq<Seq<u8>>, KeyKind, Seq<u8>),
}

/// Judges the chain first, then the key.
pub open spec fn parsed(
    chain: Option<Seq<Seq<u8>>>,
    key: Option<Option<(KeyKind, Seq<u8>)>>,
) -> Parsed {
    match chain {
        None => Parsed::Malformed,
        Some(c) => if c.len() == 0 {
            Parsed::Malformed
        } else {
            match key {
                None => Parsed::Malformed,
                Some(None) => Parsed::NoKey,
                Some(Some((kind, der))) => if kind == KeyKind::Other {
                    Parsed::UnknownKey
                } else {
                    Parsed::Good(c, kind, der)
                },
            }
        },
    }
}

impl Cert {
    /// Puts a certificate together from a chain and a key that were read.
    /// This is the whole of `new` but for the reading, so it can be judged on
    /// chosen values.
    pub fn assemble(
        fullchain: String,
        key: String,
        chain: core::result::Result<Vec<Vec<u8>>, String>,
        found: core::result::Result<Option<PrivateKey>, String>,
    ) -> (cert: core::result::Result<Cert, Error>)
        ensures
            match parsed(chain_view(chain), key_view(found)) {
                Parsed::Malformed => cert matches Err(Error::CertParse(_)),
                Parsed::NoKey => cert matches Err(Error::PrivateKeyNotFound),
                Parsed::UnknownKey => cert matches Err(Error::PrivateKeyUnsupported(_)),
                Parsed::Good(c, kind, der) => {
                    &&& cert matches Ok(made)
                    &&& made.rustls.fullchain.deep_view() == c
                    &&& made.rustls.key.kind == kind
                    &&& made.rustls.key.der@ == der
                    &&& made.quic.alpn.deep_view() == quic_alpn()
                    &&& made.quic.fullchain_pem@ == fullchain@
                    &&& made.quic.key_pem@ == key@
                },
            },
    {
        let chain = match chain {
            Ok(c) => c,
            Err(e) => {
                return Err(
                    Error::CertParse(String::from_str("certificate chain: ").concat(e.as_str())),
                );
            },
        };
        if chain.len() == 0 {
            return Err(Error::CertParse(String::from_str("certificate chain: no certificate")));
        }
        let found = match found {
            Ok(k) => k,
            Err(e) => {
                return Err(Error::CertParse(String::from_str("private key: ").concat(e.as_str())));
            },
        };
        let key_der = match found {
            Some(k) => k,
            None => {
                return Err(Error::PrivateKeyNotFound);
            },
        };
        match key_der.kind {
            KeyKind::Other => {
                return Err(Error::PrivateKeyUnsupported(String::from_str("unknown encoding")));
            },
            _ => {},
        }
        let mut h3: Vec<u8> = Vec::new();
        h3.push(0x68u8);
        h3.push(0x33u8);
        let mut alpn: Vec<Vec<u8>> = Vec::new();
        alpn.push(h3);
        assert(alpn.deep_view() =~~= quic_alpn());
        Ok(
            Cert {
                quic: Arc::new(QuicTls { alpn, fullchain_pem: fullchain, key_pem: key }),
                rustls: Arc::new(Rusttls { fullchain: chain, key: key_der }),
            },
        )
    }

    /// Reads a chain and a private key, both in PEM, into a certificate. The
    /// chain must hold at least one certificate, the leaf first, and the key
    /// text a key in a known encoding.
    pub fn new(fullchain: String, key: String) -> (cert: core::result::Result<Cert, Error>)
        ensures
            match parsed(pem_chain(encode_utf8(fullchain@)), pem_key(encode_utf8(key@))) {
                Parsed::Malformed => cert matches Err(Error::CertParse(_)),
                Parsed::NoKey => cert matches Err(Error::PrivateKeyNotFound),
                Parsed::UnknownKey => cert matches Err(Error::PrivateKeyUnsupported(_)),
                Parsed::Good(c, kind, der) => {
                    &&& cert matches Ok(made)
                    &&& made.rustls.fullchain.deep_view() == c
                    &&& made.rustls.key.kind == kind
                    &&& made.rustls.key.der@ == der
                    &&& made.quic.alpn.deep_view() == quic_alpn()
                    &&& made.quic.fullchain_pem@ == fullchain@
                    &&& made.quic.key_pem@ == key@
                },
            },
    {
        let chain = read_chain(fullchain.as_str().as_bytes());
        let found = read_key(key.as_str().as_bytes());
        Cert::assemble(fullchain, key, chain, found)
    }
}

} // verus!

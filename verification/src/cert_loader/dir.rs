//! The provider that reads certificates from a directory. For a host `H` the
//! chain is the file `H_ecc/fullchain.cer` and the key the file `H_ecc/H.key`,
//! both below the base directory and both in PEM. The library names the files
//! and judges what was read; reading them is the caller's part.

use crate::cert::{parsed, pem_chain, pem_key, quic_alpn, Cert, Parsed};
use crate::error::Error;
use std::path::PathBuf;
use std::sync::Arc;
use vstd::prelude::*;
use vstd::string::StringExecFns;
use vstd::utf8::encode_utf8;

verus! {

/// A directory of certificates.
#[derive(Debug)]
pub struct CertDir {
    pub base: PathBuf,
}

/// What came of reading one file.
#[derive(Debug)]
pub enum FileRead {
    /// The file is not there, or whether it is there cannot be told.
    Missing,
    /// The file is there and reading it failed, with this message.
    Failed(String),
    /// The text of the file.
    Text(String),
}

/// The file of a host's chain, relative to the base directory.
pub open spec fn spec_cert_file(host: Seq<char>) -> Seq<char> {
    host + "_ecc/fullchain.cer"@
}

/// The file of a host's key, relative to the base directory.
pub open spec fn spec_key_file(host: Seq<char>) -> Seq<char> {
    host + "_ecc/"@ + host + ".key"@
}

impl CertDir {
    /// Names the file of a host's chain, relative to the base directory.
    pub fn cert_file(host: &str) -> (file: String)
        ensures
            file@ == spec_cert_file(host@),
    {
        String::from_str(host).concat("_ecc/fullchain.cer")
    }

    /// Names the file of a host's key, relative to the base directory.
    pub fn key_file(host: &str) -> (file: String)
        ensures
            file@ == spec_key_file(host@),
    {
        String::from_str(host).concat("_ecc/").concat(host).concat(".key")
    }

    /// Judges what was read of the two files of a host. Where either file is
    /// missing the directory has no certificate for the host. Otherwise a
    /// failed read is an error, the chain's before the key's, and two texts
    /// are parsed into a certificate.
    pub fn load(chain: FileRead, key: FileRead) -> (loaded: core::result::Result<
        Option<Arc<Cert>>,
        Error,
    >)
        ensures
            match (chain, key) {
                (FileRead::Missing, _) => loaded matches Ok(None),
                (_, FileRead::Missing) => loaded matches Ok(None),
                (FileRead::Failed(m), _) => loaded matches Err(Error::Io(t)) && t@ == m@,
                (_, FileRead::Failed(m)) => loaded matches Err(Error::Io(t)) && t@ == m@,
                (FileRead::Text(c), FileRead::Text(k)) => match parsed(
                    pem_chain(encode_utf8(c@)),
                    pem_key(encode_utf8(k@)),
                ) {
                    Parsed::Malformed => loaded matches Err(Error::CertParse(_)),
                    Parsed::NoKey => loaded matches Err(Error::PrivateKeyNotFound),
                    Parsed::UnknownKey => loaded matches Err(Error::PrivateKeyUnsupported(_)),
                    Parsed::Good(ders, kind, der) => {
                        &&& loaded matches Ok(Some(made))
                        &&& made.rustls.fullchain.deep_view() == ders
                        &&& made.rustls.key.kind == kind
                        &&& made.rustls.key.der@ == der
                        &&& made.quic.alpn.deep_view() == quic_alpn()
                        &&& made.quic.fullchain_pem@ == c@
                        &&& made.quic.key_pem@ == k@
                    },
                },
            },
    {
        match (chain, key) {
            (FileRead::Missing, _) => Ok(None),
            (_, FileRead::Missing) => Ok(None),
            (FileRead::Failed(m), _) => Err(Error::Io(m)),
            (_, FileRead::Failed(m)) => Err(Error::Io(m)),
            (FileRead::Text(c), FileRead::Text(k)) => match Cert::new(c, k) {
                Ok(cert) => Ok(Some(Arc::new(cert))),
                Err(e) => Err(e),
            },
        }
    }
}

} // verus!

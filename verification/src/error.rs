//! The error kinds of the proxy and the text each renders to.

use vstd::prelude::*;
use vstd::string::StringExecFns;

verus! {

/// What can go wrong. A variant that stands for a failure of a collaborator
/// (the socket layer, an HTTP codec, the TLS or QUIC provider) carries that
/// failure's own message.
#[derive(Debug)]
pub enum Error {
    CertParse(String),
    CertNotFound(String),
    SniMissing,
    CertExpired,
    PrivateKeyNotFound,
    PrivateKeyUnsupported(String),
    Io(String),
    Http(String),
    Rustls(String),
    NoHost,
    UpstreamNotFound,
    InvalidHost(String),
    TokioJoin(String),
    Infallible,
    Hyper(String),
    H3Connection(String),
    H3Stream(String),
    S2nQuicStart(String),
    S2nQuicTls(String),
    PooledFetch(String),
    H3(String),
    ListenerNotFound(String),
}

pub type Result<T> = core::result::Result<T, Error>;

impl Error {
    /// The label that starts an error's text. For a variant with a message the
    /// label ends in `": "` and the message follows it.
    pub open spec fn spec_label(self) -> Seq<char> {
        match self {
            Error::CertParse(_) => "CertParse: "@,
            Error::CertNotFound(_) => "CertNotFound"@,
            Error::SniMissing => "SniMissing"@,
            Error::CertExpired => "CertExpired"@,
            Error::PrivateKeyNotFound => "PrivateKeyNotFound"@,
            Error::PrivateKeyUnsupported(_) => "PrivateKeyUnsupported: "@,
            Error::Io(_) => "io: "@,
            Error::Http(_) => "http: "@,
            Error::Rustls(_) => "Rustls: "@,
            Error::NoHost => "NoHost"@,
            Error::UpstreamNotFound => "UpstreamNotFound"@,
            Error::InvalidHost(_) => "InvalidHost: "@,
            Error::TokioJoin(_) => "TokioJoin: "@,
            Error::Infallible => "Infallible: "@,
            Error::Hyper(_) => "Hyper: "@,
            Error::H3Connection(_) => "H3Connection: "@,
            Error::H3Stream(_) => "H3Stream: "@,
            Error::S2nQuicStart(_) => "S2nQuicStart: "@,
            Error::S2nQuicTls(_) => "S2nQuicTls: "@,
            Error::PooledFetch(_) => "pooled_fetch: "@,
            Error::H3(_) => "H3: "@,
            Error::ListenerNotFound(_) => "ListenerNotFound: "@,
        }
    }

    /// The message that follows the label: empty for a variant without one,
    /// and for `CertNotFound`, whose text does not show the host.
    pub open spec fn spec_detail(self) -> Seq<char> {
        match self {
            Error::CertParse(m) => m@,
            Error::PrivateKeyUnsupported(m) => m@,
            Error::Io(m) => m@,
            Error::Http(m) => m@,
            Error::Rustls(m) => m@,
            Error::InvalidHost(m) => m@,
            Error::TokioJoin(m) => m@,
            Error::Hyper(m) => m@,
            Error::H3Connection(m) => m@,
            Error::H3Stream(m) => m@,
            Error::S2nQuicStart(m) => m@,
            Error::S2nQuicTls(m) => m@,
            Error::PooledFetch(m) => m@,
            Error::H3(m) => m@,
            Error::ListenerNotFound(m) => m@,
            _ => Seq::empty(),
        }
    }

    /// The text of an error: its label, then its message.
    pub open spec fn spec_text(self) -> Seq<char> {
        self.spec_label() + self.spec_detail()
    }

    /// Renders the error as text.
    pub fn text(&self) -> (t: String)
        ensures
            t@ == self.spec_text(),
    {
        match self {
            Error::CertParse(m) => labelled("CertParse: ", m),
            Error::CertNotFound(_) => plain("CertNotFound"),
            Error::SniMissing => plain("SniMissing"),
            Error::CertExpired => plain("CertExpired"),
            Error::PrivateKeyNotFound => plain("PrivateKeyNotFound"),
            Error::PrivateKeyUnsupported(m) => labelled("PrivateKeyUnsupported: ", m),
            Error::Io(m) => labelled("io: ", m),
            Error::Http(m) => labelled("http: ", m),
            Error::Rustls(m) => labelled("Rustls: ", m),
            Error::NoHost => plain("NoHost"),
            Error::UpstreamNotFound => plain("UpstreamNotFound"),
            Error::InvalidHost(m) => labelled("InvalidHost: ", m),
            Error::TokioJoin(m) => labelled("TokioJoin: ", m),
            Error::Infallible => plain("Infallible: "),
            Error::Hyper(m) => labelled("Hyper: ", m),
            Error::H3Connection(m) => labelled("H3Connection: ", m),
            Error::H3Stream(m) => labelled("H3Stream: ", m),
            Error::S2nQuicStart(m) => labelled("S2nQuicStart: ", m),
            Error::S2nQuicTls(m) => labelled("S2nQuicTls: ", m),
            Error::PooledFetch(m) => labelled("pooled_fetch: ", m),
            Error::H3(m) => labelled("H3: ", m),
            Error::ListenerNotFound(m) => labelled("ListenerNotFound: ", m),
        }
    }
}

fn plain(label: &str) -> (t: String)
    ensures
        t@ == label@ + Seq::<char>::empty(),
{
    String::from_str(label)
}

fn labelled(label: &str, detail: &String) -> (t: String)
    ensures
        t@ == label@ + detail@,
{
    String::from_str(label).concat(detail.as_str())
}

} // verus!

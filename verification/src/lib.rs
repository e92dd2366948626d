//! A TLS-terminating reverse proxy core: the routing table, the certificate
//! cache with its expiry index, the idle pool of outbound connections and the
//! decisions of the proxy pipeline and of the three listeners, each with a
//! machine-checked contract.
//!
//! Sockets, handshakes and the HTTP codecs live outside this crate. They hand
//! the functions here plain values and act on the plain values they get back.

pub mod cert;
pub mod cert_loader;
pub mod error;
pub mod host;
pub mod outside;
pub mod pooled_fetch;
pub mod proxy;
pub mod route;
pub mod srv;

pub use cert::{Cert, Rusttls};
pub use cert_loader::{CertDir, CertLoad, CertLoader};
pub use error::{Error, Result};
pub use host::{req_host, HostHeader};
pub use proxy::{_proxy, proxy};
pub use route::{Endpoint, Protocol, Route, SiteConf, Upstream, UpstreamSiteSet};

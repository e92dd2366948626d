//! The pool of idle connections to the upstreams, and the policy by which a
//! request takes one or opens a new one.

use crate::route::Endpoint;
use vstd::prelude::*;

pub mod body;
pub mod error;
pub mod http;

pub use body::Pool;
pub use error::{Error, Result};
pub use http::{conn_new, http, reuse_failed, AfterReuse, SendFailure, Step};

verus! {

/// A connection to an upstream that a request holds: the peer address that
/// its transport reports, and the number under which the caller keeps its
/// sender.
#[derive(Clone, Copy, Debug, PartialEq, Eq, Structural)]
pub struct Conn {
    pub peer_addr: Endpoint,
    pub sender: u64,
}

} // verus!

//! The policy of one request to an upstream address: an idle connection is
//! tried first, and a new one is opened where there is none or where the idle
//! one turns out to have ended.

use crate::pooled_fetch::body::{entry_of, held, is_last, without, Pool};
use crate::pooled_fetch::Conn;
use crate::route::{key_of, Endpoint};
use vstd::prelude::*;

verus! {

/// How a request begins.
#[derive(Clone, Copy, Debug, PartialEq, Eq, Structural)]
pub enum Step {
    /// On this connection from the pool, with a copy of the request, so that
    /// the request itself can still be sent.
    Reuse(Conn),
    /// On a new connection.
    Connect,
}

/// Why sending on a connection failed.
#[derive(Clone, Copy, Debug, PartialEq, Eq, Structural)]
pub enum SendFailure {
    /// The request was canceled before it was sent.
    Canceled,
    /// The connection was closed.
    Closed,
    /// Anything else.
    Other,
}

/// What follows a failure on a connection from the pool. In both cases the
/// driver of the connection is aborted first.
#[derive(Clone, Copy, Debug, PartialEq, Eq, Structural)]
pub enum AfterReuse {
    /// The request is sent on a new connection.
    Reconnect,
    /// The failure is the outcome of the request.
    Surface,
}

/// The connection that a request begins on, where it begins on one from the
/// pool.
pub open spec fn reused(step: Step) -> Option<Conn> {
    match step {
        Step::Reuse(c) => Some(c),
        Step::Connect => None,
    }
}

/// Begins a request to `addr`: on an idle connection to it, which is taken
/// out of the pool, or on a new one where the pool has none.
pub fn http(pool: &mut Pool, addr: Endpoint) -> (step: Step)
    ensures
        final(pool).next_sender() == old(pool).next_sender(),
        match held(old(pool).lists(), key_of(addr)) {
            None => step == Step::Connect && final(pool).lists() == old(pool).lists(),
            Some(list) => {
                &&& is_last(list, entry_of(reused(step)))
                &&& final(pool).lists() == old(pool).lists().insert(
                    key_of(addr),
                    without(list, entry_of(reused(step))),
                )
            },
        },
{
    match pool.cached_conn(addr) {
        Some(conn) => Step::Reuse(conn),
        None => Step::Connect,
    }
}

/// Makes the handle of a connection that was just opened: its peer address
/// and a number for its sender. The connection is not in the pool; it gets
/// there when the body of its first response is let go.
pub fn conn_new(pool: &mut Pool, peer_addr: Endpoint) -> (conn: Conn)
    ensures
        conn == (Conn { peer_addr, sender: old(pool).next_sender() }),
        final(pool).next_sender() == (if old(pool).next_sender() == u64::MAX {
            0
        } else {
            (old(pool).next_sender() + 1) as u64
        }),
        final(pool).lists() == old(pool).lists(),
{
    Conn { peer_addr, sender: pool.number() }
}

/// Decides what follows a failure on a connection from the pool. A connection
/// that ended between the pool and its use fails as canceled or as closed:
/// then the request goes out again on a new connection. Any other failure is
/// the outcome.
pub fn reuse_failed(failure: SendFailure) -> (next: AfterReuse)
    ensures
        next == (match failure {
            SendFailure::Canceled => AfterReuse::Reconnect,
            SendFailure::Closed => AfterReuse::Reconnect,
            SendFailure::Other => AfterReuse::Surface,
        }),
{
    match failure {
        SendFailure::Canceled => AfterReuse::Reconnect,
        SendFailure::Closed => AfterReuse::Reconnect,
        SendFailure::Other => AfterReuse::Surface,
    }
}

} // verus!

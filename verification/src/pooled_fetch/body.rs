//! The pool itself: for each upstream address the idle connections to it, by
//! the peer address of each. A connection leaves the pool when a request
//! takes it, comes back when the response has been read, and is struck when
//! its transport ends.

use crate::pooled_fetch::Conn;
use crate::route::{endpoint_of, key_of, AddrKey, Endpoint};
use crossbeam_skiplist::SkipMap;
use dashmap::DashMap;
use vstd::prelude::*;

verus! {

/// The idle connections to one upstream address: the sender's number by the
/// peer address that the transport reports.
pub type Idle = Map<AddrKey, u64>;

/// What a list of idle connections holds.
pub uninterp spec fn idle_entries(m: SkipMap<AddrKey, u64>) -> Idle;

/// What the pool holds: a list of idle connections by upstream address.
pub uninterp spec fn pool_entries(p: DashMap<AddrKey, SkipMap<AddrKey, u64>>) -> Map<AddrKey, Idle>;

pub open spec fn no_idle() -> Idle {
    Map::empty()
}

pub open spec fn no_lists() -> Map<AddrKey, Idle> {
    Map::empty()
}

/// The order of the tuples: by the first field in which two differ, with
/// `false` before `true`.
pub open spec fn key_le(a: AddrKey, b: AddrKey) -> bool {
    if a.0 != b.0 {
        !a.0
    } else if a.1 != b.1 {
        a.1 < b.1
    } else if a.2 != b.2 {
        a.2 < b.2
    } else if a.3 != b.3 {
        a.3 < b.3
    } else {
        a.4 <= b.4
    }
}

/// What a list as plain mathematics is, where there is one.
pub open spec fn list_view(list: Option<SkipMap<AddrKey, u64>>) -> Option<Idle> {
    match list {
        Some(m) => Some(idle_entries(m)),
        None => None,
    }
}

/// What is found under a key.
pub open spec fn held<V>(m: Map<AddrKey, V>, k: AddrKey) -> Option<V> {
    if m.contains_key(k) {
        Some(m[k])
    } else {
        None
    }
}

/// The list has an entry.
pub open spec fn has_entry(list: Idle) -> bool {
    exists|p: AddrKey| #[trigger] list.contains_key(p)
}

/// `popped` is the entry of `before` with the greatest key, or `None` where
/// `before` has no entry.
pub open spec fn is_last(before: Idle, popped: Option<(AddrKey, u64)>) -> bool {
    match popped {
        Some((k, v)) => {
            &&& before.contains_key(k)
            &&& before[k] == v
            &&& forall|other: AddrKey| #[trigger] before.contains_key(other) ==> key_le(other, k)
        },
        None => !has_entry(before),
    }
}

/// `before` without the entry that was popped.
pub open spec fn without(before: Idle, popped: Option<(AddrKey, u64)>) -> Idle {
    match popped {
        Some((k, _)) => before.remove(k),
        None => before,
    }
}

/// `DashMap::new`: a pool without lists.
#[verifier::external_body]
fn pool_new() -> (p: DashMap<AddrKey, SkipMap<AddrKey, u64>>)
    ensures
        pool_entries(p) == no_lists(),
{
    DashMap::new()
}

/// `DashMap::remove`: hands out the list kept under `addr`, if there is one,
/// and keeps nothing under `addr` afterwards.
#[verifier::external_body]
fn pool_take(p: &mut DashMap<AddrKey, SkipMap<AddrKey, u64>>, addr: AddrKey) -> (list: Option<
    SkipMap<AddrKey, u64>,
>)
    ensures
        list_view(list) == held(pool_entries(*old(p)), addr),
        pool_entries(*final(p)) == pool_entries(*old(p)).remove(addr),
{
    p.remove(&addr).map(|kv| kv.1)
}

/// `DashMap::insert`: keeps `list` under `addr`, in place of what was kept
/// there.
#[verifier::external_body]
fn pool_put(
    p: &mut DashMap<AddrKey, SkipMap<AddrKey, u64>>,
    addr: AddrKey,
    list: SkipMap<AddrKey, u64>,
)
    ensures
        pool_entries(*final(p)) == pool_entries(*old(p)).insert(addr, idle_entries(list)),
{
    p.insert(addr, list);
}

/// `SkipMap::new`: a list without entries.
#[verifier::external_body]
fn idle_new() -> (m: SkipMap<AddrKey, u64>)
    ensures
        idle_entries(m) == no_idle(),
{
    SkipMap::new()
}

/// `SkipMap::insert`: the list holds `sender` under `peer`, in place of what
/// it held there.
#[verifier::external_body]
fn idle_insert(m: &mut SkipMap<AddrKey, u64>, peer: AddrKey, sender: u64)
    ensures
        idle_entries(*final(m)) == idle_entries(*old(m)).insert(peer, sender),
{
    m.insert(peer, sender);
}

/// `SkipMap::remove`: the list holds nothing under `peer`.
#[verifier::external_body]
fn idle_remove(m: &mut SkipMap<AddrKey, u64>, peer: AddrKey)
    ensures
        idle_entries(*final(m)) == idle_entries(*old(m)).remove(peer),
{
    m.remove(&peer);
}

/// `SkipMap::pop_back`: takes the entry with the greatest key out of the list
/// and hands it out; `None`, and no change, where the list has no entry.
#[verifier::external_body]
fn idle_pop_back(m: &mut SkipMap<AddrKey, u64>) -> (popped: Option<(AddrKey, u64)>)
    ensures
        is_last(idle_entries(*old(m)), popped),
        idle_entries(*final(m)) == without(idle_entries(*old(m)), popped),
{
    m.pop_back().map(|e| (*e.key(), *e.value()))
}

/// `SkipMap::is_empty`: whether the list has no entry.
#[verifier::external_body]
fn idle_is_empty(m: &SkipMap<AddrKey, u64>) -> (empty: bool)
    ensures
        empty == !has_entry(idle_entries(*m)),
{
    m.is_empty()
}

/// The pool of idle connections.
pub struct Pool {
    idle: DashMap<AddrKey, SkipMap<AddrKey, u64>>,
    next: u64,
}

/// The entry of a list that a connection was, where there is a connection.
pub open spec fn entry_of(conn: Option<Conn>) -> Option<(AddrKey, u64)> {
    match conn {
        Some(c) => Some((key_of(c.peer_addr), c.sender)),
        None => None,
    }
}

impl Pool {
    /// The idle connections, by upstream address.
    pub closed spec fn lists(&self) -> Map<AddrKey, Idle> {
        pool_entries(self.idle)
    }

    /// The number that the next new connection gets.
    pub closed spec fn next_sender(&self) -> u64 {
        self.next
    }

    /// No upstream address has an empty list.
    pub open spec fn tidy(&self) -> bool {
        forall|a: AddrKey| #[trigger] self.lists().contains_key(a) ==> has_entry(self.lists()[a])
    }

    /// A pool without connections.
    pub fn new() -> (pool: Self)
        ensures
            pool.lists() == no_lists(),
            pool.next_sender() == 0,
            pool.tidy(),
    {
        Pool { idle: pool_new(), next: 0 }
    }

    /// Takes an idle connection to `addr` out of the pool: of those there are,
    /// the one whose peer address is the greatest. From then on the
    /// connection is the caller's. The list of `addr` stays, even if empty.
    pub fn cached_conn(&mut self, addr: Endpoint) -> (conn: Option<Conn>)
        ensures
            final(self).next_sender() == old(self).next_sender(),
            match held(old(self).lists(), key_of(addr)) {
                None => conn is None && final(self).lists() == old(self).lists(),
                Some(list) => {
                    &&& is_last(list, entry_of(conn))
                    &&& final(self).lists() == old(self).lists().insert(
                        key_of(addr),
                        without(list, entry_of(conn)),
                    )
                },
            },
    {
        let key = addr.key();
        match pool_take(&mut self.idle, key) {
            None => {
                assert(self.lists() == old(self).lists());
                None
            },
            Some(mut list) => {
                let popped = idle_pop_back(&mut list);
                pool_put(&mut self.idle, key, list);
                assert(self.lists() == old(self).lists().insert(
                    key,
                    without(old(self).lists()[key], popped),
                ));
                assert(is_last(old(self).lists()[key], popped));
                match popped {
                    Some((peer, sender)) => Some(
                        Conn { peer_addr: Endpoint::from_key(peer), sender },
                    ),
                    None => None,
                }
            },
        }
    }

    /// Puts a connection to `addr` back into the pool, under its peer
    /// address. This is what happens when the body of a response is let go.
    pub fn put_back(&mut self, addr: Endpoint, conn: Conn)
        ensures
            final(self).next_sender() == old(self).next_sender(),
            final(self).lists() == old(self).lists().insert(
                key_of(addr),
                (match held(old(self).lists(), key_of(addr)) {
                    Some(list) => list,
                    None => no_idle(),
                }).insert(key_of(conn.peer_addr), conn.sender),
            ),
            old(self).tidy() ==> final(self).tidy(),
    {
        let key = addr.key();
        let mut list = match pool_take(&mut self.idle, key) {
            Some(list) => list,
            None => idle_new(),
        };
        idle_insert(&mut list, conn.peer_addr.key(), conn.sender);
        let ghost put = idle_entries(list);
        pool_put(&mut self.idle, key, list);
        proof {
            assert(put.contains_key(key_of(conn.peer_addr)));
            if old(self).tidy() {
                assert forall|a: AddrKey| #[trigger] self.lists().contains_key(a) implies has_entry(
                    self.lists()[a],
                ) by {
                    if a != key {
                        assert(old(self).lists().contains_key(a));
                    }
                }
            }
        }
    }

    /// Strikes the connection with this peer address from the list of
    /// `addr`, and the list from the pool if nothing is left in it. This is
    /// what the driver of a connection does when the transport has ended,
    /// before it ends itself.
    pub fn driver_done(&mut self, addr: Endpoint, peer_addr: Endpoint)
        ensures
            final(self).next_sender() == old(self).next_sender(),
            match held(old(self).lists(), key_of(addr)) {
                None => final(self).lists() == old(self).lists(),
                Some(list) => {
                    let rest = list.remove(key_of(peer_addr));
                    if has_entry(rest) {
                        final(self).lists() == old(self).lists().insert(key_of(addr), rest)
                    } else {
                        final(self).lists() == old(self).lists().remove(key_of(addr))
                    }
                },
            },
            !(final(self).lists().contains_key(key_of(addr)) && final(self).lists()[key_of(
                addr,
            )].contains_key(key_of(peer_addr))),
            old(self).tidy() ==> final(self).tidy(),
    {
        let key = addr.key();
        match pool_take(&mut self.idle, key) {
            Some(mut list) => {
                idle_remove(&mut list, peer_addr.key());
                let ghost rest = idle_entries(list);
                if !idle_is_empty(&list) {
                    pool_put(&mut self.idle, key, list);
                    proof {
                        if old(self).tidy() {
                            assert forall|a: AddrKey| #[trigger]
                                self.lists().contains_key(a) implies has_entry(self.lists()[a]) by {
                                if a != key {
                                    assert(old(self).lists().contains_key(a));
                                }
                            }
                        }
                    }
                } else {
                    proof {
                        if old(self).tidy() {
                            assert forall|a: AddrKey| #[trigger]
                                self.lists().contains_key(a) implies has_entry(self.lists()[a]) by {
                                assert(old(self).lists().contains_key(a));
                            }
                        }
                    }
                }
            },
            None => {
                assert(self.lists() == old(self).lists());
            },
        }
    }

    /// Whether the pool keeps a list for `addr`, and if so, whether the list
    /// has an entry.
    pub fn list_state(&mut self, addr: Endpoint) -> (state: Option<bool>)
        ensures
            final(self).lists() == old(self).lists(),
            final(self).next_sender() == old(self).next_sender(),
            state == (match held(old(self).lists(), key_of(addr)) {
                Some(list) => Some(has_entry(list)),
                None => None,
            }),
    {
        let key = addr.key();
        match pool_take(&mut self.idle, key) {
            Some(list) => {
                let filled = !idle_is_empty(&list);
                pool_put(&mut self.idle, key, list);
                assert(self.lists() == old(self).lists());
                Some(filled)
            },
            None => {
                assert(self.lists() == old(self).lists());
                None
            },
        }
    }

    /// Hands out the number for the sender of a new connection. The numbers
    /// count up from zero, and start again after the largest.
    pub fn number(&mut self) -> (sender: u64)
        ensures
            sender == old(self).next_sender(),
            final(self).next_sender() == (if old(self).next_sender() == u64::MAX {
                0
            } else {
                (old(self).next_sender() + 1) as u64
            }),
            final(self).lists() == old(self).lists(),
    {
        let sender = self.next;
        self.next = sender.wrapping_add(1);
        sender
    }
}

} // verus!

//! The server fabric: which sockets the three listeners get, and the
//! discipline by which they stop. A listener takes no connection once shutdown
//! has begun, and the fabric is done only when every listener has left its
//! loop and every connection that was taken has ended.

use crate::route::Endpoint;
use vstd::prelude::*;

pub mod h1;
pub mod h2;
pub mod h3;

verus! {

/// The kind of a socket handed down by the parent process.
#[derive(Clone, Copy, Debug, PartialEq, Eq, Structural)]
pub enum SocketKind {
    /// A listening TCP socket.
    Tcp,
    /// A UDP socket.
    Udp,
}

/// A socket handed down by the parent process, with its local address. Its
/// place in the list is the number of its descriptor.
#[derive(Clone, Copy, Debug, PartialEq, Eq, Structural)]
pub struct Inherited {
    pub kind: SocketKind,
    pub addr: Endpoint,
}

/// For each listener the inherited descriptor that it takes over, or `None`
/// where it binds its address itself.
#[derive(Clone, Copy, Debug, PartialEq, Eq, Structural)]
pub struct SocketPlan {
    pub h1: Option<usize>,
    pub h2: Option<usize>,
    pub h3: Option<usize>,
}

/// The last of the first `n` inherited sockets that has this kind and local
/// address. Where several share an address the last one counts.
pub open spec fn last_match(list: Seq<Inherited>, n: int, kind: SocketKind, addr: Endpoint) -> Option<
    usize,
>
    decreases n,
{
    if n <= 0 {
        None
    } else if list[n - 1].kind == kind && list[n - 1].addr == addr {
        Some((n - 1) as usize)
    } else {
        last_match(list, n - 1, kind, addr)
    }
}

fn find_last(list: &Vec<Inherited>, kind: SocketKind, addr: Endpoint) -> (found: Option<usize>)
    ensures
        found == last_match(list@, list@.len() as int, kind, addr),
{
    let mut n = list.len();
    while n > 0
        invariant
            n <= list@.len(),
            last_match(list@, list@.len() as int, kind, addr) == last_match(
                list@,
                n as int,
                kind,
                addr,
            ),
        decreases n,
    {
        if list[n - 1].kind == kind && list[n - 1].addr == addr {
            return Some(n - 1);
        }
        n -= 1;
    }
    None
}

/// Which socket each listener gets. A listener takes over the inherited
/// socket of its kind that is bound to its address, and binds the address
/// itself where there is none. h1 is served before h2: where both want the
/// same address h1 takes the inherited socket and h2 binds.
pub open spec fn spec_plan_sockets(
    list: Seq<Inherited>,
    h1: Endpoint,
    h2: Endpoint,
    h3: Endpoint,
) -> SocketPlan {
    let first = last_match(list, list.len() as int, SocketKind::Tcp, h1);
    SocketPlan {
        h1: first,
        h2: if h2 == h1 {
            None
        } else {
            last_match(list, list.len() as int, SocketKind::Tcp, h2)
        },
        h3: last_match(list, list.len() as int, SocketKind::Udp, h3),
    }
}

/// Decides which socket each listener gets.
pub fn plan_sockets(list: &Vec<Inherited>, h1: Endpoint, h2: Endpoint, h3: Endpoint) -> (plan:
    SocketPlan)
    ensures
        plan == spec_plan_sockets(list@, h1, h2, h3),
{
    let first = find_last(list, SocketKind::Tcp, h1);
    let second = if h2 == h1 {
        None
    } else {
        find_last(list, SocketKind::Tcp, h2)
    };
    SocketPlan { h1: first, h2: second, h3: find_last(list, SocketKind::Udp, h3) }
}

/// An inherited socket is taken by at most one listener, and by one of its own
/// kind and address.
pub proof fn lemma_plan_sockets(list: Seq<Inherited>, h1: Endpoint, h2: Endpoint, h3: Endpoint)
    requires
        list.len() <= usize::MAX,
    ensures
        ({
            let plan = spec_plan_sockets(list, h1, h2, h3);
            &&& plan.h1 matches Some(i) ==> i < list.len() && list[i as int] == (Inherited {
                kind: SocketKind::Tcp,
                addr: h1,
            })
            &&& plan.h2 matches Some(i) ==> i < list.len() && list[i as int] == (Inherited {
                kind: SocketKind::Tcp,
                addr: h2,
            })
            &&& plan.h3 matches Some(i) ==> i < list.len() && list[i as int] == (Inherited {
                kind: SocketKind::Udp,
                addr: h3,
            })
            &&& plan.h1 is Some && plan.h2 is Some ==> plan.h1 != plan.h2
        }),
{
    lemma_last_match(list, list.len() as int, SocketKind::Tcp, h1);
    lemma_last_match(list, list.len() as int, SocketKind::Tcp, h2);
    lemma_last_match(list, list.len() as int, SocketKind::Udp, h3);
}

proof fn lemma_last_match(list: Seq<Inherited>, n: int, kind: SocketKind, addr: Endpoint)
    requires
        n <= list.len() <= usize::MAX,
    ensures
        last_match(list, n, kind, addr) matches Some(i) ==> i < n && list[i as int] == (Inherited {
            kind,
            addr,
        }),
    decreases n,
{
    if n > 0 && !(list[n - 1].kind == kind && list[n - 1].addr == addr) {
        lemma_last_match(list, n - 1, kind, addr);
    }
}

/// What the fabric keeps count of.
pub struct FabricState {
    /// Shutdown has begun.
    pub stopping: bool,
    /// The listeners that have not left their loop.
    pub workers: nat,
    /// The connections that were taken and have not ended.
    pub open: nat,
}

/// What happens to the fabric.
pub enum Event {
    /// The shutdown trigger fired.
    Shutdown,
    /// A listener has a new connection and asks whether to serve it.
    Accept,
    /// A connection that was served has ended.
    ConnDone,
    /// A listener has left its loop.
    WorkerExit,
}

/// Whether the connection of an `Accept` is served: only while shutdown has
/// not begun, and while the count of connections has room.
pub open spec fn serves(s: FabricState) -> bool {
    !s.stopping && s.open < usize::MAX
}

/// The fabric after an event.
pub open spec fn step(s: FabricState, e: Event) -> FabricState {
    match e {
        Event::Shutdown => FabricState { stopping: true, ..s },
        Event::Accept => if serves(s) {
            FabricState { open: s.open + 1, ..s }
        } else {
            s
        },
        Event::ConnDone => if s.open > 0 {
            FabricState { open: (s.open - 1) as nat, ..s }
        } else {
            s
        },
        Event::WorkerExit => if s.workers > 0 {
            FabricState { workers: (s.workers - 1) as nat, ..s }
        } else {
            s
        },
    }
}

/// The fabric is done: no listener is in its loop and no connection is open.
pub open spec fn done(s: FabricState) -> bool {
    s.workers == 0 && s.open == 0
}

/// The fabric after the first `n` of a run of events.
pub open spec fn run(s: FabricState, events: Seq<Event>, n: nat) -> FabricState
    decreases n,
{
    if n == 0 {
        s
    } else {
        step(run(s, events, (n - 1) as nat), events[n - 1])
    }
}

/// The connections served among the first `n` events.
pub open spec fn served(s: FabricState, events: Seq<Event>, n: nat) -> nat
    decreases n,
{
    if n == 0 {
        0
    } else {
        let before = run(s, events, (n - 1) as nat);
        let more: nat = if events[n - 1] is Accept && serves(before) {
            1
        } else {
            0
        };
        served(s, events, (n - 1) as nat) + more
    }
}

/// The served connections that ended among the first `n` events.
pub open spec fn ended(s: FabricState, events: Seq<Event>, n: nat) -> nat
    decreases n,
{
    if n == 0 {
        0
    } else {
        let before = run(s, events, (n - 1) as nat);
        let more: nat = if events[n - 1] is ConnDone && before.open > 0 {
            1
        } else {
            0
        };
        ended(s, events, (n - 1) as nat) + more
    }
}

/// Once shutdown has begun it stays begun, whatever happens next.
pub proof fn lemma_stopping_stays(s: FabricState, events: Seq<Event>, i: nat, j: nat)
    requires
        i <= j <= events.len(),
        run(s, events, i).stopping,
    ensures
        run(s, events, j).stopping,
    decreases j,
{
    if i < j {
        lemma_stopping_stays(s, events, i, (j - 1) as nat);
    }
}

/// After the shutdown trigger has fired no connection is served: an `Accept`
/// that comes later finds the fabric stopping and leaves it as it was.
pub proof fn lemma_no_accept_after_shutdown(s: FabricState, events: Seq<Event>, i: nat, j: nat)
    requires
        i < j < events.len(),
        events[i as int] is Shutdown,
        events[j as int] is Accept,
    ensures
        !serves(run(s, events, j)),
        run(s, events, j + 1) == run(s, events, j),
{
    assert(run(s, events, i + 1).stopping);
    lemma_stopping_stays(s, events, i + 1, j);
}

/// The open connections are those that were served and have not ended. So a
/// fabric that started without connections is done only when every connection
/// that it served has ended.
pub proof fn lemma_drained(s: FabricState, events: Seq<Event>, n: nat)
    requires
        n <= events.len(),
    ensures
        run(s, events, n).open == s.open + served(s, events, n) - ended(s, events, n),
        s.open == 0 && done(run(s, events, n)) ==> ended(s, events, n) == served(s, events, n),
    decreases n,
{
    if n > 0 {
        lemma_drained(s, events, (n - 1) as nat);
    }
}

/// The fabric's counters.
pub struct Fabric {
    stopping: bool,
    workers: u8,
    open: usize,
}

impl View for Fabric {
    type V = FabricState;

    closed spec fn view(&self) -> FabricState {
        FabricState { stopping: self.stopping, workers: self.workers as nat, open: self.open as nat }
    }
}

impl Fabric {
    /// A fabric with its three listeners running and no connection.
    pub fn new() -> (fabric: Self)
        ensures
            fabric@ == (FabricState { stopping: false, workers: 3, open: 0 }),
    {
        Fabric { stopping: false, workers: 3, open: 0 }
    }

    /// The shutdown trigger fired.
    pub fn shutdown(&mut self)
        ensures
            final(self)@ == step(old(self)@, Event::Shutdown),
    {
        self.stopping = true;
    }

    /// A listener has a new connection. Returns whether to serve it; a
    /// connection that is not served is dropped.
    pub fn accept(&mut self) -> (serve: bool)
        ensures
            serve == serves(old(self)@),
            final(self)@ == step(old(self)@, Event::Accept),
    {
        if self.stopping || self.open == usize::MAX {
            return false;
        }
        self.open = self.open + 1;
        true
    }

    /// A connection that was served has ended.
    pub fn conn_done(&mut self)
        ensures
            final(self)@ == step(old(self)@, Event::ConnDone),
    {
        if self.open > 0 {
            self.open = self.open - 1;
        }
    }

    /// A listener has left its loop. From then on the shutdown trigger is no
    /// longer waited for.
    pub fn worker_exit(&mut self)
        ensures
            final(self)@ == step(old(self)@, Event::WorkerExit),
    {
        if self.workers > 0 {
            self.workers = self.workers - 1;
        }
    }

    /// Whether shutdown has begun.
    pub fn is_stopping(&self) -> (stopping: bool)
        ensures
            stopping == self@.stopping,
    {
        self.stopping
    }

    /// Whether the fabric is done.
    pub fn is_done(&self) -> (finished: bool)
        ensures
            finished == done(self@),
    {
        self.workers == 0 && self.open == 0
    }
}

/// What a listener's wait ended with.
#[derive(Clone, Copy, Debug, PartialEq, Eq, Structural)]
pub enum Waited {
    /// A new connection.
    Conn,
    /// Accepting failed.
    Failed,
    /// The transport under the listener has closed.
    Closed,
    /// The shutdown trigger has fired.
    Shutdown,
}

/// What a listener does next.
#[derive(Clone, Copy, Debug, PartialEq, Eq, Structural)]
pub enum Action {
    /// Serve the connection on a task of its own, and wait again.
    Serve,
    /// Drop the connection, and wait again.
    Refuse,
    /// Wait again.
    Again,
    /// Leave the loop.
    Stop,
}

/// What a listener does after its wait ended with `waited`, in a fabric in
/// the state `s`.
pub open spec fn spec_step(s: FabricState, waited: Waited) -> Action {
    match waited {
        Waited::Conn => if serves(s) {
            Action::Serve
        } else {
            Action::Refuse
        },
        Waited::Failed => Action::Again,
        Waited::Closed => Action::Stop,
        Waited::Shutdown => Action::Stop,
    }
}

/// The fabric after a listener's wait ended with `waited`.
pub open spec fn after_step(s: FabricState, waited: Waited) -> FabricState {
    match waited {
        Waited::Conn => step(s, Event::Accept),
        Waited::Failed => s,
        Waited::Closed => step(s, Event::WorkerExit),
        Waited::Shutdown => step(step(s, Event::Shutdown), Event::WorkerExit),
    }
}

/// One turn of a listener's loop. A new connection is served unless shutdown
/// has begun. A failure to accept is passed over. When the shutdown trigger
/// has fired, or the transport has closed, the listener leaves its loop.
pub fn listen(fabric: &mut Fabric, waited: Waited) -> (action: Action)
    ensures
        action == spec_step(old(fabric)@, waited),
        final(fabric)@ == after_step(old(fabric)@, waited),
{
    match waited {
        Waited::Conn => {
            if fabric.accept() {
                Action::Serve
            } else {
                Action::Refuse
            }
        },
        Waited::Failed => Action::Again,
        Waited::Closed => {
            fabric.worker_exit();
            Action::Stop
        },
        Waited::Shutdown => {
            fabric.shutdown();
            fabric.worker_exit();
            Action::Stop
        },
    }
}

/// Starts the fabric: its three listeners count as running, no connection is
/// open, and each listener has its socket planned.
pub fn srv(
    inherited: &Vec<Inherited>,
    h1_addr: Endpoint,
    h2_addr: Endpoint,
    h3_addr: Endpoint,
) -> (started: (Fabric, SocketPlan))
    ensures
        started.0@ == (FabricState { stopping: false, workers: 3, open: 0 }),
        started.1 == spec_plan_sockets(inherited@, h1_addr, h2_addr, h3_addr),
{
    (Fabric::new(), plan_sockets(inherited, h1_addr, h2_addr, h3_addr))
}

} // verus!

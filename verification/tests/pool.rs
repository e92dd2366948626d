use gway::pooled_fetch::{conn_new, http, reuse_failed, AfterReuse, Conn, Pool, SendFailure, Step};
use gway::Endpoint;

fn v4(last: u8, port: u16) -> Endpoint {
    Endpoint { v6: false, ip: 0x7f00_0000 + last as u128, port, flowinfo: 0, scope_id: 0 }
}

fn v6(ip: u128, port: u16) -> Endpoint {
    Endpoint { v6: true, ip, port, flowinfo: 0, scope_id: 0 }
}

#[test]
fn new_pool_has_no_lists() {
    let mut pool = Pool::new();
    assert_eq!(pool.list_state(v4(1, 9080)), None);
    assert_eq!(pool.cached_conn(v4(1, 9080)), None);
    assert_eq!(pool.list_state(v4(1, 9080)), None);
}

#[test]
fn put_back_then_take() {
    let mut pool = Pool::new();
    let addr = v4(1, 9080);
    let conn = Conn { peer_addr: v4(1, 50000), sender: 7 };
    pool.put_back(addr, conn);
    assert_eq!(pool.list_state(addr), Some(true));
    assert_eq!(pool.cached_conn(addr), Some(conn));
    assert_eq!(pool.cached_conn(addr), None);
}

#[test]
fn taking_the_last_connection_leaves_an_empty_list() {
    let mut pool = Pool::new();
    let addr = v4(1, 9080);
    pool.put_back(addr, Conn { peer_addr: v4(1, 50000), sender: 7 });
    pool.cached_conn(addr);
    assert_eq!(pool.list_state(addr), Some(false));
}

#[test]
fn the_greatest_peer_address_is_taken_first() {
    let mut pool = Pool::new();
    let addr = v4(1, 9080);
    let low = Conn { peer_addr: v4(1, 40000), sender: 1 };
    let high_port = Conn { peer_addr: v4(1, 60000), sender: 2 };
    let high_ip = Conn { peer_addr: v4(2, 1), sender: 3 };
    let six = Conn { peer_addr: v6(0, 1), sender: 4 };
    pool.put_back(addr, high_port);
    pool.put_back(addr, six);
    pool.put_back(addr, low);
    pool.put_back(addr, high_ip);
    assert_eq!(pool.cached_conn(addr), Some(six));
    assert_eq!(pool.cached_conn(addr), Some(high_ip));
    assert_eq!(pool.cached_conn(addr), Some(high_port));
    assert_eq!(pool.cached_conn(addr), Some(low));
    assert_eq!(pool.cached_conn(addr), None);
}

#[test]
fn order_goes_by_flow_and_scope_last() {
    let mut pool = Pool::new();
    let addr = v4(1, 9080);
    let a = Conn { peer_addr: Endpoint { v6: true, ip: 5, port: 1, flowinfo: 0, scope_id: 9 }, sender: 1 };
    let b = Conn { peer_addr: Endpoint { v6: true, ip: 5, port: 1, flowinfo: 1, scope_id: 0 }, sender: 2 };
    pool.put_back(addr, b);
    pool.put_back(addr, a);
    assert_eq!(pool.cached_conn(addr), Some(b));
    assert_eq!(pool.cached_conn(addr), Some(a));
}

#[test]
fn put_back_under_the_same_peer_address_replaces() {
    let mut pool = Pool::new();
    let addr = v4(1, 9080);
    pool.put_back(addr, Conn { peer_addr: v4(1, 50000), sender: 1 });
    pool.put_back(addr, Conn { peer_addr: v4(1, 50000), sender: 2 });
    assert_eq!(pool.cached_conn(addr), Some(Conn { peer_addr: v4(1, 50000), sender: 2 }));
    assert_eq!(pool.cached_conn(addr), None);
}

#[test]
fn lists_are_kept_by_upstream_address() {
    let mut pool = Pool::new();
    let one = Conn { peer_addr: v4(1, 50000), sender: 1 };
    let two = Conn { peer_addr: v4(1, 50001), sender: 2 };
    pool.put_back(v4(1, 9080), one);
    pool.put_back(v4(1, 9081), two);
    assert_eq!(pool.cached_conn(v4(1, 9081)), Some(two));
    assert_eq!(pool.cached_conn(v4(1, 9081)), None);
    assert_eq!(pool.cached_conn(v4(1, 9080)), Some(one));
}

#[test]
fn driver_done_strikes_its_connection() {
    let mut pool = Pool::new();
    let addr = v4(1, 9080);
    let stays = Conn { peer_addr: v4(1, 50000), sender: 1 };
    let ends = Conn { peer_addr: v4(1, 50001), sender: 2 };
    pool.put_back(addr, stays);
    pool.put_back(addr, ends);
    pool.driver_done(addr, ends.peer_addr);
    assert_eq!(pool.list_state(addr), Some(true));
    assert_eq!(pool.cached_conn(addr), Some(stays));
    assert_eq!(pool.cached_conn(addr), None);
}

#[test]
fn driver_done_drops_a_list_that_became_empty() {
    let mut pool = Pool::new();
    let addr = v4(1, 9080);
    let conn = Conn { peer_addr: v4(1, 50000), sender: 1 };
    pool.put_back(addr, conn);
    pool.driver_done(addr, conn.peer_addr);
    assert_eq!(pool.list_state(addr), None);
}

#[test]
fn driver_done_of_a_connection_in_flight_drops_the_empty_list() {
    let mut pool = Pool::new();
    let addr = v4(1, 9080);
    let conn = Conn { peer_addr: v4(1, 50000), sender: 1 };
    pool.put_back(addr, conn);
    assert_eq!(pool.cached_conn(addr), Some(conn));
    assert_eq!(pool.list_state(addr), Some(false));
    pool.driver_done(addr, conn.peer_addr);
    assert_eq!(pool.list_state(addr), None);
}

#[test]
fn driver_done_for_an_unknown_address_changes_nothing() {
    let mut pool = Pool::new();
    let conn = Conn { peer_addr: v4(1, 50000), sender: 1 };
    pool.put_back(v4(1, 9080), conn);
    pool.driver_done(v4(1, 9081), conn.peer_addr);
    pool.driver_done(v4(1, 9080), v4(1, 50009));
    assert_eq!(pool.list_state(v4(1, 9081)), None);
    assert_eq!(pool.cached_conn(v4(1, 9080)), Some(conn));
}

#[test]
fn no_list_is_empty_after_put_back_and_driver_done() {
    let mut pool = Pool::new();
    let addrs = [v4(1, 9080), v4(1, 9081)];
    let conns = [
        Conn { peer_addr: v4(1, 50000), sender: 1 },
        Conn { peer_addr: v4(1, 50001), sender: 2 },
    ];
    pool.put_back(addrs[0], conns[0]);
    pool.put_back(addrs[0], conns[1]);
    pool.put_back(addrs[1], conns[0]);
    pool.driver_done(addrs[0], conns[0].peer_addr);
    pool.driver_done(addrs[1], conns[0].peer_addr);
    pool.driver_done(addrs[1], conns[1].peer_addr);
    for addr in addrs {
        assert_ne!(pool.list_state(addr), Some(false));
    }
    assert_eq!(pool.list_state(addrs[0]), Some(true));
    assert_eq!(pool.list_state(addrs[1]), None);
}

#[test]
fn conn_new_numbers_connections() {
    let mut pool = Pool::new();
    let a = conn_new(&mut pool, v4(1, 50000));
    let b = conn_new(&mut pool, v4(1, 50001));
    assert_eq!(a, Conn { peer_addr: v4(1, 50000), sender: 0 });
    assert_eq!(b, Conn { peer_addr: v4(1, 50001), sender: 1 });
    assert_eq!(pool.list_state(v4(1, 9080)), None);
}

#[test]
fn http_begins_on_an_idle_connection() {
    let mut pool = Pool::new();
    let addr = v4(1, 9080);
    let conn = Conn { peer_addr: v4(1, 50000), sender: 3 };
    assert_eq!(http(&mut pool, addr), Step::Connect);
    pool.put_back(addr, conn);
    assert_eq!(http(&mut pool, addr), Step::Reuse(conn));
    assert_eq!(http(&mut pool, addr), Step::Connect);
}

#[test]
fn closed_or_canceled_reuse_reconnects() {
    assert_eq!(reuse_failed(SendFailure::Closed), AfterReuse::Reconnect);
    assert_eq!(reuse_failed(SendFailure::Canceled), AfterReuse::Reconnect);
    assert_eq!(reuse_failed(SendFailure::Other), AfterReuse::Surface);
}

#[test]
fn pooled_fetch_error_text() {
    assert_eq!(gway::pooled_fetch::Error::Io("refused".to_string()).text(), "io: refused");
    assert_eq!(gway::pooled_fetch::Error::Hyper("closed".to_string()).text(), "hyper: closed");
    assert_eq!(gway::pooled_fetch::Error::AddrParse("bad".to_string()).text(), "address: bad");
}

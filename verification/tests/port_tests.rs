use vpn_tunnel::error::VpnError;
use vpn_tunnel::port::PortTable;

#[test]
fn one_more_socket_than_ports_fails() {
    // A port space with 4 free entries: the fifth open fails, closing one
    // and retrying succeeds and reuses no still-open port.
    let n: u16 = 4;
    let mut table = PortTable::new(5000, n);
    let mut open_ports = Vec::new();
    for i in 0..n {
        let p = table.open(format!("peer-{}", i), 80, true, 0).unwrap();
        open_ports.push(p);
    }
    assert_eq!(
        table.open("peer-last".to_string(), 80, true, 0).unwrap_err(),
        VpnError::PortsExhausted
    );
    let freed = open_ports[0];
    table.close(freed);
    let reused = table.open("peer-new".to_string(), 443, false, 1).unwrap();
    assert!(!open_ports[1..].contains(&reused));
    assert_eq!(reused, freed);
}

#[test]
fn allocation_wraps_and_delays_reuse() {
    let mut table = PortTable::new(100, 3);
    let a = table.open("a".to_string(), 1, true, 0).unwrap();
    let b = table.open("b".to_string(), 2, true, 0).unwrap();
    table.close(a);
    // The next allocation continues from the hint instead of going back to
    // the freed lowest port at once.
    let c = table.open("c".to_string(), 3, true, 0).unwrap();
    assert_ne!(c, b);
    assert_ne!(c, a);
    let d = table.open("d".to_string(), 4, true, 0).unwrap();
    assert_eq!(d, a);
}

#[test]
fn lookup_reads_the_connection() {
    let mut table = PortTable::new_full();
    let p = table.open("remote-node".to_string(), 8080, false, 42).unwrap();
    let socket = table.lookup(p).unwrap();
    assert_eq!(socket.local_port, p);
    assert_eq!(socket.remote_node, "remote-node");
    assert_eq!(socket.remote_port, 8080);
    assert!(!socket.reliable);
    assert_eq!(socket.last_seen, 42);
    assert!(table.lookup(9).is_none());
}

#[test]
fn close_is_idempotent() {
    let mut table = PortTable::new(10, 2);
    let p = table.open("x".to_string(), 1, true, 0).unwrap();
    table.close(p);
    table.close(p);
    assert!(table.lookup(p).is_none());
}

#[test]
fn idle_sockets_are_reclaimed_by_timeout() {
    let mut table = PortTable::new(40, 8);
    let a = table.open("a".to_string(), 1, true, 100).unwrap();
    let b = table.open("b".to_string(), 2, true, 180).unwrap();
    let c = table.open("c".to_string(), 3, true, 200).unwrap();
    table.touch(a, 195);
    // At clock 200 with a 10-tick timeout, only the socket last seen at 180
    // has gone idle.
    table.reclaim_idle(200, 10);
    assert!(table.lookup(a).is_some());
    assert!(table.lookup(b).is_none());
    assert!(table.lookup(c).is_some());
}

#[test]
fn connection_tuples_are_found_by_remote() {
    let mut table = PortTable::new_full();
    let p = table.open("peer".to_string(), 8080, true, 0).unwrap();
    assert_eq!(table.find_remote("peer", 8080, true), Some(p));
    assert_eq!(table.find_remote("peer", 8080, false), None);
    assert_eq!(table.find_remote("peer", 8081, true), None);
    assert_eq!(table.find_remote("other", 8080, true), None);
}

#[test]
fn touch_refreshes_the_clock() {
    let mut table = PortTable::new_full();
    let p = table.open("peer".to_string(), 80, true, 5).unwrap();
    table.touch(p, 99);
    assert_eq!(table.lookup(p).unwrap().last_seen, 99);
    table.touch(1234, 100);
    assert_eq!(table.lookup(p).unwrap().last_seen, 99);
}

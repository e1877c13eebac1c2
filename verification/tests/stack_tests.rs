use vpn_tunnel::addr::ipv4;
use vpn_tunnel::device::RecvPoll;
use vpn_tunnel::error::VpnError;
use vpn_tunnel::network::Network;
use vpn_tunnel::port::PortTable;
use vpn_tunnel::service::VpnService;
use vpn_tunnel::stack::{IfState, RouteAction, Stack};

fn ipv4_packet(src: u32, dst: u32, proto: u8, payload: &[u8]) -> Vec<u8> {
    let mut p = vec![0u8; 20];
    p[0] = 0x45;
    p[9] = proto;
    p[12..16].copy_from_slice(&src.to_be_bytes());
    p[16..20].copy_from_slice(&dst.to_be_bytes());
    p.extend_from_slice(payload);
    p
}

fn network_with_two_nodes() -> Network {
    let mut net = Network::new("net-1".to_string(), ipv4(10, 0, 0, 0), 29).unwrap();
    net.add_node("node-a", ipv4(10, 0, 0, 2)).unwrap();
    net.add_node("node-b", ipv4(10, 0, 0, 3)).unwrap();
    net
}

fn bound_stack(svc: &mut VpnService, id: &str, node: &str, ip: u32) -> Stack {
    let iface = svc.join(id, node, Some(ip)).unwrap();
    let mut stack = Stack::new(PortTable::new_full());
    stack.bind(iface).unwrap();
    stack
}

#[test]
fn unroutable_destination_is_dropped_and_counted() {
    let net = network_with_two_nodes();
    let mut svc = VpnService::new();
    let id = svc.create_network(ipv4(10, 0, 0, 0), 29).unwrap();
    let mut stack = bound_stack(&mut svc, &id, "node-a", ipv4(10, 0, 0, 2));

    let stranger = ipv4_packet(ipv4(10, 0, 0, 2), ipv4(10, 0, 0, 4), 6, b"x");
    assert_eq!(stack.dropped(), 0);
    match stack.route_outbound(&net, &stranger).unwrap() {
        RouteAction::Drop => {},
        RouteAction::Forward { .. } => panic!("a stranger must not be routable"),
    }
    assert_eq!(stack.dropped(), 1);

    let garbage = [0u8; 7];
    match stack.route_outbound(&net, &garbage).unwrap() {
        RouteAction::Drop => {},
        RouteAction::Forward { .. } => panic!("garbage must not be routable"),
    }
    assert_eq!(stack.dropped(), 2);
}

#[test]
fn routable_packets_pick_the_declared_channel() {
    let net = network_with_two_nodes();
    let mut svc = VpnService::new();
    let id = svc.create_network(ipv4(10, 0, 0, 0), 29).unwrap();
    let mut stack = bound_stack(&mut svc, &id, "node-a", ipv4(10, 0, 0, 2));

    let tcp = ipv4_packet(ipv4(10, 0, 0, 2), ipv4(10, 0, 0, 3), 6, b"hi");
    match stack.route_outbound(&net, &tcp).unwrap() {
        RouteAction::Forward { path, reliable } => {
            assert!(reliable);
            assert_eq!(path, "/net/node-b/vpn/net-1");
        },
        RouteAction::Drop => panic!("member must be routable"),
    }

    let udp = ipv4_packet(ipv4(10, 0, 0, 2), ipv4(10, 0, 0, 3), 17, b"hi");
    match stack.route_outbound(&net, &udp).unwrap() {
        RouteAction::Forward { path, reliable } => {
            assert!(!reliable);
            assert_eq!(path, "/udp/net/node-b/vpn/net-1/raw");
        },
        RouteAction::Drop => panic!("member must be routable"),
    }
    assert_eq!(stack.dropped(), 0);
}

#[test]
fn inbound_is_validated_and_ordered() {
    let net = network_with_two_nodes();
    let mut svc = VpnService::new();
    let id = svc.create_network(ipv4(10, 0, 0, 0), 29).unwrap();
    let mut stack = bound_stack(&mut svc, &id, "node-b", ipv4(10, 0, 0, 3));

    let first = ipv4_packet(ipv4(10, 0, 0, 2), ipv4(10, 0, 0, 3), 6, b"one");
    let second = ipv4_packet(ipv4(10, 0, 0, 2), ipv4(10, 0, 0, 3), 6, b"two");
    assert!(stack.on_inbound(&net, "node-a", first.clone()).unwrap());
    assert!(stack.on_inbound(&net, "node-a", second.clone()).unwrap());

    // Unknown sender, and a destination that is not this interface: dropped.
    assert!(!stack.on_inbound(&net, "node-x", first.clone()).unwrap());
    let misaddressed = ipv4_packet(ipv4(10, 0, 0, 2), ipv4(10, 0, 0, 2), 6, b"meh");
    assert!(!stack.on_inbound(&net, "node-a", misaddressed).unwrap());
    assert_eq!(stack.dropped(), 2);

    assert_eq!(stack.poll_receive().unwrap(), RecvPoll::Packet(first));
    assert_eq!(stack.poll_receive().unwrap(), RecvPoll::Packet(second));
    assert_eq!(stack.poll_receive().unwrap(), RecvPoll::Pending);
}

#[test]
fn closing_unblocks_a_suspended_receiver() {
    let net = network_with_two_nodes();
    let mut svc = VpnService::new();
    let id = svc.create_network(ipv4(10, 0, 0, 0), 29).unwrap();
    let mut stack = bound_stack(&mut svc, &id, "node-b", ipv4(10, 0, 0, 3));

    let inflight = ipv4_packet(ipv4(10, 0, 0, 2), ipv4(10, 0, 0, 3), 6, b"bye");
    assert!(stack.on_inbound(&net, "node-a", inflight.clone()).unwrap());

    // A receiver would have seen Pending and suspended; teardown begins.
    stack.begin_teardown();
    assert_eq!(stack.state(), IfState::Draining);
    // In-flight packets still complete while draining...
    assert!(!stack.poll_teardown());
    assert_eq!(stack.poll_receive().unwrap(), RecvPoll::Packet(inflight));
    // ...then the stack closes and the poll observes closure, not Pending.
    assert!(stack.poll_teardown());
    assert_eq!(stack.state(), IfState::Closed);
    assert_eq!(stack.poll_receive().unwrap(), RecvPoll::Closed);
}

#[test]
fn closed_stack_refuses_operations() {
    let net = network_with_two_nodes();
    let mut svc = VpnService::new();
    let id = svc.create_network(ipv4(10, 0, 0, 0), 29).unwrap();
    let mut stack = bound_stack(&mut svc, &id, "node-a", ipv4(10, 0, 0, 2));
    stack.begin_teardown();
    assert!(stack.poll_teardown());

    let pkt = ipv4_packet(ipv4(10, 0, 0, 2), ipv4(10, 0, 0, 3), 6, b"x");
    assert_eq!(stack.route_outbound(&net, &pkt).unwrap_err(), VpnError::InterfaceClosed);
    assert_eq!(stack.on_inbound(&net, "node-a", pkt).unwrap_err(), VpnError::InterfaceClosed);
    assert_eq!(
        stack.open_socket("node-b", 80, true, 0).unwrap_err(),
        VpnError::InterfaceClosed
    );
}

#[test]
fn draining_refuses_new_sockets() {
    let mut svc = VpnService::new();
    let id = svc.create_network(ipv4(10, 0, 0, 0), 29).unwrap();
    let mut stack = bound_stack(&mut svc, &id, "node-a", ipv4(10, 0, 0, 2));
    assert!(stack.open_socket("node-b", 80, true, 0).is_ok());
    stack.begin_teardown();
    assert_eq!(
        stack.open_socket("node-b", 81, true, 0).unwrap_err(),
        VpnError::InterfaceClosed
    );
}

#[test]
fn double_bind_is_refused() {
    let mut svc = VpnService::new();
    let id = svc.create_network(ipv4(10, 0, 0, 0), 29).unwrap();
    let iface_a = svc.join(&id, "node-a", None).unwrap();
    let iface_b = svc.join(&id, "node-b", None).unwrap();
    let mut stack = Stack::new(PortTable::new_full());
    stack.bind(iface_a).unwrap();
    assert_eq!(stack.bind(iface_b).unwrap_err(), VpnError::AlreadyBound);
}

#[test]
fn port_entries_are_created_lazily_per_tuple() {
    let mut svc = VpnService::new();
    let id = svc.create_network(ipv4(10, 0, 0, 0), 29).unwrap();
    let mut stack = bound_stack(&mut svc, &id, "node-a", ipv4(10, 0, 0, 2));

    let first = stack.note_traffic("node-b", 80, true, 10).unwrap();
    // The same tuple reuses its entry; a different tuple gets a new port.
    let again = stack.note_traffic("node-b", 80, true, 20).unwrap();
    assert_eq!(first, again);
    let other = stack.note_traffic("node-b", 81, true, 20).unwrap();
    assert_ne!(first, other);

    // Idle reclamation frees the tuple that saw no recent traffic.
    stack.reclaim_idle_sockets(30, 5).unwrap();
    let reopened = stack.note_traffic("node-b", 80, true, 31).unwrap();
    assert_ne!(reopened, first);

    // While draining, known tuples still refresh but new ones are refused.
    let known = stack.note_traffic("node-b", 81, true, 32);
    stack.begin_teardown();
    assert_eq!(known.unwrap(), stack.note_traffic("node-b", 81, true, 33).unwrap());
    assert_eq!(
        stack.note_traffic("node-b", 99, true, 34).unwrap_err(),
        VpnError::InterfaceClosed
    );
}

use vpn_tunnel::addr::ipv4;
use vpn_tunnel::device::RecvPoll;
use vpn_tunnel::error::VpnError;
use vpn_tunnel::port::PortTable;
use vpn_tunnel::requestor::VpnRequestor;
use vpn_tunnel::service::VpnService;
use vpn_tunnel::stack::{RouteAction, Stack};

fn ipv4_packet(src: u32, dst: u32, proto: u8, payload: &[u8]) -> Vec<u8> {
    let mut p = vec![0u8; 20];
    p[0] = 0x45;
    p[9] = proto;
    p[12..16].copy_from_slice(&src.to_be_bytes());
    p[16..20].copy_from_slice(&dst.to_be_bytes());
    p.extend_from_slice(payload);
    p
}

#[test]
fn two_nodes_join_and_a_packet_crosses() {
    // Network 10.0.0.0/29; A joins on .2; B's identical request fails as
    // taken; B joins with no requested address and receives the next free
    // one; a packet from A addressed to .3 comes out of B's receive poll.
    let mut svc = VpnService::new();
    let id = svc.create_network(ipv4(10, 0, 0, 0), 29).unwrap();

    let iface_a = svc.join(&id, "node-a", Some(ipv4(10, 0, 0, 2))).unwrap();
    assert_eq!(iface_a.ip(), ipv4(10, 0, 0, 2));

    assert_eq!(
        svc.join(&id, "node-b", Some(ipv4(10, 0, 0, 2))).unwrap_err(),
        VpnError::AddressTaken
    );

    let iface_b = svc.join(&id, "node-b", None).unwrap();
    assert_eq!(iface_b.ip(), ipv4(10, 0, 0, 3));

    let mut stack_a = Stack::new(PortTable::new_full());
    stack_a.bind(iface_a).unwrap();
    let mut stack_b = Stack::new(PortTable::new_full());
    stack_b.bind(iface_b).unwrap();

    let packet = ipv4_packet(ipv4(10, 0, 0, 2), ipv4(10, 0, 0, 3), 6, b"ping");
    let net = svc.network(&id).unwrap();
    match stack_a.route_outbound(net, &packet).unwrap() {
        RouteAction::Forward { path, reliable } => {
            assert!(reliable);
            assert_eq!(path, format!("/net/node-b/vpn/{}", id));
        },
        RouteAction::Drop => panic!("B is a member and must be routable"),
    }

    // The bus delivers the same bytes to B's stack.
    assert!(stack_b.on_inbound(net, "node-a", packet.clone()).unwrap());
    assert_eq!(stack_b.poll_receive().unwrap(), RecvPoll::Packet(packet));
}

#[test]
fn create_yields_fresh_ids() {
    let mut svc = VpnService::new();
    let first = svc.create_network(ipv4(10, 0, 0, 0), 24).unwrap();
    let second = svc.create_network(ipv4(10, 0, 1, 0), 24).unwrap();
    assert_ne!(first, second);
    assert_eq!(first, "0");
    assert_eq!(second, "1");
    assert_eq!(svc.network_count(), 2);
}

#[test]
fn malformed_subnet_is_refused() {
    let mut svc = VpnService::new();
    assert_eq!(svc.create_network(0, 31).unwrap_err(), VpnError::InvalidCidr);
    assert_eq!(svc.create_network(0, 40).unwrap_err(), VpnError::InvalidCidr);
}

#[test]
fn join_on_missing_network_is_not_found() {
    let mut svc = VpnService::new();
    assert_eq!(svc.join("7", "node-a", None).unwrap_err(), VpnError::NetworkNotFound);
}

#[test]
fn duplicate_join_is_refused() {
    let mut svc = VpnService::new();
    let id = svc.create_network(ipv4(10, 0, 0, 0), 29).unwrap();
    svc.join(&id, "node-a", None).unwrap();
    assert_eq!(svc.join(&id, "node-a", None).unwrap_err(), VpnError::DuplicateNode);
}

#[test]
fn destroy_waits_for_members_and_retries_are_harmless() {
    let mut svc = VpnService::new();
    let id = svc.create_network(ipv4(10, 0, 0, 0), 29).unwrap();
    svc.join(&id, "node-a", None).unwrap();
    assert_eq!(svc.destroy_network(&id).unwrap_err(), VpnError::NetworkInUse);
    svc.leave(&id, "node-a");
    assert!(svc.destroy_network(&id).is_ok());
    assert!(svc.destroy_network(&id).is_ok());
    assert!(svc.network(&id).is_none());
}

#[test]
fn leave_is_idempotent_and_frees_the_address() {
    let mut svc = VpnService::new();
    let id = svc.create_network(ipv4(10, 0, 0, 0), 30).unwrap();
    let iface = svc.join(&id, "node-a", None).unwrap();
    let ip = iface.ip();
    svc.leave(&id, "node-a");
    svc.leave(&id, "node-a");
    svc.leave("no-such-network", "node-a");
    let again = svc.join(&id, "node-b", None).unwrap();
    assert_eq!(again.ip(), ip);
}

#[test]
fn requestor_facade_drives_the_service() {
    let mut req = VpnRequestor::new();
    let id = req.create_network(ipv4(172, 16, 0, 0), 24).unwrap();
    let iface = req.join(&id, "provider-node", Some(ipv4(172, 16, 0, 9))).unwrap();
    assert_eq!(iface.ip(), ipv4(172, 16, 0, 9));
    assert_eq!(req.destroy_network(&id).unwrap_err(), VpnError::NetworkInUse);
    req.leave(&id, "provider-node");
    assert!(req.destroy_network(&id).is_ok());
    assert!(req.service().network(&id).is_none());
}

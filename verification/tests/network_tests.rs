use vpn_tunnel::addr::ipv4;
use vpn_tunnel::error::VpnError;
use vpn_tunnel::network::{gsb_endpoint, Network};

#[test]
fn endpoint_paths_are_derived_from_the_ids() {
    let duo = gsb_endpoint("0xabcd", "net-7");
    assert_eq!(duo.reliable(), "/net/0xabcd/vpn/net-7");
    assert_eq!(duo.unreliable(), "/udp/net/0xabcd/vpn/net-7/raw");
}

#[test]
fn membership_round_trip() {
    let mut net = Network::new("n".to_string(), ipv4(10, 1, 0, 0), 24).unwrap();
    net.add_node("a", ipv4(10, 1, 0, 2)).unwrap();
    assert_eq!(net.add_node("a", ipv4(10, 1, 0, 3)).unwrap_err(), VpnError::DuplicateNode);
    assert_eq!(net.add_node("b", ipv4(10, 1, 0, 2)).unwrap_err(), VpnError::AddressTaken);
    assert_eq!(net.add_node("b", ipv4(10, 2, 0, 2)).unwrap_err(), VpnError::AddressOutOfRange);

    let member = net.resolve("a").unwrap();
    assert_eq!(member.ip, ipv4(10, 1, 0, 2));
    assert_eq!(member.endpoint.reliable(), "/net/a/vpn/n");
    assert!(net.resolve("b").is_none());
    let by_ip = net.resolve_ip(ipv4(10, 1, 0, 2)).unwrap();
    assert_eq!(by_ip.node_id, "a");

    assert_eq!(net.remove_node("b").unwrap_err(), VpnError::NodeNotFound);
    net.remove_node("a").unwrap();
    assert!(net.resolve("a").is_none());
    assert_eq!(net.member_count(), 0);
}

#[test]
fn auto_allocation_skips_taken_addresses() {
    let mut net = Network::new("n".to_string(), ipv4(10, 1, 0, 0), 29).unwrap();
    net.add_node("a", ipv4(10, 1, 0, 2)).unwrap();
    let got = net.add_node_auto("b").unwrap();
    assert_eq!(got, ipv4(10, 1, 0, 3));
    net.add_node_auto("c").unwrap();
    net.add_node_auto("d").unwrap();
    net.add_node_auto("e").unwrap();
    // network .0, gateway .1, hosts .2-.6, broadcast .7: the space is full.
    assert_eq!(net.add_node_auto("f").unwrap_err(), VpnError::AddressSpaceExhausted);
}

#[test]
fn gateway_cannot_be_joined() {
    let mut net = Network::new("n".to_string(), ipv4(10, 1, 0, 0), 29).unwrap();
    assert_eq!(net.add_node("a", ipv4(10, 1, 0, 1)).unwrap_err(), VpnError::AddressTaken);
}

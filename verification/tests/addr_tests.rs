use vpn_tunnel::addr::{ipv4, AddressSpace};
use vpn_tunnel::error::VpnError;
use vpn_tunnel::ipstr::{ip_to_string, runtime_config, u64_to_string};

#[test]
fn slash_30_has_one_usable_address() {
    // 10.0.0.0/30: network .0, gateway .1 reserved, usable .2, broadcast .3.
    let mut space = AddressSpace::new(ipv4(10, 0, 0, 0), 30).unwrap();
    assert_eq!(space.allocate_next().unwrap(), ipv4(10, 0, 0, 2));
    assert_eq!(space.allocate_next().unwrap_err(), VpnError::AddressSpaceExhausted);
}

#[test]
fn gateway_is_pre_reserved() {
    let mut space = AddressSpace::new(ipv4(10, 0, 0, 0), 30).unwrap();
    let gateway = space.gateway().unwrap();
    assert_eq!(gateway, ipv4(10, 0, 0, 1));
    assert_eq!(space.allocate(gateway).unwrap_err(), VpnError::AddressTaken);
}

#[test]
fn network_and_broadcast_are_out_of_range() {
    let mut space = AddressSpace::new(ipv4(192, 168, 1, 0), 24).unwrap();
    assert_eq!(space.allocate(ipv4(192, 168, 1, 0)).unwrap_err(), VpnError::AddressOutOfRange);
    assert_eq!(space.allocate(ipv4(192, 168, 1, 255)).unwrap_err(), VpnError::AddressOutOfRange);
    assert_eq!(space.allocate(ipv4(192, 168, 2, 5)).unwrap_err(), VpnError::AddressOutOfRange);
    assert!(space.allocate(ipv4(192, 168, 1, 77)).is_ok());
    assert_eq!(space.allocate(ipv4(192, 168, 1, 77)).unwrap_err(), VpnError::AddressTaken);
}

#[test]
fn invalid_prefix_is_refused() {
    assert_eq!(AddressSpace::new(0, 33).unwrap_err(), VpnError::InvalidCidr);
    assert!(AddressSpace::new(0, 32).is_ok());
}

#[test]
fn release_returns_an_address_to_the_pool() {
    let mut space = AddressSpace::new(ipv4(10, 0, 0, 0), 30).unwrap();
    let got = space.allocate_next().unwrap();
    assert_eq!(space.allocate_next().unwrap_err(), VpnError::AddressSpaceExhausted);
    space.release(got);
    assert_eq!(space.allocate_next().unwrap(), got);
}

#[test]
fn netmask_matches_prefix() {
    let space = AddressSpace::new(ipv4(10, 0, 0, 0), 24).unwrap();
    assert_eq!(space.netmask(), ipv4(255, 255, 255, 0));
    let space = AddressSpace::new(ipv4(10, 0, 0, 0), 29).unwrap();
    assert_eq!(space.netmask(), ipv4(255, 255, 255, 248));
}

#[test]
fn subnet_derivation_from_inner_address() {
    let space = AddressSpace::new(ipv4(10, 0, 0, 13), 29).unwrap();
    assert_eq!(space.network_addr(), ipv4(10, 0, 0, 8));
    assert_eq!(space.broadcast_addr(), ipv4(10, 0, 0, 15));
    assert!(space.contains(ipv4(10, 0, 0, 9)));
    assert!(!space.contains(ipv4(10, 0, 0, 16)));
}

#[test]
fn dotted_quad_rendering() {
    assert_eq!(ip_to_string(ipv4(10, 0, 0, 1)), "10.0.0.1");
    assert_eq!(ip_to_string(ipv4(255, 255, 255, 255)), "255.255.255.255");
    assert_eq!(ip_to_string(0), "0.0.0.0");
    assert_eq!(u64_to_string(0), "0");
    assert_eq!(u64_to_string(907), "907");
}

#[test]
fn runtime_config_renders_the_binding() {
    let space = AddressSpace::new(ipv4(10, 0, 0, 0), 29).unwrap();
    let cfg = runtime_config(&space, ipv4(10, 0, 0, 2)).unwrap();
    assert_eq!(cfg.addr, "10.0.0.0");
    assert_eq!(cfg.gateway, "10.0.0.1");
    assert_eq!(cfg.mask, "255.255.255.248");
    assert_eq!(cfg.if_addr, "10.0.0.2");

    let tiny = AddressSpace::new(ipv4(10, 0, 0, 0), 31).unwrap();
    assert_eq!(runtime_config(&tiny, ipv4(10, 0, 0, 0)).unwrap_err(), VpnError::AddressTaken);
}

use vpn_tunnel::bridge::{endpoint_path, EndpointBridge, TransportEndpoint};
use vpn_tunnel::error::VpnError;

#[test]
fn only_socket_endpoints_are_supported() {
    let sock = TransportEndpoint::Socket("/tmp/unit.sock".to_string());
    assert_eq!(endpoint_path(&sock).unwrap(), "/tmp/unit.sock");
    assert_eq!(endpoint_path(&TransportEndpoint::Other).unwrap_err(), VpnError::UnsupportedEndpoint);
}

#[test]
fn guest_bytes_become_packets_across_chunks() {
    let mut bridge = EndpointBridge::new();
    let first = bridge.on_guest_bytes(vec![0x02, 0x00, 0x41]).unwrap();
    assert!(first.is_empty());
    let second = bridge.on_guest_bytes(vec![0x42, 0x01, 0x00, 0x43]).unwrap();
    assert_eq!(second, vec![b"AB".to_vec(), b"C".to_vec()]);
}

#[test]
fn outbound_packets_are_framed() {
    let bridge = EndpointBridge::new();
    let framed = bridge.frame_for_guest(b"net").unwrap();
    assert_eq!(framed, vec![0x03, 0x00, b'n', b'e', b't']);
    let too_big = vec![0u8; 65536];
    assert_eq!(bridge.frame_for_guest(&too_big).unwrap_err(), VpnError::FrameTooLarge);
}

#[test]
fn a_transport_error_tears_the_bridge_down() {
    let mut bridge = EndpointBridge::new();
    assert!(bridge.is_open());
    bridge.on_transport_error();
    assert!(!bridge.is_open());
    assert_eq!(bridge.on_guest_bytes(vec![1, 2, 3]).unwrap_err(), VpnError::TransportIo);
    assert_eq!(bridge.frame_for_guest(b"x").unwrap_err(), VpnError::TransportIo);
}

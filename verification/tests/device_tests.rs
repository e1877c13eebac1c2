use vpn_tunnel::addr::{ipv4, AddressSpace};
use vpn_tunnel::device::{Device, Interface, RecvPoll};
use vpn_tunnel::error::VpnError;

#[test]
fn device_queues_both_directions_in_order() {
    let mut d = Device::new();
    d.send(b"out-1".to_vec()).unwrap();
    d.send(b"out-2".to_vec()).unwrap();
    assert_eq!(d.next_outbound(), Some(b"out-1".to_vec()));
    assert_eq!(d.next_outbound(), Some(b"out-2".to_vec()));
    assert_eq!(d.next_outbound(), None);

    d.enqueue_inbound(b"in-1".to_vec());
    assert_eq!(d.poll_receive(), RecvPoll::Packet(b"in-1".to_vec()));
    assert_eq!(d.poll_receive(), RecvPoll::Pending);
}

#[test]
fn closed_device_refuses_and_reports_closure() {
    let mut d = Device::new();
    d.enqueue_inbound(b"in-flight".to_vec());
    d.close();
    assert_eq!(d.send(b"late".to_vec()).unwrap_err(), VpnError::InterfaceClosed);
    // Already-queued traffic completes, then the poll observes closure.
    assert_eq!(d.poll_receive(), RecvPoll::Packet(b"in-flight".to_vec()));
    assert_eq!(d.poll_receive(), RecvPoll::Closed);
    // New inbound traffic is dropped after close.
    d.enqueue_inbound(b"dropped".to_vec());
    assert_eq!(d.poll_receive(), RecvPoll::Closed);
}

#[test]
fn bind_allocates_and_describes_the_subnet() {
    let mut space = AddressSpace::new(ipv4(10, 0, 0, 0), 29).unwrap();
    let iface =
        Interface::bind(Device::new(), "n1".to_string(), &mut space, Some(ipv4(10, 0, 0, 2)))
            .unwrap();
    assert_eq!(iface.ip(), ipv4(10, 0, 0, 2));
    assert_eq!(iface.gateway(), ipv4(10, 0, 0, 1));
    assert_eq!(iface.netmask(), ipv4(255, 255, 255, 248));

    let next = Interface::bind(Device::new(), "n1".to_string(), &mut space, None).unwrap();
    assert_eq!(next.ip(), ipv4(10, 0, 0, 3));
}

#[test]
fn bind_refuses_an_owned_device_and_a_full_network() {
    let mut space = AddressSpace::new(ipv4(10, 0, 0, 0), 30).unwrap();
    let mut owned = Device::new();
    owned.mark_bound();
    assert_eq!(
        Interface::bind(owned, "n1".to_string(), &mut space, None).unwrap_err(),
        VpnError::AlreadyBound
    );
    let _only = Interface::bind(Device::new(), "n1".to_string(), &mut space, None).unwrap();
    assert_eq!(
        Interface::bind(Device::new(), "n1".to_string(), &mut space, None).unwrap_err(),
        VpnError::NetworkFull
    );
    assert_eq!(
        Interface::bind(Device::new(), "n1".to_string(), &mut space, Some(ipv4(10, 0, 0, 1)))
            .unwrap_err(),
        VpnError::AddressTaken
    );
}

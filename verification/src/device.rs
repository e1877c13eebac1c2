//! Virtual network device and the interface that binds it to a subnet.
//!
//! A device is an abstract duplex packet sink/source with no addressing of
//! its own: the sandboxed unit hands it outbound packets, and the stack
//! queues inbound packets on it for the unit to receive.  Closing the device
//! never leaves a receiver parked: a poll on a closed device yields buffered
//! packets while any remain and then reports closure instead of pending.

use vstd::prelude::*;
use crate::addr::AddressSpace;
use crate::codec::seq_views;
use crate::error::VpnError;

verus! {

/// What one receive poll observes: the next inbound packet, nothing yet —
/// the caller should suspend and retry — or closure of the device.
#[derive(Clone, Debug, PartialEq, Eq)]
pub enum RecvPoll {
    Packet(Vec<u8>),
    Pending,
    Closed,
}

/// An abstract duplex packet endpoint, owned by at most one interface.
#[derive(Debug)]
pub struct Device {
    open: bool,
    bound: bool,
    inbound: Vec<Vec<u8>>,
    outbound: Vec<Vec<u8>>,
}

impl Device {
    /// Whether the device still accepts and delivers packets.
    pub closed spec fn spec_open(self) -> bool {
        self.open
    }

    /// Whether an interface owns the device.
    pub closed spec fn spec_bound(self) -> bool {
        self.bound
    }

    /// Inbound packets queued for the unit, arrival order preserved, as
    /// the queued vectors.
    pub closed spec fn spec_inbound_raw(self) -> Seq<Vec<u8>> {
        self.inbound@
    }

    /// Inbound packets queued for the unit, arrival order preserved.
    pub open spec fn spec_inbound(self) -> Seq<Seq<u8>> {
        seq_views(self.spec_inbound_raw())
    }

    /// Outbound packets handed over by the unit, not yet routed.
    pub closed spec fn spec_outbound(self) -> Seq<Seq<u8>> {
        seq_views(self.outbound@)
    }

    /// What a receive poll on this state observes: the oldest queued
    /// packet while any is there, else closure on a closed device, else
    /// pending.
    pub open spec fn recv_decision(self) -> RecvPoll {
        if self.spec_inbound_raw().len() > 0 {
            RecvPoll::Packet(self.spec_inbound_raw()[0])
        } else if !self.spec_open() {
            RecvPoll::Closed
        } else {
            RecvPoll::Pending
        }
    }

    /// A fresh, open, unbound device with empty queues.
    pub fn new() -> (d: Device)
        ensures
            d.spec_open(),
            !d.spec_bound(),
            d.spec_inbound() == Seq::<Seq<u8>>::empty(),
            d.spec_outbound() == Seq::<Seq<u8>>::empty(),
    {
        let d = Device { open: true, bound: false, inbound: Vec::new(), outbound: Vec::new() };
        proof {
            assert(d.spec_inbound() =~= Seq::<Seq<u8>>::empty());
            assert(d.spec_outbound() =~= Seq::<Seq<u8>>::empty());
        }
        d
    }

    /// Marks the device as owned by an interface.
    pub fn mark_bound(&mut self)
        ensures
            final(self).spec_bound(),
            final(self).spec_open() == old(self).spec_open(),
            final(self).spec_inbound() == old(self).spec_inbound(),
            final(self).spec_outbound() == old(self).spec_outbound(),
    {
        self.bound = true;
    }

    /// Whether an interface owns the device.
    pub fn is_bound(&self) -> (r: bool)
        ensures
            r == self.spec_bound(),
    {
        self.bound
    }

    /// Whether the device still accepts and delivers packets.
    pub fn is_open(&self) -> (r: bool)
        ensures
            r == self.spec_open(),
    {
        self.open
    }

    /// Closes the device.  Packets already queued inbound stay deliverable,
    /// so in-flight traffic completes; nothing new is accepted.
    pub fn close(&mut self)
        ensures
            !final(self).spec_open(),
            final(self).spec_bound() == old(self).spec_bound(),
            final(self).spec_inbound() == old(self).spec_inbound(),
            final(self).spec_outbound() == old(self).spec_outbound(),
    {
        self.open = false;
    }

    /// Accepts one outbound packet from the sandboxed unit for routing; a
    /// closed device refuses it.
    pub fn send(&mut self, packet: Vec<u8>) -> (r: Result<(), VpnError>)
        ensures
            old(self).spec_open() ==> (r is Ok && final(self).spec_outbound() == old(
                self,
            ).spec_outbound().push(packet@)),
            !old(self).spec_open() ==> (r == Err::<(), VpnError>(VpnError::InterfaceClosed)
                && *final(self) == *old(self)),
            final(self).spec_open() == old(self).spec_open(),
            final(self).spec_bound() == old(self).spec_bound(),
            final(self).spec_inbound() == old(self).spec_inbound(),
    {
        if !self.open {
            return Err(VpnError::InterfaceClosed);
        }
        let ghost before = self.outbound@;
        self.outbound.push(packet);
        proof {
            assert(self.spec_outbound() =~= seq_views(before).push(before.push(
                self.outbound@[before.len() as int],
            )[before.len() as int]@));
            assert(self.spec_outbound() =~= old(self).spec_outbound().push(
                self.outbound@[before.len() as int]@,
            ));
        }
        Ok(())
    }

    /// The next outbound packet awaiting routing, oldest first.
    pub fn next_outbound(&mut self) -> (r: Option<Vec<u8>>)
        ensures
            old(self).spec_outbound().len() > 0 ==> (r matches Some(p) && p@ == old(
                self,
            ).spec_outbound()[0] && final(self).spec_outbound() == old(
                self,
            ).spec_outbound().drop_first()),
            old(self).spec_outbound().len() == 0 ==> (r is None && *final(self) == *old(self)),
            final(self).spec_open() == old(self).spec_open(),
            final(self).spec_bound() == old(self).spec_bound(),
            final(self).spec_inbound() == old(self).spec_inbound(),
    {
        if self.outbound.len() == 0 {
            return None;
        }
        let ghost before = self.outbound@;
        let p = self.outbound.remove(0);
        proof {
            assert(self.spec_outbound() =~= old(self).spec_outbound().drop_first());
        }
        Some(p)
    }

    /// Queues one inbound packet for the unit; a closed device drops it.
    pub fn enqueue_inbound(&mut self, packet: Vec<u8>)
        ensures
            old(self).spec_open() ==> final(self).spec_inbound() == old(
                self,
            ).spec_inbound().push(packet@),
            !old(self).spec_open() ==> *final(self) == *old(self),
            final(self).spec_open() == old(self).spec_open(),
            final(self).spec_bound() == old(self).spec_bound(),
            final(self).spec_outbound() == old(self).spec_outbound(),
    {
        if !self.open {
            return ;
        }
        let ghost before = self.inbound@;
        self.inbound.push(packet);
        proof {
            assert(self.spec_inbound() =~= old(self).spec_inbound().push(
                self.inbound@[before.len() as int]@,
            ));
        }
    }

    /// How many inbound packets are queued.
    pub fn inbound_len(&self) -> (r: usize)
        ensures
            r == self.spec_inbound().len(),
    {
        self.inbound.len()
    }

    /// One receive poll: yields the next inbound packet if any is queued;
    /// otherwise reports closure on a closed device, or pending on an open
    /// one so the caller may suspend and retry.
    pub fn poll_receive(&mut self) -> (r: RecvPoll)
        ensures
            r == old(self).recv_decision(),
            old(self).spec_inbound().len() > 0 ==> final(self).spec_inbound() == old(
                self,
            ).spec_inbound().drop_first(),
            old(self).spec_inbound().len() == 0 ==> *final(self) == *old(self),
            final(self).spec_open() == old(self).spec_open(),
            final(self).spec_bound() == old(self).spec_bound(),
            final(self).spec_outbound() == old(self).spec_outbound(),
    {
        if self.inbound.len() > 0 {
            let p = self.inbound.remove(0);
            proof {
                assert(self.spec_inbound() =~= old(self).spec_inbound().drop_first());
            }
            RecvPoll::Packet(p)
        } else if !self.open {
            RecvPoll::Closed
        } else {
            RecvPoll::Pending
        }
    }
}

/// Teardown never parks a receiver: on a closed device a receive poll is
/// never pending — it yields a buffered packet while any remain, and reports
/// closure as soon as the queue is drained.
pub proof fn lemma_closed_device_unblocks(d: Device)
    ensures
        !d.spec_open() ==> d.recv_decision() != RecvPoll::Pending,
        !d.spec_open() && d.spec_inbound().len() == 0 ==> d.recv_decision() == RecvPoll::Closed,
{
}

/// One local binding of a device to a network: the assigned address, the
/// subnet's gateway and netmask, and the owning network's id.
#[derive(Debug)]
pub struct Interface {
    device: Device,
    ip: u32,
    gateway: u32,
    netmask: u32,
    network_id: String,
}

impl Interface {
    /// The address assigned to this node.
    pub closed spec fn spec_ip(self) -> u32 {
        self.ip
    }

    /// The subnet's gateway address.
    pub closed spec fn spec_gateway(self) -> u32 {
        self.gateway
    }

    /// The subnet's netmask.
    pub closed spec fn spec_netmask(self) -> u32 {
        self.netmask
    }

    /// The id of the owning network.
    pub closed spec fn spec_network_id(self) -> Seq<char> {
        self.network_id@
    }

    /// The bound device.
    pub closed spec fn spec_device(self) -> Device {
        self.device
    }

    /// Binds a device to a network's address space.  A device an interface
    /// already owns is refused; with a requested address the allocation is
    /// exactly that of the address space; with none, the lowest free address
    /// is assigned, and only an exhausted network makes the bind fail, as
    /// full.
    pub fn bind(
        device: Device,
        network_id: String,
        space: &mut AddressSpace,
        requested: Option<u32>,
    ) -> (r: Result<Interface, VpnError>)
        requires
            old(space).wf(),
            old(space).spec_has_gateway(),
        ensures
            final(space).wf(),
            device.spec_bound() ==> (r == Err::<Interface, VpnError>(VpnError::AlreadyBound)
                && *final(space) == *old(space)),
            !device.spec_bound() && r is Err ==> *final(space) == *old(space),
            r matches Ok(i) ==> {
                &&& !device.spec_bound()
                &&& i.spec_network_id() == network_id@
                &&& i.spec_device().spec_bound()
                &&& i.spec_device().spec_open() == device.spec_open()
                &&& old(space).spec_usable(i.spec_ip() as int)
                &&& !old(space).spec_taken().contains(i.spec_ip())
                &&& final(space).spec_taken() == old(space).spec_taken().push(i.spec_ip())
                &&& i.spec_gateway() == old(space).spec_gateway()
            },
            !device.spec_bound() ==> (requested matches Some(ip) ==> {
                &&& !old(space).spec_usable(ip as int) ==> r == Err::<Interface, VpnError>(
                    VpnError::AddressOutOfRange,
                )
                &&& old(space).spec_usable(ip as int) && old(space).spec_taken().contains(ip) ==> r
                    == Err::<Interface, VpnError>(VpnError::AddressTaken)
                &&& old(space).spec_usable(ip as int) && !old(space).spec_taken().contains(ip)
                    ==> (r matches Ok(i) && i.spec_ip() == ip)
            }),
            !device.spec_bound() && requested is None ==> {
                &&& ((forall|a: int|
                    old(space).spec_gateway() < a < old(space).spec_broadcast()
                        ==> old(space).spec_taken().contains(#[trigger] (a as u32))) <==> r
                    == Err::<Interface, VpnError>(VpnError::NetworkFull))
                &&& (r matches Err(e) ==> e == VpnError::NetworkFull)
            },
    {
        if device.is_bound() {
            return Err(VpnError::AlreadyBound);
        }
        let ip: u32 = match requested {
            Some(want) => {
                match space.allocate(want) {
                    Ok(_) => want,
                    Err(e) => {
                        return Err(e);
                    },
                }
            },
            None => {
                match space.allocate_next() {
                    Ok(got) => got,
                    Err(_) => {
                        return Err(VpnError::NetworkFull);
                    },
                }
            },
        };
        let gateway = match space.gateway() {
            Some(g) => g,
            None => {
                proof {
                    assert(false);
                }
                0
            },
        };
        let netmask = space.netmask();
        let mut device = device;
        device.mark_bound();
        proof {
            if requested is None {
                assert(!old(space).spec_taken().contains((ip as int) as u32));
            }
        }
        Ok(Interface { device, ip, gateway, netmask, network_id })
    }

    /// Binds a device to an already-allocated address on a network.  Only
    /// the ownership check is done here: a device an interface already owns
    /// is refused.
    pub fn attach(
        device: Device,
        network_id: String,
        ip: u32,
        gateway: u32,
        netmask: u32,
    ) -> (r: Result<Interface, VpnError>)
        ensures
            device.spec_bound() <==> r is Err,
            r matches Err(e) ==> e == VpnError::AlreadyBound,
            r matches Ok(i) ==> {
                &&& i.spec_ip() == ip
                &&& i.spec_gateway() == gateway
                &&& i.spec_netmask() == netmask
                &&& i.spec_network_id() == network_id@
                &&& i.spec_device().spec_bound()
                &&& i.spec_device().spec_open() == device.spec_open()
                &&& i.spec_device().spec_inbound() == device.spec_inbound()
            },
    {
        if device.is_bound() {
            return Err(VpnError::AlreadyBound);
        }
        let mut device = device;
        device.mark_bound();
        Ok(Interface { device, ip, gateway, netmask, network_id })
    }

    /// The assigned address.
    pub fn ip(&self) -> (r: u32)
        ensures
            r == self.spec_ip(),
    {
        self.ip
    }

    /// The subnet's gateway address.
    pub fn gateway(&self) -> (r: u32)
        ensures
            r == self.spec_gateway(),
    {
        self.gateway
    }

    /// The subnet's netmask.
    pub fn netmask(&self) -> (r: u32)
        ensures
            r == self.spec_netmask(),
    {
        self.netmask
    }

    /// How many inbound packets wait on the bound device.
    pub fn queued_inbound(&self) -> (r: usize)
        ensures
            r == self.spec_device().spec_inbound().len(),
    {
        self.device.inbound_len()
    }

    /// A borrow of the bound device.
    pub fn device(&mut self) -> (r: &mut Device)
        ensures
            *r == old(self).spec_device(),
            final(self).spec_device() == *final(r),
            final(self).spec_ip() == old(self).spec_ip(),
            final(self).spec_gateway() == old(self).spec_gateway(),
            final(self).spec_netmask() == old(self).spec_netmask(),
            final(self).spec_network_id() == old(self).spec_network_id(),
    {
        &mut self.device
    }

    /// Whether the bound device is open.
    pub fn device_open(&self) -> (r: bool)
        ensures
            r == self.spec_device().spec_open(),
    {
        self.device.is_open()
    }

    /// Tears the binding down: the device is closed, queued inbound
    /// packets stay deliverable.
    pub fn close(&mut self)
        ensures
            !final(self).spec_device().spec_open(),
            final(self).spec_device().spec_inbound() == old(self).spec_device().spec_inbound(),
            final(self).spec_ip() == old(self).spec_ip(),
    {
        self.device.close();
    }
}

} // verus!

//! The coordination engine: routes packets between the device and remote
//! network members, and owns the interface lifecycle.
//!
//! Outbound, the destination address is parsed from the packet, resolved
//! against the network's member table, and the packet is directed to the
//! member's reliable or best-effort bus endpoint by the packet's declared
//! protocol.  Unroutable packets are dropped and counted, never surfaced as
//! errors to the sender.  Inbound, a delivery is accepted only from a known
//! member and only for this interface's own address.  Teardown goes through
//! draining — in-flight packets complete — to closed, after which every
//! operation is refused.

use vstd::prelude::*;
use vstd::string::*;
use crate::device::{Interface, RecvPoll};
use crate::error::VpnError;
use crate::network::{Network, reliable_path_spec, unreliable_path_spec};
use crate::port::{PortTable, Socket};

verus! {

/// The lifecycle of one interface's stack.
#[derive(Clone, Copy, Debug, PartialEq, Eq, Structural)]
pub enum IfState {
    Unbound,
    Bound,
    Draining,
    Closed,
}

/// Where one outbound packet goes: to a bus endpoint path, or nowhere.
#[derive(Debug)]
pub enum RouteAction {
    Forward { path: String, reliable: bool },
    Drop,
}

/// A 32-bit value from four big-endian bytes.
pub open spec fn be32(a: u8, b: u8, c: u8, d: u8) -> u32 {
    (a * 0x1000000 + b * 0x10000 + c * 0x100 + d) as u32
}

/// The destination address an IPv4 packet declares, if its header is long
/// enough and its version nibble says IPv4.
pub open spec fn spec_dest_ip(p: Seq<u8>) -> Option<u32> {
    if p.len() >= 20 && p[0] / 16 == 4 {
        Some(be32(p[16], p[17], p[18], p[19]))
    } else {
        None
    }
}

/// Whether the packet's declared protocol wants the reliable channel:
/// protocol number 6 is TCP, everything else goes best-effort.
pub open spec fn spec_wants_reliable(p: Seq<u8>) -> bool {
    p.len() >= 20 && p[9] == 6
}

/// Parses the destination address of an IPv4 packet.
pub fn parse_dest_ip(p: &[u8]) -> (r: Option<u32>)
    ensures
        r == spec_dest_ip(p@),
{
    if p.len() >= 20 && p[0] / 16 == 4 {
        let a = p[16];
        let b = p[17];
        let c = p[18];
        let d = p[19];
        Some((a as u32) * 0x1000000 + (b as u32) * 0x10000 + (c as u32) * 0x100 + (d as u32))
    } else {
        None
    }
}

/// Whether the packet's declared protocol wants the reliable channel.
pub fn parse_wants_reliable(p: &[u8]) -> (r: bool)
    ensures
        r == spec_wants_reliable(p@),
{
    p.len() >= 20 && p[9] == 6
}

/// One interface's routing engine.
pub struct Stack {
    state: IfState,
    iface: Option<Interface>,
    ports: PortTable,
    dropped: u64,
}

impl Stack {
    /// The lifecycle state.
    pub closed spec fn spec_state(self) -> IfState {
        self.state
    }

    /// The bound interface, while one is bound.
    pub closed spec fn spec_iface(self) -> Option<Interface> {
        self.iface
    }

    /// The connection table.
    pub closed spec fn spec_ports(self) -> PortTable {
        self.ports
    }

    /// How many unroutable or invalid packets were dropped.
    pub closed spec fn spec_dropped(self) -> u64 {
        self.dropped
    }

    /// A stack holds an interface exactly while it is bound, draining
    /// included, and its connection table is sound.
    pub open spec fn wf(self) -> bool {
        &&& (self.spec_state() == IfState::Bound || self.spec_state() == IfState::Draining)
            <==> self.spec_iface() is Some
        &&& self.spec_ports().wf()
    }

    /// A fresh stack with no interface and the given port range.
    pub fn new(ports: PortTable) -> (r: Stack)
        requires
            ports.wf(),
        ensures
            r.wf(),
            r.spec_state() == IfState::Unbound,
            r.spec_dropped() == 0,
            r.spec_ports() == ports,
    {
        Stack { state: IfState::Unbound, iface: None, ports, dropped: 0 }
    }

    /// The lifecycle state.
    pub fn state(&self) -> (r: IfState)
        ensures
            r == self.spec_state(),
    {
        self.state
    }

    /// The drop counter.
    pub fn dropped(&self) -> (r: u64)
        ensures
            r == self.spec_dropped(),
    {
        self.dropped
    }

    /// Takes ownership of a bound interface; a stack that already has one,
    /// in whatever later state, refuses another.
    pub fn bind(&mut self, iface: Interface) -> (r: Result<(), VpnError>)
        requires
            old(self).wf(),
        ensures
            final(self).wf(),
            old(self).spec_state() == IfState::Unbound <==> r is Ok,
            r matches Err(e) ==> e == VpnError::AlreadyBound && *final(self) == *old(self),
            r is Ok ==> {
                &&& final(self).spec_state() == IfState::Bound
                &&& final(self).spec_iface() == Some(iface)
                &&& final(self).spec_dropped() == old(self).spec_dropped()
                &&& final(self).spec_ports() == old(self).spec_ports()
            },
    {
        match self.state {
            IfState::Unbound => {
                self.iface = Some(iface);
                self.state = IfState::Bound;
                Ok(())
            },
            _ => Err(VpnError::AlreadyBound),
        }
    }

    /// Routes one outbound packet: the destination is resolved against the
    /// network's member table and the matching endpoint path is chosen by
    /// the packet's protocol.  A packet with no parseable IPv4 destination,
    /// or addressed to a node that is no member, is dropped and counted.
    /// Only a stack that is bound or draining routes; a closed one refuses.
    pub fn route_outbound(&mut self, net: &Network, packet: &[u8]) -> (r: Result<
        RouteAction,
        VpnError,
    >)
        requires
            old(self).wf(),
            net.wf(),
            old(self).spec_dropped() < 0xffff_ffff_ffff_ffff,
        ensures
            final(self).wf(),
            final(self).spec_state() == old(self).spec_state(),
            final(self).spec_iface() == old(self).spec_iface(),
            final(self).spec_ports() == old(self).spec_ports(),
            !(old(self).spec_state() == IfState::Bound || old(self).spec_state()
                == IfState::Draining) ==> (r == Err::<RouteAction, VpnError>(
                VpnError::InterfaceClosed,
            ) && *final(self) == *old(self)),
            (old(self).spec_state() == IfState::Bound || old(self).spec_state()
                == IfState::Draining) ==> {
                &&& (match spec_dest_ip(packet@) {
                    None => {
                        &&& r matches Ok(a) && a is Drop
                        &&& final(self).spec_dropped() == old(self).spec_dropped() + 1
                    },
                    Some(dst) => {
                        &&& !net.spec_has_ip(dst) ==> {
                            &&& r matches Ok(a) && a is Drop
                            &&& final(self).spec_dropped() == old(self).spec_dropped() + 1
                        }
                        &&& net.spec_has_ip(dst) ==> {
                            &&& final(self).spec_dropped() == old(self).spec_dropped()
                            &&& r matches Ok(a) && a matches RouteAction::Forward {
                                path,
                                reliable,
                            } && reliable == spec_wants_reliable(packet@) && (forall|i: int|
                                0 <= i < net.spec_members().len()
                                    && (#[trigger] net.spec_members()[i].ip) == dst ==> path@ == (
                                if spec_wants_reliable(packet@) {
                                    net.spec_members()[i].endpoint.spec_reliable()
                                } else {
                                    net.spec_members()[i].endpoint.spec_unreliable()
                                })) && (forall|i: int|
                                0 <= i < net.spec_members().len()
                                    && (#[trigger] net.spec_members()[i].ip) == dst ==> path@ == (
                                if spec_wants_reliable(packet@) {
                                    reliable_path_spec(
                                        net.spec_members()[i].node_id@,
                                        net.spec_id(),
                                    )
                                } else {
                                    unreliable_path_spec(
                                        net.spec_members()[i].node_id@,
                                        net.spec_id(),
                                    )
                                }))
                        }
                    },
                })
            },
    {
        match self.state {
            IfState::Bound | IfState::Draining => {},
            _ => {
                return Err(VpnError::InterfaceClosed);
            },
        }
        let dst = match parse_dest_ip(packet) {
            Some(d) => d,
            None => {
                self.dropped = self.dropped + 1;
                return Ok(RouteAction::Drop);
            },
        };
        let member = match net.resolve_ip(dst) {
            Some(m) => m,
            None => {
                self.dropped = self.dropped + 1;
                return Ok(RouteAction::Drop);
            },
        };
        let reliable = parse_wants_reliable(packet);
        let path = if reliable {
            String::from_str(member.endpoint.reliable())
        } else {
            String::from_str(member.endpoint.unreliable())
        };
        proof {
            net.lemma_member_ips_unique();
            net.lemma_member_endpoints_derived();
            let ms = net.spec_members();
            let j = choose|j: int| 0 <= j < ms.len() && ms[j] == *member;
            assert forall|i: int|
                0 <= i < ms.len() && (#[trigger] ms[i].ip) == dst implies ms[i] == *member by {
                if i != j {
                    assert(ms[i].ip != ms[j].ip);
                }
            }
        }
        Ok(RouteAction::Forward { path, reliable })
    }

    /// Accepts one inbound delivery from a bus endpoint: only a known
    /// member may send, and only to this interface's own address; anything
    /// else is dropped and counted.  Accepted packets are queued on the
    /// device in arrival order.  Only a bound or draining stack accepts.
    pub fn on_inbound(&mut self, net: &Network, sender: &str, packet: Vec<u8>) -> (r: Result<
        bool,
        VpnError,
    >)
        requires
            old(self).wf(),
            old(self).spec_dropped() < 0xffff_ffff_ffff_ffff,
        ensures
            final(self).wf(),
            final(self).spec_state() == old(self).spec_state(),
            final(self).spec_ports() == old(self).spec_ports(),
            !(old(self).spec_state() == IfState::Bound || old(self).spec_state()
                == IfState::Draining) ==> (r == Err::<bool, VpnError>(VpnError::InterfaceClosed)
                && *final(self) == *old(self)),
            (old(self).spec_state() == IfState::Bound || old(self).spec_state()
                == IfState::Draining) ==> {
                &&& (net.spec_has_node(sender@) && spec_dest_ip(packet@) == Some(
                    old(self).spec_iface().unwrap().spec_ip(),
                ) && old(self).spec_iface().unwrap().spec_device().spec_open()) <==> (r == Ok::<
                    bool,
                    VpnError,
                >(true))
                &&& r == Ok::<bool, VpnError>(true) ==> {
                    &&& final(self).spec_iface().unwrap().spec_device().spec_inbound() == old(
                        self,
                    ).spec_iface().unwrap().spec_device().spec_inbound().push(packet@)
                    &&& final(self).spec_dropped() == old(self).spec_dropped()
                }
                &&& r == Ok::<bool, VpnError>(false) ==> {
                    &&& final(self).spec_iface() == old(self).spec_iface()
                    &&& final(self).spec_dropped() == old(self).spec_dropped() + 1
                }
            },
    {
        match self.state {
            IfState::Bound | IfState::Draining => {},
            _ => {
                return Err(VpnError::InterfaceClosed);
            },
        }
        let known = net.resolve(sender).is_some();
        let own_ip = match &self.iface {
            Some(iface) => iface.ip(),
            None => {
                proof {
                    assert(false);
                }
                0
            },
        };
        let dest_ok = match parse_dest_ip(packet.as_slice()) {
            Some(d) => d == own_ip,
            None => false,
        };
        let device_open = match &self.iface {
            Some(iface) => iface.device_open(),
            None => false,
        };
        if known && dest_ok && device_open {
            match &mut self.iface {
                Some(iface) => {
                    iface.device().enqueue_inbound(packet);
                },
                None => {
                    proof {
                        assert(false);
                    }
                },
            }
            Ok(true)
        } else {
            self.dropped = self.dropped + 1;
            Ok(false)
        }
    }

    /// One receive poll for the sandboxed unit's side: delegates to the
    /// device while an interface is there; a closed stack reports closure —
    /// a suspended receiver observes teardown instead of waiting forever —
    /// and a stack never bound refuses.
    pub fn poll_receive(&mut self) -> (r: Result<RecvPoll, VpnError>)
        requires
            old(self).wf(),
        ensures
            final(self).wf(),
            final(self).spec_state() == old(self).spec_state(),
            final(self).spec_dropped() == old(self).spec_dropped(),
            old(self).spec_state() == IfState::Unbound ==> r == Err::<RecvPoll, VpnError>(
                VpnError::InterfaceClosed,
            ),
            old(self).spec_state() == IfState::Closed ==> r == Ok::<RecvPoll, VpnError>(
                RecvPoll::Closed,
            ),
            (old(self).spec_state() == IfState::Bound || old(self).spec_state()
                == IfState::Draining) ==> (r matches Ok(p) && p == old(
                self,
            ).spec_iface().unwrap().spec_device().recv_decision()),
    {
        match self.state {
            IfState::Unbound => Err(VpnError::InterfaceClosed),
            IfState::Closed => Ok(RecvPoll::Closed),
            _ => {
                match &mut self.iface {
                    Some(iface) => Ok(iface.device().poll_receive()),
                    None => {
                        proof {
                            assert(false);
                        }
                        Err(VpnError::InterfaceClosed)
                    },
                }
            },
        }
    }

    /// Opens a socket to a remote peer.  Only a bound stack opens new
    /// sockets: a draining one already refuses them, a closed one refuses
    /// everything.
    pub fn open_socket(
        &mut self,
        remote_node: &str,
        remote_port: u16,
        reliable: bool,
        now: u64,
    ) -> (r: Result<u16, VpnError>)
        requires
            old(self).wf(),
        ensures
            final(self).wf(),
            final(self).spec_state() == old(self).spec_state(),
            final(self).spec_iface() == old(self).spec_iface(),
            final(self).spec_dropped() == old(self).spec_dropped(),
            old(self).spec_state() != IfState::Bound ==> (r == Err::<u16, VpnError>(
                VpnError::InterfaceClosed,
            ) && *final(self) == *old(self)),
            old(self).spec_state() == IfState::Bound ==> {
                &&& r matches Ok(p) ==> {
                    &&& old(self).spec_ports().spec_in_range(p as int)
                    &&& !old(self).spec_ports().spec_has_port(p)
                    &&& final(self).spec_ports().spec_entries() == old(
                        self,
                    ).spec_ports().spec_entries().push(
                        Socket {
                            local_port: p,
                            remote_node: final(self).spec_ports().spec_entries().last().remote_node,
                            remote_port: remote_port,
                            reliable: reliable,
                            last_seen: now,
                        },
                    )
                    &&& final(self).spec_ports().spec_entries().last().remote_node@ == remote_node@
                }
                &&& r matches Err(e) ==> {
                    &&& e == VpnError::PortsExhausted
                    &&& final(self).spec_ports().spec_entries() == old(
                        self,
                    ).spec_ports().spec_entries()
                    &&& forall|q: int|
                        old(self).spec_ports().spec_in_range(q) ==> old(
                            self,
                        ).spec_ports().spec_has_port(#[trigger] (q as u16))
                }
            },
    {
        match self.state {
            IfState::Bound => {},
            _ => {
                return Err(VpnError::InterfaceClosed);
            },
        }
        self.ports.open(String::from_str(remote_node), remote_port, reliable, now)
    }

    /// Notes traffic on a connection tuple, creating its port table entry
    /// lazily: the first packet of an unobserved tuple opens a socket, a
    /// known tuple only refreshes its last-seen clock.  A draining stack
    /// refuses the new socket but still refreshes known ones; a closed one
    /// refuses everything.
    pub fn note_traffic(
        &mut self,
        remote_node: &str,
        remote_port: u16,
        reliable: bool,
        now: u64,
    ) -> (r: Result<u16, VpnError>)
        requires
            old(self).wf(),
        ensures
            final(self).wf(),
            final(self).spec_state() == old(self).spec_state(),
            final(self).spec_iface() == old(self).spec_iface(),
            final(self).spec_dropped() == old(self).spec_dropped(),
            final(self).spec_ports().spec_first() == old(self).spec_ports().spec_first(),
            final(self).spec_ports().spec_count() == old(self).spec_ports().spec_count(),
            !(old(self).spec_state() == IfState::Bound || old(self).spec_state()
                == IfState::Draining) ==> (r == Err::<u16, VpnError>(VpnError::InterfaceClosed)
                && *final(self) == *old(self)),
            (old(self).spec_state() == IfState::Bound || old(self).spec_state()
                == IfState::Draining) ==> {
                &&& (exists|i: int|
                    0 <= i < old(self).spec_ports().spec_entries().len() && (#[trigger] old(
                        self,
                    ).spec_ports().spec_entries()[i]).node_id_matches(
                        remote_node@,
                        remote_port,
                        reliable,
                    )) ==> {
                    &&& r matches Ok(p) && old(self).spec_ports().spec_has_port(p)
                    &&& (r matches Ok(p) ==> forall|i: int|
                        0 <= i < old(self).spec_ports().spec_entries().len() && (#[trigger] old(
                            self,
                        ).spec_ports().spec_entries()[i]).local_port == p ==> old(
                            self,
                        ).spec_ports().spec_entries()[i].node_id_matches(
                            remote_node@,
                            remote_port,
                            reliable,
                        ))
                    &&& final(self).spec_ports().spec_entries().len() == old(
                        self,
                    ).spec_ports().spec_entries().len()
                    &&& (r matches Ok(p) ==> forall|i: int|
                        0 <= i < old(self).spec_ports().spec_entries().len() && (#[trigger] old(
                            self,
                        ).spec_ports().spec_entries()[i]).local_port != p ==> final(self).spec_ports().spec_entries()[i] == old(self).spec_ports().spec_entries()[i])
                    &&& (r matches Ok(p) ==> forall|i: int|
                        0 <= i < old(self).spec_ports().spec_entries().len() && (#[trigger] old(
                            self,
                        ).spec_ports().spec_entries()[i]).local_port == p ==> final(self).spec_ports().spec_entries()[i] == (Socket {
                            last_seen: now,
                            ..old(self).spec_ports().spec_entries()[i]
                        }))
                }
                &&& !(exists|i: int|
                    0 <= i < old(self).spec_ports().spec_entries().len() && (#[trigger] old(
                        self,
                    ).spec_ports().spec_entries()[i]).node_id_matches(
                        remote_node@,
                        remote_port,
                        reliable,
                    )) ==> {
                    &&& old(self).spec_state() == IfState::Draining ==> (r == Err::<u16, VpnError>(
                        VpnError::InterfaceClosed,
                    ) && *final(self) == *old(self))
                    &&& old(self).spec_state() == IfState::Bound ==> {
                        &&& (r matches Ok(p) ==> {
                            &&& old(self).spec_ports().spec_in_range(p as int)
                            &&& !old(self).spec_ports().spec_has_port(p)
                            &&& final(self).spec_ports().spec_entries() == old(
                                self,
                            ).spec_ports().spec_entries().push(
                                Socket {
                                    local_port: p,
                                    remote_node: final(self).spec_ports().spec_entries().last().remote_node,
                                    remote_port: remote_port,
                                    reliable: reliable,
                                    last_seen: now,
                                },
                            )
                            &&& final(self).spec_ports().spec_entries().last().remote_node@
                                == remote_node@
                        })
                        &&& (r matches Err(e) ==> {
                            &&& e == VpnError::PortsExhausted
                            &&& final(self).spec_ports().spec_entries() == old(
                                self,
                            ).spec_ports().spec_entries()
                            &&& forall|q: int|
                                old(self).spec_ports().spec_in_range(q) ==> old(
                                    self,
                                ).spec_ports().spec_has_port(#[trigger] (q as u16))
                        })
                    }
                }
            },
    {
        match self.state {
            IfState::Bound | IfState::Draining => {},
            _ => {
                return Err(VpnError::InterfaceClosed);
            },
        }
        match self.ports.find_remote(remote_node, remote_port, reliable) {
            Some(p) => {
                proof {
                    self.ports.lemma_ports_unique();
                    let m = choose|m: int|
                        0 <= m < self.ports.spec_entries().len()
                            && (#[trigger] self.ports.spec_entries()[m]).node_id_matches(
                            remote_node@,
                            remote_port,
                            reliable,
                        ) && self.ports.spec_entries()[m].local_port == p;
                    assert forall|i: int|
                        0 <= i < self.ports.spec_entries().len()
                            && (#[trigger] self.ports.spec_entries()[i]).local_port == p implies
                        self.ports.spec_entries()[i].node_id_matches(
                        remote_node@,
                        remote_port,
                        reliable,
                    ) by {
                        if i != m {
                            assert(self.ports.spec_entries()[m].local_port
                                != self.ports.spec_entries()[i].local_port);
                        }
                    }
                }
                self.ports.touch(p, now);
                Ok(p)
            },
            None => {
                match self.state {
                    IfState::Bound => self.ports.open(
                        String::from_str(remote_node),
                        remote_port,
                        reliable,
                        now,
                    ),
                    _ => Err(VpnError::InterfaceClosed),
                }
            },
        }
    }

    /// Reclaims every socket idle beyond the timeout, exactly as the port
    /// table states it; the timeout is the caller's to configure.  Only a
    /// stack with an interface reclaims.
    pub fn reclaim_idle_sockets(&mut self, now: u64, timeout: u64) -> (r: Result<(), VpnError>)
        requires
            old(self).wf(),
        ensures
            final(self).wf(),
            final(self).spec_state() == old(self).spec_state(),
            final(self).spec_iface() == old(self).spec_iface(),
            final(self).spec_dropped() == old(self).spec_dropped(),
            !(old(self).spec_state() == IfState::Bound || old(self).spec_state()
                == IfState::Draining) ==> (r == Err::<(), VpnError>(VpnError::InterfaceClosed)
                && *final(self) == *old(self)),
            (old(self).spec_state() == IfState::Bound || old(self).spec_state()
                == IfState::Draining) ==> (r is Ok && final(self).spec_ports().spec_entries()
                == crate::port::live_entries(
                old(self).spec_ports().spec_entries(),
                now,
                timeout,
            )),
    {
        match self.state {
            IfState::Bound | IfState::Draining => {},
            _ => {
                return Err(VpnError::InterfaceClosed);
            },
        }
        self.ports.reclaim_idle(now, timeout);
        Ok(())
    }

    /// Closes the socket on the port; explicit close always wins over any
    /// pending idle reclamation, and closing twice is harmless.
    pub fn close_socket(&mut self, p: u16) -> (r: Result<(), VpnError>)
        requires
            old(self).wf(),
        ensures
            final(self).wf(),
            final(self).spec_state() == old(self).spec_state(),
            final(self).spec_iface() == old(self).spec_iface(),
            final(self).spec_dropped() == old(self).spec_dropped(),
            old(self).spec_state() == IfState::Closed || old(self).spec_state() == IfState::Unbound
                ==> (r == Err::<(), VpnError>(VpnError::InterfaceClosed) && *final(self) == *old(
                self,
            )),
            (old(self).spec_state() == IfState::Bound || old(self).spec_state()
                == IfState::Draining) ==> {
                &&& r is Ok
                &&& !final(self).spec_ports().spec_has_port(p)
                &&& forall|q: u16|
                    q != p ==> final(self).spec_ports().spec_has_port(q) == old(
                        self,
                    ).spec_ports().spec_has_port(q)
            },
    {
        match self.state {
            IfState::Bound | IfState::Draining => {},
            _ => {
                return Err(VpnError::InterfaceClosed);
            },
        }
        self.ports.close(p);
        Ok(())
    }

    /// Begins teardown: a bound stack drains — it refuses new sockets and
    /// lets in-flight packets complete; on any later state this is
    /// harmless, and an unbound stack just stays unbound.
    pub fn begin_teardown(&mut self)
        requires
            old(self).wf(),
        ensures
            final(self).wf(),
            old(self).spec_state() == IfState::Bound ==> final(self).spec_state()
                == IfState::Draining,
            old(self).spec_state() != IfState::Bound ==> *final(self) == *old(self),
            final(self).spec_iface() == old(self).spec_iface(),
            final(self).spec_dropped() == old(self).spec_dropped(),
            final(self).spec_ports() == old(self).spec_ports(),
    {
        match self.state {
            IfState::Bound => {
                self.state = IfState::Draining;
            },
            _ => {},
        }
    }

    /// Completes teardown once in-flight packets have drained: the device
    /// is closed and released and the stack is closed.  Reports whether the
    /// stack is closed after the call, so a teardown loop can poll it.
    pub fn poll_teardown(&mut self) -> (r: bool)
        requires
            old(self).wf(),
        ensures
            final(self).wf(),
            final(self).spec_dropped() == old(self).spec_dropped(),
            old(self).spec_state() == IfState::Closed ==> (r && *final(self) == *old(self)),
            old(self).spec_state() == IfState::Draining && old(
                self,
            ).spec_iface().unwrap().spec_device().spec_inbound().len() == 0 ==> {
                &&& r
                &&& final(self).spec_state() == IfState::Closed
                &&& final(self).spec_iface() is None
            },
            old(self).spec_state() == IfState::Draining && old(
                self,
            ).spec_iface().unwrap().spec_device().spec_inbound().len() > 0 ==> (!r && *final(self)
                == *old(self)),
            (old(self).spec_state() == IfState::Unbound || old(self).spec_state() == IfState::Bound)
                ==> (!r && *final(self) == *old(self)),
    {
        match self.state {
            IfState::Closed => true,
            IfState::Draining => {
                let drained = match &self.iface {
                    Some(iface) => iface.queued_inbound() == 0,
                    None => true,
                };
                if drained {
                    match &mut self.iface {
                        Some(iface) => {
                            iface.close();
                        },
                        None => {},
                    }
                    self.iface = None;
                    self.state = IfState::Closed;
                    true
                } else {
                    false
                }
            },
            _ => false,
        }
    }
}

} // verus!

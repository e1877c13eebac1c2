//! The control plane: provisioning of networks and interfaces per
//! agreement.
//!
//! The service owns every network, keyed by a network id it mints from a
//! counter, so two create calls never yield the same id.  Destroying a
//! network is refused while members — and so bound interfaces — remain;
//! destroy and leave are idempotent on retry, create and join with an
//! explicit requested address are not.

use vstd::prelude::*;
use vstd::string::*;
use vstd::arithmetic::power2::pow2;
use crate::device::{Device, Interface};
use crate::error::VpnError;
use crate::ipstr::{dec_digits, u64_to_string, lemma_dec_digits_injective};
use crate::network::Network;

verus! {

/// The owner of every virtual network of this participant.
pub struct VpnService {
    networks: Vec<Network>,
    next_id: u64,
}

/// What a join call does to the one network it names: the duplicate check,
/// then the allocation, exactly as the network's own membership operations
/// state them, with the interface built on the allocated address.
pub open spec fn spec_join_outcome(
    pre: Network,
    post: Network,
    node_id: Seq<char>,
    network_id: Seq<char>,
    requested: Option<u32>,
    r: Result<Interface, VpnError>,
) -> bool {
    &&& post.spec_id() == pre.spec_id()
    &&& post.spec_space().spec_prefix() == pre.spec_space().spec_prefix()
    &&& post.spec_space().spec_network() == pre.spec_space().spec_network()
    &&& post.spec_space().spec_broadcast() == pre.spec_space().spec_broadcast()
    &&& (pre.spec_has_node(node_id) ==> (r == Err::<Interface, VpnError>(VpnError::DuplicateNode)
        && post == pre))
    &&& (!pre.spec_has_node(node_id) ==> (match requested {
        Some(ip) => {
            &&& (!pre.spec_space().spec_usable(ip as int) ==> (r == Err::<Interface, VpnError>(
                VpnError::AddressOutOfRange,
            ) && post == pre))
            &&& (pre.spec_space().spec_usable(ip as int) && pre.spec_space().spec_taken().contains(
                ip,
            ) ==> (r == Err::<Interface, VpnError>(VpnError::AddressTaken) && post == pre))
            &&& (pre.spec_space().spec_usable(ip as int) && !pre.spec_space().spec_taken().contains(
                ip,
            ) ==> (r matches Ok(iface) && {
                &&& iface.spec_ip() == ip
                &&& iface.spec_network_id() == network_id
                &&& iface.spec_gateway() == pre.spec_space().spec_gateway()
                &&& iface.spec_netmask() == 0x1_0000_0000 - pow2(
                    (32 - pre.spec_space().spec_prefix()) as nat,
                )
                &&& iface.spec_device().spec_open()
                &&& iface.spec_device().spec_inbound() == Seq::<Seq<u8>>::empty()
                &&& post.spec_has_node(node_id)
                &&& post.spec_has_ip(ip)
                &&& post.spec_members().len() == pre.spec_members().len() + 1
                &&& post.spec_members().last().node_id@ == node_id
                &&& post.spec_members().last().ip == ip
                &&& (forall|i: int|
                    0 <= i < pre.spec_members().len() ==> #[trigger] post.spec_members()[i]
                        == pre.spec_members()[i])
                &&& post.spec_space().spec_taken() == pre.spec_space().spec_taken().push(ip)
            }))
        },
        None => {
            &&& ((forall|a: int|
                pre.spec_space().spec_gateway() < a < pre.spec_space().spec_broadcast()
                    ==> pre.spec_space().spec_taken().contains(#[trigger] (a as u32))) <==> r
                == Err::<Interface, VpnError>(VpnError::AddressSpaceExhausted))
            &&& (r matches Ok(iface) ==> {
                &&& pre.spec_space().spec_usable(iface.spec_ip() as int)
                &&& !pre.spec_space().spec_taken().contains(iface.spec_ip())
                &&& pre.spec_space().spec_gateway() < iface.spec_ip()
                &&& (forall|a: int|
                    pre.spec_space().spec_gateway() < a < iface.spec_ip()
                        ==> pre.spec_space().spec_taken().contains(#[trigger] (a as u32)))
                &&& iface.spec_network_id() == network_id
                &&& iface.spec_gateway() == pre.spec_space().spec_gateway()
                &&& iface.spec_netmask() == 0x1_0000_0000 - pow2(
                    (32 - pre.spec_space().spec_prefix()) as nat,
                )
                &&& iface.spec_device().spec_open()
                &&& iface.spec_device().spec_inbound() == Seq::<Seq<u8>>::empty()
                &&& post.spec_has_node(node_id)
                &&& post.spec_has_ip(iface.spec_ip())
                &&& post.spec_members().len() == pre.spec_members().len() + 1
                &&& post.spec_members().last().node_id@ == node_id
                &&& post.spec_members().last().ip == iface.spec_ip()
                &&& (forall|i: int|
                    0 <= i < pre.spec_members().len() ==> #[trigger] post.spec_members()[i]
                        == pre.spec_members()[i])
                &&& post.spec_space().spec_taken() == pre.spec_space().spec_taken().push(
                    iface.spec_ip(),
                )
            })
            &&& (r matches Err(e) ==> e == VpnError::AddressSpaceExhausted)
            &&& (r is Err ==> post == pre)
        },
    }))
}

/// What a leave call does to the one network it names: the node is gone
/// afterwards, other nodes stay, and leaving an absent node changes
/// nothing.
pub open spec fn spec_leave_outcome(pre: Network, post: Network, node_id: Seq<char>) -> bool {
    &&& post.spec_id() == pre.spec_id()
    &&& post.spec_space().spec_prefix() == pre.spec_space().spec_prefix()
    &&& post.spec_space().spec_network() == pre.spec_space().spec_network()
    &&& post.spec_space().spec_broadcast() == pre.spec_space().spec_broadcast()
    &&& !post.spec_has_node(node_id)
    &&& (!pre.spec_has_node(node_id) ==> post == pre)
    &&& (pre.spec_has_node(node_id) ==> (post.spec_members().len() == pre.spec_members().len() - 1
        && exists|i: int|
        {
            &&& 0 <= i < pre.spec_members().len()
            &&& (#[trigger] pre.spec_members()[i]).node_id@ == node_id
            &&& post.spec_members() == pre.spec_members().remove(i)
            &&& !post.spec_space().spec_taken().contains(pre.spec_members()[i].ip)
            &&& forall|a: u32|
                a != pre.spec_members()[i].ip ==> post.spec_space().spec_taken().contains(a)
                    == pre.spec_space().spec_taken().contains(a)
        }))
    &&& forall|id: Seq<char>| id != node_id ==> post.spec_has_node(id) == pre.spec_has_node(id)
}

impl VpnService {
    /// The networks, in creation order.
    pub closed spec fn spec_networks(self) -> Seq<Network> {
        self.networks@
    }

    /// The id the next created network will get, as a number.
    pub closed spec fn spec_next_id(self) -> u64 {
        self.next_id
    }

    /// Whether a network of the given id exists.
    pub open spec fn spec_has_network(self, id: Seq<char>) -> bool {
        exists|i: int|
            0 <= i < self.spec_networks().len() && #[trigger] self.spec_networks()[i].spec_id()
                == id
    }

    /// Structural soundness: every network is sound, ids are unique, and
    /// every id was minted from a counter value already spent.
    pub open spec fn wf(self) -> bool {
        &&& forall|i: int|
            0 <= i < self.spec_networks().len() ==> (#[trigger] self.spec_networks()[i]).wf()
        &&& forall|i: int, j: int|
            0 <= i < j < self.spec_networks().len() ==> #[trigger] self.spec_networks()[i].spec_id()
                != #[trigger] self.spec_networks()[j].spec_id()
        &&& forall|i: int|
            0 <= i < self.spec_networks().len() ==> exists|k: nat|
                k < self.spec_next_id() && (#[trigger] self.spec_networks()[i].spec_id())
                    == #[trigger] dec_digits(k)
    }

    /// A service with no networks.
    pub fn new() -> (r: VpnService)
        ensures
            r.wf(),
            r.spec_networks() == Seq::<Network>::empty(),
            r.spec_next_id() == 0,
    {
        VpnService { networks: Vec::new(), next_id: 0 }
    }

    /// The index of the network with the given id.
    fn find_network(&self, network_id: &str) -> (r: Option<usize>)
        ensures
            self.spec_has_network(network_id@) <==> r is Some,
            r matches Some(i) ==> i < self.spec_networks().len()
                && self.spec_networks()[i as int].spec_id() == network_id@,
    {
        let key = String::from_str(network_id);
        let mut i: usize = 0;
        while i < self.networks.len()
            invariant
                i <= self.networks@.len(),
                key@ == network_id@,
                forall|j: int| 0 <= j < i ==> #[trigger] self.networks@[j].spec_id() != network_id@,
            decreases self.networks@.len() - i,
        {
            if self.networks[i].has_id(&key) {
                proof {
                    assert(self.spec_networks()[i as int].spec_id() == network_id@);
                }
                return Some(i);
            }
            i = i + 1;
        }
        None
    }

    /// Creates a network over the given subnet and returns its fresh id:
    /// no network of that id existed before, and no later create ever
    /// yields the same id.  A subnet without room for a gateway beside a
    /// usable host address is refused as an invalid CIDR.
    pub fn create_network(&mut self, addr: u32, prefix: u8) -> (r: Result<String, VpnError>)
        requires
            old(self).wf(),
            old(self).spec_next_id() < 0xffff_ffff_ffff_ffff,
        ensures
            final(self).wf(),
            prefix > 30 <==> r is Err,
            r matches Err(e) ==> e == VpnError::InvalidCidr && *final(self) == *old(self),
            r matches Ok(id) ==> {
                &&& id@ == dec_digits(old(self).spec_next_id() as nat)
                &&& !old(self).spec_has_network(id@)
                &&& final(self).spec_next_id() == old(self).spec_next_id() + 1
                &&& final(self).spec_networks().len() == old(self).spec_networks().len() + 1
                &&& forall|j: int|
                    0 <= j < old(self).spec_networks().len() ==> (#[trigger] final(self).spec_networks()[j]) == old(self).spec_networks()[j]
                &&& final(self).spec_networks().last().wf()
                &&& final(self).spec_networks().last().spec_id() == id@
                &&& final(self).spec_networks().last().spec_members() == Seq::<
                    crate::network::Member,
                >::empty()
                &&& final(self).spec_networks().last().spec_space().spec_prefix() == prefix
                &&& final(self).spec_networks().last().spec_space().spec_network() == addr - ((
                addr as int) % (pow2((32 - prefix) as nat) as int))
                &&& final(self).spec_networks().last().spec_space().spec_network() <= addr <= final(self).spec_networks().last().spec_space().spec_broadcast()
                &&& final(self).spec_networks().last().spec_space().spec_broadcast() - final(self).spec_networks().last().spec_space().spec_network() + 1 == pow2((32 - prefix) as nat)
                &&& final(self).spec_networks().last().spec_space().spec_taken() == seq![(final(self).spec_networks().last().spec_space().spec_gateway() as u32)]
            },
    {
        let id = u64_to_string(self.next_id);
        let net = match Network::new(id, addr, prefix) {
            Ok(n) => n,
            Err(e) => {
                return Err(e);
            },
        };
        proof {
            assert(!old(self).spec_has_network(dec_digits(self.next_id as nat))) by {
                if old(self).spec_has_network(dec_digits(self.next_id as nat)) {
                    let i = choose|i: int|
                        0 <= i < old(self).spec_networks().len()
                            && #[trigger] old(self).spec_networks()[i].spec_id() == dec_digits(
                            self.next_id as nat,
                        );
                    let k = choose|k: nat|
                        k < old(self).spec_next_id() && old(self).spec_networks()[i].spec_id()
                            == #[trigger] dec_digits(k);
                    lemma_dec_digits_injective(k, self.next_id as nat);
                }
            }
        }
        self.networks.push(net);
        self.next_id = self.next_id + 1;
        proof {
            let n = old(self).spec_networks().len() as int;
            assert forall|i: int| 0 <= i < self.spec_networks().len() implies exists|k: nat|
                k < self.spec_next_id() && (#[trigger] self.spec_networks()[i].spec_id())
                    == #[trigger] dec_digits(k) by {
                if i < n {
                    let k = choose|k: nat|
                        k < old(self).spec_next_id() && (old(self).spec_networks()[i].spec_id())
                            == #[trigger] dec_digits(k);
                    assert(self.spec_networks()[i].spec_id() == dec_digits(k));
                } else {
                    assert(self.spec_networks()[i].spec_id() == dec_digits(
                        old(self).spec_next_id() as nat,
                    ));
                }
            }
            assert forall|i: int, j: int|
                0 <= i < j < self.spec_networks().len() implies #[trigger] self.spec_networks()[i].spec_id()
                != #[trigger] self.spec_networks()[j].spec_id() by {
                if j == n {
                    assert(old(self).spec_networks()[i].spec_id() == self.spec_networks()[
                        i].spec_id());
                }
            }
        }
        Ok(u64_to_string(self.next_id - 1))
    }

    /// Joins a node to a network: allocates an address — the requested one,
    /// or the lowest free one — records the node as a member, and hands
    /// back a bound interface on a fresh device.  A missing network is not
    /// found; allocation and membership failures surface exactly as the
    /// network gives them.
    pub fn join(&mut self, network_id: &str, node_id: &str, requested: Option<u32>) -> (r: Result<
        Interface,
        VpnError,
    >)
        requires
            old(self).wf(),
        ensures
            final(self).wf(),
            final(self).spec_next_id() == old(self).spec_next_id(),
            !old(self).spec_has_network(network_id@) ==> (r == Err::<Interface, VpnError>(
                VpnError::NetworkNotFound,
            ) && *final(self) == *old(self)),
            old(self).spec_has_network(network_id@) ==> {
                &&& final(self).spec_networks().len() == old(self).spec_networks().len()
                &&& forall|j: int|
                    0 <= j < old(self).spec_networks().len() && (#[trigger] old(
                        self,
                    ).spec_networks()[j].spec_id()) != network_id@ ==> final(self).spec_networks()[j]
                        == old(self).spec_networks()[j]
                &&& forall|j: int|
                    0 <= j < old(self).spec_networks().len() && (#[trigger] old(
                        self,
                    ).spec_networks()[j].spec_id()) == network_id@ ==> spec_join_outcome(
                        old(self).spec_networks()[j],
                        final(self).spec_networks()[j],
                        node_id@,
                        network_id@,
                        requested,
                        r,
                    )
            },
    {
        let k = match self.find_network(network_id) {
            Some(k) => k,
            None => {
                return Err(VpnError::NetworkNotFound);
            },
        };
        let ghost pre_nets = self.networks@;
        let mut net = self.networks.remove(k);
        let ip_res: Result<u32, VpnError> = match requested {
            Some(ip) => {
                match net.add_node(node_id, ip) {
                    Ok(_) => Ok(ip),
                    Err(e) => Err(e),
                }
            },
            None => net.add_node_auto(node_id),
        };
        let gateway_opt = net.space().gateway();
        let netmask = net.space().netmask();
        self.networks.insert(k, net);
        proof {
            vstd::arithmetic::power2::lemma2_to64();
            assert(self.networks@ =~= pre_nets.update(k as int, self.networks@[k as int]));
            assert forall|j: int|
                0 <= j < pre_nets.len() && j != k implies #[trigger] self.spec_networks()[j]
                == pre_nets[j] by {}
            assert forall|j: int|
                0 <= j < pre_nets.len() && (#[trigger] pre_nets[j].spec_id()) == network_id@
                    implies j == k by {
                if j != k {
                    assert(pre_nets[j].spec_id() != pre_nets[k as int].spec_id());
                }
            }
        }
        let ip = match ip_res {
            Ok(ip) => ip,
            Err(e) => {
                return Err(e);
            },
        };
        proof {
            let post = self.spec_networks()[k as int];
            let n = post.spec_members().len() - 1;
            assert(post.spec_members()[n].ip == ip);
            assert(post.spec_members()[n].node_id@ == node_id@);
            assert(post.spec_has_ip(ip));
            assert(post.spec_has_node(node_id@));
        }
        let gateway = match gateway_opt {
            Some(g) => g,
            None => {
                proof {
                    assert(false);
                }
                0
            },
        };
        let device = Device::new();
        match Interface::attach(device, String::from_str(network_id), ip, gateway, netmask) {
            Ok(iface) => Ok(iface),
            Err(_) => {
                proof {
                    assert(false);
                }
                Err(VpnError::AlreadyBound)
            },
        }
    }

    /// Removes a node from a network and returns its address to the pool.
    /// Idempotent on retry: a network already gone, or a node already
    /// gone, leaves everything as it is.
    pub fn leave(&mut self, network_id: &str, node_id: &str)
        requires
            old(self).wf(),
        ensures
            final(self).wf(),
            final(self).spec_next_id() == old(self).spec_next_id(),
            final(self).spec_networks().len() == old(self).spec_networks().len(),
            !old(self).spec_has_network(network_id@) ==> *final(self) == *old(self),
            forall|j: int|
                0 <= j < old(self).spec_networks().len() && (#[trigger] old(
                    self,
                ).spec_networks()[j].spec_id()) != network_id@ ==> final(self).spec_networks()[j]
                    == old(self).spec_networks()[j],
            forall|j: int|
                0 <= j < old(self).spec_networks().len() && (#[trigger] old(
                    self,
                ).spec_networks()[j].spec_id()) == network_id@ ==> spec_leave_outcome(
                    old(self).spec_networks()[j],
                    final(self).spec_networks()[j],
                    node_id@,
                ),
    {
        let k = match self.find_network(network_id) {
            Some(k) => k,
            None => {
                return ;
            },
        };
        let ghost pre_nets = self.networks@;
        let mut net = self.networks.remove(k);
        let had = match net.remove_node(node_id) {
            Ok(_) => true,
            Err(_) => false,
        };
        self.networks.insert(k, net);
        proof {
            assert(self.networks@ =~= pre_nets.update(k as int, self.networks@[k as int]));
            assert forall|j: int|
                0 <= j < pre_nets.len() && (#[trigger] pre_nets[j].spec_id()) == network_id@
                    implies j == k by {
                if j != k {
                    assert(pre_nets[j].spec_id() != pre_nets[k as int].spec_id());
                }
            }
        }
    }

    /// Destroys an empty network.  While any member — and so any bound
    /// interface — remains, the network is in use and destruction is
    /// refused; a network already gone makes the retry a success.
    pub fn destroy_network(&mut self, network_id: &str) -> (r: Result<(), VpnError>)
        requires
            old(self).wf(),
        ensures
            final(self).wf(),
            final(self).spec_next_id() == old(self).spec_next_id(),
            !old(self).spec_has_network(network_id@) ==> (r is Ok && *final(self) == *old(self)),
            old(self).spec_has_network(network_id@) ==> {
                &&& (exists|j: int|
                    0 <= j < old(self).spec_networks().len() && (#[trigger] old(
                        self,
                    ).spec_networks()[j].spec_id()) == network_id@ && old(
                        self,
                    ).spec_networks()[j].spec_members().len() > 0) ==> (r == Err::<(), VpnError>(
                    VpnError::NetworkInUse,
                ) && *final(self) == *old(self))
                &&& (forall|j: int|
                    0 <= j < old(self).spec_networks().len() && (#[trigger] old(
                        self,
                    ).spec_networks()[j].spec_id()) == network_id@ ==> old(
                        self,
                    ).spec_networks()[j].spec_members().len() == 0) ==> {
                        &&& r is Ok
                        &&& !final(self).spec_has_network(network_id@)
                        &&& final(self).spec_networks().len() == old(self).spec_networks().len() - 1
                        &&& forall|id: Seq<char>|
                            id != network_id@ ==> final(self).spec_has_network(id) == old(
                                self,
                            ).spec_has_network(id)
                    }
            },
    {
        let k = match self.find_network(network_id) {
            Some(k) => k,
            None => {
                return Ok(());
            },
        };
        if self.networks[k].member_count() > 0 {
            return Err(VpnError::NetworkInUse);
        }
        let ghost before = self.networks@;
        self.networks.remove(k);
        proof {
            let i = k as int;
            assert(self.networks@ =~= before.subrange(0, i) + before.subrange(
                i + 1,
                before.len() as int,
            ));
            assert forall|j: int|
                0 <= j < self.spec_networks().len() implies #[trigger] self.spec_networks()[j] == (
            if j < i {
                before[j]
            } else {
                before[j + 1]
            }) by {}
            assert(!self.spec_has_network(network_id@)) by {
                if self.spec_has_network(network_id@) {
                    let j = choose|j: int|
                        0 <= j < self.spec_networks().len()
                            && #[trigger] self.spec_networks()[j].spec_id() == network_id@;
                    let m: int = if j < i {
                        j
                    } else {
                        j + 1
                    };
                    assert(before[m].spec_id() == network_id@);
                    assert(before[i].spec_id() == network_id@);
                }
            }
            assert forall|id: Seq<char>| id != network_id@ implies self.spec_has_network(id) == old(
                self,
            ).spec_has_network(id) by {
                if old(self).spec_has_network(id) {
                    let j = choose|j: int|
                        0 <= j < before.len() && #[trigger] before[j].spec_id() == id;
                    assert(j != i);
                    if j < i {
                        assert(self.spec_networks()[j].spec_id() == id);
                    } else {
                        assert(self.spec_networks()[j - 1].spec_id() == id);
                    }
                }
                if self.spec_has_network(id) {
                    let j = choose|j: int|
                        0 <= j < self.spec_networks().len()
                            && #[trigger] self.spec_networks()[j].spec_id() == id;
                    let m: int = if j < i {
                        j
                    } else {
                        j + 1
                    };
                    assert(old(self).spec_networks()[m].spec_id() == id);
                }
            }
            assert forall|i2: int| 0 <= i2 < self.spec_networks().len() implies exists|k2: nat|
                k2 < self.spec_next_id() && (#[trigger] self.spec_networks()[i2].spec_id())
                    == #[trigger] dec_digits(k2) by {
                let m: int = if i2 < i {
                    i2
                } else {
                    i2 + 1
                };
                let k2 = choose|k2: nat|
                    k2 < old(self).spec_next_id() && (old(self).spec_networks()[m].spec_id())
                        == #[trigger] dec_digits(k2);
                assert(self.spec_networks()[i2].spec_id() == dec_digits(k2));
            }
        }
        Ok(())
    }

    /// The network of the given id, for state queries and routing.
    pub fn network(&self, network_id: &str) -> (r: Option<&Network>)
        ensures
            self.spec_has_network(network_id@) <==> r is Some,
            r matches Some(n) ==> n.spec_id() == network_id@ && self.spec_networks().contains(*n),
    {
        match self.find_network(network_id) {
            Some(k) => {
                let n = &self.networks[k];
                proof {
                    assert(self.spec_networks()[k as int] == *n);
                }
                Some(n)
            },
            None => None,
        }
    }

    /// How many networks exist.
    pub fn network_count(&self) -> (r: usize)
        ensures
            r == self.spec_networks().len(),
    {
        self.networks.len()
    }
}

} // verus!

//! A named virtual subnet and its member nodes.
//!
//! Each member node maps to a pair of bus endpoints — one reliable, one
//! best-effort — whose service paths are derived from the node and network
//! ids.  Member addresses are unique, lie in the subnet's usable range, and
//! are backed by the network's address space, whose gateway address is
//! reserved from the start.

use vstd::prelude::*;
use vstd::string::*;
use vstd::arithmetic::power2::pow2;
use crate::addr::AddressSpace;
use crate::error::VpnError;

verus! {

/// The bus service path for reliable delivery to a node on a network.
pub open spec fn reliable_path_spec(node: Seq<char>, net: Seq<char>) -> Seq<char> {
    "/net/"@ + node + "/vpn/"@ + net
}

/// The bus service path for best-effort delivery to a node on a network.
pub open spec fn unreliable_path_spec(node: Seq<char>, net: Seq<char>) -> Seq<char> {
    "/udp/net/"@ + node + "/vpn/"@ + net + "/raw"@
}

/// The two transport identities of one remote node on one network,
/// immutable once constructed.
pub struct DuoEndpoint {
    reliable: String,
    unreliable: String,
}

impl DuoEndpoint {
    /// The reliable channel's service path.
    pub closed spec fn spec_reliable(self) -> Seq<char> {
        self.reliable@
    }

    /// The best-effort channel's service path.
    pub closed spec fn spec_unreliable(self) -> Seq<char> {
        self.unreliable@
    }

    /// The reliable channel's service path.
    pub fn reliable(&self) -> (r: &str)
        ensures
            r@ == self.spec_reliable(),
    {
        self.reliable.as_str()
    }

    /// The best-effort channel's service path.
    pub fn unreliable(&self) -> (r: &str)
        ensures
            r@ == self.spec_unreliable(),
    {
        self.unreliable.as_str()
    }
}

/// The endpoint pair addressing a node on a network.
pub fn gsb_endpoint(node_id: &str, net_id: &str) -> (r: DuoEndpoint)
    ensures
        r.spec_reliable() == reliable_path_spec(node_id@, net_id@),
        r.spec_unreliable() == unreliable_path_spec(node_id@, net_id@),
{
    let mut tcp = String::from_str("/net/");
    tcp.append(node_id);
    tcp.append("/vpn/");
    tcp.append(net_id);
    let mut udp = String::from_str("/udp/net/");
    udp.append(node_id);
    udp.append("/vpn/");
    udp.append(net_id);
    udp.append("/raw");
    DuoEndpoint { reliable: tcp, unreliable: udp }
}

/// One member node of a network: its id, its assigned address and its
/// endpoint pair.
pub struct Member {
    pub node_id: String,
    pub ip: u32,
    pub endpoint: DuoEndpoint,
}

/// A named virtual subnet with a set of member nodes.
pub struct Network {
    id: String,
    space: AddressSpace,
    members: Vec<Member>,
}

impl Network {
    /// The network's id.
    pub closed spec fn spec_id(self) -> Seq<char> {
        self.id@
    }

    /// The network's address space.
    pub closed spec fn spec_space(self) -> AddressSpace {
        self.space
    }

    /// The member nodes, in joining order.
    pub closed spec fn spec_members(self) -> Seq<Member> {
        self.members@
    }

    /// Whether a node of the given id is a member.
    pub open spec fn spec_has_node(self, id: Seq<char>) -> bool {
        exists|i: int|
            0 <= i < self.spec_members().len() && #[trigger] self.spec_members()[i].node_id@ == id
    }

    /// Whether a member holds the given address.
    pub open spec fn spec_has_ip(self, ip: u32) -> bool {
        exists|i: int| 0 <= i < self.spec_members().len() && #[trigger] self.spec_members()[i].ip == ip
    }

    /// Structural soundness: the subnet has room for gateway and hosts;
    /// member ids and addresses are unique; every member address is usable,
    /// backed by the address space's allocation table, and distinct from
    /// the reserved gateway; endpoint paths are the ones derived from the
    /// ids.
    pub closed spec fn wf(self) -> bool {
        &&& self.space.wf()
        &&& self.space.spec_has_gateway()
        &&& self.space.spec_taken().contains((self.space.spec_gateway()) as u32)
        &&& forall|i: int, j: int|
            0 <= i < j < self.members@.len() ==> #[trigger] self.members@[i].node_id@
                != #[trigger] self.members@[j].node_id@
        &&& forall|i: int, j: int|
            0 <= i < j < self.members@.len() ==> #[trigger] self.members@[i].ip
                != #[trigger] self.members@[j].ip
        &&& forall|i: int|
            0 <= i < self.members@.len() ==> self.space.spec_usable(
                #[trigger] self.members@[i].ip as int,
            )
        &&& forall|i: int|
            0 <= i < self.members@.len() ==> self.space.spec_taken().contains(
                #[trigger] self.members@[i].ip,
            )
        &&& forall|i: int|
            0 <= i < self.members@.len() ==> (#[trigger] self.members@[i].ip as int)
                != self.space.spec_gateway()
        &&& forall|i: int|
            0 <= i < self.members@.len() ==> (#[trigger] self.members@[i].endpoint.spec_reliable())
                == reliable_path_spec(self.members@[i].node_id@, self.id@)
        &&& forall|i: int|
            0 <= i < self.members@.len()
                ==> (#[trigger] self.members@[i].endpoint.spec_unreliable())
                == unreliable_path_spec(self.members@[i].node_id@, self.id@)
    }

    /// Creates the network over the given subnet, with no members and the
    /// gateway reserved.  A prefix length beyond 30 leaves no room for a
    /// gateway beside at least one usable host address and is refused as an
    /// invalid CIDR, as is one beyond 32.
    pub fn new(id: String, addr: u32, prefix: u8) -> (r: Result<Network, VpnError>)
        ensures
            prefix > 30 <==> r is Err,
            r matches Err(e) ==> e == VpnError::InvalidCidr,
            r matches Ok(n) ==> {
                &&& n.wf()
                &&& n.spec_id() == id@
                &&& n.spec_members() == Seq::<Member>::empty()
                &&& n.spec_space().spec_prefix() == prefix
                &&& n.spec_space().spec_network() == addr - ((addr as int) % (pow2(
                    (32 - prefix) as nat,
                ) as int))
                &&& n.spec_space().spec_network() <= addr <= n.spec_space().spec_broadcast()
                &&& n.spec_space().spec_broadcast() - n.spec_space().spec_network() + 1 == pow2(
                    (32 - prefix) as nat,
                )
                &&& n.spec_space().spec_taken() == seq![(n.spec_space().spec_gateway() as u32)]
            },
    {
        if prefix > 30 {
            return Err(VpnError::InvalidCidr);
        }
        let space = match AddressSpace::new(addr, prefix) {
            Ok(s) => s,
            Err(_) => {
                proof {
                    assert(false);
                }
                return Err(VpnError::InvalidCidr);
            },
        };
        let n = Network { id, space, members: Vec::new() };
        proof {
            assert(n.spec_members() =~= Seq::<Member>::empty());
            assert(n.space.spec_taken().contains((n.space.spec_gateway()) as u32)) by {
                assert(n.space.spec_taken()[0] == (n.space.spec_gateway() as u32));
            }
        }
        Ok(n)
    }

    /// Whether this network carries the given id.
    pub fn has_id(&self, key: &String) -> (r: bool)
        ensures
            r == (self.spec_id() == key@),
    {
        self.id == *key
    }

    /// A sound network's member endpoints carry exactly the service paths
    /// derived from the member's id and the network's id.
    pub proof fn lemma_member_endpoints_derived(self)
        requires
            self.wf(),
        ensures
            forall|i: int|
                0 <= i < self.spec_members().len()
                    ==> (#[trigger] self.spec_members()[i].endpoint.spec_reliable())
                    == reliable_path_spec(self.spec_members()[i].node_id@, self.spec_id()),
            forall|i: int|
                0 <= i < self.spec_members().len()
                    ==> (#[trigger] self.spec_members()[i].endpoint.spec_unreliable())
                    == unreliable_path_spec(self.spec_members()[i].node_id@, self.spec_id()),
    {
    }

    /// Member addresses are unique in a sound network.
    pub proof fn lemma_member_ips_unique(self)
        requires
            self.wf(),
        ensures
            forall|i: int, j: int|
                0 <= i < j < self.spec_members().len() ==> #[trigger] self.spec_members()[i].ip
                    != #[trigger] self.spec_members()[j].ip,
    {
    }

    /// The index of the member with the given id.
    fn find_node(&self, node_id: &str) -> (r: Option<usize>)
        ensures
            self.spec_has_node(node_id@) <==> r is Some,
            r matches Some(i) ==> i < self.spec_members().len() && self.spec_members()[i as int].node_id@
                == node_id@,
    {
        let key = String::from_str(node_id);
        let mut i: usize = 0;
        while i < self.members.len()
            invariant
                i <= self.members@.len(),
                key@ == node_id@,
                forall|j: int| 0 <= j < i ==> #[trigger] self.members@[j].node_id@ != node_id@,
            decreases self.members@.len() - i,
        {
            if self.members[i].node_id == key {
                proof {
                    assert(self.spec_members()[i as int].node_id@ == node_id@);
                }
                return Some(i);
            }
            i = i + 1;
        }
        None
    }

    /// Adds a member node holding the requested address.  A node already a
    /// member is refused as a duplicate; the address allocation is exactly
    /// that of the address space, so the reserved gateway address comes
    /// back as taken.
    pub fn add_node(&mut self, node_id: &str, ip: u32) -> (r: Result<(), VpnError>)
        requires
            old(self).wf(),
        ensures
            final(self).wf(),
            final(self).spec_id() == old(self).spec_id(),
            old(self).spec_has_node(node_id@) ==> (r == Err::<(), VpnError>(VpnError::DuplicateNode)
                && *final(self) == *old(self)),
            !old(self).spec_has_node(node_id@) ==> {
                &&& !old(self).spec_space().spec_usable(ip as int) ==> (r == Err::<(), VpnError>(
                    VpnError::AddressOutOfRange,
                ) && *final(self) == *old(self))
                &&& old(self).spec_space().spec_usable(ip as int) && old(
                    self,
                ).spec_space().spec_taken().contains(ip) ==> (r == Err::<(), VpnError>(
                    VpnError::AddressTaken,
                ) && *final(self) == *old(self))
                &&& old(self).spec_space().spec_usable(ip as int) && !old(
                    self,
                ).spec_space().spec_taken().contains(ip) ==> (r is Ok && final(self).spec_members()
                    == old(self).spec_members().push(
                    Member {
                        node_id: final(self).spec_members().last().node_id,
                        ip: ip,
                        endpoint: final(self).spec_members().last().endpoint,
                    },
                ) && final(self).spec_members().last().node_id@ == node_id@ && final(self).spec_space().spec_taken() == old(self).spec_space().spec_taken().push(ip))
            },
            final(self).spec_space().spec_prefix() == old(self).spec_space().spec_prefix(),
            final(self).spec_space().spec_network() == old(self).spec_space().spec_network(),
            final(self).spec_space().spec_broadcast() == old(self).spec_space().spec_broadcast(),
    {
        if self.find_node(node_id).is_some() {
            return Err(VpnError::DuplicateNode);
        }
        let ghost old_members = self.members@;
        match self.space.allocate(ip) {
            Ok(_) => {},
            Err(e) => {
                return Err(e);
            },
        }
        let endpoint = gsb_endpoint(node_id, self.id.as_str());
        let member = Member { node_id: String::from_str(node_id), ip, endpoint };
        self.members.push(member);
        proof {
            assert(forall|i: int|
                0 <= i < old_members.len() ==> #[trigger] self.members@[i] == old_members[i]);
            lemma_push_wf(*old(self), *self, ip);
        }
        Ok(())
    }

    /// Adds a member node on the lowest free address; fails as full only
    /// when the subnet is exhausted.
    pub fn add_node_auto(&mut self, node_id: &str) -> (r: Result<u32, VpnError>)
        requires
            old(self).wf(),
        ensures
            final(self).wf(),
            final(self).spec_id() == old(self).spec_id(),
            old(self).spec_has_node(node_id@) ==> (r == Err::<u32, VpnError>(
                VpnError::DuplicateNode,
            ) && *final(self) == *old(self)),
            r is Err ==> *final(self) == *old(self),
            r matches Err(e) ==> e == VpnError::DuplicateNode || e == VpnError::AddressSpaceExhausted,
            !old(self).spec_has_node(node_id@) ==> (r matches Err(e) ==> e
                == VpnError::AddressSpaceExhausted),
            final(self).spec_space().spec_prefix() == old(self).spec_space().spec_prefix(),
            final(self).spec_space().spec_network() == old(self).spec_space().spec_network(),
            final(self).spec_space().spec_broadcast() == old(self).spec_space().spec_broadcast(),
            !old(self).spec_has_node(node_id@) ==> {
                &&& (forall|a: int|
                    old(self).spec_space().spec_gateway() < a < old(
                        self,
                    ).spec_space().spec_broadcast() ==> old(self).spec_space().spec_taken().contains(
                        #[trigger] (a as u32),
                    )) <==> r == Err::<u32, VpnError>(VpnError::AddressSpaceExhausted)
                &&& r matches Ok(ip) ==> {
                    &&& old(self).spec_space().spec_usable(ip as int)
                    &&& !old(self).spec_space().spec_taken().contains(ip)
                    &&& old(self).spec_space().spec_gateway() < ip
                    &&& forall|a: int|
                        old(self).spec_space().spec_gateway() < a < ip ==> old(
                            self,
                        ).spec_space().spec_taken().contains(#[trigger] (a as u32))
                    &&& final(self).spec_space().spec_taken() == old(
                        self,
                    ).spec_space().spec_taken().push(ip)
                    &&& final(self).spec_members().len() == old(self).spec_members().len() + 1
                    &&& final(self).spec_members().last().ip == ip
                    &&& final(self).spec_members().last().node_id@ == node_id@
                    &&& forall|i: int|
                        0 <= i < old(self).spec_members().len()
                            ==> #[trigger] final(self).spec_members()[i] == old(
                            self,
                        ).spec_members()[i]
                }
            },
    {
        if self.find_node(node_id).is_some() {
            return Err(VpnError::DuplicateNode);
        }
        let ghost old_members = self.members@;
        let ip = match self.space.allocate_next() {
            Ok(got) => got,
            Err(e) => {
                return Err(e);
            },
        };
        proof {
            assert(!old(self).spec_space().spec_taken().contains((ip as int) as u32));
        }
        let endpoint = gsb_endpoint(node_id, self.id.as_str());
        let member = Member { node_id: String::from_str(node_id), ip, endpoint };
        self.members.push(member);
        proof {
            assert(forall|i: int|
                0 <= i < old_members.len() ==> #[trigger] self.members@[i] == old_members[i]);
            lemma_push_wf(*old(self), *self, ip);
        }
        Ok(ip)
    }

    /// Removes a member node and returns its address to the pool; an id
    /// that is no member is not found.
    pub fn remove_node(&mut self, node_id: &str) -> (r: Result<(), VpnError>)
        requires
            old(self).wf(),
        ensures
            final(self).wf(),
            final(self).spec_id() == old(self).spec_id(),
            !old(self).spec_has_node(node_id@) <==> r is Err,
            r matches Err(e) ==> e == VpnError::NodeNotFound && *final(self) == *old(self),
            final(self).spec_space().spec_prefix() == old(self).spec_space().spec_prefix(),
            final(self).spec_space().spec_network() == old(self).spec_space().spec_network(),
            final(self).spec_space().spec_broadcast() == old(self).spec_space().spec_broadcast(),
            r is Ok ==> {
                &&& !final(self).spec_has_node(node_id@)
                &&& final(self).spec_members().len() == old(self).spec_members().len() - 1
                &&& forall|id: Seq<char>|
                    id != node_id@ ==> final(self).spec_has_node(id) == old(self).spec_has_node(id)
                &&& exists|i: int|
                    {
                        &&& 0 <= i < old(self).spec_members().len()
                        &&& (#[trigger] old(self).spec_members()[i]).node_id@ == node_id@
                        &&& final(self).spec_members() == old(self).spec_members().remove(i)
                        &&& !final(self).spec_space().spec_taken().contains(
                            old(self).spec_members()[i].ip,
                        )
                        &&& forall|a: u32|
                            a != old(self).spec_members()[i].ip ==> final(self).spec_space().spec_taken().contains(a) == old(
                                self,
                            ).spec_space().spec_taken().contains(a)
                    }
            },
    {
        let i = match self.find_node(node_id) {
            Some(i) => i,
            None => {
                return Err(VpnError::NodeNotFound);
            },
        };
        let ghost before = self.members@;
        let removed = self.members.remove(i);
        self.space.release(removed.ip);
        proof {
            let gw = self.space.spec_gateway();
            assert(self.members@ =~= before.subrange(0, i as int) + before.subrange(
                i + 1,
                before.len() as int,
            ));
            assert(before[i as int] == removed);
            assert forall|k: int|
                0 <= k < self.spec_members().len() implies #[trigger] self.spec_members()[k] == (
            if k < i {
                before[k]
            } else {
                before[k + 1]
            }) by {}
            assert forall|k: int|
                0 <= k < self.spec_members().len() implies self.spec_space().spec_taken().contains(
                #[trigger] self.spec_members()[k].ip,
            ) by {
                let m: int = if k < i { k } else { k + 1 };
                assert(before[m].ip != removed.ip);
                assert(old(self).spec_space().spec_taken().contains(before[m].ip));
            }
            assert(self.spec_space().spec_taken().contains((gw as u32))) by {
                old(self).spec_space().lemma_bounds();
                assert((removed.ip as int) != gw);
                assert(old(self).spec_space().spec_usable(removed.ip as int)) by {
                    assert(old(self).spec_space().spec_usable(before[i as int].ip as int));
                }
                assert(gw <= removed.ip as int);
                assert((gw as u32) != removed.ip);
                assert(old(self).spec_space().spec_taken().contains((gw as u32)));
            }
            assert(!self.spec_has_node(node_id@)) by {
                if self.spec_has_node(node_id@) {
                    let k = choose|k: int|
                        0 <= k < self.spec_members().len()
                            && #[trigger] self.spec_members()[k].node_id@ == node_id@;
                    let m: int = if k < i { k } else { k + 1 };
                    assert(before[m].node_id@ == node_id@);
                    assert(before[i as int].node_id@ == node_id@);
                }
            }
            assert forall|id: Seq<char>| id != node_id@ implies self.spec_has_node(id) == old(
                self,
            ).spec_has_node(id) by {
                if old(self).spec_has_node(id) {
                    let k = choose|k: int|
                        0 <= k < before.len() && #[trigger] before[k].node_id@ == id;
                    assert(k != i);
                    if k < i {
                        assert(self.spec_members()[k].node_id@ == id);
                    } else {
                        assert(self.spec_members()[k - 1].node_id@ == id);
                    }
                }
                if self.spec_has_node(id) {
                    let k = choose|k: int|
                        0 <= k < self.spec_members().len()
                            && #[trigger] self.spec_members()[k].node_id@ == id;
                    let m: int = if k < i { k } else { k + 1 };
                    assert(old(self).spec_members()[m].node_id@ == id);
                }
            }
        }
        Ok(())
    }

    /// The member of the given id, for outbound routing.
    pub fn resolve(&self, node_id: &str) -> (r: Option<&Member>)
        ensures
            self.spec_has_node(node_id@) <==> r is Some,
            r matches Some(m) ==> m.node_id@ == node_id@ && self.spec_members().contains(*m),
    {
        match self.find_node(node_id) {
            Some(i) => {
                let m = &self.members[i];
                proof {
                    assert(self.spec_members()[i as int] == *m);
                }
                Some(m)
            },
            None => None,
        }
    }

    /// The member holding the given address, for outbound routing.
    pub fn resolve_ip(&self, ip: u32) -> (r: Option<&Member>)
        ensures
            self.spec_has_ip(ip) <==> r is Some,
            r matches Some(m) ==> m.ip == ip && self.spec_members().contains(*m),
    {
        let mut i: usize = 0;
        while i < self.members.len()
            invariant
                i <= self.members@.len(),
                forall|j: int| 0 <= j < i ==> #[trigger] self.members@[j].ip != ip,
            decreases self.members@.len() - i,
        {
            if self.members[i].ip == ip {
                let m = &self.members[i];
                proof {
                    assert(self.spec_members()[i as int] == *m);
                }
                return Some(m);
            }
            i = i + 1;
        }
        None
    }

    /// How many nodes are members.
    pub fn member_count(&self) -> (r: usize)
        ensures
            r == self.spec_members().len(),
    {
        self.members.len()
    }

    /// The network's address space, read-only.  A sound network's space is
    /// sound and has its gateway.
    pub fn space(&self) -> (r: &AddressSpace)
        ensures
            *r == self.spec_space(),
            self.wf() ==> r.wf() && r.spec_has_gateway(),
    {
        &self.space
    }
}

/// Joining preserves the network invariant: adding one member on a freshly
/// allocated usable address keeps ids and addresses unique and every
/// address backed by the allocation table.
proof fn lemma_push_wf(pre: Network, post: Network, ip: u32)
    requires
        pre.wf(),
        post.spec_id() == pre.spec_id(),
        post.spec_members().len() == pre.spec_members().len() + 1,
        forall|i: int|
            0 <= i < pre.spec_members().len() ==> #[trigger] post.spec_members()[i]
                == pre.spec_members()[i],
        post.spec_members().last().ip == ip,
        pre.spec_space().spec_usable(ip as int),
        !pre.spec_space().spec_taken().contains(ip),
        post.spec_space().wf(),
        post.spec_space().spec_taken() == pre.spec_space().spec_taken().push(ip),
        post.spec_space().spec_prefix() == pre.spec_space().spec_prefix(),
        post.spec_space().spec_network() == pre.spec_space().spec_network(),
        post.spec_space().spec_broadcast() == pre.spec_space().spec_broadcast(),
        post.spec_members().last().endpoint.spec_reliable() == reliable_path_spec(
            post.spec_members().last().node_id@,
            post.spec_id(),
        ),
        post.spec_members().last().endpoint.spec_unreliable() == unreliable_path_spec(
            post.spec_members().last().node_id@,
            post.spec_id(),
        ),
        !pre.spec_has_node(post.spec_members().last().node_id@),
    ensures
        post.wf(),
{
    let n = pre.spec_members().len() as int;
    let taken_pre = pre.spec_space().spec_taken();
    let taken_post = post.spec_space().spec_taken();
    let gw = pre.spec_space().spec_gateway();
    assert(taken_post.contains(ip)) by {
        assert(taken_post[taken_pre.len() as int] == ip);
    }
    assert forall|x: u32| taken_pre.contains(x) implies taken_post.contains(x) by {
        let j = choose|j: int| 0 <= j < taken_pre.len() && taken_pre[j] == x;
        assert(taken_post[j] == x);
    }
    pre.spec_space().lemma_bounds();
    assert(gw <= ip as int);
    assert((gw as u32) as int == gw);
    assert(taken_pre.contains((gw as u32)));
    assert(ip != (gw as u32));
    assert(ip as int != gw);
    assert forall|i: int| 0 <= i < n implies #[trigger] post.spec_members()[i].node_id@
        != post.spec_members().last().node_id@ by {
        assert(pre.spec_members()[i].node_id@ != post.spec_members().last().node_id@);
    }
    assert forall|i: int| 0 <= i < n implies #[trigger] post.spec_members()[i].ip != ip by {
        assert(taken_pre.contains(pre.spec_members()[i].ip));
    }
    assert forall|i: int|
        0 <= i < post.spec_members().len() implies taken_post.contains(
        #[trigger] post.spec_members()[i].ip,
    ) by {
        if i < n {
            assert(taken_pre.contains(pre.spec_members()[i].ip));
        }
    }
}

} // verus!

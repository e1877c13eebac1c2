//! CIDR-based subnet model: allocation and validation of node addresses
//! within a virtual network.
//!
//! Addresses are IPv4 values held as `u32` in host order.  A subnet of
//! prefix length `p` spans a block of `2^(32-p)` addresses; the first is the
//! network address, the last the broadcast address, and the first address
//! after the network address is reserved as the conventional gateway.  The
//! usable host range lies strictly between the network and broadcast
//! addresses.

use vstd::prelude::*;
use vstd::arithmetic::power2::{
    pow2,
    lemma_pow2_adds,
    lemma_pow2_strictly_increases,
    lemma2_to64,
};
use vstd::arithmetic::div_mod::lemma_fundamental_div_mod;
use crate::error::VpnError;

verus! {

/// `2^k` as a machine word, for block-size arithmetic.
fn pow2_exec(k: u8) -> (r: u64)
    requires
        k <= 32,
    ensures
        r == pow2(k as nat),
{
    let mut i: u8 = 0;
    let mut r: u64 = 1;
    proof {
        lemma2_to64();
    }
    while i < k
        invariant
            i <= k <= 32,
            r == pow2(i as nat),
        decreases k - i,
    {
        proof {
            lemma2_to64();
            if (i as nat) < 32 {
                lemma_pow2_strictly_increases(i as nat, 32);
            }
            lemma_pow2_adds(i as nat, 1);
            assert(pow2(1) == 2) by {
                lemma2_to64();
            }
        }
        r = r * 2;
        i = i + 1;
    }
    r
}

/// True when the vector holds the value.
fn vec_contains_u32(v: &Vec<u32>, x: u32) -> (r: bool)
    ensures
        r == v@.contains(x),
{
    let mut i: usize = 0;
    while i < v.len()
        invariant
            i <= v@.len(),
            forall|j: int| 0 <= j < i ==> v@[j] != x,
        decreases v@.len() - i,
    {
        if v[i] == x {
            return true;
        }
        i = i + 1;
    }
    false
}

/// An IPv4 address from its four dotted-quad octets.
pub fn ipv4(a: u8, b: u8, c: u8, d: u8) -> (r: u32)
    ensures
        r == a * 0x1000000 + b * 0x10000 + c * 0x100 + d,
{
    (a as u32) * 0x1000000 + (b as u32) * 0x10000 + (c as u32) * 0x100 + (d as u32)
}

/// One network's address space: the subnet bounds and the set of host
/// addresses currently assigned, gateway included.
#[derive(Debug)]
pub struct AddressSpace {
    network: u32,
    bcast: u32,
    prefix: u8,
    taken: Vec<u32>,
}

impl AddressSpace {
    /// The prefix length of the subnet.
    pub closed spec fn spec_prefix(self) -> u8 {
        self.prefix
    }

    /// The network address: the first address of the block.
    pub closed spec fn spec_network(self) -> int {
        self.network as int
    }

    /// The broadcast address: the last address of the block.
    pub closed spec fn spec_broadcast(self) -> int {
        self.bcast as int
    }

    /// The conventional gateway: the first address after the network
    /// address.  Only subnets of prefix length 30 or shorter have room for
    /// it beside at least one usable host address.
    pub open spec fn spec_gateway(self) -> int {
        self.spec_network() + 1
    }

    /// Whether the subnet has a gateway address at all.
    pub open spec fn spec_has_gateway(self) -> bool {
        self.spec_prefix() <= 30
    }

    /// The host addresses currently assigned, in allocation order.
    pub closed spec fn spec_taken(self) -> Seq<u32> {
        self.taken@
    }

    /// An address a node may hold: strictly between network and broadcast.
    pub open spec fn spec_usable(self, ip: int) -> bool {
        self.spec_network() < ip < self.spec_broadcast()
    }

    /// Structural soundness: the bounds describe one block of the prefix's
    /// size, and every assigned address is usable and assigned only once.
    pub closed spec fn wf(self) -> bool {
        &&& self.prefix <= 32
        &&& (self.network as int) % (pow2((32 - self.prefix) as nat) as int) == 0
        &&& self.bcast as int == self.network + pow2((32 - self.prefix) as nat) - 1
        &&& self.taken@.no_duplicates()
        &&& forall|i: int|
            0 <= i < self.taken@.len() ==> self.spec_usable(#[trigger] self.taken@[i] as int)
    }

    /// The bounds a sound address space keeps: the block lies inside the
    /// 32-bit address space, and a subnet with a gateway holds at least two
    /// addresses beyond it.
    pub proof fn lemma_bounds(self)
        requires
            self.wf(),
        ensures
            0 <= self.spec_network() <= self.spec_broadcast() < 0x1_0000_0000,
            self.spec_has_gateway() ==> self.spec_network() + 3 <= self.spec_broadcast(),
    {
        vstd::arithmetic::power2::lemma_pow2_pos((32 - self.prefix) as nat);
        if self.prefix <= 30 {
            lemma2_to64();
            if self.prefix < 30 {
                lemma_pow2_strictly_increases(2, (32 - self.prefix) as nat);
            }
        }
    }

    /// Derives the subnet of the given address and prefix length; the
    /// gateway address, where the subnet has one, starts out assigned.
    /// A prefix length beyond 32 is no valid CIDR.
    pub fn new(addr: u32, prefix: u8) -> (r: Result<AddressSpace, VpnError>)
        ensures
            prefix > 32 <==> r is Err,
            r matches Err(e) ==> e == VpnError::InvalidCidr,
            r matches Ok(s) ==> {
                &&& s.wf()
                &&& s.spec_prefix() == prefix
                &&& s.spec_network() == addr - ((addr as int) % (pow2((32 - prefix) as nat) as int))
                &&& s.spec_network() <= addr <= s.spec_broadcast()
                &&& s.spec_broadcast() - s.spec_network() + 1 == pow2((32 - prefix) as nat)
                &&& (s.spec_has_gateway() ==> s.spec_taken() == seq![(s.spec_gateway() as u32)])
                &&& (!s.spec_has_gateway() ==> s.spec_taken() == Seq::<u32>::empty())
            },
    {
        if prefix > 32 {
            return Err(VpnError::InvalidCidr);
        }
        let blk: u64 = pow2_exec(32 - prefix);
        proof {
            lemma2_to64();
            if prefix > 0 {
                lemma_pow2_strictly_increases((32 - prefix) as nat, 32);
            }
            assert(blk >= 1) by {
                vstd::arithmetic::power2::lemma_pow2_pos((32 - prefix) as nat);
            }
        }
        let rem: u64 = (addr as u64) % blk;
        proof {
            vstd::arithmetic::div_mod::lemma_mod_bound(addr as int, blk as int);
            lemma_fundamental_div_mod(addr as int, blk as int);
            vstd::arithmetic::div_mod::lemma_div_pos_is_pos(addr as int, blk as int);
            vstd::arithmetic::mul::lemma_mul_nonnegative(blk as int, (addr as int) / (blk as int));
            assert(rem <= addr as u64);
        }
        let network: u32 = ((addr as u64 - rem) as u32);
        proof {
            let b = blk as int;
            let q = (addr as int) / b;
            let qq = pow2(prefix as nat) as int;
            let full = pow2(32) as int;
            lemma_fundamental_div_mod(addr as int, b);
            assert(network as int == b * q);
            assert(full == b * qq) by {
                lemma_pow2_adds((32 - prefix) as nat, prefix as nat);
            }
            assert(b * q <= addr as int);
            assert(addr < full);
            assert(q < qq) by (nonlinear_arith)
                requires
                    b * q < b * qq,
                    b >= 1,
            {}
            assert(b * q + b <= b * qq) by (nonlinear_arith)
                requires
                    q < qq,
                    b >= 1,
                    q + 1 <= qq,
            {}
            assert((network as int) % b == 0) by (nonlinear_arith)
                requires
                    network as int == b * q,
                    b >= 1,
            {}
        }
        let bcast: u32 = network + (blk - 1) as u32;
        let mut taken: Vec<u32> = Vec::new();
        if prefix <= 30 {
            proof {
                lemma_pow2_strictly_increases(1, (32 - prefix) as nat);
                lemma2_to64();
            }
            taken.push(network + 1);
        }
        let s = AddressSpace { network, bcast, prefix, taken };
        proof {
            assert(s.taken@.no_duplicates());
            if prefix <= 30 {
                assert(s.spec_taken() =~= seq![(s.spec_gateway() as u32)]);
            } else {
                assert(s.spec_taken() =~= Seq::<u32>::empty());
            }
        }
        Ok(s)
    }

    /// The network address.
    pub fn network_addr(&self) -> (r: u32)
        ensures
            r == self.spec_network(),
    {
        self.network
    }

    /// The broadcast address.
    pub fn broadcast_addr(&self) -> (r: u32)
        ensures
            r == self.spec_broadcast(),
    {
        self.bcast
    }

    /// The netmask of the subnet: the high `prefix` bits set.
    pub fn netmask(&self) -> (r: u32)
        requires
            self.wf(),
        ensures
            r == pow2(32) - pow2((32 - self.spec_prefix()) as nat),
    {
        let blk: u64 = pow2_exec(32 - self.prefix);
        proof {
            lemma2_to64();
            if self.prefix > 0 {
                lemma_pow2_strictly_increases((32 - self.prefix) as nat, 32);
            }
            vstd::arithmetic::power2::lemma_pow2_pos((32 - self.prefix) as nat);
        }
        (0x1_0000_0000u64 - blk) as u32
    }

    /// The gateway address, where the subnet has room for one.
    pub fn gateway(&self) -> (r: Option<u32>)
        requires
            self.wf(),
        ensures
            self.spec_has_gateway() <==> r is Some,
            r matches Some(g) ==> g == self.spec_gateway(),
    {
        proof {
            lemma2_to64();
            if self.prefix <= 30 {
                lemma_pow2_strictly_increases(1, (32 - self.prefix) as nat);
            }
        }
        if self.prefix <= 30 {
            Some(self.network + 1)
        } else {
            None
        }
    }

    /// Whether the address lies in the subnet, network and broadcast
    /// addresses included.
    pub fn contains(&self, ip: u32) -> (r: bool)
        requires
            self.wf(),
        ensures
            r == (self.spec_network() <= ip <= self.spec_broadcast()),
    {
        self.network <= ip && ip <= self.bcast
    }

    /// Assigns the requested address.  Addresses outside the usable host
    /// range are refused as out of range; an address already assigned — the
    /// gateway among them — as taken.
    pub fn allocate(&mut self, ip: u32) -> (r: Result<(), VpnError>)
        requires
            old(self).wf(),
        ensures
            final(self).wf(),
            !old(self).spec_usable(ip as int) ==> (r == Err::<(), VpnError>(
                VpnError::AddressOutOfRange,
            ) && *final(self) == *old(self)),
            old(self).spec_usable(ip as int) && old(self).spec_taken().contains(ip) ==> (r
                == Err::<(), VpnError>(VpnError::AddressTaken) && *final(self) == *old(self)),
            old(self).spec_usable(ip as int) && !old(self).spec_taken().contains(ip) ==> (r
                is Ok && final(self).spec_taken() == old(self).spec_taken().push(ip)),
            final(self).spec_prefix() == old(self).spec_prefix(),
            final(self).spec_network() == old(self).spec_network(),
            final(self).spec_broadcast() == old(self).spec_broadcast(),
    {
        if !(self.network < ip && ip < self.bcast) {
            return Err(VpnError::AddressOutOfRange);
        }
        if vec_contains_u32(&self.taken, ip) {
            return Err(VpnError::AddressTaken);
        }
        self.taken.push(ip);
        Ok(())
    }

    /// Assigns the lowest unassigned address after the gateway; fails only
    /// when every usable address after the gateway is assigned.
    #[verifier::loop_isolation(false)]
    pub fn allocate_next(&mut self) -> (r: Result<u32, VpnError>)
        requires
            old(self).wf(),
        ensures
            final(self).wf(),
            r matches Ok(ip) ==> {
                &&& old(self).spec_gateway() < ip < old(self).spec_broadcast()
                &&& !old(self).spec_taken().contains(ip)
                &&& forall|a: int|
                    old(self).spec_gateway() < a < ip ==> old(self).spec_taken().contains(#[trigger] (a as u32))
                &&& final(self).spec_taken() == old(self).spec_taken().push(ip)
            },
            r matches Err(e) ==> {
                &&& e == VpnError::AddressSpaceExhausted
                &&& *final(self) == *old(self)
                &&& forall|a: int|
                    old(self).spec_gateway() < a < old(self).spec_broadcast()
                        ==> old(self).spec_taken().contains(#[trigger] (a as u32))
            },
            final(self).spec_prefix() == old(self).spec_prefix(),
            final(self).spec_network() == old(self).spec_network(),
            final(self).spec_broadcast() == old(self).spec_broadcast(),
    {
        proof {
            vstd::arithmetic::power2::lemma_pow2_pos((32 - self.prefix) as nat);
        }
        if self.bcast - self.network < 3 {
            return Err(VpnError::AddressSpaceExhausted);
        }
        let ghost orig: AddressSpace = *self;
        let mut ip: u32 = self.network + 2;
        while ip < self.bcast
            invariant
                *self == orig,
                self.wf(),
                self.spec_network() + 2 <= ip <= self.spec_broadcast(),
                forall|a: int|
                    self.spec_gateway() < a < ip ==> self.spec_taken().contains(
                        #[trigger] (a as u32),
                    ),
            decreases self.spec_broadcast() - ip,
        {
            if !vec_contains_u32(&self.taken, ip) {
                let ghost before = self.taken@;
                self.taken.push(ip);
                proof {
                    assert(self.taken@ == before.push(ip));
                    assert(self.taken@.no_duplicates()) by {
                        assert(forall|j: int| 0 <= j < before.len() ==> before[j] != ip);
                    }
                }
                return Ok(ip);
            }
            ip = ip + 1;
        }
        Err(VpnError::AddressSpaceExhausted)
    }

    /// Returns an address to the pool; an address not assigned is left as
    /// it is, so a retry of a release is harmless.
    pub fn release(&mut self, ip: u32)
        requires
            old(self).wf(),
        ensures
            final(self).wf(),
            !final(self).spec_taken().contains(ip),
            forall|a: u32| a != ip ==> final(self).spec_taken().contains(a) == old(
                self,
            ).spec_taken().contains(a),
            final(self).spec_prefix() == old(self).spec_prefix(),
            final(self).spec_network() == old(self).spec_network(),
            final(self).spec_broadcast() == old(self).spec_broadcast(),
    {
        let mut i: usize = 0;
        while i < self.taken.len()
            invariant
                self.wf(),
                i <= self.taken@.len(),
                forall|j: int| 0 <= j < i ==> self.taken@[j] != ip,
                self.spec_prefix() == old(self).spec_prefix(),
                self.spec_network() == old(self).spec_network(),
                self.spec_broadcast() == old(self).spec_broadcast(),
                self.spec_taken() == old(self).spec_taken(),
            decreases self.taken@.len() - i,
        {
            if self.taken[i] == ip {
                let ghost before = self.taken@;
                self.taken.remove(i);
                proof {
                    assert(self.taken@ =~= before.subrange(0, i as int) + before.subrange(
                        i + 1,
                        before.len() as int,
                    ));
                    assert forall|a: u32| a != ip implies self.taken@.contains(a) == before.contains(
                        a,
                    ) by {
                        if before.contains(a) {
                            let k = choose|k: int| 0 <= k < before.len() && before[k] == a;
                            if k < i {
                                assert(self.taken@[k] == a);
                            } else {
                                assert(k > i);
                                assert(self.taken@[k - 1] == a);
                            }
                        }
                        if self.taken@.contains(a) {
                            let k = choose|k: int|
                                0 <= k < self.taken@.len() && self.taken@[k] == a;
                            if k < i {
                                assert(before[k] == a);
                            } else {
                                assert(before[k + 1] == a);
                            }
                        }
                    }
                    assert(!self.taken@.contains(ip)) by {
                        if self.taken@.contains(ip) {
                            let k = choose|k: int|
                                0 <= k < self.taken@.len() && self.taken@[k] == ip;
                            if k < i {
                            } else {
                                assert(before[k + 1] == ip);
                                assert(before[i as int] == ip);
                            }
                        }
                    }
                    assert(self.taken@.no_duplicates()) by {
                        assert forall|p: int, q: int|
                            0 <= p < q < self.taken@.len() implies self.taken@[p] != self.taken@[q]
                        by {
                            if q < i {
                            } else if p < i {
                                assert(self.taken@[p] == before[p]);
                                assert(self.taken@[q] == before[q + 1]);
                            } else {
                                assert(self.taken@[p] == before[p + 1]);
                                assert(self.taken@[q] == before[q + 1]);
                            }
                        }
                    }
                }
                return ;
            }
            i = i + 1;
        }
        proof {
            assert(!self.spec_taken().contains(ip)) by {
                if self.spec_taken().contains(ip) {
                    let k = choose|k: int|
                        0 <= k < self.taken@.len() && self.taken@[k] == ip;
                }
            }
        }
    }
}

} // verus!

//! Per-interface multiplexing of logical connections over the shared
//! device: a connection table keyed by local port.
//!
//! Ports are drawn from a configurable contiguous range of the 16-bit port
//! space.  Allocation scans from a moving hint and wraps around, so a freed
//! port is not reused at once; a port is reused only after its socket is
//! closed or reclaimed.

use vstd::prelude::*;
use crate::error::VpnError;

verus! {

/// One logical connection: the local port, the remote peer, the transport
/// flavour, and when traffic was last seen (a caller-supplied clock value,
/// for idle reclamation).
pub struct Socket {
    pub local_port: u16,
    pub remote_node: String,
    pub remote_port: u16,
    pub reliable: bool,
    pub last_seen: u64,
}

impl Socket {
    /// Whether this socket connects to the given remote endpoint over the
    /// given transport flavour.
    pub open spec fn node_id_matches(self, node: Seq<char>, port: u16, reliable: bool) -> bool {
        self.remote_node@ == node && self.remote_port == port && self.reliable == reliable
    }
}

/// The sockets that idle reclamation at clock `now` with the given
/// timeout keeps: those whose last-seen clock is not yet `timeout` behind.
pub open spec fn live_entries(entries: Seq<Socket>, now: u64, timeout: u64) -> Seq<Socket> {
    entries.filter(|s: Socket| s.last_seen + timeout >= now)
}

/// The connection table of one interface.
pub struct PortTable {
    first: u16,
    count: u16,
    next: u16,
    entries: Vec<Socket>,
}

impl PortTable {
    /// The first port of the allocatable range.
    pub closed spec fn spec_first(self) -> u16 {
        self.first
    }

    /// How many ports the range holds.
    pub closed spec fn spec_count(self) -> u16 {
        self.count
    }

    /// The open sockets, in table order.
    pub closed spec fn spec_entries(self) -> Seq<Socket> {
        self.entries@
    }

    /// The allocation hint the next open scans from.
    pub closed spec fn spec_hint(self) -> u16 {
        self.next
    }

    /// The local ports currently open.
    pub open spec fn spec_ports(self) -> Seq<u16> {
        Seq::new(self.spec_entries().len(), |i: int| self.spec_entries()[i].local_port)
    }

    /// Whether the port is open.
    pub open spec fn spec_has_port(self, p: u16) -> bool {
        self.spec_ports().contains(p)
    }

    /// Whether the port lies in the allocatable range.
    pub open spec fn spec_in_range(self, p: int) -> bool {
        self.spec_first() <= p < self.spec_first() + self.spec_count()
    }

    /// Structural soundness: every open port is in range and open once, and
    /// the allocation hint stays inside the range.
    pub closed spec fn wf(self) -> bool {
        &&& self.first + self.count <= 0x10000
        &&& self.next < self.count || (self.count == 0 && self.next == 0)
        &&& forall|i: int|
            0 <= i < self.entries@.len() ==> self.spec_in_range(
                #[trigger] self.entries@[i].local_port as int,
            )
        &&& forall|i: int, j: int|
            0 <= i < j < self.entries@.len() ==> #[trigger] self.entries@[i].local_port
                != #[trigger] self.entries@[j].local_port
    }

    /// Every open port is held by exactly one socket in a sound table.
    pub proof fn lemma_ports_unique(self)
        requires
            self.wf(),
        ensures
            forall|i: int, j: int|
                0 <= i < j < self.spec_entries().len() ==> #[trigger] self.spec_entries()[i].local_port
                    != #[trigger] self.spec_entries()[j].local_port,
    {
    }

    /// An empty table over the given port range.
    pub fn new(first: u16, count: u16) -> (r: PortTable)
        requires
            first + count <= 0x10000,
        ensures
            r.wf(),
            r.spec_first() == first,
            r.spec_count() == count,
            r.spec_entries() == Seq::<Socket>::empty(),
    {
        PortTable { first, count, next: 0, entries: Vec::new() }
    }

    /// An empty table over the whole conventional port space, port zero
    /// left out.
    pub fn new_full() -> (r: PortTable)
        ensures
            r.wf(),
            r.spec_first() == 1,
            r.spec_count() == 0xffff,
            r.spec_entries() == Seq::<Socket>::empty(),
    {
        PortTable::new(1, 0xffff)
    }

    /// The port scanned in step `j` of an allocation that starts at the
    /// current hint and wraps at the end of the range.
    pub closed spec fn scan_port(self, j: int) -> int {
        if self.next + j < self.count {
            self.first + self.next + j
        } else {
            self.first + self.next + j - self.count
        }
    }

    /// Whether any entry holds the port.
    fn port_in_use(&self, p: u16) -> (r: bool)
        ensures
            r == self.spec_has_port(p),
    {
        let mut i: usize = 0;
        while i < self.entries.len()
            invariant
                i <= self.entries@.len(),
                forall|j: int| 0 <= j < i ==> self.entries@[j].local_port != p,
            decreases self.entries@.len() - i,
        {
            if self.entries[i].local_port == p {
                proof {
                    assert(self.spec_ports()[i as int] == p);
                }
                return true;
            }
            i = i + 1;
        }
        proof {
            if self.spec_has_port(p) {
                let k = choose|k: int|
                    0 <= k < self.spec_ports().len() && self.spec_ports()[k] == p;
                assert(self.entries@[k].local_port == p);
            }
        }
        false
    }

    /// Opens a socket to the remote peer: allocates a free local port,
    /// scanning from the hint and wrapping, and records the connection.
    /// Fails only when every port of the range is open.
    #[verifier::loop_isolation(false)]
    pub fn open(
        &mut self,
        remote_node: String,
        remote_port: u16,
        reliable: bool,
        now: u64,
    ) -> (r: Result<u16, VpnError>)
        requires
            old(self).wf(),
        ensures
            final(self).wf(),
            final(self).spec_first() == old(self).spec_first(),
            final(self).spec_count() == old(self).spec_count(),
            r matches Ok(p) ==> {
                &&& old(self).spec_in_range(p as int)
                &&& !old(self).spec_has_port(p)
                &&& final(self).spec_entries() == old(self).spec_entries().push(
                    Socket {
                        local_port: p,
                        remote_node: remote_node,
                        remote_port: remote_port,
                        reliable: reliable,
                        last_seen: now,
                    },
                )
            },
            r matches Err(e) ==> {
                &&& e == VpnError::PortsExhausted
                &&& final(self).spec_entries() == old(self).spec_entries()
                &&& forall|q: int|
                    old(self).spec_in_range(q) ==> old(self).spec_has_port(#[trigger] (q as u16))
            },
    {
        let mut j: u16 = 0;
        while j < self.count
            invariant
                *self == *old(self),
                forall|k: int| 0 <= k < j ==> self.spec_has_port(#[trigger] (self.scan_port(k) as u16)),
            decreases self.count - j,
        {
            let off32: u32 = self.next as u32 + j as u32;
            let off: u16 = if off32 < self.count as u32 {
                off32 as u16
            } else {
                (off32 - self.count as u32) as u16
            };
            let cand: u16 = self.first + off;
            proof {
                assert(cand as int == self.scan_port(j as int));
            }
            if !self.port_in_use(cand) {
                self.next = if off + 1 < self.count {
                    off + 1
                } else {
                    0
                };
                let ghost before = self.entries@;
                self.entries.push(
                    Socket {
                        local_port: cand,
                        remote_node,
                        remote_port,
                        reliable,
                        last_seen: now,
                    },
                );
                proof {
                    assert forall|a: int, b: int|
                        0 <= a < b < self.entries@.len() implies #[trigger] self.entries@[a].local_port
                        != #[trigger] self.entries@[b].local_port by {
                        if b == self.entries@.len() - 1 {
                            if old(self).spec_has_port(cand) {
                                assert(false);
                            }
                            assert(old(self).spec_ports()[a] == before[a].local_port);
                        }
                    }
                }
                return Ok(cand);
            }
            j = j + 1;
        }
        proof {
            assert forall|q: int| self.spec_in_range(q) implies self.spec_has_port(
                #[trigger] (q as u16),
            ) by {
                let off = q - self.first;
                let k: int = if off >= self.next {
                    off - self.next
                } else {
                    off + self.count - self.next
                };
                assert(0 <= k < self.count);
                assert(self.scan_port(k) == q);
            }
        }
        Err(VpnError::PortsExhausted)
    }

    /// The socket open on the port, if any.
    pub fn lookup(&self, p: u16) -> (r: Option<&Socket>)
        requires
            self.wf(),
        ensures
            self.spec_has_port(p) <==> r is Some,
            r matches Some(s) ==> s.local_port == p && self.spec_entries().contains(*s),
    {
        let mut i: usize = 0;
        while i < self.entries.len()
            invariant
                i <= self.entries@.len(),
                forall|j: int| 0 <= j < i ==> self.entries@[j].local_port != p,
            decreases self.entries@.len() - i,
        {
            if self.entries[i].local_port == p {
                proof {
                    assert(self.spec_ports()[i as int] == p);
                }
                return Some(&self.entries[i]);
            }
            i = i + 1;
        }
        proof {
            if self.spec_has_port(p) {
                let k = choose|k: int|
                    0 <= k < self.spec_ports().len() && self.spec_ports()[k] == p;
                assert(self.entries@[k].local_port == p);
            }
        }
        None
    }

    /// The local port already connected to the given remote endpoint, if
    /// any: the connection tuple is looked up by remote node, remote port
    /// and transport flavour.
    pub fn find_remote(&self, remote_node: &str, remote_port: u16, reliable: bool) -> (r: Option<
        u16,
    >)
        requires
            self.wf(),
        ensures
            r is Some <==> (exists|i: int|
                0 <= i < self.spec_entries().len() && (#[trigger] self.spec_entries()[i]).node_id_matches(
                    remote_node@,
                    remote_port,
                    reliable,
                )),
            r matches Some(p) ==> self.spec_has_port(p) && (exists|i: int|
                0 <= i < self.spec_entries().len() && (#[trigger] self.spec_entries()[i]).node_id_matches(
                    remote_node@,
                    remote_port,
                    reliable,
                ) && self.spec_entries()[i].local_port == p),
    {
        let key = <String as vstd::string::StringExecFns>::from_str(remote_node);
        let mut i: usize = 0;
        while i < self.entries.len()
            invariant
                i <= self.entries@.len(),
                key@ == remote_node@,
                forall|j: int|
                    0 <= j < i ==> !(#[trigger] self.entries@[j]).node_id_matches(
                        remote_node@,
                        remote_port,
                        reliable,
                    ),
            decreases self.entries@.len() - i,
        {
            let e = &self.entries[i];
            if e.remote_node == key && e.remote_port == remote_port && e.reliable == reliable {
                proof {
                    assert(self.spec_entries()[i as int].node_id_matches(
                        remote_node@,
                        remote_port,
                        reliable,
                    ));
                    assert(self.spec_ports()[i as int] == self.entries@[i as int].local_port);
                }
                return Some(e.local_port);
            }
            i = i + 1;
        }
        None
    }

    /// Marks traffic on the port: the socket's last-seen clock is moved to
    /// `now`, and nothing else changes; a port not open is left as it is.
    #[verifier::loop_isolation(false)]
    pub fn touch(&mut self, p: u16, now: u64)
        requires
            old(self).wf(),
        ensures
            final(self).wf(),
            final(self).spec_first() == old(self).spec_first(),
            final(self).spec_count() == old(self).spec_count(),
            final(self).spec_entries().len() == old(self).spec_entries().len(),
            !old(self).spec_has_port(p) ==> *final(self) == *old(self),
            forall|i: int|
                0 <= i < old(self).spec_entries().len() && (#[trigger] old(
                    self,
                ).spec_entries()[i]).local_port != p ==> final(self).spec_entries()[i] == old(
                    self,
                ).spec_entries()[i],
            forall|i: int|
                0 <= i < old(self).spec_entries().len() && (#[trigger] old(
                    self,
                ).spec_entries()[i]).local_port == p ==> final(self).spec_entries()[i] == (Socket {
                    last_seen: now,
                    ..old(self).spec_entries()[i]
                }),
    {
        let mut i: usize = 0;
        while i < self.entries.len()
            invariant
                *self == *old(self),
                i <= self.entries@.len(),
                forall|j: int| 0 <= j < i ==> self.entries@[j].local_port != p,
            decreases self.entries@.len() - i,
        {
            if self.entries[i].local_port == p {
                let ghost before = self.entries@;
                let refreshed = Socket {
                    local_port: self.entries[i].local_port,
                    remote_node: self.entries[i].remote_node.clone(),
                    remote_port: self.entries[i].remote_port,
                    reliable: self.entries[i].reliable,
                    last_seen: now,
                };
                self.entries[i] = refreshed;
                proof {
                    assert(self.entries@ == before.update(
                        i as int,
                        (Socket { last_seen: now, ..before[i as int] }),
                    ));
                    assert forall|a: int, b: int|
                        0 <= a < b < self.entries@.len() implies #[trigger] self.entries@[a].local_port
                        != #[trigger] self.entries@[b].local_port by {
                        assert(before[a].local_port != before[b].local_port);
                    }
                    assert(old(self).spec_ports()[i as int] == p);
                }
                return ;
            }
            i = i + 1;
        }
        proof {
            if self.spec_has_port(p) {
                let k = choose|k: int|
                    0 <= k < self.spec_ports().len() && self.spec_ports()[k] == p;
                assert(self.entries@[k].local_port == p);
            }
        }
    }

    /// Reclaims every socket idle beyond the timeout: exactly those whose
    /// last-seen clock lies further than `timeout` behind `now` are closed,
    /// the rest stay in order.  Explicit close needs no timeout and always
    /// wins a race with reclamation, since both run under the table's one
    /// owner.
    pub fn reclaim_idle(&mut self, now: u64, timeout: u64)
        requires
            old(self).wf(),
        ensures
            final(self).wf(),
            final(self).spec_first() == old(self).spec_first(),
            final(self).spec_count() == old(self).spec_count(),
            final(self).spec_entries() == live_entries(old(self).spec_entries(), now, timeout),
    {
        let ghost orig = *self;
        let ghost all: Seq<Socket> = self.entries@;
        let mut kept: Vec<Socket> = Vec::new();
        proof {
            assert(self.entries@ =~= all.subrange(0, self.entries@.len() as int));
        }
        loop
            invariant_except_break
                self.first == orig.spec_first(),
                self.count == orig.spec_count(),
                self.next == orig.spec_hint(),
                self.entries@.len() <= all.len(),
                self.entries@ == all.subrange(0, self.entries@.len() as int),
                live_entries(all, now, timeout) == live_entries(
                    self.entries@,
                    now,
                    timeout,
                ) + kept@.reverse(),
                forall|j: int| 0 <= j < kept@.len() ==> all.contains(#[trigger] kept@[j]),
                forall|a: int, b: int|
                    0 <= a < b < kept@.len() ==> #[trigger] kept@[a].local_port
                        != #[trigger] kept@[b].local_port,
                forall|a: int, b: int|
                    0 <= a < self.entries@.len() && 0 <= b < kept@.len()
                        ==> (#[trigger] self.entries@[a]).local_port != (#[trigger] kept@[b]).local_port,
                self.wf(),
            ensures
                self.entries@.len() == 0,
                self.first == orig.spec_first(),
                self.count == orig.spec_count(),
                self.next == orig.spec_hint(),
                live_entries(all, now, timeout) == kept@.reverse(),
                forall|j: int| 0 <= j < kept@.len() ==> all.contains(#[trigger] kept@[j]),
                forall|a: int, b: int|
                    0 <= a < b < kept@.len() ==> #[trigger] kept@[a].local_port
                        != #[trigger] kept@[b].local_port,
            decreases self.entries@.len(),
        {
            let ghost prefix = self.entries@;
            proof {
                assert(prefix == all.subrange(0, prefix.len() as int));
                assert forall|j: int| 0 <= j < prefix.len() implies prefix[j]
                    == all[j] by {
                    assert(prefix[j] == all.subrange(0, prefix.len() as int)[j]);
                }
            }
            let e = match self.entries.pop() {
                Some(e) => e,
                None => {
                    proof {
                        reveal_with_fuel(Seq::<Socket>::filter, 1);
                        assert(live_entries(prefix, now, timeout) =~= Seq::<Socket>::empty());
                    }
                    break;
                },
            };
            let keep = now <= e.last_seen || now - e.last_seen <= timeout;
            proof {
                assert(prefix.drop_last() == self.entries@);
                assert(keep == (e.last_seen + timeout >= now));
                reveal_with_fuel(Seq::<Socket>::filter, 2);
                assert(live_entries(prefix, now, timeout) == (if e.last_seen + timeout >= now {
                    live_entries(self.entries@, now, timeout).push(e)
                } else {
                    live_entries(self.entries@, now, timeout)
                }));
            }
            if keep {
                let ghost kept_before = kept@;
                kept.push(e);
                proof {
                    assert(kept@.reverse() =~= seq![kept@.last()] + kept_before.reverse());
                    assert(live_entries(self.entries@, now, timeout) + kept@.reverse() =~= (
                    live_entries(self.entries@, now, timeout).push(prefix.last()))
                        + kept_before.reverse());
                    assert(all.contains(prefix.last())) by {
                        assert(all[prefix.len() - 1] == prefix.last());
                    }
                    assert(self.entries@ =~= all.subrange(
                        0,
                        self.entries@.len() as int,
                    ));
                }
            }
        }
        let ghost drained = kept@;
        loop
            invariant_except_break
                self.first == orig.spec_first(),
                self.count == orig.spec_count(),
                self.next == orig.spec_hint(),
                drained.reverse() == self.entries@ + kept@.reverse(),
                forall|j: int| 0 <= j < kept@.len() ==> drained.contains(#[trigger] kept@[j]),
                forall|j: int| 0 <= j < self.entries@.len() ==> drained.contains(
                    #[trigger] self.entries@[j],
                ),
                forall|a: int, b: int|
                    0 <= a < b < drained.len() ==> #[trigger] drained[a].local_port
                        != #[trigger] drained[b].local_port,
                forall|a: int, b: int|
                    0 <= a < b < self.entries@.len() ==> #[trigger] self.entries@[a].local_port
                        != #[trigger] self.entries@[b].local_port,
                forall|a: int, b: int|
                    0 <= a < self.entries@.len() && 0 <= b < kept@.len()
                        ==> (#[trigger] self.entries@[a]).local_port != (#[trigger] kept@[b]).local_port,
                forall|a: int, b: int|
                    0 <= a < b < kept@.len() ==> #[trigger] kept@[a].local_port
                        != #[trigger] kept@[b].local_port,
            ensures
                self.entries@ == drained.reverse(),
                self.first == orig.spec_first(),
                self.count == orig.spec_count(),
                self.next == orig.spec_hint(),
                forall|j: int| 0 <= j < self.entries@.len() ==> drained.contains(
                    #[trigger] self.entries@[j],
                ),
                forall|a: int, b: int|
                    0 <= a < b < self.entries@.len() ==> #[trigger] self.entries@[a].local_port
                        != #[trigger] self.entries@[b].local_port,
            decreases kept@.len(),
        {
            let ghost kept_before = kept@;
            let e = match kept.pop() {
                Some(e) => e,
                None => {
                    proof {
                        assert(self.entries@ + kept@.reverse() =~= self.entries@);
                    }
                    break;
                },
            };
            let ghost entries_before = self.entries@;
            self.entries.push(e);
            proof {
                assert(kept_before.reverse() =~= seq![kept_before.last()] + kept@.reverse());
                assert(drained.reverse() =~= self.entries@ + kept@.reverse());
            }
        }
        proof {
            assert(self.entries@ == live_entries(all, now, timeout));
            assert forall|i: int|
                0 <= i < self.entries@.len() implies self.spec_in_range(
                #[trigger] self.entries@[i].local_port as int,
            ) by {
                let m = choose|m: int| 0 <= m < drained.len() && drained[m] == self.entries@[i];
                assert(all.contains(drained[m]));
                let k = choose|k: int|
                    0 <= k < all.len() && all[k]
                        == drained[m];
                assert(orig.spec_in_range(all[k].local_port as int));
            }
        }
    }

    /// Closes the socket on the port and frees the port for reuse; a port
    /// not open is left as it is, so closing twice is harmless.
    #[verifier::loop_isolation(false)]
    pub fn close(&mut self, p: u16)
        requires
            old(self).wf(),
        ensures
            final(self).wf(),
            final(self).spec_first() == old(self).spec_first(),
            final(self).spec_count() == old(self).spec_count(),
            !final(self).spec_has_port(p),
            forall|q: u16|
                q != p ==> final(self).spec_has_port(q) == old(self).spec_has_port(q),
            forall|s: Socket|
                s.local_port != p ==> final(self).spec_entries().contains(s) == old(
                    self,
                ).spec_entries().contains(s),
    {
        let mut i: usize = 0;
        while i < self.entries.len()
            invariant
                *self == *old(self),
                i <= self.entries@.len(),
                forall|j: int| 0 <= j < i ==> self.entries@[j].local_port != p,
            decreases self.entries@.len() - i,
        {
            if self.entries[i].local_port == p {
                let ghost before = self.entries@;
                self.entries.remove(i);
                proof {
                    assert(self.entries@ =~= before.subrange(0, i as int) + before.subrange(
                        i + 1,
                        before.len() as int,
                    ));
                    lemma_removal_keeps_others(before, self.entries@, i as int);
                    assert(!self.spec_has_port(p)) by {
                        if self.spec_has_port(p) {
                            let k = choose|k: int|
                                0 <= k < self.spec_ports().len() && self.spec_ports()[k] == p;
                            if k < i {
                            } else {
                                assert(before[k + 1].local_port == p);
                                assert(before[i as int].local_port == p);
                            }
                        }
                    }
                    assert forall|q: u16| q != p implies self.spec_has_port(q) == old(
                        self,
                    ).spec_has_port(q) by {
                        lemma_port_membership(before, self.entries@, i as int, q);
                    }
                }
                return ;
            }
            i = i + 1;
        }
        proof {
            if self.spec_has_port(p) {
                let k = choose|k: int|
                    0 <= k < self.spec_ports().len() && self.spec_ports()[k] == p;
                assert(self.entries@[k].local_port == p);
            }
        }
    }
}

/// Removing index `i` keeps every other socket's membership: a socket is in
/// the shorter table iff it is in the longer one at an index other than `i`.
proof fn lemma_removal_keeps_others(before: Seq<Socket>, after: Seq<Socket>, i: int)
    requires
        0 <= i < before.len(),
        after == before.subrange(0, i) + before.subrange(i + 1, before.len() as int),
    ensures
        forall|s: Socket|
            (#[trigger] after.contains(s)) == (exists|k: int|
                0 <= k < before.len() && k != i && before[k] == s),
{
    assert forall|s: Socket| #[trigger]
        after.contains(s) implies (exists|k: int|
        0 <= k < before.len() && k != i && before[k] == s) by {
        let m = choose|m: int| 0 <= m < after.len() && after[m] == s;
        if m < i {
            assert(before[m] == s);
        } else {
            assert(before[m + 1] == s);
        }
    }
    assert forall|s: Socket|
        (exists|k: int| 0 <= k < before.len() && k != i && before[k] == s) implies #[trigger] after.contains(
        s,
    ) by {
        let k = choose|k: int| 0 <= k < before.len() && k != i && before[k] == s;
        if k < i {
            assert(after[k] == s);
        } else {
            assert(after[k - 1] == s);
        }
    }
}

/// Removing index `i` keeps every port other than the removed entry's own.
proof fn lemma_port_membership(before: Seq<Socket>, after: Seq<Socket>, i: int, q: u16)
    requires
        0 <= i < before.len(),
        after == before.subrange(0, i) + before.subrange(i + 1, before.len() as int),
        before[i].local_port != q,
    ensures
        Seq::new(after.len(), |k: int| after[k].local_port).contains(q) == Seq::new(
            before.len(),
            |k: int| before[k].local_port,
        ).contains(q),
{
    let ap = Seq::new(after.len(), |k: int| after[k].local_port);
    let bp = Seq::new(before.len(), |k: int| before[k].local_port);
    if ap.contains(q) {
        let m = choose|m: int| 0 <= m < ap.len() && ap[m] == q;
        if m < i {
            assert(bp[m] == q);
        } else {
            assert(bp[m + 1] == q);
        }
        assert(bp.contains(q));
    }
    if bp.contains(q) {
        let m = choose|m: int| 0 <= m < bp.len() && bp[m] == q;
        if m < i {
            assert(ap[m] == q);
        } else if m == i {
        } else {
            assert(ap[m - 1] == q);
        }
        assert(ap.contains(q));
    }
}

} // verus!

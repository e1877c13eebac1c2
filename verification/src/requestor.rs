//! The requestor's thin facade over the control plane, for the peer that
//! initiates network creation: the same provisioning operations, bound to
//! the one service instance the requestor owns.

use vstd::prelude::*;
use crate::device::Interface;
use crate::error::VpnError;
use crate::ipstr::dec_digits;
use crate::service::{VpnService, spec_join_outcome, spec_leave_outcome};

verus! {

/// A requestor's handle on its own control plane.
pub struct VpnRequestor {
    service: VpnService,
}

impl VpnRequestor {
    /// The service behind the facade.
    pub closed spec fn spec_service(self) -> VpnService {
        self.service
    }

    /// A requestor with a fresh service.
    pub fn new() -> (r: VpnRequestor)
        ensures
            r.spec_service().wf(),
            r.spec_service().spec_networks() == Seq::<crate::network::Network>::empty(),
    {
        VpnRequestor { service: VpnService::new() }
    }

    /// Creates a network; the id comes back fresh, as the service mints it.
    pub fn create_network(&mut self, addr: u32, prefix: u8) -> (r: Result<String, VpnError>)
        requires
            old(self).spec_service().wf(),
            old(self).spec_service().spec_next_id() < 0xffff_ffff_ffff_ffff,
        ensures
            final(self).spec_service().wf(),
            prefix > 30 <==> r is Err,
            r matches Err(e) ==> e == VpnError::InvalidCidr && *final(self) == *old(self),
            r matches Ok(id) ==> {
                &&& id@ == dec_digits(old(self).spec_service().spec_next_id() as nat)
                &&& !old(self).spec_service().spec_has_network(id@)
                &&& final(self).spec_service().spec_has_network(id@)
            },
    {
        let r = self.service.create_network(addr, prefix);
        proof {
            if r is Ok {
                let nets = self.service.spec_networks();
                assert(nets[nets.len() - 1].spec_id() == r->Ok_0@);
            }
        }
        r
    }

    /// Joins a node to a network, exactly as the service does.
    pub fn join(&mut self, network_id: &str, node_id: &str, requested: Option<u32>) -> (r: Result<
        Interface,
        VpnError,
    >)
        requires
            old(self).spec_service().wf(),
        ensures
            final(self).spec_service().wf(),
            !old(self).spec_service().spec_has_network(network_id@) ==> r == Err::<
                Interface,
                VpnError,
            >(VpnError::NetworkNotFound),
            old(self).spec_service().spec_has_network(network_id@) ==> forall|j: int|
                0 <= j < old(self).spec_service().spec_networks().len() && (#[trigger] old(
                    self,
                ).spec_service().spec_networks()[j].spec_id()) == network_id@
                    ==> spec_join_outcome(
                    old(self).spec_service().spec_networks()[j],
                    final(self).spec_service().spec_networks()[j],
                    node_id@,
                    network_id@,
                    requested,
                    r,
                ),
    {
        self.service.join(network_id, node_id, requested)
    }

    /// Removes a node from a network; harmless to retry.
    pub fn leave(&mut self, network_id: &str, node_id: &str)
        requires
            old(self).spec_service().wf(),
        ensures
            final(self).spec_service().wf(),
            forall|j: int|
                0 <= j < old(self).spec_service().spec_networks().len() && (#[trigger] old(
                    self,
                ).spec_service().spec_networks()[j].spec_id()) == network_id@
                    ==> spec_leave_outcome(
                    old(self).spec_service().spec_networks()[j],
                    final(self).spec_service().spec_networks()[j],
                    node_id@,
                ),
    {
        self.service.leave(network_id, node_id)
    }

    /// Destroys an empty network; harmless to retry, refused while in use.
    pub fn destroy_network(&mut self, network_id: &str) -> (r: Result<(), VpnError>)
        requires
            old(self).spec_service().wf(),
        ensures
            final(self).spec_service().wf(),
            r is Ok ==> !final(self).spec_service().spec_has_network(network_id@),
            r matches Err(e) ==> e == VpnError::NetworkInUse && *final(self) == *old(self),
            !old(self).spec_service().spec_has_network(network_id@) ==> (r is Ok && *final(self)
                == *old(self)),
            old(self).spec_service().spec_has_network(network_id@) ==> {
                &&& (exists|j: int|
                    0 <= j < old(self).spec_service().spec_networks().len() && (#[trigger] old(self).spec_service().spec_networks()[j].spec_id()) == network_id@ && old(self).spec_service().spec_networks()[j].spec_members().len() > 0) ==> (r == Err::<
                    (),
                    VpnError,
                >(VpnError::NetworkInUse) && *final(self) == *old(self))
                &&& (forall|j: int|
                    0 <= j < old(self).spec_service().spec_networks().len() && (#[trigger] old(self).spec_service().spec_networks()[j].spec_id()) == network_id@ ==> old(self).spec_service().spec_networks()[j].spec_members().len() == 0) ==> {
                    &&& r is Ok
                    &&& final(self).spec_service().spec_networks().len() == old(self).spec_service().spec_networks().len() - 1
                    &&& forall|id: Seq<char>|
                        id != network_id@ ==> final(self).spec_service().spec_has_network(id)
                            == old(self).spec_service().spec_has_network(id)
                }
            },
    {
        self.service.destroy_network(network_id)
    }

    /// The service behind the facade, for state queries.
    pub fn service(&self) -> (r: &VpnService)
        ensures
            *r == self.spec_service(),
    {
        &self.service
    }
}

} // verus!

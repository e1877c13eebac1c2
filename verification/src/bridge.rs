//! The endpoint bridge's protocol half: framing between the sandboxed
//! unit's raw byte stream and discrete packets.
//!
//! The transport itself — connecting, reading, writing, the two concurrent
//! forwarding tasks — lives outside; this type owns the receive buffer and
//! the open/closed state the two directions share, and decides what every
//! chunk of raw bytes and every outbound packet becomes.

use vstd::prelude::*;
use crate::codec::{RxBuffer, decode_state, encode, encode_spec, seq_views, MAX_FRAME_SIZE};
use crate::codec::lemma_residual_holds_no_frame;
use crate::error::VpnError;

verus! {

/// The transport kinds a sandboxed unit can expose.  Only a
/// filesystem-addressed local socket is supported today.
pub enum TransportEndpoint {
    Socket(String),
    Other,
}

/// The path of a supported endpoint; every other kind is refused.
pub fn endpoint_path(ep: &TransportEndpoint) -> (r: Result<&str, VpnError>)
    ensures
        ep matches TransportEndpoint::Socket(p) ==> (r matches Ok(q) && q@ == p@),
        ep is Other ==> r == Err::<&str, VpnError>(VpnError::UnsupportedEndpoint),
{
    match ep {
        TransportEndpoint::Socket(p) => Ok(p.as_str()),
        TransportEndpoint::Other => Err(VpnError::UnsupportedEndpoint),
    }
}

/// One bridge instance: the inbound receive buffer and the shared
/// open/closed state.
pub struct EndpointBridge {
    rx: RxBuffer,
    open: bool,
}

impl EndpointBridge {
    /// Whether both directions may still run.
    pub closed spec fn spec_open(self) -> bool {
        self.open
    }

    /// The unconsumed residual of the guest byte stream.
    pub closed spec fn spec_residual(self) -> Seq<u8> {
        self.rx@
    }

    /// The buffer never holds a complete frame between decode passes.
    pub open spec fn wf(self) -> bool {
        &&& decode_state(self.spec_residual()).0 == Seq::<Seq<u8>>::empty()
        &&& decode_state(self.spec_residual()).1 == self.spec_residual()
    }

    /// A fresh, open bridge with nothing buffered.
    pub fn new() -> (r: EndpointBridge)
        ensures
            r.wf(),
            r.spec_open(),
            r.spec_residual() == Seq::<u8>::empty(),
    {
        EndpointBridge { rx: RxBuffer::default(), open: true }
    }

    /// Whether both directions may still run.
    pub fn is_open(&self) -> (r: bool)
        ensures
            r == self.spec_open(),
    {
        self.open
    }

    /// One chunk of raw bytes read from the unit's socket: appended to the
    /// receive buffer, and every message that is now complete comes back,
    /// in order, ready to be routed as outbound packets.  A bridge already
    /// torn down refuses.
    pub fn on_guest_bytes(&mut self, chunk: Vec<u8>) -> (r: Result<Vec<Vec<u8>>, VpnError>)
        requires
            old(self).wf(),
        ensures
            final(self).wf(),
            final(self).spec_open() == old(self).spec_open(),
            !old(self).spec_open() ==> (r == Err::<Vec<Vec<u8>>, VpnError>(VpnError::TransportIo)
                && *final(self) == *old(self)),
            old(self).spec_open() ==> (r matches Ok(out) && seq_views(out@) == decode_state(
                old(self).spec_residual() + chunk@,
            ).0 && final(self).spec_residual() == decode_state(
                old(self).spec_residual() + chunk@,
            ).1),
    {
        if !self.open {
            return Err(VpnError::TransportIo);
        }
        let out = self.rx.process(chunk);
        proof {
            lemma_residual_holds_no_frame(old(self).spec_residual() + chunk@);
        }
        Ok(out)
    }

    /// Frames one packet from the network for the unit's socket; a packet
    /// too large for the length prefix is refused, and a bridge already
    /// torn down refuses everything.
    pub fn frame_for_guest(&self, packet: &[u8]) -> (r: Result<Vec<u8>, VpnError>)
        ensures
            !self.spec_open() ==> r == Err::<Vec<u8>, VpnError>(VpnError::TransportIo),
            self.spec_open() ==> {
                &&& packet@.len() <= MAX_FRAME_SIZE <==> r is Ok
                &&& (r matches Ok(v) ==> v@ == encode_spec(packet@))
                &&& (r matches Err(e) ==> e == VpnError::FrameTooLarge)
            },
    {
        if !self.open {
            return Err(VpnError::TransportIo);
        }
        encode(packet)
    }

    /// A transport failure or stream end in either direction tears the
    /// bridge down; the other direction observes it on its next step.
    pub fn on_transport_error(&mut self)
        ensures
            !final(self).spec_open(),
            final(self).spec_residual() == old(self).spec_residual(),
    {
        self.open = false;
    }
}

} // verus!

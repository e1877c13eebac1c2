//! Error taxonomy of the tunnel core.

use vstd::prelude::*;

verus! {

/// Every failure the core surfaces to a caller.
///
/// Address and membership errors come back synchronously from the control
/// plane; framing errors from the codec; `InterfaceClosed` from any operation
/// on a stack that has been torn down; transport errors only from the bridge.
#[derive(Clone, Copy, Debug, PartialEq, Eq, Structural)]
pub enum VpnError {
    AddressOutOfRange,
    AddressTaken,
    AddressSpaceExhausted,
    DuplicateNode,
    NodeNotFound,
    NetworkNotFound,
    NetworkInUse,
    InvalidCidr,
    PortsExhausted,
    InterfaceClosed,
    AlreadyBound,
    NetworkFull,
    FrameTooLarge,
    ConnectionRefused,
    UnsupportedEndpoint,
    TransportIo,
}

} // verus!

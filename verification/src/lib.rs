//! Virtual network tunnel core: a user-space networking layer that gives a
//! sandboxed process IP-level connectivity to remote peers by relaying
//! length-prefixed frames over named message-bus endpoints.
//!
//! The crate is organised bottom-up: the frame codec and the address-space
//! arithmetic are leaves; devices, port tables and networks build on them;
//! the stack routes packets between a device and remote members; the service
//! is the control plane that provisions networks and interfaces.

pub mod addr;
pub mod bridge;
pub mod codec;
pub mod config;
pub mod device;
pub mod error;
pub mod ipstr;
pub mod network;
pub mod port;
pub mod requestor;
pub mod service;
pub mod stack;

//! Control plane of a peer-to-peer networking runtime.
//!
//! Many application protocols are multiplexed over many sessions. Commands
//! reach a session through a pair of bounded queues, of which the quick one
//! is always served first, and a discovery protocol keeps a scored book of
//! peer addresses. Every operation is stated over a mathematical view of the
//! state it works on and proved against it.

pub mod channel;
pub mod context;
pub mod discovery;
pub mod error;
pub mod laws;
pub mod multiaddr;
pub mod notify;
pub mod payload;
pub mod protocol_select;
pub mod registry;
pub mod secio;
pub mod service;
pub mod session;
pub mod target;

use vstd::prelude::*;

verus! {

/// Identifies one live connection. Assigned by the session registry in
/// increasing order and never handed out twice.
pub type SessionId = usize;

/// Identifies one application protocol of the service.
pub type ProtocolId = usize;

} // verus!

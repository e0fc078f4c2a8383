//! Key-addressed delivery to identity-verified real-time connections.
//!
//! The library holds the connection registry that routes payloads to the
//! connection currently bound to a shared-secret key, the per-connection
//! verification and heartbeat state machine, and the wire frames they speak.
use vstd::prelude::*;

pub mod channel;
pub mod error;
pub mod frame;
pub mod messages;
pub mod router;
pub mod session;
pub mod store;

verus! {

/// Identifier that the registry mints for each accepted connection.
pub type ConnId = u32;

} // verus!

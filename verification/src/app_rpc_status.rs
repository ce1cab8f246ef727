//! Status codes of application RPC calls: 0 is success, positive codes
//! belong to the application, negative ones to the transport.

use vstd::prelude::*;

verus! {

/// The call succeeded.
pub const OK: i32 = 0;

/// No one on the remote side subscribed to inbound calls.
pub const NO_SUBSCRIBER: i32 = -1;

/// The remote side did not reply in time.
pub const REPLY_TIMEOUT: i32 = -2;

/// The remote RPC service went away.
pub const SERVICE_DROPPED: i32 = -3;

} // verus!

//! Planning of reverse port-forwards.
//!
//! A forward request asks the server to open exactly one new channel back
//! toward the requesting connection. The plan below fixes everything the
//! asynchronous agent then does: open the channel toward the requested
//! address and port with the placeholder origin, write the single fixed
//! payload, and signal end-of-stream so the channel closes. The agent runs
//! independently of the request's acknowledgment, and its failures are never
//! propagated back.

use vstd::prelude::*;

verus! {

/// Everything the forwarding agent does for one accepted forward request:
/// it opens one channel addressed with these fields, writes `payload` once,
/// then sends EOF and lets the channel close.
pub struct ForwardTask {
    /// Requested target address.
    pub address: String,
    /// Requested target port.
    pub port: u32,
    /// Placeholder origin address carried as protocol metadata.
    pub origin_address: String,
    /// Placeholder origin port carried as protocol metadata.
    pub origin_port: u32,
    /// The single payload written into the opened channel.
    pub payload: String,
}

/// Builds the plan for a forward request toward `(address, port)`: one new
/// channel with the fixed placeholder origin and the fixed payload.
pub fn plan_forward(address: &str, port: u32) -> (t: ForwardTask)
    ensures
        t.address@ == address@,
        t.port == port,
        t.origin_address@ == "1.2.3.4"@,
        t.origin_port == 1234,
        t.payload@ == "Hello from a forwarded port"@,
{
    ForwardTask {
        address: address.to_owned(),
        port,
        origin_address: "1.2.3.4".to_owned(),
        origin_port: 1234,
        payload: "Hello from a forwarded port".to_owned(),
    }
}

} // verus!

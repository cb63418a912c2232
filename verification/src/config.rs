//! Handshake configuration for the transport listener.
//!
//! The values here are protocol-surface configuration, not logic: the
//! inactivity timeout after which an idle connection is closed, and the
//! delays applied before reporting an authentication rejection.

use vstd::prelude::*;

verus! {

/// Timeouts for the transport-layer handshake, in seconds.
pub struct ServerConfig {
    /// A connection idle this long is closed, and all its channels are
    /// unregistered.
    pub inactivity_timeout_secs: u64,
    /// Delay before reporting an authentication rejection.
    pub auth_rejection_secs: u64,
    /// Delay before reporting the first authentication rejection.
    pub auth_rejection_initial_secs: u64,
}

impl Default for ServerConfig {
    /// One-hour inactivity timeout, three-second rejection delay, no delay
    /// on the first rejection.
    fn default() -> (c: Self)
        ensures
            c.inactivity_timeout_secs == 3600,
            c.auth_rejection_secs == 3,
            c.auth_rejection_initial_secs == 0,
    {
        ServerConfig {
            inactivity_timeout_secs: 3600,
            auth_rejection_secs: 3,
            auth_rejection_initial_secs: 0,
        }
    }
}

} // verus!

//! Per-connection session handling.
//!
//! The listener assigns each accepted connection a fresh, monotonically
//! increasing id and a handler in the initial state. The handler then walks
//! the state machine: an authentication decision moves it from
//! `Unauthenticated` to `Active` or `Rejected`; while `Active`, channel
//! opens register into the shared registry, inbound data yields an echo on
//! the same channel plus a broadcast plan toward every other connection's
//! channels, and forward requests are acknowledged at once with a plan for
//! the asynchronous forwarding agent; closing the connection unregisters
//! everything it owned.
//!
//! The handler computes plans only; the networking loop around it performs
//! the writes the plans describe, best-effort and per-destination.

use vstd::prelude::*;
use crate::forward::ForwardTask;
use crate::forward::plan_forward;
use crate::registry::Registry;
use crate::text::annotated_payload;
use crate::text::annotate_data;

verus! {

/// Authentication progress of one connection.
#[derive(Clone, Copy, PartialEq, Eq, Structural, Debug)]
pub enum AuthState {
    /// Initial state: no authentication decision yet.
    Unauthenticated,
    /// The connection was accepted and may open channels.
    Active,
    /// Terminal: authentication failed, the connection is torn down.
    Rejected,
    /// Terminal: the connection closed or timed out.
    Closed,
}

/// Outcome of the pluggable authentication policy.
#[derive(Clone, Copy, PartialEq, Eq, Structural, Debug)]
pub enum AuthDecision {
    /// Let the client in.
    Accept,
    /// Turn the client away.
    Reject,
}

/// The reference authentication policy: accept every client, whatever the
/// offered credential names. A deployment may substitute a stricter
/// decision; nothing else in the session machine changes.
pub fn decide_auth(_user: &str) -> (d: AuthDecision)
    ensures
        d == AuthDecision::Accept,
{
    AuthDecision::Accept
}

/// Assigns connection ids: each accepted connection gets the next id, so
/// ids increase monotonically and are never reused.
pub struct Listener {
    /// The id the next accepted connection will receive.
    pub next_id: u64,
}

impl Listener {
    /// A listener that will number connections from zero.
    pub fn new() -> (l: Self)
        ensures
            l.next_id == 0,
    {
        Listener { next_id: 0 }
    }

    /// Accepts one connection: hands out a fresh handler carrying the
    /// current id, in the initial state, and moves on to the next id.
    pub fn new_client(&mut self) -> (h: SessionHandler)
        requires
            old(self).next_id < u64::MAX,
        ensures
            h.conn_id == old(self).next_id,
            h.state == AuthState::Unauthenticated,
            final(self).next_id == old(self).next_id + 1,
    {
        let h = SessionHandler { conn_id: self.next_id, state: AuthState::Unauthenticated };
        self.next_id = self.next_id + 1;
        h
    }
}

/// What the session does with one inbound data event: echo the annotated
/// payload on the originating channel, and broadcast the same payload to
/// every other connection's channels.
pub struct DataPlan {
    /// The channel the data arrived on; the echo goes back here.
    pub echo_chan: u64,
    /// The annotated payload, echoed and broadcast alike.
    pub payload: String,
    /// Every open `(connection, channel)` pair of the other connections,
    /// each exactly once.
    pub targets: Vec<(u64, u64)>,
}

/// The per-connection state machine.
pub struct SessionHandler {
    /// This connection's id, fixed for the connection's lifetime.
    pub conn_id: u64,
    /// Where the connection stands in the state machine.
    pub state: AuthState,
}

impl SessionHandler {
    /// Applies the authentication decision: acceptance activates the
    /// session, rejection ends it. A decision that arrives in any other way
    /// (for instance after the rejection-time budget ran out) is a
    /// rejection.
    pub fn on_auth(&mut self, d: AuthDecision)
        requires
            old(self).state == AuthState::Unauthenticated,
        ensures
            final(self).conn_id == old(self).conn_id,
            final(self).state == (if d == AuthDecision::Accept {
                AuthState::Active
            } else {
                AuthState::Rejected
            }),
    {
        match d {
            AuthDecision::Accept => {
                self.state = AuthState::Active;
            },
            AuthDecision::Reject => {
                self.state = AuthState::Rejected;
            },
        }
    }

    /// A channel-open request: while the session is active it registers the
    /// channel's write handle under `(conn_id, chan)` and succeeds; a
    /// session already rejected or closing refuses and leaves the registry
    /// untouched.
    pub fn on_channel_open<H>(&self, chan: u64, handle: H, reg: &mut Registry<H>) -> (accepted:
        bool)
        requires
            old(reg).wf(),
        ensures
            final(reg).wf(),
            accepted == (self.state == AuthState::Active),
            accepted ==> final(reg)@ == old(reg)@.insert((self.conn_id, chan), handle),
            !accepted ==> final(reg)@ == old(reg)@,
    {
        match self.state {
            AuthState::Active => {
                reg.register(self.conn_id, chan, handle);
                true
            },
            _ => false,
        }
    }

    /// Inbound data on `chan`: the bytes are wrapped with the fixed
    /// annotation, echoed back on the same channel, and scheduled for
    /// broadcast to every open channel of every other connection — each such
    /// pair exactly once, and none of this connection's own.
    pub fn on_data<H>(&self, chan: u64, data: &[u8], reg: &Registry<H>) -> (p: DataPlan)
        requires
            reg.wf(),
        ensures
            p.echo_chan == chan,
            p.payload@ == annotated_payload(data@),
            forall|x: int|
                0 <= x < p.targets@.len() ==> (#[trigger] p.targets@[x]).0 != self.conn_id
                    && reg@.dom().contains(p.targets@[x]),
            forall|k: (u64, u64)|
                #[trigger] reg@.dom().contains(k) && k.0 != self.conn_id ==> p.targets@.contains(
                    k,
                ),
            forall|x: int, y: int|
                0 <= x < p.targets@.len() && 0 <= y < p.targets@.len() && x != y
                    ==> p.targets@[x] != p.targets@[y],
    {
        let payload = annotate_data(data);
        let targets = reg.targets_except(self.conn_id);
        DataPlan { echo_chan: chan, payload, targets }
    }

    /// A reverse port-forward request toward `(address, port)`: the request
    /// is acknowledged immediately — the returned plan is handed to an
    /// independent forwarding agent, so the handshake never waits for the
    /// forwarded payload — and the plan opens exactly one channel back to
    /// this connection, with the fixed origin metadata and the fixed
    /// payload, closed after the single write.
    pub fn on_forward_request(&self, address: &str, port: u32) -> (r: (bool, ForwardTask))
        ensures
            r.0 == true,
            r.1.address@ == address@,
            r.1.port == port,
            r.1.origin_address@ == "1.2.3.4"@,
            r.1.origin_port == 1234,
            r.1.payload@ == "Hello from a forwarded port"@,
    {
        (true, plan_forward(address, port))
    }

    /// The connection closed or timed out: the session becomes terminal and
    /// every channel it owned leaves the registry, so later broadcasts
    /// neither reach nor fail against a stale handle of this connection.
    pub fn on_close<H>(&mut self, reg: &mut Registry<H>)
        requires
            old(reg).wf(),
        ensures
            final(self).conn_id == old(self).conn_id,
            final(self).state == AuthState::Closed,
            final(reg).wf(),
            final(reg)@ == old(reg)@.remove_keys(
                Set::new(|k: (u64, u64)| k.0 == old(self).conn_id),
            ),
            forall|k: (u64, u64)| final(reg)@.dom().contains(k) ==> k.0 != old(self).conn_id,
    {
        self.state = AuthState::Closed;
        reg.close_connection(self.conn_id);
    }
}

} // verus!

//! Counters for operations.

use vstd::prelude::*;

verus! {

/// The counters of the node. They start again at zero after the greatest number.
#[derive(Copy, Clone, Debug, PartialEq, Eq, Structural)]
pub struct ServerMetrics {
    /// Requests that were dispatched.
    pub calls_dispatched: u64,
    /// Requests that were answered with an exception.
    pub call_exceptions: u64,
    /// Callbacks that were sent to federates.
    pub callbacks_emitted: u64,
    /// Connections that were accepted, before their handshake.
    pub connections_accepted: u64,
    /// Connections that were rejected by the limits.
    pub connections_rejected: u64,
    /// Sessions that were opened.
    pub sessions_opened: u64,
    /// Sessions that were closed because the federate had stopped sending.
    pub sessions_reaped: u64,
    /// Federations that there are; kept up to date by snapshots alone.
    pub federations_live: u64,
}

/// The counters at one moment.
#[derive(Copy, Clone, Debug, PartialEq, Eq, Structural)]
#[non_exhaustive]
pub struct MetricsSnapshot {
    pub calls_dispatched: u64,
    pub call_exceptions: u64,
    pub callbacks_emitted: u64,
    pub connections_accepted: u64,
    pub connections_rejected: u64,
    pub sessions_opened: u64,
    pub sessions_reaped: u64,
    pub federations_live: u64,
}

/// All counters at zero.
pub open spec fn no_counts() -> ServerMetrics {
    ServerMetrics {
        calls_dispatched: 0,
        call_exceptions: 0,
        callbacks_emitted: 0,
        connections_accepted: 0,
        connections_rejected: 0,
        sessions_opened: 0,
        sessions_reaped: 0,
        federations_live: 0,
    }
}

impl Default for ServerMetrics {
    fn default() -> (r: Self)
        ensures
            r == no_counts(),
    {
        ServerMetrics {
            calls_dispatched: 0,
            call_exceptions: 0,
            callbacks_emitted: 0,
            connections_accepted: 0,
            connections_rejected: 0,
            sessions_opened: 0,
            sessions_reaped: 0,
            federations_live: 0,
        }
    }
}

/// The counters as a snapshot shows them.
pub open spec fn shown(m: ServerMetrics) -> MetricsSnapshot {
    MetricsSnapshot {
        calls_dispatched: m.calls_dispatched,
        call_exceptions: m.call_exceptions,
        callbacks_emitted: m.callbacks_emitted,
        connections_accepted: m.connections_accepted,
        connections_rejected: m.connections_rejected,
        sessions_opened: m.sessions_opened,
        sessions_reaped: m.sessions_reaped,
        federations_live: m.federations_live,
    }
}

impl ServerMetrics {
    /// The counters at this moment.
    pub fn snapshot(&self) -> (r: MetricsSnapshot)
        ensures
            r == shown(*self),
    {
        MetricsSnapshot {
            calls_dispatched: self.calls_dispatched,
            call_exceptions: self.call_exceptions,
            callbacks_emitted: self.callbacks_emitted,
            connections_accepted: self.connections_accepted,
            connections_rejected: self.connections_rejected,
            sessions_opened: self.sessions_opened,
            sessions_reaped: self.sessions_reaped,
            federations_live: self.federations_live,
        }
    }
}

/// A counter that has counted `n` more.
pub open spec fn counted(c: u64, n: nat) -> u64 {
    ((c + n) % 0x1_0000_0000_0000_0000) as u64
}

/// Counts `n` more.
pub fn count_up(c: u64, n: usize) -> (r: u64)
    ensures
        r == counted(c, n as nat),
{
    ((c as u128 + n as u128) % 0x1_0000_0000_0000_0000) as u64
}

} // verus!

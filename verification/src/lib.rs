//! A run-time infrastructure node for HLA 4 federations.

pub mod callbacks;
pub mod connections;
pub mod dispatch;
pub mod exception;
pub mod federation;
pub mod fom;
pub mod frames;
pub mod handles;
pub mod laws;
pub mod logical_time;
pub mod messages;
pub mod metrics;
pub mod modules;
pub mod names;
pub mod node;
pub mod persistence;
pub mod routing;
pub mod session;
pub mod sessions;
pub mod subscriptions;
pub mod tables;
pub mod text;
pub mod time;

pub use connections::SuspendedSession;
pub use exception::HlaException;
pub use federation::{Federation, RestoreStatus, SaveStatus, TimeCoordinator};
pub use metrics::{MetricsSnapshot, ServerMetrics};
pub use node::RtiNode;
use crate::text::joined;
use vstd::prelude::*;

verus! {

/// Connection limits, checked when a connection is accepted.
#[derive(Clone, Copy, Debug, PartialEq, Eq, Structural)]
pub struct ConnectionLimits {
    /// Maximum number of live connections across the node; `None` is unlimited.
    pub max_total: Option<usize>,
    /// Maximum number of live connections per remote address; `None` is unlimited.
    pub max_per_ip: Option<usize>,
}

impl Default for ConnectionLimits {
    fn default() -> (r: Self)
        ensures
            r.max_total is None,
            r.max_per_ip is None,
    {
        ConnectionLimits { max_total: None, max_per_ip: None }
    }
}

/// Nanoseconds in a second.
pub const SECOND: u128 = 1_000_000_000;

/// When the node sends heartbeats, and how long it waits for federates. All
/// durations are in nanoseconds.
#[derive(Clone, Copy, Debug, PartialEq, Eq, Structural)]
pub struct HeartbeatConfig {
    /// How often the node sends a heartbeat.
    pub interval: u128,
    /// How long a federate may be silent before its session is closed.
    pub missing_timeout: u128,
    /// How long a session can be resumed after its connection was lost; zero
    /// lets the federate resign at once.
    pub reconnect_window: u128,
}

impl Default for HeartbeatConfig {
    fn default() -> (r: Self)
        ensures
            r == (HeartbeatConfig {
                interval: (60 * SECOND) as u128,
                missing_timeout: (180 * SECOND) as u128,
                reconnect_window: 0,
            }),
    {
        HeartbeatConfig {
            interval: 60 * SECOND,
            missing_timeout: 180 * SECOND,
            reconnect_window: 0,
        }
    }
}

/// Why the node cannot serve. The text is that of the system.
#[derive(Debug)]
#[non_exhaustive]
pub enum RtiServerError {
    Bind(String),
    Accept(String),
}

impl RtiServerError {
    /// The message of an error.
    pub open spec fn text(&self) -> Seq<char> {
        match self {
            RtiServerError::Bind(s) => "bind failed: "@ + s@,
            RtiServerError::Accept(s) => "accept failed: "@ + s@,
        }
    }

    /// The message of an error.
    pub fn message(&self) -> (r: String)
        ensures
            r@ == self.text(),
    {
        match self {
            RtiServerError::Bind(s) => joined("bind failed: ", s.as_str()),
            RtiServerError::Accept(s) => joined("accept failed: ", s.as_str()),
        }
    }
}

} // verus!

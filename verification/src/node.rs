//! The node: federations, connections and limits.

use crate::connections::{
    count_of, one_failed, one_less, AddressCounts, Connections, PeerAddress, SuspendedSession,
    SuspendedSessions,
};
use crate::dispatch::object_mgmt::{following, next_number};
use crate::federation::{Federation, FederationView};
use crate::fom::{FomView, MergedFom};
use crate::metrics::{
    count_up, counted, no_counts, shown, MetricsSnapshot, ServerMetrics,
};
use crate::tables::{lemma_ascending, Table};
use crate::text::same_text;
use crate::time::settled;
use crate::{ConnectionLimits, HeartbeatConfig, SECOND};
use std::sync::Arc;
use vstd::prelude::*;

verus! {

/// The node.
pub struct RtiNode {
    /// The federations by number.
    pub federations: Table<u64, Federation>,
    pub next_federation_id: u64,
    /// The next session number. Zero stands for no session.
    pub next_session_id: u64,
    /// The object model of federations that are created without one.
    pub default_fom: Arc<MergedFom>,
    /// The live connections by session.
    pub connections: Connections,
    pub heartbeat: HeartbeatConfig,
    pub limits: ConnectionLimits,
    /// The number of live connections of each remote address.
    pub connections_per_ip: AddressCounts,
    pub metrics: ServerMetrics,
    /// The sessions that lost their connection and can still be resumed.
    pub suspended_sessions: SuspendedSessions,
    /// Set once the node was told to stop.
    pub shut_down: bool,
}

/// The mathematical content of [`RtiNode`].
#[verifier::ext_equal]
pub struct NodeView {
    pub federations: Map<u64, FederationView>,
    pub next_federation_id: u64,
    pub next_session_id: u64,
    pub default_fom: FomView,
    pub connections: Map<u64, u64>,
    pub heartbeat: HeartbeatConfig,
    pub limits: ConnectionLimits,
    pub connections_per_ip: Map<(u8, u128), usize>,
    pub metrics: ServerMetrics,
    pub suspended_sessions: Map<u64, SuspendedSession>,
    pub shut_down: bool,
}

impl View for RtiNode {
    type V = NodeView;

    open spec fn view(&self) -> NodeView {
        NodeView {
            federations: self.federations@,
            next_federation_id: self.next_federation_id,
            next_session_id: self.next_session_id,
            default_fom: self.default_fom@,
            connections: self.connections@,
            heartbeat: self.heartbeat,
            limits: self.limits,
            connections_per_ip: self.connections_per_ip@,
            metrics: self.metrics,
            suspended_sessions: self.suspended_sessions@,
            shut_down: self.shut_down,
        }
    }
}

/// Whether, until its numbers have run out, those that a federation issues next are
/// fresh, and nobody in it waits who may advance.
pub open spec fn in_order(fed: FederationView) -> bool {
    !fed.renumbered ==> fed.fresh() && settled(fed)
}

impl NodeView {
    /// Every federation is well formed and stands under its own number, and no
    /// two have the same name.
    pub open spec fn sound(self) -> bool {
        &&& forall|id: u64| #[trigger]
            self.federations.contains_key(id) ==> self.federations[id].serial == id
                && self.federations[id].wf()
        &&& forall|a: u64, b: u64| #[trigger]
            self.federations.contains_key(a) && #[trigger] self.federations.contains_key(b)
                && self.federations[a].name == self.federations[b].name ==> a == b
    }

    /// The node is sound, and every federation in order.
    pub open spec fn wf(self) -> bool {
        &&& self.sound()
        &&& forall|id: u64| #[trigger]
            self.federations.contains_key(id) ==> in_order(self.federations[id])
    }
}

/// The federation with a name.
pub open spec fn federation_named(
    federations: Map<u64, FederationView>,
    name: Seq<char>,
) -> Option<u64> {
    if exists|id: u64| #[trigger]
        federations.contains_key(id) && federations[id].name == name {
        Some(
            choose|id: u64| #[trigger]
                federations.contains_key(id) && federations[id].name == name,
        )
    } else {
        None
    }
}

/// Which limit a connection would break.
#[derive(Clone, Copy, Debug, PartialEq, Eq, Structural)]
pub enum Limit {
    MaxTotal,
    MaxPerIp,
}

impl Limit {
    /// The name of the limit, for logs.
    pub fn name(self) -> (r: &'static str)
        ensures
            r@ == (match self {
                Limit::MaxTotal => "max_total"@,
                Limit::MaxPerIp => "max_per_ip"@,
            }),
    {
        match self {
            Limit::MaxTotal => "max_total",
            Limit::MaxPerIp => "max_per_ip",
        }
    }
}

/// The limit that one more connection of an address would break.
pub open spec fn broken_limit(node: NodeView, address: PeerAddress) -> Option<Limit> {
    if node.limits.max_total is Some && node.connections.dom().len()
        >= node.limits.max_total->0 {
        Some(Limit::MaxTotal)
    } else if node.limits.max_per_ip is Some && count_of(node.connections_per_ip, address)
        >= node.limits.max_per_ip->0 {
        Some(Limit::MaxPerIp)
    } else {
        None
    }
}

/// The node after it has turned a connection away.
pub open spec fn after_rejection(node: NodeView) -> NodeView {
    NodeView {
        metrics: ServerMetrics {
            connections_rejected: counted(node.metrics.connections_rejected, 1),
            ..node.metrics
        },
        ..node
    }
}

/// The node after it has accepted a connection of an address.
pub open spec fn after_acceptance(node: NodeView, address: PeerAddress) -> NodeView {
    NodeView {
        metrics: ServerMetrics {
            connections_accepted: counted(node.metrics.connections_accepted, 1),
            ..node.metrics
        },
        next_session_id: next_number(node.next_session_id),
        connections_per_ip: node.connections_per_ip.insert(
            address,
            (count_of(node.connections_per_ip, address) + 1) as usize,
        ),
        ..node
    }
}

impl RtiNode {
    /// The federations are well formed, and the whole is sound.
    pub open spec fn sound(&self) -> bool {
        &&& forall|id: u64| #[trigger]
            self.federations.held().contains_key(id) ==> self.federations.held()[id].wf()
        &&& self@.sound()
    }

    /// The node is sound, and every federation in order.
    pub open spec fn wf(&self) -> bool {
        &&& self.sound()
        &&& self@.wf()
    }

    /// A node without federations and connections.
    pub fn new() -> (r: Self)
        ensures
            r.wf(),
            r@ == (NodeView {
                federations: Map::empty(),
                next_federation_id: 1,
                next_session_id: 1,
                default_fom: FomView {
                    object_classes: Seq::empty(),
                    attributes: Seq::empty(),
                    interaction_classes: Seq::empty(),
                    parameters: Seq::empty(),
                    dimensions: Seq::empty(),
                },
                connections: Map::empty(),
                heartbeat: HeartbeatConfig {
                    interval: (60 * SECOND) as u128,
                    missing_timeout: (180 * SECOND) as u128,
                    reconnect_window: 0,
                },
                limits: ConnectionLimits { max_total: None, max_per_ip: None },
                connections_per_ip: Map::empty(),
                metrics: no_counts(),
                suspended_sessions: Map::empty(),
                shut_down: false,
            }),
    {
        RtiNode {
            federations: Table::new(),
            next_federation_id: 1,
            next_session_id: 1,
            default_fom: Arc::new(MergedFom::new()),
            connections: Connections::new(),
            heartbeat: HeartbeatConfig::default(),
            limits: ConnectionLimits::default(),
            connections_per_ip: AddressCounts::new(),
            metrics: ServerMetrics::default(),
            suspended_sessions: SuspendedSessions::new(),
            shut_down: false,
        }
    }

    /// Tells the node to stop. To tell it again changes nothing.
    pub fn shutdown(&mut self)
        requires
            old(self).wf(),
        ensures
            final(self).wf(),
            final(self)@ == (NodeView { shut_down: true, ..old(self)@ }),
    {
        self.shut_down = true;
    }

    /// The counters at this moment, with the number of federations.
    pub fn metrics_snapshot(&mut self) -> (r: MetricsSnapshot)
        requires
            old(self).wf(),
        ensures
            final(self).wf(),
            ({
                let metrics = ServerMetrics {
                    federations_live: old(self)@.federations.dom().len() as u64,
                    ..old(self)@.metrics
                };
                &&& final(self)@ == (NodeView { metrics, ..old(self)@ })
                &&& r == shown(metrics)
            }),
    {
        self.metrics.federations_live = self.federations.len() as u64;
        self.metrics.snapshot()
    }

    /// Sets the connection limits.
    pub fn set_connection_limits(&mut self, limits: ConnectionLimits)
        requires
            old(self).wf(),
        ensures
            final(self).wf(),
            final(self)@ == (NodeView { limits, ..old(self)@ }),
    {
        self.limits = limits;
    }

    /// Sets the object model of federations that are created from now on without
    /// one.
    pub fn set_default_fom(&mut self, fom: MergedFom)
        requires
            old(self).wf(),
        ensures
            final(self).wf(),
            final(self)@ == (NodeView { default_fom: fom@, ..old(self)@ }),
    {
        self.default_fom = Arc::new(fom);
    }

    /// Sets the heartbeat configuration of sessions that are opened from now on.
    pub fn set_heartbeat_config(&mut self, cfg: HeartbeatConfig)
        requires
            old(self).wf(),
        ensures
            final(self).wf(),
            final(self)@ == (NodeView { heartbeat: cfg, ..old(self)@ }),
    {
        self.heartbeat = cfg;
    }

    /// Whether one more connection of an address is within the limits, and if
    /// not, which limit it would break.
    pub fn check_limits(&self, address: PeerAddress) -> (r: Result<(), Limit>)
        ensures
            r == (match broken_limit(self@, address) {
                Some(limit) => Err::<(), Limit>(limit),
                None => Ok(()),
            }),
    {
        if let Some(max) = self.limits.max_total {
            if self.connections.len() >= max {
                return Err(Limit::MaxTotal);
            }
        }
        if let Some(max) = self.limits.max_per_ip {
            if self.connections_per_ip.count(address) >= max {
                return Err(Limit::MaxPerIp);
            }
        }
        Ok(())
    }

    /// Accepts a connection of an address and numbers its session, or turns it
    /// away.
    pub fn accept_connection(&mut self, address: PeerAddress) -> (r: Result<u64, Limit>)
        requires
            old(self).wf(),
            count_of(old(self)@.connections_per_ip, address) < usize::MAX,
        ensures
            final(self).wf(),
            match broken_limit(old(self)@, address) {
                Some(limit) => r == Err::<u64, Limit>(limit) && final(self)@ == after_rejection(
                    old(self)@,
                ),
                None => r == Ok::<u64, Limit>(old(self)@.next_session_id) && final(self)@
                    == after_acceptance(old(self)@, address),
            },
    {
        if let Err(limit) = self.check_limits(address) {
            self.metrics.connections_rejected = count_up(self.metrics.connections_rejected, 1);
            return Err(limit);
        }
        self.metrics.connections_accepted = count_up(self.metrics.connections_accepted, 1);
        let session_id = self.next_session_id;
        self.next_session_id = following(session_id);
        self.connections_per_ip.increase(address);
        Ok(session_id)
    }

    /// Takes note that a connection of an address is over.
    pub fn release_connection(&mut self, address: PeerAddress)
        requires
            old(self).wf(),
        ensures
            final(self).wf(),
            final(self)@ == (NodeView {
                connections_per_ip: one_less(old(self)@.connections_per_ip, address),
                ..old(self)@
            }),
    {
        self.connections_per_ip.decrease(address);
    }

    /// Takes note that the handshake of a connection of an address has failed.
    pub fn release_failed_handshake(&mut self, address: PeerAddress)
        requires
            old(self).wf(),
        ensures
            final(self).wf(),
            final(self)@ == (NodeView {
                connections_per_ip: one_failed(old(self)@.connections_per_ip, address),
                ..old(self)@
            }),
    {
        self.connections_per_ip.decrease_failed(address);
    }

    /// Whether a session has a live connection.
    pub fn has_connection(&self, session_id: u64) -> (r: bool)
        ensures
            r == self@.connections.contains_key(session_id),
    {
        self.connections.get(session_id).is_some()
    }

    /// Whether a session is suspended.
    pub fn has_suspended_session(&self, session_id: u64) -> (r: bool)
        ensures
            r == self@.suspended_sessions.contains_key(session_id),
    {
        self.suspended_sessions.get(session_id).is_some()
    }

    /// The number of suspended sessions.
    pub fn suspended_session_count(&self) -> (r: usize)
        ensures
            r == self@.suspended_sessions.dom().len(),
    {
        self.suspended_sessions.len()
    }

    /// The number of the federation with a name.
    pub fn find_federation(&self, name: &str) -> (r: Option<u64>)
        requires
            self.wf(),
        ensures
            r == federation_named(self@.federations, name@),
    {
        let ghost federations = self@.federations;
        let keys = self.federations.keys();
        proof {
            lemma_ascending(federations.dom());
        }
        let mut i: usize = 0;
        while i < keys.len()
            invariant
                i <= keys@.len(),
                self.wf(),
                federations == self@.federations,
                forall|id: u64| #[trigger] keys@.contains(id) <==> federations.contains_key(id),
                forall|k: int| 0 <= k < i ==> federations[#[trigger] keys@[k]].name != name@,
            decreases keys@.len() - i,
        {
            let id = keys[i];
            assert(keys@.contains(keys@[i as int]));
            if let Some(federation) = self.federations.get(id) {
                if same_text(federation.name.as_str(), name) {
                    assert(federations.contains_key(id) && federations[id].name == name@);
                    return Some(id);
                }
            }
            i = i + 1;
        }
        proof {
            if exists|id: u64| #[trigger]
                federations.contains_key(id) && federations[id].name == name@ {
                let id = choose|id: u64| #[trigger]
                    federations.contains_key(id) && federations[id].name == name@;
                assert(keys@.contains(id));
                let k = keys@.index_of(id);
                assert(keys@[k] == id);
            }
        }
        None
    }
}

/// The federation with a name is found by it, and only that.
pub proof fn federations_are_found_by_name(node: NodeView, id: u64)
    requires
        node.wf(),
        node.federations.contains_key(id),
    ensures
        federation_named(node.federations, node.federations[id].name) == Some(id),
{
}

/// A connection that would go beyond a limit is turned away, and one that is
/// accepted keeps its address within the limit.
pub proof fn limits_are_kept(node: NodeView, address: PeerAddress)
    ensures
        node.limits.max_total is Some && node.connections.dom().len() >= node.limits.max_total->0
            ==> broken_limit(node, address) is Some,
        node.limits.max_per_ip is Some && count_of(node.connections_per_ip, address)
            >= node.limits.max_per_ip->0 ==> broken_limit(node, address) is Some,
        broken_limit(node, address) is None && count_of(node.connections_per_ip, address)
            < usize::MAX && node.limits.max_per_ip is Some ==> count_of(
            after_acceptance(node, address).connections_per_ip,
            address,
        ) <= node.limits.max_per_ip->0,
{
}

/// A connection that comes and goes leaves the count of its address as it was.
pub proof fn counts_come_and_go(node: NodeView, address: PeerAddress)
    requires
        count_of(node.connections_per_ip, address) < usize::MAX,
    ensures
        count_of(
            one_less(after_acceptance(node, address).connections_per_ip, address),
            address,
        ) == count_of(node.connections_per_ip, address),
{
}

/// Until the numbers run out, every session number is greater than those before
/// it. So no two are equal, and none is zero.
pub proof fn session_numbers_differ(node: NodeView, address: PeerAddress)
    requires
        0 < node.next_session_id < u64::MAX,
    ensures
        after_acceptance(node, address).next_session_id > node.next_session_id,
{
}

} // verus!

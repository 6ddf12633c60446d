//! The life of a session, from its first frame to its end.

use crate::connections::SuspendedSession;
use crate::dispatch::calls::{
    call_outcome, dispatch_call, only_answered, CallOutcome, DispatchOutcome, Outside,
};
use crate::dispatch::federation_mgmt::{
    after_leaving, grant_in, leave, remove_member, sent_on_leaving, sent_with_grants,
    without_member,
};
use crate::dispatch::helpers::refuse;
use crate::dispatch::invariants::{leaving_keeps_order, lemma_departed};
use crate::dispatch::save::{file_view, SnapshotFile, SnapshotFileView};
use crate::exception::{exception_variant, raised, HlaException};
use crate::federation::FederationView;
use crate::frames::{
    answer, make_answer, Frame, FramePayload, FramePayloadView, FrameView, MessageType,
    StatusReason, FEDERATE_PROTOCOL_VERSION, NO_SESSION_ID,
};
use crate::messages::{refused, CallRequest, CallResponse, ResponseView};
use crate::metrics::{count_up, counted, ServerMetrics};
use crate::node::{in_order, NodeView, RtiNode};
use crate::routing::{OutboundView, Outbox};
use crate::session::{Membership, SessionContext};
use crate::tables::{ascending, lemma_ascending, KeySet};
use crate::text::joined;
use crate::time::{after_all_grants, grants_keep_the_members, same_but_time};
use crate::{HeartbeatConfig, SECOND};
use vstd::prelude::*;

verus! {

/// The first frame of a connection.
#[derive(Copy, Clone, Debug, PartialEq, Eq, Structural)]
pub struct OpeningFrame {
    pub message_type: MessageType,
    pub sequence_number: i32,
    pub session_id: u64,
    /// The protocol version in the payload of a new session.
    pub protocol_version: u32,
}

/// Why a session cannot be opened.
#[derive(Copy, Clone, Debug, PartialEq, Eq, Structural)]
pub enum SessionFault {
    UnsupportedProtocolVersion(u32),
    UnexpectedMessageType { got: MessageType, expected: MessageType },
}

/// What becomes of a connection after its first frame.
#[derive(Debug)]
pub enum Opening {
    /// The reply is sent and the session begins.
    Opened { reply: Frame, ctx: SessionContext },
    /// The reply is sent and the connection ends.
    Refused { reply: Frame, fault: Option<SessionFault> },
    /// The connection ends without a reply.
    Rejected(SessionFault),
}

/// The mathematical content of [`Opening`].
#[verifier::ext_equal]
pub enum OpeningView {
    Opened { reply: FrameView, ctx: SessionContext },
    Refused { reply: FrameView, fault: Option<SessionFault> },
    Rejected(SessionFault),
}

impl View for Opening {
    type V = OpeningView;

    open spec fn view(&self) -> OpeningView {
        match self {
            Opening::Opened { reply, ctx } => OpeningView::Opened { reply: reply@, ctx: *ctx },
            Opening::Refused { reply, fault } => OpeningView::Refused {
                reply: reply@,
                fault: *fault,
            },
            Opening::Rejected(fault) => OpeningView::Rejected(*fault),
        }
    }
}

/// Whether a suspended session can be resumed.
pub open spec fn resumable(node: NodeView, session_id: u64, now: u128) -> bool {
    node.suspended_sessions.contains_key(session_id)
        && node.suspended_sessions[session_id].deadline > now
}

/// What the first frame of a connection leads to.
pub open spec fn opening(
    node: NodeView,
    candidate: u64,
    first: OpeningFrame,
    now: u128,
) -> OpeningView {
    match first.message_type {
        MessageType::CtrlNewSession => if first.protocol_version == FEDERATE_PROTOCOL_VERSION {
            OpeningView::Opened {
                reply: answer(
                    candidate,
                    first.sequence_number,
                    MessageType::CtrlNewSessionStatus,
                    FramePayloadView::Status(StatusReason::Success),
                ),
                ctx: SessionContext { session_id: candidate, membership: None },
            }
        } else {
            OpeningView::Refused {
                reply: answer(
                    candidate,
                    first.sequence_number,
                    MessageType::CtrlNewSessionStatus,
                    FramePayloadView::Status(StatusReason::UnsupportedProtocolVersion),
                ),
                fault: Some(SessionFault::UnsupportedProtocolVersion(first.protocol_version)),
            }
        },
        MessageType::CtrlResumeRequest => if resumable(node, first.session_id, now) {
            OpeningView::Opened {
                reply: answer(
                    first.session_id,
                    first.sequence_number,
                    MessageType::CtrlResumeStatus,
                    FramePayloadView::Status(StatusReason::Success),
                ),
                ctx: SessionContext {
                    session_id: first.session_id,
                    membership: node.suspended_sessions[first.session_id].membership,
                },
            }
        } else {
            OpeningView::Refused {
                reply: answer(
                    NO_SESSION_ID,
                    first.sequence_number,
                    MessageType::CtrlResumeStatus,
                    FramePayloadView::Status(StatusReason::OtherError),
                ),
                fault: None,
            }
        },
        other => OpeningView::Rejected(
            SessionFault::UnexpectedMessageType {
                got: other,
                expected: MessageType::CtrlNewSession,
            },
        ),
    }
}

/// The node after the first frame of a connection: a session that is resumed is
/// not suspended any more. One whose deadline has come stays for the clean-up.
pub open spec fn after_opening(node: NodeView, first: OpeningFrame, now: u128) -> NodeView {
    if first.message_type == MessageType::CtrlResumeRequest && resumable(
        node,
        first.session_id,
        now,
    ) {
        NodeView {
            suspended_sessions: node.suspended_sessions.remove(first.session_id),
            ..node
        }
    } else {
        node
    }
}

/// A frame of an open session.
#[derive(Debug)]
pub struct InboundFrame {
    pub message_type: MessageType,
    pub sequence_number: i32,
    /// The request in the frame, or why it cannot be decoded. A frame of another
    /// kind carries no request.
    pub call: Result<Option<CallRequest>, String>,
}

/// What can happen to an open session.
#[derive(Debug)]
pub enum SessionEvent {
    Inbound(InboundFrame),
    /// The time to look whether the federate is still there. Times are in
    /// nanoseconds of the node's clock.
    LivenessTick { last_inbound: u128, now: u128, missing_timeout: u128 },
    /// The federate has closed the connection.
    PeerClosed,
    /// The node was told to stop.
    Shutdown,
}

/// What is to be done about an event.
pub struct SessionStep {
    /// The frame that goes back on the connection of the session, before any
    /// callback.
    pub reply: Option<Frame>,
    pub callbacks: Outbox,
    /// A snapshot that is to be written.
    pub file: Option<SnapshotFile>,
    /// Whether the session ends.
    pub close: bool,
}

/// What an event of an open session does.
#[verifier::ext_equal]
pub struct StepOutcome {
    pub node: NodeView,
    pub membership: Option<Membership>,
    pub reply: Option<FrameView>,
    pub sent: Seq<OutboundView>,
    pub file: Option<SnapshotFileView>,
    pub close: bool,
}

/// Nothing but perhaps a reply, and perhaps the end.
pub open spec fn plain_step(
    node: NodeView,
    ctx: SessionContext,
    reply: Option<FrameView>,
    close: bool,
) -> StepOutcome {
    StepOutcome {
        node,
        membership: ctx.membership,
        reply,
        sent: Seq::empty(),
        file: None,
        close,
    }
}

/// What a request in a frame does.
pub open spec fn request_outcome(
    node: NodeView,
    ctx: SessionContext,
    call: Result<Option<CallRequest>, String>,
    outside: Outside,
) -> CallOutcome {
    match call {
        Ok(request) => call_outcome(node, ctx, request, outside),
        Err(text) => only_answered(
            node,
            ctx,
            refused(raised(HlaException::RtiInternalError, "malformed CallRequest: "@ + text@)),
        ),
    }
}

/// The counters after a request was answered.
pub open spec fn counted_call(m: ServerMetrics, reply: ResponseView, sent: nat) -> ServerMetrics {
    ServerMetrics {
        calls_dispatched: counted(m.calls_dispatched, 1),
        call_exceptions: if reply is Exception {
            counted(m.call_exceptions, 1)
        } else {
            m.call_exceptions
        },
        callbacks_emitted: counted(m.callbacks_emitted, sent),
        ..m
    }
}

/// What a frame of an open session does.
pub open spec fn frame_outcome(
    node: NodeView,
    ctx: SessionContext,
    frame: InboundFrame,
    outside: Outside,
) -> StepOutcome {
    let received = frame.sequence_number;
    match frame.message_type {
        MessageType::HlaCallRequest => {
            let o = request_outcome(node, ctx, frame.call, outside);
            StepOutcome {
                node: NodeView {
                    metrics: counted_call(node.metrics, o.reply, o.sent.len()),
                    ..o.node
                },
                membership: o.membership,
                reply: Some(
                    answer(
                        ctx.session_id,
                        received,
                        MessageType::HlaCallResponse,
                        FramePayloadView::Response {
                            response_to_sequence_number: received,
                            response: o.reply,
                        },
                    ),
                ),
                sent: o.sent,
                file: o.file,
                close: false,
            }
        },
        MessageType::CtrlTerminateSession => plain_step(
            node,
            ctx,
            Some(
                answer(
                    ctx.session_id,
                    received,
                    MessageType::CtrlSessionTerminated,
                    FramePayloadView::Empty,
                ),
            ),
            true,
        ),
        MessageType::CtrlHeartbeat => plain_step(
            node,
            ctx,
            Some(
                answer(
                    ctx.session_id,
                    received,
                    MessageType::CtrlHeartbeatResponse,
                    FramePayloadView::Empty,
                ),
            ),
            false,
        ),
        _ => plain_step(node, ctx, None, false),
    }
}

/// Whether a federate has been silent for too long.
pub open spec fn too_silent(last_inbound: u128, now: u128, missing_timeout: u128) -> bool {
    now - last_inbound > missing_timeout
}

/// What an event of an open session does.
pub open spec fn step_outcome(
    node: NodeView,
    ctx: SessionContext,
    event: SessionEvent,
    outside: Outside,
) -> StepOutcome {
    match event {
        SessionEvent::Inbound(frame) => frame_outcome(node, ctx, frame, outside),
        SessionEvent::LivenessTick { last_inbound, now, missing_timeout } => if too_silent(
            last_inbound,
            now,
            missing_timeout,
        ) {
            plain_step(
                NodeView {
                    metrics: ServerMetrics {
                        sessions_reaped: counted(node.metrics.sessions_reaped, 1),
                        ..node.metrics
                    },
                    ..node
                },
                ctx,
                None,
                true,
            )
        } else {
            plain_step(node, ctx, None, false)
        },
        SessionEvent::PeerClosed => plain_step(node, ctx, None, true),
        SessionEvent::Shutdown => plain_step(node, ctx, None, true),
    }
}

/// The content of an optional frame.
pub open spec fn frame_view(f: Option<Frame>) -> Option<FrameView> {
    match f {
        Some(f) => Some(f@),
        None => None,
    }
}

/// How often to look whether a federate is still there: four times within the
/// time that it may be silent, but no more often than every 50 milliseconds.
pub open spec fn tick_of(cfg: HeartbeatConfig) -> u128 {
    if cfg.missing_timeout / 4 > SECOND / 20 {
        cfg.missing_timeout / 4
    } else {
        SECOND / 20
    }
}

/// How often to look whether a federate is still there.
pub fn liveness_tick(cfg: &HeartbeatConfig) -> (r: u128)
    ensures
        r == tick_of(*cfg),
{
    let quarter: u128 = cfg.missing_timeout / 4;
    let least: u128 = SECOND / 20;
    if quarter > least {
        quarter
    } else {
        least
    }
}

/// The node after callbacks were sent.
pub open spec fn with_callbacks_counted(node: NodeView, sent: nat) -> NodeView {
    NodeView {
        metrics: ServerMetrics {
            callbacks_emitted: counted(node.metrics.callbacks_emitted, sent),
            ..node.metrics
        },
        ..node
    }
}

/// The node after a session has lost its connection.
pub open spec fn disconnected(node: NodeView, session_id: u64) -> NodeView {
    NodeView { connections: node.connections.remove(session_id), ..node }
}

/// What is sent when a session is closed: a member that leaves for good may have
/// been waited for.
pub open spec fn sent_on_closing(node: NodeView, ctx: SessionContext, window: u128) -> Seq<
    OutboundView,
> {
    match ctx.membership {
        Some(m) if window == 0 => sent_on_leaving(disconnected(node, ctx.session_id), m),
        _ => Seq::empty(),
    }
}

/// The node after a session was closed. A member can resume its session within
/// the window, if there is one; otherwise it resigns.
pub open spec fn after_closing(
    node: NodeView,
    ctx: SessionContext,
    window: u128,
    now: u128,
) -> NodeView {
    let left = disconnected(node, ctx.session_id);
    match ctx.membership {
        Some(m) => if window > 0 {
            NodeView {
                suspended_sessions: left.suspended_sessions.insert(
                    ctx.session_id,
                    SuspendedSession { membership: Some(m), deadline: (now + window) as u128 },
                ),
                ..left
            }
        } else {
            with_callbacks_counted(
                after_leaving(left, m),
                sent_on_closing(node, ctx, window).len(),
            )
        },
        None => left,
    }
}

/// Whether the deadline of a suspended session has come.
pub open spec fn is_expired(node: NodeView, session_id: u64, now: u128) -> bool {
    node.suspended_sessions.contains_key(session_id)
        && node.suspended_sessions[session_id].deadline <= now
}

/// The members of a federation that resign together with a set of suspended
/// sessions.
pub open spec fn leaving(node: NodeView, sessions: Set<u64>, federation: u64) -> Set<u32> {
    Set::new(
        |h: u32|
            exists|s: u64| #[trigger]
                sessions.contains(s) && node.suspended_sessions.contains_key(s)
                    && node.suspended_sessions[s].membership == Some(
                    Membership { federation, federate_handle: h },
                ),
    )
}

/// The node after suspended sessions have ended and their federates resigned.
pub open spec fn without_suspended(node: NodeView, sessions: Set<u64>) -> NodeView {
    NodeView {
        federations: Map::new(
            |id: u64| node.federations.contains_key(id),
            |id: u64|
                FederationView {
                    federates: node.federations[id].federates.remove_keys(
                        leaving(node, sessions, id),
                    ),
                    ..node.federations[id]
                },
        ),
        suspended_sessions: node.suspended_sessions.remove_keys(sessions),
        ..node
    }
}

/// The sessions whose deadline has come.
pub open spec fn expired_sessions(node: NodeView, now: u128) -> Set<u64> {
    Set::new(|s: u64| is_expired(node, s, now))
}

/// The federations in which a set of suspended sessions has joined.
pub open spec fn federations_left(node: NodeView, sessions: Set<u64>) -> Set<u64> {
    Set::new(
        |id: u64|
            exists|s: u64| #[trigger]
                sessions.contains(s) && node.suspended_sessions.contains_key(s)
                    && node.suspended_sessions[s].membership is Some
                    && node.suspended_sessions[s].membership->0.federation == id,
    )
}

/// The node after the pending advances in a set of federations were looked at
/// again.
pub open spec fn with_grants_in(node: NodeView, ids: Set<u64>) -> NodeView {
    NodeView {
        federations: Map::new(
            |id: u64| node.federations.contains_key(id),
            |id: u64|
                if ids.contains(id) {
                    after_all_grants(node.federations[id])
                } else {
                    node.federations[id]
                },
        ),
        ..node
    }
}

/// What is sent when the pending advances in listed federations are looked at
/// again.
pub open spec fn sent_with_grants_in(node: NodeView, q: Seq<u64>) -> Seq<OutboundView>
    decreases q.len(),
{
    if q.len() == 0 {
        Seq::empty()
    } else {
        sent_with_grants_in(node, q.drop_last()) + sent_with_grants(node, q.last())
    }
}

/// What is sent at the clean-up of suspended sessions: those who waited for a
/// federate that has resigned may advance.
pub open spec fn sent_on_expiry(node: NodeView, now: u128) -> Seq<OutboundView> {
    let expired = expired_sessions(node, now);
    sent_with_grants_in(
        without_suspended(node, expired),
        ascending(federations_left(node, expired)),
    )
}

/// The node after the clean-up of suspended sessions: those whose deadline has
/// come are over, and their federates have resigned.
pub open spec fn after_expiry(node: NodeView, now: u128) -> NodeView {
    let expired = expired_sessions(node, now);
    with_callbacks_counted(
        with_grants_in(without_suspended(node, expired), federations_left(node, expired)),
        sent_on_expiry(node, now).len(),
    )
}

impl RtiNode {
    /// Decides what the first frame of a connection leads to. The candidate is
    /// the number of the session, should it be a new one.
    pub fn open_session(&mut self, candidate: u64, first: &OpeningFrame, now: u128) -> (r: Opening)
        requires
            old(self).wf(),
        ensures
            final(self).wf(),
            final(self)@ == after_opening(old(self)@, *first, now),
            r@ == opening(old(self)@, candidate, *first, now),
    {
        match first.message_type {
            MessageType::CtrlNewSession => {
                if first.protocol_version == FEDERATE_PROTOCOL_VERSION {
                    Opening::Opened {
                        reply: make_answer(
                            candidate,
                            first.sequence_number,
                            MessageType::CtrlNewSessionStatus,
                            FramePayload::Status(StatusReason::Success),
                        ),
                        ctx: SessionContext::new(candidate),
                    }
                } else {
                    Opening::Refused {
                        reply: make_answer(
                            candidate,
                            first.sequence_number,
                            MessageType::CtrlNewSessionStatus,
                            FramePayload::Status(StatusReason::UnsupportedProtocolVersion),
                        ),
                        fault: Some(
                            SessionFault::UnsupportedProtocolVersion(first.protocol_version),
                        ),
                    }
                }
            },
            MessageType::CtrlResumeRequest => self.resume_session(first, now),
            other => Opening::Rejected(
                SessionFault::UnexpectedMessageType {
                    got: other,
                    expected: MessageType::CtrlNewSession,
                },
            ),
        }
    }

    fn resume_session(&mut self, first: &OpeningFrame, now: u128) -> (r: Opening)
        requires
            old(self).wf(),
            first.message_type == MessageType::CtrlResumeRequest,
        ensures
            final(self).wf(),
            final(self)@ == after_opening(old(self)@, *first, now),
            r@ == opening(old(self)@, 0, *first, now),
    {
        let session_id = first.session_id;
        if let Some(s) = self.suspended_sessions.get(session_id) {
            if s.deadline > now {
                self.suspended_sessions.remove(session_id);
                return Opening::Opened {
                    reply: make_answer(
                        session_id,
                        first.sequence_number,
                        MessageType::CtrlResumeStatus,
                        FramePayload::Status(StatusReason::Success),
                    ),
                    ctx: SessionContext { session_id, membership: s.membership },
                };
            }
        }
        Opening::Refused {
            reply: make_answer(
                NO_SESSION_ID,
                first.sequence_number,
                MessageType::CtrlResumeStatus,
                FramePayload::Status(StatusReason::OtherError),
            ),
            fault: None,
        }
    }

    /// Takes note that a session is open on a connection, and returns the
    /// heartbeat configuration for it.
    pub fn session_opened(&mut self, session_id: u64, connection: u64) -> (r: HeartbeatConfig)
        requires
            old(self).wf(),
        ensures
            final(self).wf(),
            final(self)@ == (NodeView {
                connections: old(self)@.connections.insert(session_id, connection),
                metrics: ServerMetrics {
                    sessions_opened: counted(old(self)@.metrics.sessions_opened, 1),
                    ..old(self)@.metrics
                },
                ..old(self)@
            }),
            r == old(self)@.heartbeat,
    {
        self.metrics.sessions_opened = count_up(self.metrics.sessions_opened, 1);
        self.connections.insert(session_id, connection);
        self.heartbeat
    }

    /// Decides what is to be done about an event of an open session.
    pub fn session_step(
        &mut self,
        ctx: &mut SessionContext,
        event: &SessionEvent,
        outside: &Outside,
    ) -> (r: SessionStep)
        requires
            old(self).wf(),
        ensures
            final(self).wf(),
            ({
                let o = step_outcome(old(self)@, *old(ctx), *event, *outside);
                &&& final(self)@ == o.node
                &&& *final(ctx) == (SessionContext { membership: o.membership, ..*old(ctx) })
                &&& frame_view(r.reply) == o.reply
                &&& r.callbacks@ == o.sent
                &&& file_view(r.file) == o.file
                &&& r.close == o.close
            }),
    {
        match event {
            SessionEvent::Inbound(frame) => self.handle_frame(ctx, frame, outside),
            SessionEvent::LivenessTick { last_inbound, now, missing_timeout } => {
                let close: bool = *now > *last_inbound && *now - *last_inbound > *missing_timeout;
                if close {
                    self.metrics.sessions_reaped = count_up(self.metrics.sessions_reaped, 1);
                }
                SessionStep { reply: None, callbacks: Outbox::new(), file: None, close }
            },
            SessionEvent::PeerClosed => SessionStep {
                reply: None,
                callbacks: Outbox::new(),
                file: None,
                close: true,
            },
            SessionEvent::Shutdown => SessionStep {
                reply: None,
                callbacks: Outbox::new(),
                file: None,
                close: true,
            },
        }
    }

    fn handle_frame(
        &mut self,
        ctx: &mut SessionContext,
        frame: &InboundFrame,
        outside: &Outside,
    ) -> (r: SessionStep)
        requires
            old(self).wf(),
        ensures
            final(self).wf(),
            ({
                let o = frame_outcome(old(self)@, *old(ctx), *frame, *outside);
                &&& final(self)@ == o.node
                &&& *final(ctx) == (SessionContext { membership: o.membership, ..*old(ctx) })
                &&& frame_view(r.reply) == o.reply
                &&& r.callbacks@ == o.sent
                &&& file_view(r.file) == o.file
                &&& r.close == o.close
            }),
    {
        let received = frame.sequence_number;
        match frame.message_type {
            MessageType::HlaCallRequest => self.handle_call(ctx, frame, outside),
            MessageType::CtrlTerminateSession => SessionStep {
                reply: Some(
                    make_answer(
                        ctx.session_id,
                        received,
                        MessageType::CtrlSessionTerminated,
                        FramePayload::Empty,
                    ),
                ),
                callbacks: Outbox::new(),
                file: None,
                close: true,
            },
            MessageType::CtrlHeartbeat => SessionStep {
                reply: Some(
                    make_answer(
                        ctx.session_id,
                        received,
                        MessageType::CtrlHeartbeatResponse,
                        FramePayload::Empty,
                    ),
                ),
                callbacks: Outbox::new(),
                file: None,
                close: false,
            },
            _ => SessionStep {
                reply: None,
                callbacks: Outbox::new(),
                file: None,
                close: false,
            },
        }
    }

    fn handle_call(
        &mut self,
        ctx: &mut SessionContext,
        frame: &InboundFrame,
        outside: &Outside,
    ) -> (r: SessionStep)
        requires
            old(self).wf(),
            frame.message_type == MessageType::HlaCallRequest,
        ensures
            final(self).wf(),
            ({
                let o = frame_outcome(old(self)@, *old(ctx), *frame, *outside);
                &&& final(self)@ == o.node
                &&& *final(ctx) == (SessionContext { membership: o.membership, ..*old(ctx) })
                &&& frame_view(r.reply) == o.reply
                &&& r.callbacks@ == o.sent
                &&& file_view(r.file) == o.file
                &&& r.close == o.close
            }),
    {
        let received = frame.sequence_number;
        let session_id = ctx.session_id;
        let metrics = self.metrics;
        let outcome = match &frame.call {
            Ok(request) => dispatch_call(self, ctx, request, outside),
            Err(text) => DispatchOutcome {
                response: refuse(
                    exception_variant(
                        HlaException::RtiInternalError,
                        joined("malformed CallRequest: ", text.as_str()).as_str(),
                    ),
                ),
                callbacks: Outbox::new(),
                file: None,
            },
        };
        let refused_call: bool = match &outcome.response {
            CallResponse::Exception(_) => true,
            _ => false,
        };
        self.metrics = ServerMetrics {
            calls_dispatched: count_up(metrics.calls_dispatched, 1),
            call_exceptions: if refused_call {
                count_up(metrics.call_exceptions, 1)
            } else {
                metrics.call_exceptions
            },
            callbacks_emitted: count_up(metrics.callbacks_emitted, outcome.callbacks.len()),
            ..metrics
        };
        SessionStep {
            reply: Some(
                make_answer(
                    session_id,
                    received,
                    MessageType::HlaCallResponse,
                    FramePayload::Response {
                        response_to_sequence_number: received,
                        response: outcome.response,
                    },
                ),
            ),
            callbacks: outcome.callbacks,
            file: outcome.file,
            close: false,
        }
    }

    /// Closes a session, and returns the callbacks that are to be sent.
    pub fn close_session(&mut self, ctx: &SessionContext, window: u128, now: u128) -> (r: Outbox)
        requires
            old(self).wf(),
            now + window <= u128::MAX,
        ensures
            final(self).wf(),
            final(self)@ == after_closing(old(self)@, *ctx, window, now),
            r@ == sent_on_closing(old(self)@, *ctx, window),
    {
        let mut out = Outbox::new();
        self.connections.remove(ctx.session_id);
        if let Some(m) = ctx.membership {
            if window > 0 {
                self.suspended_sessions.insert(ctx.session_id, m, now + window);
            } else {
                leave(self, &mut out, m);
                assert(out@ =~= sent_on_closing(old(self)@, *ctx, window));
                self.metrics.callbacks_emitted = count_up(
                    self.metrics.callbacks_emitted,
                    out.len(),
                );
            }
        }
        out
    }

    /// Ends the suspended sessions whose deadline has come, lets their federates
    /// resign, and returns the callbacks that are to be sent.
    pub fn expire_suspended(&mut self, now: u128) -> (r: Outbox)
        requires
            old(self).wf(),
        ensures
            final(self).wf(),
            final(self)@ == after_expiry(old(self)@, now),
            r@ == sent_on_expiry(old(self)@, now),
    {
        proof {
            clean_up_keeps_order(self@, now);
        }
        let left = self.end_suspended(now);
        let mut out = Outbox::new();
        self.grant_in_all(&mut out, &left);
        assert(out@ =~= sent_on_expiry(old(self)@, now));
        self.metrics.callbacks_emitted = count_up(self.metrics.callbacks_emitted, out.len());
        out
    }

    /// Looks again at the pending advances in a set of federations.
    fn grant_in_all(&mut self, out: &mut Outbox, ids: &KeySet<u64>)
        requires
            old(self).sound(),
        ensures
            final(self).sound(),
            final(self)@ == with_grants_in(old(self)@, ids@),
            final(out)@ == old(out)@ + sent_with_grants_in(old(self)@, ascending(ids@)),
    {
        let ghost node = self@;
        let q = ids.members();
        let mut i: usize = 0;
        proof {
            lemma_ascending(ids@);
            assert(with_grants_in(node, q@.take(0).to_set()).federations =~= node.federations);
            assert(old(out)@ + sent_with_grants_in(node, q@.take(0)) =~= old(out)@);
        }
        while i < q.len()
            invariant
                i <= q@.len(),
                q@.no_duplicates(),
                self.sound(),
                self@ == with_grants_in(node, q@.take(i as int).to_set()),
                out@ == old(out)@ + sent_with_grants_in(node, q@.take(i as int)),
            decreases q@.len() - i,
        {
            let id = q[i];
            let ghost seen = q@.take(i as int);
            proof {
                assert(q@.take(i + 1) =~= seen.push(id));
                assert(q@.take(i + 1).drop_last() =~= seen);
                assert(!seen.contains(id)) by {
                    if seen.contains(id) {
                        let k = seen.index_of(id);
                        assert(q@[k] == q@[i as int]);
                    }
                }
                assert forall|k: u64| q@.take(i + 1).to_set().contains(k) <==> seen.to_set().contains(
                    k,
                ) || k == id by {
                    broadcast use vstd::seq_lib::group_seq_properties;
                }
            }
            grant_in(self, out, id);
            proof {
                assert(self@.federations =~= with_grants_in(
                    node,
                    q@.take(i + 1).to_set(),
                ).federations);
                assert(out@ =~= old(out)@ + sent_with_grants_in(node, q@.take(i + 1)));
            }
            i = i + 1;
        }
        proof {
            assert(q@.take(i as int) =~= q@);
            assert(q@.to_set() =~= ids@);
        }
    }

    /// Ends the suspended sessions whose deadline has come, takes their federates
    /// out of the federations, and returns those federations.
    fn end_suspended(&mut self, now: u128) -> (r: KeySet<u64>)
        requires
            old(self).sound(),
        ensures
            final(self).sound(),
            final(self)@ == without_suspended(old(self)@, expired_sessions(old(self)@, now)),
            r@ == federations_left(old(self)@, expired_sessions(old(self)@, now)),
    {
        let ghost node = self@;
        let expired = self.suspended_sessions.expired(now);
        let mut left: KeySet<u64> = KeySet::new();
        let mut i: usize = 0;
        proof {
            assert(without_suspended(node, expired@.take(0).to_set()) =~= node) by {
                let none = expired@.take(0).to_set();
                assert forall|id: u64| #[trigger] node.federations.contains_key(id) implies
                    node.federations[id].federates.remove_keys(leaving(node, none, id))
                    =~= node.federations[id].federates by {}
                assert(without_suspended(node, none).federations =~= node.federations);
                assert(node.suspended_sessions.remove_keys(none) =~= node.suspended_sessions);
            }
            assert(left@ =~= federations_left(node, expired@.take(0).to_set()));
        }
        while i < expired.len()
            invariant
                i <= expired@.len(),
                expired@.no_duplicates(),
                forall|s: u64| #[trigger] expired@.contains(s) <==> is_expired(node, s, now),
                self.sound(),
                self@ == without_suspended(node, expired@.take(i as int).to_set()),
                left@ == federations_left(node, expired@.take(i as int).to_set()),
            decreases expired@.len() - i,
        {
            let s = expired[i];
            let ghost seen = expired@.take(i as int).to_set();
            let ghost next = expired@.take(i + 1).to_set();
            let ghost known = left@;
            proof {
                assert(expired@.contains(expired@[i as int]));
                assert(expired@.take(i + 1) =~= expired@.take(i as int).push(s));
                assert(!expired@.take(i as int).contains(s)) by {
                    if expired@.take(i as int).contains(s) {
                        let k = expired@.take(i as int).index_of(s);
                        assert(expired@[k] == expired@[i as int]);
                    }
                }
                assert forall|t: u64| next.contains(t) <==> seen.contains(t) || t == s by {
                    broadcast use vstd::seq_lib::group_seq_properties;
                }
            }
            if let Some(session) = self.suspended_sessions.remove(s) {
                assert(session == node.suspended_sessions[s]);
                if let Some(m) = session.membership {
                    remove_member(self, m);
                    left.insert(m.federation);
                }
                proof {
                    lemma_one_more(node, seen, next, s);
                    lemma_left_once_more(node, seen, next, s);
                }
            }
            i = i + 1;
        }
        proof {
            assert(expired@.take(i as int) =~= expired@);
            assert(expired@.to_set() =~= expired_sessions(node, now));
        }
        left
    }
}

/// One more suspended session that ends leaves its own federation.
proof fn lemma_left_once_more(node: NodeView, seen: Set<u64>, next: Set<u64>, s: u64)
    requires
        node.suspended_sessions.contains_key(s),
        forall|t: u64| next.contains(t) <==> seen.contains(t) || t == s,
    ensures
        federations_left(node, next) == match node.suspended_sessions[s].membership {
            Some(m) => federations_left(node, seen).insert(m.federation),
            None => federations_left(node, seen),
        },
{
    let before = federations_left(node, seen);
    let after = federations_left(node, next);
    let own = node.suspended_sessions[s].membership;
    assert(next.contains(s));
    assert forall|id: u64| after.contains(id) <==> before.contains(id) || (own is Some
        && own->0.federation == id) by {
        if after.contains(id) {
            let t = choose|t: u64| #[trigger]
                next.contains(t) && node.suspended_sessions.contains_key(t)
                    && node.suspended_sessions[t].membership is Some
                    && node.suspended_sessions[t].membership->0.federation == id;
            if t != s {
                assert(seen.contains(t));
            }
        }
        if before.contains(id) {
            let t = choose|t: u64| #[trigger]
                seen.contains(t) && node.suspended_sessions.contains_key(t)
                    && node.suspended_sessions[t].membership is Some
                    && node.suspended_sessions[t].membership->0.federation == id;
            assert(next.contains(t));
        }
    }
    match own {
        Some(m) => {
            assert(after =~= before.insert(m.federation));
        },
        None => {
            assert(after =~= before);
        },
    }
}

/// One more suspended session that ends takes its own entry and its own federate
/// with it.
proof fn lemma_one_more(node: NodeView, seen: Set<u64>, next: Set<u64>, s: u64)
    requires
        node.suspended_sessions.contains_key(s),
        !seen.contains(s),
        forall|t: u64| next.contains(t) <==> seen.contains(t) || t == s,
    ensures
        ({
            let before = without_suspended(node, seen);
            let session = node.suspended_sessions[s];
            let gone = NodeView {
                suspended_sessions: before.suspended_sessions.remove(s),
                ..before
            };
            without_suspended(node, next) == match session.membership {
                Some(m) => without_member(gone, m),
                None => gone,
            }
        }),
{
    let before = without_suspended(node, seen);
    let session = node.suspended_sessions[s];
    let gone = NodeView { suspended_sessions: before.suspended_sessions.remove(s), ..before };
    let target = match session.membership {
        Some(m) => without_member(gone, m),
        None => gone,
    };
    let after = without_suspended(node, next);
    assert(next.contains(s));
    assert(after.suspended_sessions =~= gone.suspended_sessions);
    assert forall|id: u64| #[trigger] node.federations.contains_key(id) implies after.federations[id]
        == target.federations[id] by {
        let l0 = leaving(node, seen, id);
        let l1 = leaving(node, next, id);
        assert forall|h: u32| l1.contains(h) <==> l0.contains(h) || session.membership == Some(
            Membership { federation: id, federate_handle: h },
        ) by {
            if l1.contains(h) {
                let t = choose|t: u64| #[trigger]
                    next.contains(t) && node.suspended_sessions.contains_key(t)
                        && node.suspended_sessions[t].membership == Some(
                        Membership { federation: id, federate_handle: h },
                    );
                if t != s {
                    assert(seen.contains(t));
                }
            }
            if l0.contains(h) {
                let t = choose|t: u64| #[trigger]
                    seen.contains(t) && node.suspended_sessions.contains_key(t)
                        && node.suspended_sessions[t].membership == Some(
                        Membership { federation: id, federate_handle: h },
                    );
                assert(next.contains(t));
            }
        }
        assert(after.federations[id].federates =~= target.federations[id].federates);
    }
    assert(after.federations =~= target.federations);
}

/// A session that lost its connection can be resumed until its window is over,
/// as the member that it was; afterwards it cannot.
pub proof fn a_lost_session_can_be_resumed_in_time(
    node: NodeView,
    ctx: SessionContext,
    window: u128,
    lost: u128,
    now: u128,
    candidate: u64,
    first: OpeningFrame,
)
    requires
        ctx.membership is Some,
        window > 0,
        lost + window <= u128::MAX,
        first.message_type == MessageType::CtrlResumeRequest,
        first.session_id == ctx.session_id,
    ensures
        ({
            let closed = after_closing(node, ctx, window, lost);
            let o = opening(closed, candidate, first, now);
            &&& now < lost + window ==> (o matches OpeningView::Opened { ctx: c, .. } && c == ctx)
            &&& now >= lost + window ==> (o matches OpeningView::Refused { fault, .. }
                && fault is None)
        }),
{
}

/// A session is resumed once: after that it is not suspended any more.
pub proof fn a_session_is_resumed_once(
    node: NodeView,
    candidate: u64,
    first: OpeningFrame,
    now: u128,
)
    requires
        first.message_type == MessageType::CtrlResumeRequest,
    ensures
        opening(after_opening(node, first, now), candidate, first, now) is Refused,
{
}

/// The federate of a session that ends without a window is gone from its
/// federation, and so is that of a suspended session after its deadline.
pub proof fn lost_federates_resign(
    node: NodeView,
    ctx: SessionContext,
    window: u128,
    lost: u128,
    now: u128,
)
    requires
        ctx.membership is Some,
        node.federations.contains_key(ctx.membership->0.federation),
        lost + window <= now,
    ensures
        ({
            let m = ctx.membership->0;
            let closed = after_closing(node, ctx, window, lost);
            let later = after_expiry(closed, now);
            !later.federations[m.federation].federates.contains_key(m.federate_handle)
        }),
{
    let m = ctx.membership->0;
    let closed = after_closing(node, ctx, window, lost);
    if window > 0 {
        let s = ctx.session_id;
        assert(expired_sessions(closed, now).contains(s));
        assert(leaving(closed, expired_sessions(closed, now), m.federation).contains(
            m.federate_handle,
        ));
    } else {
        grants_keep_the_members(
            without_member(disconnected(node, ctx.session_id), m).federations[m.federation],
            m.federate_handle,
        );
    }
    grants_keep_the_members(
        without_suspended(closed, expired_sessions(closed, now)).federations[m.federation],
        m.federate_handle,
    );
}

/// A suspended member keeps its place in the federation until its deadline. What
/// may change is its time, where it has waited for another one that resigned.
pub proof fn suspended_federates_stay(
    node: NodeView,
    now: u128,
    federation: u64,
    f: u32,
)
    requires
        node.federations.contains_key(federation),
        node.federations[federation].federates.contains_key(f),
        forall|s: u64| #[trigger]
            node.suspended_sessions.contains_key(s) && node.suspended_sessions[s].membership
                == Some(Membership { federation, federate_handle: f })
                ==> node.suspended_sessions[s].deadline > now,
    ensures
        ({
            let left = after_expiry(node, now).federations[federation].federates;
            &&& left.contains_key(f)
            &&& same_but_time(node.federations[federation].federates[f], left[f])
        }),
{
    grants_keep_the_members(
        without_suspended(node, expired_sessions(node, now)).federations[federation],
        f,
    );
}

/// The end of a session leaves every federation in order: nobody waits for who is
/// lost for good.
pub proof fn closing_keeps_order(node: NodeView, ctx: SessionContext, window: u128, now: u128)
    requires
        node.wf(),
    ensures
        after_closing(node, ctx, window, now).wf(),
{
    if let Some(m) = ctx.membership {
        leaving_keeps_order(disconnected(node, ctx.session_id), m);
    }
}

/// The clean-up of suspended sessions leaves every federation in order: nobody waits
/// for who was not resumed in time.
pub proof fn clean_up_keeps_order(node: NodeView, now: u128)
    requires
        node.wf(),
    ensures
        after_expiry(node, now).wf(),
{
    let expired = expired_sessions(node, now);
    let next = after_expiry(node, now);
    assert forall|id: u64| #[trigger]
        next.federations.contains_key(id) implies next.federations[id].serial == id
        && next.federations[id].name == node.federations[id].name && next.federations[id].wf()
        && in_order(next.federations[id]) by {
        let fed = node.federations[id];
        let gone = leaving(node, expired, id);
        assert(node.federations.contains_key(id));
        lemma_departed(fed, gone);
        if !federations_left(node, expired).contains(id) {
            assert forall|h: u32| !gone.contains(h) by {
                if gone.contains(h) {
                    let s = choose|s: u64| #[trigger]
                        expired.contains(s) && node.suspended_sessions.contains_key(s)
                            && node.suspended_sessions[s].membership == Some(
                            Membership { federation: id, federate_handle: h },
                        );
                    assert(federations_left(node, expired).contains(id));
                }
            }
            assert(fed.federates.remove_keys(gone) =~= fed.federates);
        }
    }
    assert forall|a: u64, b: u64| #[trigger]
        next.federations.contains_key(a) && #[trigger] next.federations.contains_key(b)
            && next.federations[a].name == next.federations[b].name implies a == b by {
        assert(node.federations.contains_key(a));
        assert(node.federations.contains_key(b));
    }
}

/// A closed session gets no callback any more: it has no connection.
pub proof fn a_closed_session_has_no_connection(
    node: NodeView,
    ctx: SessionContext,
    window: u128,
    now: u128,
)
    ensures
        !after_closing(node, ctx, window, now).connections.contains_key(ctx.session_id),
{
}

/// The clock closes a session exactly when its federate has been silent for longer
/// than it may be, and a stopped node closes every session.
pub proof fn only_silence_closes_a_session_by_the_clock(
    node: NodeView,
    ctx: SessionContext,
    last_inbound: u128,
    now: u128,
    missing_timeout: u128,
    outside: Outside,
)
    ensures
        step_outcome(
            node,
            ctx,
            SessionEvent::LivenessTick { last_inbound, now, missing_timeout },
            outside,
        ).close <==> now - last_inbound > missing_timeout,
        step_outcome(node, ctx, SessionEvent::Shutdown, outside).close,
{
}

} // verus!

//! Sessions: how they are opened and closed, what is answered to their frames, and what
//! becomes of the federates of those that are lost.

use crate::callbacks::CallbackView;
use crate::connections::PeerAddress;
use crate::dispatch::calls::{call_outcome, Outside};
use crate::dispatch::federation_mgmt::sent_with_grants;
use crate::exception::HlaException;
use crate::federation::FederationView;
use crate::frames::{initiative, FramePayloadView, FrameView, MessageType, StatusReason};
use crate::laws::restore::lemma_instances_finite;
use crate::laws::time::{goes_on, grant_call, has_advanced, lemma_goes_on, nothing};
use crate::laws::{is_member, lemma_received_add, own_sessions, received, well_addressed};
use crate::messages::ResponseView;
use crate::metrics::ServerMetrics;
use crate::node::{after_acceptance, after_rejection, broken_limit, Limit, NodeView};
use crate::session::{Membership, SessionContext};
use crate::sessions::{
    after_closing, after_expiry, after_opening, expired_sessions, federations_left, leaving,
    opening, sent_on_closing, sent_on_expiry, sent_with_grants_in, step_outcome, tick_of,
    without_suspended, InboundFrame, OpeningFrame, OpeningView, SessionEvent, SessionFault,
    StepOutcome,
};
use crate::tables::{ascending, lemma_ascending};
use crate::HeartbeatConfig;
use vstd::prelude::*;

verus! {

/// Whether a frame answers the one with a number, for a session.
pub open spec fn is_answer_to(
    f: FrameView,
    session: u64,
    number: i32,
    kind: MessageType,
    payload: FramePayloadView,
) -> bool {
    &&& f.header.session_id == session
    &&& f.header.sequence_number is None
    &&& f.header.last_received_sequence_number == Some(number)
    &&& f.header.message_type == kind
    &&& f.payload == payload
}

/// Whether a session is suspended, and its time has not come.
pub open spec fn may_come_back(node: NodeView, session: u64, now: u128) -> bool {
    node.suspended_sessions.contains_key(session) && now
        < node.suspended_sessions[session].deadline
}

/// A new session is opened for a federate that speaks the protocol of the node, under the
/// number that is held ready, and is no member of anything; the others are told that they do
/// not. A lost session is opened again in its time, and once: it has the membership it had.
/// The rest is rejected.
pub proof fn a_session_is_opened_or_resumed(
    node: NodeView,
    candidate: u64,
    first: OpeningFrame,
    now: u128,
)
    ensures
        ({
            let o = opening(node, candidate, first, now);
            let next = after_opening(node, first, now);
            let n = first.sequence_number;
            match first.message_type {
                MessageType::CtrlNewSession => next == node && if first.protocol_version == 1 {
                    o matches OpeningView::Opened { reply, ctx } && ctx.session_id == candidate
                        && ctx.membership is None && is_answer_to(
                        reply,
                        candidate,
                        n,
                        MessageType::CtrlNewSessionStatus,
                        FramePayloadView::Status(StatusReason::Success),
                    )
                } else {
                    o matches OpeningView::Refused { reply, fault } && fault == Some(
                        SessionFault::UnsupportedProtocolVersion(first.protocol_version),
                    ) && is_answer_to(
                        reply,
                        candidate,
                        n,
                        MessageType::CtrlNewSessionStatus,
                        FramePayloadView::Status(StatusReason::UnsupportedProtocolVersion),
                    )
                },
                MessageType::CtrlResumeRequest => if may_come_back(node, first.session_id, now) {
                    &&& next == (NodeView {
                        suspended_sessions: node.suspended_sessions.remove(first.session_id),
                        ..node
                    })
                    &&& o matches OpeningView::Opened { reply, ctx } && ctx.session_id
                        == first.session_id && ctx.membership
                        == node.suspended_sessions[first.session_id].membership && is_answer_to(
                        reply,
                        first.session_id,
                        n,
                        MessageType::CtrlResumeStatus,
                        FramePayloadView::Status(StatusReason::Success),
                    )
                } else {
                    &&& next == node
                    &&& o matches OpeningView::Refused { reply, fault } && fault is None
                        && is_answer_to(
                        reply,
                        0,
                        n,
                        MessageType::CtrlResumeStatus,
                        FramePayloadView::Status(StatusReason::OtherError),
                    )
                },
                other => next == node && o == OpeningView::Rejected(
                    SessionFault::UnexpectedMessageType {
                        got: other,
                        expected: MessageType::CtrlNewSession,
                    },
                ),
            }
        }),
{
}

/// Whether two nodes differ in their counts at most.
pub open spec fn only_counts_differ(a: NodeView, b: NodeView) -> bool {
    b == (NodeView { metrics: b.metrics, ..a })
}

/// Whether an event leaves everything as it is but for the counts.
pub open spec fn nothing_happens(o: StepOutcome, node: NodeView, ctx: SessionContext) -> bool {
    &&& only_counts_differ(node, o.node)
    &&& o.membership == ctx.membership
    &&& o.sent.len() == 0
    &&& o.file is None
}

/// Whether a frame carries an exception in answer to the one with a number.
pub open spec fn is_exception(payload: FramePayloadView, number: i32, kind: HlaException) -> bool {
    match payload {
        FramePayloadView::Response { response_to_sequence_number, response } => {
            response_to_sequence_number == number && match response {
                ResponseView::Exception(e) => e.exception == kind,
                _ => false,
            }
        },
        _ => false,
    }
}

/// A frame with a request is answered with what came of the request, and the session goes on.
/// A request that cannot be read is answered with an exception.
pub proof fn requests_are_answered(
    node: NodeView,
    ctx: SessionContext,
    frame: InboundFrame,
    outside: Outside,
)
    requires
        frame.message_type == MessageType::HlaCallRequest,
    ensures
        ({
            let o = step_outcome(node, ctx, SessionEvent::Inbound(frame), outside);
            let n = frame.sequence_number;
            &&& !o.close
            &&& match frame.call {
                Ok(request) => {
                    let c = call_outcome(node, ctx, request, outside);
                    &&& only_counts_differ(c.node, o.node)
                    &&& o.membership == c.membership
                    &&& o.sent == c.sent
                    &&& o.file == c.file
                    &&& o.reply matches Some(f) && is_answer_to(
                        f,
                        ctx.session_id,
                        n,
                        MessageType::HlaCallResponse,
                        FramePayloadView::Response {
                            response_to_sequence_number: n,
                            response: c.reply,
                        },
                    )
                },
                Err(_) => {
                    &&& nothing_happens(o, node, ctx)
                    &&& o.reply is Some
                    &&& is_answer_to(
                        o.reply->0,
                        ctx.session_id,
                        n,
                        MessageType::HlaCallResponse,
                        o.reply->0.payload,
                    )
                    &&& is_exception(o.reply->0.payload, n, HlaException::RtiInternalError)
                },
            }
            &&& o.node.metrics == (ServerMetrics {
                calls_dispatched: o.node.metrics.calls_dispatched,
                call_exceptions: o.node.metrics.call_exceptions,
                callbacks_emitted: o.node.metrics.callbacks_emitted,
                ..node.metrics
            })
            &&& node.metrics.calls_dispatched < u64::MAX ==> o.node.metrics.calls_dispatched
                == node.metrics.calls_dispatched + 1
            &&& node.metrics.call_exceptions < u64::MAX ==> o.node.metrics.call_exceptions
                == node.metrics.call_exceptions + (if o.reply->0.payload->response is Exception {
                1int
            } else {
                0
            })
            &&& node.metrics.callbacks_emitted + o.sent.len() <= u64::MAX
                ==> o.node.metrics.callbacks_emitted == node.metrics.callbacks_emitted
                + o.sent.len()
        }),
{
}

/// A heartbeat is answered, and nothing else comes of it; the wish to end a session is
/// answered, and ends it; other frames are passed over.
pub proof fn control_frames_are_answered(
    node: NodeView,
    ctx: SessionContext,
    frame: InboundFrame,
    outside: Outside,
)
    requires
        frame.message_type != MessageType::HlaCallRequest,
    ensures
        ({
            let o = step_outcome(node, ctx, SessionEvent::Inbound(frame), outside);
            let n = frame.sequence_number;
            &&& nothing_happens(o, node, ctx)
            &&& o.node == node
            &&& o.close <==> frame.message_type == MessageType::CtrlTerminateSession
            &&& frame.message_type == MessageType::CtrlTerminateSession ==> (o.reply matches Some(f)
                && is_answer_to(
                f,
                ctx.session_id,
                n,
                MessageType::CtrlSessionTerminated,
                FramePayloadView::Empty,
            ))
            &&& frame.message_type == MessageType::CtrlHeartbeat ==> (o.reply matches Some(f)
                && is_answer_to(
                f,
                ctx.session_id,
                n,
                MessageType::CtrlHeartbeatResponse,
                FramePayloadView::Empty,
            ))
            &&& frame.message_type != MessageType::CtrlTerminateSession && frame.message_type
                != MessageType::CtrlHeartbeat ==> o.reply is None
        }),
{
}

/// A session that was silent for longer than it may be ends, and so does one whose peer or
/// whose node goes; nothing is sent.
pub proof fn silence_ends_a_session(
    node: NodeView,
    ctx: SessionContext,
    event: SessionEvent,
    outside: Outside,
)
    requires
        !(event is Inbound),
    ensures
        ({
            let o = step_outcome(node, ctx, event, outside);
            &&& nothing_happens(o, node, ctx)
            &&& o.reply is None
            &&& match event {
                SessionEvent::LivenessTick { last_inbound, now, missing_timeout } => o.close
                    <==> now > last_inbound + missing_timeout,
                _ => o.close,
            }
        }),
{
}

/// Whether a federate is lost for good: its session is suspended, and its time has come.
pub open spec fn is_lost(node: NodeView, id: u64, f: u32, now: u128) -> bool {
    exists|s: u64| #[trigger]
        node.suspended_sessions.contains_key(s) && node.suspended_sessions[s].deadline <= now
            && node.suspended_sessions[s].membership == Some(
            Membership { federation: id, federate_handle: f },
        )
}

/// A federation without the federates that are lost for good.
pub open spec fn staying(node: NodeView, id: u64, now: u128) -> FederationView {
    FederationView {
        federates: Map::new(
            |f: u32| node.federations[id].federates.contains_key(f) && !is_lost(node, id, f, now),
            |f: u32| node.federations[id].federates[f],
        ),
        ..node.federations[id]
    }
}

/// Whether a session that is lost for good was a member of a federation.
pub open spec fn loses_somebody(node: NodeView, id: u64, now: u128) -> bool {
    exists|s: u64| #[trigger]
        node.suspended_sessions.contains_key(s) && node.suspended_sessions[s].deadline <= now
            && node.suspended_sessions[s].membership is Some
            && node.suspended_sessions[s].membership->0.federation == id
}

/// Whether every federate of a node has a session of its own.
pub open spec fn node_sessions(node: NodeView) -> bool {
    forall|a: u64, b: u64, f: u32, g: u32|
        node.federations.contains_key(a) && node.federations.contains_key(b)
            && #[trigger] node.federations[a].federates.contains_key(f)
            && #[trigger] node.federations[b].federates.contains_key(g) && (a != b || f != g)
            ==> node.federations[a].federates[f].session_id
            != node.federations[b].federates[g].session_id
}

proof fn lemma_staying(node: NodeView, id: u64, now: u128)
    requires
        node.sound(),
        node_sessions(node),
        node.federations.contains_key(id),
    ensures
        without_suspended(node, expired_sessions(node, now)).federations[id] == staying(
            node,
            id,
            now,
        ),
        staying(node, id, now).wf(),
        own_sessions(staying(node, id, now).federates),
        federations_left(node, expired_sessions(node, now)).contains(id) <==> loses_somebody(
            node,
            id,
            now,
        ),
        !loses_somebody(node, id, now) ==> staying(node, id, now) == node.federations[id],
{
    let expired = expired_sessions(node, now);
    let fed = node.federations[id];
    let mid = staying(node, id, now);
    let lost = leaving(node, expired, id);
    assert forall|f: u32| lost.contains(f) <==> is_lost(node, id, f, now) by {
        if is_lost(node, id, f, now) {
            let s = choose|s: u64| #[trigger]
                node.suspended_sessions.contains_key(s) && node.suspended_sessions[s].deadline
                    <= now && node.suspended_sessions[s].membership == Some(
                    Membership { federation: id, federate_handle: f },
                );
            assert(expired.contains(s));
        }
        if lost.contains(f) {
            let s = choose|s: u64| #[trigger]
                expired.contains(s) && node.suspended_sessions.contains_key(s)
                    && node.suspended_sessions[s].membership == Some(
                    Membership { federation: id, federate_handle: f },
                );
            assert(node.suspended_sessions.contains_key(s));
        }
    }
    assert(fed.federates.remove_keys(lost) =~= mid.federates);
    assert(fed.wf());
    assert forall|f: u32| #[trigger] mid.federates.contains_key(f) implies mid.federates[f].handle
        == f && mid.federates[f].wf() by {
        assert(fed.federates.contains_key(f));
    }
    assert forall|f: u32, g: u32| #[trigger]
        mid.federates.contains_key(f) && #[trigger] mid.federates.contains_key(g) && f
            != g implies mid.federates[f].session_id != mid.federates[g].session_id by {
        assert(node.federations[id].federates.contains_key(f));
        assert(node.federations[id].federates.contains_key(g));
    }
    if loses_somebody(node, id, now) {
        let s = choose|s: u64| #[trigger]
            node.suspended_sessions.contains_key(s) && node.suspended_sessions[s].deadline <= now
                && node.suspended_sessions[s].membership is Some
                && node.suspended_sessions[s].membership->0.federation == id;
        assert(expired.contains(s));
    }
    if federations_left(node, expired).contains(id) {
        let s = choose|s: u64| #[trigger]
            expired.contains(s) && node.suspended_sessions.contains_key(s)
                && node.suspended_sessions[s].membership is Some
                && node.suspended_sessions[s].membership->0.federation == id;
        assert(node.suspended_sessions.contains_key(s));
    }
    if !loses_somebody(node, id, now) {
        assert forall|f: u32| !is_lost(node, id, f, now) by {
            if is_lost(node, id, f, now) {
                let s = choose|s: u64| #[trigger]
                    node.suspended_sessions.contains_key(s) && node.suspended_sessions[s].deadline
                        <= now && node.suspended_sessions[s].membership == Some(
                        Membership { federation: id, federate_handle: f },
                    );
                assert(node.suspended_sessions.contains_key(s));
            }
        }
        assert(mid.federates =~= fed.federates);
    }
}

/// When the time of lost sessions has come, exactly those are forgotten, and exactly the
/// federates they had joined as are gone; in the federations that they leave the others
/// advance as far as they safely can, and all other federations stay as they are.
pub proof fn lost_federates_are_gone_when_their_time_has_come(
    node: NodeView,
    now: u128,
    s: u64,
    id: u64,
)
    requires
        node.sound(),
        node_sessions(node),
    ensures
        ({
            let next = after_expiry(node, now);
            &&& next == (NodeView {
                federations: next.federations,
                suspended_sessions: next.suspended_sessions,
                metrics: next.metrics,
                ..node
            })
            &&& next.suspended_sessions.contains_key(s) <==> may_come_back(node, s, now)
            &&& next.suspended_sessions.contains_key(s) ==> next.suspended_sessions[s]
                == node.suspended_sessions[s]
            &&& next.federations.contains_key(id) <==> node.federations.contains_key(id)
            &&& node.federations.contains_key(id) && loses_somebody(node, id, now) ==> has_advanced(
                staying(node, id, now),
                next.federations[id],
            )
            &&& node.federations.contains_key(id) && !loses_somebody(node, id, now)
                ==> next.federations[id] == node.federations[id]
        }),
{
    if node.federations.contains_key(id) {
        lemma_staying(node, id, now);
        lemma_goes_on(staying(node, id, now), node.connections);
    }
}

proof fn lemma_expiry_told(
    node: NodeView,
    now: u128,
    q: Seq<u64>,
    s: u64,
    id: u64,
    f: u32,
)
    requires
        node.sound(),
        node_sessions(node),
        q.no_duplicates(),
        forall|i: int| #![trigger q[i]]
            0 <= i < q.len() ==> federations_left(node, expired_sessions(node, now)).contains(q[i]),
    ensures
        ({
            let left = without_suspended(node, expired_sessions(node, now));
            let sent = sent_with_grants_in(left, q);
            let next = after_expiry(node, now);
            &&& well_addressed(sent, node.connections)
            &&& left.federations.contains_key(id) && left.federations[id].federates.contains_key(f)
                && s == left.federations[id].federates[f].session_id
                && node.connections.contains_key(s) ==> received(sent, s) == (if q.contains(id) {
                grant_call(left.federations[id].federates[f], next.federations[id].federates[f])
            } else {
                Seq::empty()
            })
            &&& (forall|i: u64|
                left.federations.contains_key(i) ==> !is_member(
                    #[trigger] left.federations[i].federates,
                    s,
                )) ==> received(sent, s) == Seq::<CallbackView>::empty()
        }),
    decreases q.len(),
{
    let left = without_suspended(node, expired_sessions(node, now));
    let next = after_expiry(node, now);
    if q.len() > 0 {
        let rest = q.drop_last();
        let last = q.last();
        let part = sent_with_grants(left, last);
        let sent = sent_with_grants_in(left, rest);
        assert forall|i: int| #![trigger rest[i]] 0 <= i < rest.len() implies federations_left(
            node,
            expired_sessions(node, now),
        ).contains(rest[i]) by {
            assert(rest[i] == q[i]);
        }
        lemma_expiry_told(node, now, rest, s, id, f);
        lemma_received_add(sent, part, s);
        assert(q[q.len() - 1] == last);
        assert(q.contains(id) <==> rest.contains(id) || id == last) by {
            if q.contains(id) && id != last {
                let i = q.index_of(id);
                assert(rest[i] == id);
            }
            if rest.contains(id) {
                let i = rest.index_of(id);
                assert(q[i] == id);
            }
        }
        assert(!rest.contains(last)) by {
            if rest.contains(last) {
                let i = rest.index_of(last);
                assert(q[i] == q[q.len() - 1]);
            }
        }
        let both = sent + part;
        if left.federations.contains_key(last) {
            assert(node.federations.contains_key(last));
            lemma_staying(node, last, now);
            let mid = staying(node, last, now);
            lemma_goes_on(mid, node.connections);
            if left.federations.contains_key(id) && left.federations[id].federates.contains_key(f)
                && s == left.federations[id].federates[f].session_id && id != last {
                lemma_staying(node, id, now);
                if is_member(mid.federates, s) {
                    let g = choose|g: u32| #[trigger]
                        mid.federates.contains_key(g) && mid.federates[g].session_id == s;
                    assert(node.federations[last].federates.contains_key(g));
                    assert(node.federations[id].federates.contains_key(f));
                }
            }
        }
        assert forall|i: int| 0 <= i < both.len() implies node.connections.contains_key(
            (#[trigger] both[i]).target.session_id,
        ) && both[i].target.connection == node.connections[both[i].target.session_id] by {
            if i < sent.len() {
                assert(both[i] == sent[i]);
            } else {
                assert(both[i] == part[i - sent.len()]);
            }
        }
        assert(received(sent, s) + received(part, s) =~= received(part, s) || received(
            sent,
            s,
        ).len() > 0);
        assert(received(sent, s) + received(part, s) =~= received(sent, s) || received(
            part,
            s,
        ).len() > 0);
    }
}

/// When the time of lost sessions has come, each connected federate that stays is sent what
/// comes with its grant, where it is granted a time by that, and nothing else is sent to
/// anybody.
pub proof fn who_waited_for_lost_federates_is_told(
    node: NodeView,
    now: u128,
    id: u64,
    f: u32,
    s: u64,
)
    requires
        node.sound(),
        node_sessions(node),
    ensures
        ({
            let sent = sent_on_expiry(node, now);
            let next = after_expiry(node, now);
            let stays = |i: u64, g: u32|
                node.federations.contains_key(i) && node.federations[i].federates.contains_key(g)
                    && !is_lost(node, i, g, now);
            &&& well_addressed(sent, node.connections)
            &&& stays(id, f) && s == node.federations[id].federates[f].session_id
                && node.connections.contains_key(s) ==> received(sent, s) == grant_call(
                node.federations[id].federates[f],
                next.federations[id].federates[f],
            )
            &&& (forall|i: u64, g: u32| #[trigger]
                stays(i, g) ==> node.federations[i].federates[g].session_id != s) ==> received(
                sent,
                s,
            ) == Seq::<CallbackView>::empty()
        }),
{
    let expired = expired_sessions(node, now);
    let left = without_suspended(node, expired);
    let ids = federations_left(node, expired);
    let q = ascending(ids);
    let stays = |i: u64, g: u32|
        node.federations.contains_key(i) && node.federations[i].federates.contains_key(g)
            && !is_lost(node, i, g, now);
    lemma_instances_finite(ids);
    lemma_ascending(ids);
    assert forall|i: int| #![trigger q[i]] 0 <= i < q.len() implies ids.contains(q[i]) by {
        assert(q.contains(q[i]));
    }
    lemma_expiry_told(node, now, q, s, id, f);
    if stays(id, f) {
        lemma_staying(node, id, now);
    }
    if forall|i: u64, g: u32| #[trigger]
        stays(i, g) ==> node.federations[i].federates[g].session_id != s {
        assert forall|i: u64| left.federations.contains_key(i) implies !is_member(
            #[trigger] left.federations[i].federates,
            s,
        ) by {
            lemma_staying(node, i, now);
            if is_member(left.federations[i].federates, s) {
                let g = choose|g: u32| #[trigger]
                    left.federations[i].federates.contains_key(g)
                        && left.federations[i].federates[g].session_id == s;
                assert(stays(i, g));
            }
        }
    }
}

/// A session that ends has no connection any more. Where it is a member, and may come back,
/// it is suspended until then, and its federate stays; where it may not, its federate is
/// gone, and the others advance as far as they safely can.
pub proof fn a_session_that_ends_is_suspended_or_resigns(
    node: NodeView,
    ctx: SessionContext,
    window: u128,
    now: u128,
)
    requires
        node.sound(),
        now + window <= u128::MAX,
        ctx.membership matches Some(m) ==> node.federations.contains_key(m.federation)
            && own_sessions(node.federations[m.federation].federates),
    ensures
        ({
            let next = after_closing(node, ctx, window, now);
            let sent = sent_on_closing(node, ctx, window);
            let connections = node.connections.remove(ctx.session_id);
            match ctx.membership {
                None => next == (NodeView { connections, ..node }) && sent.len() == 0,
                Some(m) => if window > 0 {
                    let kept = next.suspended_sessions[ctx.session_id];
                    &&& sent.len() == 0
                    &&& next == (NodeView {
                        connections,
                        suspended_sessions: node.suspended_sessions.insert(ctx.session_id, kept),
                        ..node
                    })
                    &&& kept.membership == Some(m)
                    &&& kept.deadline == now + window
                } else {
                    let fed = node.federations[m.federation];
                    &&& next == (NodeView {
                        connections,
                        federations: node.federations.insert(
                            m.federation,
                            next.federations[m.federation],
                        ),
                        metrics: next.metrics,
                        ..node
                    })
                    &&& goes_on(
                        FederationView {
                            federates: fed.federates.remove(m.federate_handle),
                            ..fed
                        },
                        next.federations[m.federation],
                        connections,
                        sent,
                        nothing(),
                    )
                },
            }
        }),
{
    if let Some(m) = ctx.membership {
        let fed = node.federations[m.federation];
        let left = FederationView { federates: fed.federates.remove(m.federate_handle), ..fed };
        assert(fed.wf());
        assert forall|f: u32| #[trigger] left.federates.contains_key(f) implies left.federates[f].handle
            == f && left.federates[f].wf() by {
            assert(fed.federates.contains_key(f));
        }
        assert forall|f: u32, g: u32| #[trigger]
            left.federates.contains_key(f) && #[trigger] left.federates.contains_key(g) && f
                != g implies left.federates[f].session_id != left.federates[g].session_id by {
            assert(fed.federates.contains_key(f) && fed.federates.contains_key(g));
        }
        lemma_goes_on(left, node.connections.remove(ctx.session_id));
    }
}

/// The number of connections of an address.
pub open spec fn connections_from(node: NodeView, address: PeerAddress) -> int {
    if node.connections_per_ip.contains_key(address) {
        node.connections_per_ip[address] as int
    } else {
        0
    }
}

/// A connection is turned away exactly where the node has as many connections as it may have,
/// or as it may have from one address. One that is let in is counted for its address, and
/// has the next number.
pub proof fn connections_are_let_in_up_to_the_limits(node: NodeView, address: PeerAddress)
    requires
        connections_from(node, address) < usize::MAX,
        node.next_session_id < u64::MAX,
    ensures
        broken_limit(node, address) == Some(Limit::MaxTotal) <==> (node.limits.max_total matches Some(
            n,
        ) && node.connections.dom().len() >= n),
        broken_limit(node, address) == Some(Limit::MaxPerIp) <==> !(
        node.limits.max_total matches Some(n) && node.connections.dom().len() >= n) && (
        node.limits.max_per_ip matches Some(n) && connections_from(node, address) >= n),
        only_counts_differ(node, after_rejection(node)),
        ({
            let next = after_acceptance(node, address);
            &&& next == (NodeView {
                next_session_id: (node.next_session_id + 1) as u64,
                connections_per_ip: next.connections_per_ip,
                metrics: next.metrics,
                ..node
            })
            &&& connections_from(next, address) == connections_from(node, address) + 1
            &&& forall|other: PeerAddress|
                other != address ==> #[trigger] connections_from(next, other) == connections_from(
                    node,
                    other,
                )
        }),
{
}

/// A frame that the node sends of itself is for a session and has a number of its own; it
/// answers none.
pub proof fn callbacks_are_numbered(
    session: u64,
    number: i32,
    kind: MessageType,
    payload: FramePayloadView,
)
    ensures
        ({
            let f = initiative(session, number, kind, payload);
            &&& f.header.session_id == session
            &&& f.header.sequence_number == Some(number)
            &&& f.header.last_received_sequence_number is None
            &&& f.header.message_type == kind
            &&& f.payload == payload
        }),
{
}

/// A silent session is looked at four times before its time has come, but no more often than
/// twenty times a second.
pub proof fn silence_is_looked_for_in_time(cfg: HeartbeatConfig)
    ensures
        ({
            let tick = tick_of(cfg) as int;
            &&& tick >= 50_000_000
            &&& tick > 50_000_000 ==> 4 * tick <= cfg.missing_timeout < 4 * (tick + 1)
            &&& cfg.missing_timeout >= 4 * 50_000_000 ==> 4 * tick <= cfg.missing_timeout
        }),
{
}

} // verus!

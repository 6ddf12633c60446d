//! Frames of the session protocol, before they are encoded.

use crate::callbacks::{CallbackRequest, CallbackView};
use crate::messages::{CallResponse, ResponseView};
use std::sync::Arc;
use vstd::prelude::*;

verus! {

/// The version of the session protocol that the node speaks.
pub const FEDERATE_PROTOCOL_VERSION: u32 = 1;

/// The session number that stands for no session.
pub const NO_SESSION_ID: u64 = 0;

/// The kind of a frame.
#[derive(Copy, Clone, Debug, PartialEq, Eq, Structural)]
pub enum MessageType {
    CtrlNewSession,
    CtrlNewSessionStatus,
    CtrlHeartbeat,
    CtrlHeartbeatResponse,
    CtrlTerminateSession,
    CtrlSessionTerminated,
    CtrlResumeRequest,
    CtrlResumeStatus,
    HlaCallRequest,
    HlaCallResponse,
    HlaCallbackRequest,
    HlaCallbackResponse,
}

/// How the opening of a session went.
#[derive(Copy, Clone, Debug, PartialEq, Eq, Structural)]
pub enum StatusReason {
    Success,
    UnsupportedProtocolVersion,
    OtherError,
}

/// The header of a frame. A sequence number that is `None` stands for none.
#[derive(Copy, Clone, Debug, PartialEq, Eq, Structural)]
pub struct FrameHeader {
    pub sequence_number: Option<i32>,
    pub session_id: u64,
    pub last_received_sequence_number: Option<i32>,
    pub message_type: MessageType,
}

/// What a frame carries.
#[derive(Debug)]
pub enum FramePayload {
    Empty,
    Status(StatusReason),
    Response { response_to_sequence_number: i32, response: CallResponse },
    Callback(Arc<CallbackRequest>),
}

/// The mathematical content of [`FramePayload`].
#[verifier::ext_equal]
pub enum FramePayloadView {
    Empty,
    Status(StatusReason),
    Response { response_to_sequence_number: i32, response: ResponseView },
    Callback(CallbackView),
}

impl View for FramePayload {
    type V = FramePayloadView;

    open spec fn view(&self) -> FramePayloadView {
        match self {
            FramePayload::Empty => FramePayloadView::Empty,
            FramePayload::Status(r) => FramePayloadView::Status(*r),
            FramePayload::Response {
                response_to_sequence_number,
                response,
            } => FramePayloadView::Response {
                response_to_sequence_number: *response_to_sequence_number,
                response: response@,
            },
            FramePayload::Callback(c) => FramePayloadView::Callback(c@),
        }
    }
}

/// A frame.
#[derive(Debug)]
pub struct Frame {
    pub header: FrameHeader,
    pub payload: FramePayload,
}

/// The mathematical content of [`Frame`].
#[verifier::ext_equal]
pub struct FrameView {
    pub header: FrameHeader,
    pub payload: FramePayloadView,
}

impl View for Frame {
    type V = FrameView;

    open spec fn view(&self) -> FrameView {
        FrameView { header: self.header, payload: self.payload@ }
    }
}

/// A frame that answers another one: it has no number of its own.
pub open spec fn answer(
    session_id: u64,
    received: i32,
    message_type: MessageType,
    payload: FramePayloadView,
) -> FrameView {
    FrameView {
        header: FrameHeader {
            sequence_number: None,
            session_id,
            last_received_sequence_number: Some(received),
            message_type,
        },
        payload,
    }
}

/// A frame that answers another one.
pub fn make_answer(
    session_id: u64,
    received: i32,
    message_type: MessageType,
    payload: FramePayload,
) -> (r: Frame)
    ensures
        r@ == answer(session_id, received, message_type, payload@),
{
    Frame {
        header: FrameHeader {
            sequence_number: None,
            session_id,
            last_received_sequence_number: Some(received),
            message_type,
        },
        payload,
    }
}

/// A frame that the node sends of its own accord, under a number of its own.
pub open spec fn initiative(
    session_id: u64,
    sequence_number: i32,
    message_type: MessageType,
    payload: FramePayloadView,
) -> FrameView {
    FrameView {
        header: FrameHeader {
            sequence_number: Some(sequence_number),
            session_id,
            last_received_sequence_number: None,
            message_type,
        },
        payload,
    }
}

/// The heartbeat of a session, under the next number of its connection.
pub fn heartbeat_frame(session_id: u64, sequence_number: i32) -> (r: Frame)
    ensures
        r@ == initiative(
            session_id,
            sequence_number,
            MessageType::CtrlHeartbeat,
            FramePayloadView::Empty,
        ),
{
    Frame {
        header: FrameHeader {
            sequence_number: Some(sequence_number),
            session_id,
            last_received_sequence_number: None,
            message_type: MessageType::CtrlHeartbeat,
        },
        payload: FramePayload::Empty,
    }
}

} // verus!

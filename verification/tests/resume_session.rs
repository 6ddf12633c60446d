//! Resuming a session after its connection was lost.

#![allow(dead_code, unused_imports)]

use hla_rti::callbacks::CallbackRequest;
use hla_rti::dispatch::calls::Outside;
use hla_rti::dispatch::federation_mgmt::ModuleLoad;
use hla_rti::dispatch::restore::SnapshotLoad;
use hla_rti::dispatch::save::SnapshotFile;
use hla_rti::exception::{Details, ExceptionData};
use hla_rti::fom::{ClassDef, DimensionDef, MemberDef, MergedFom};
use hla_rti::frames::{
    Frame, FrameHeader, FramePayload, MessageType, StatusReason, FEDERATE_PROTOCOL_VERSION,
    NO_SESSION_ID,
};
use hla_rti::messages::{
    AdvanceForm, CallRequest, CallResponse, CreateForm, HandleValueField, JoinForm, Payload,
    Service, SubscribeForm,
};
use hla_rti::node::Limit;
use hla_rti::routing::Outbox;
use hla_rti::session::SessionContext;
use hla_rti::sessions::{InboundFrame, Opening, OpeningFrame, SessionEvent};
use hla_rti::{Federation, HeartbeatConfig, RtiNode, SECOND};
use std::sync::Arc;

const LOCALHOST: (u8, u128) = (4, 0x7f00_0001);
const MILLISECOND: u128 = SECOND / 1000;

/// A node, the frames that are on their way to its clients, and its clock.
struct Hub {
    node: RtiNode,
    now: u128,
    next_connection: u64,
    next_callback: i32,
    frames: Vec<Frame>,
    file: Option<SnapshotFile>,
}

/// A client with an open session.
struct Client {
    ctx: SessionContext,
    next_outbound: i32,
    heartbeat: HeartbeatConfig,
}

fn class(handle: u32, name: &str, parent: Option<&str>, members: &[&str]) -> ClassDef {
    ClassDef {
        handle,
        name: name.to_string(),
        parent: parent.map(|p| p.to_string()),
        members: members.iter().map(|m| m.to_string()).collect(),
    }
}

fn member(class: u32, name: &str, handle: u32) -> MemberDef {
    MemberDef { class, name: name.to_string(), handle }
}

/// Food with a color, drinks with a number of cups, an announcement of what is
/// served, and two dimensions.
fn sushi() -> MergedFom {
    MergedFom {
        object_classes: vec![
            class(1, "HLAobjectRoot", None, &[]),
            class(2, "HLAobjectRoot.Food", Some("HLAobjectRoot"), &["Color"]),
            class(3, "HLAobjectRoot.Food.Drink", Some("HLAobjectRoot.Food"), &["NumberCups"]),
        ],
        attributes: vec![member(2, "Color", 1), member(3, "NumberCups", 2)],
        interaction_classes: vec![
            class(1, "HLAinteractionRoot", None, &[]),
            class(
                2,
                "HLAinteractionRoot.FoodServed",
                Some("HLAinteractionRoot"),
                &["FoodType"],
            ),
        ],
        parameters: vec![member(2, "FoodType", 1)],
        dimensions: vec![
            DimensionDef { name: "BarQuantity".to_string(), handle: 1 },
            DimensionDef { name: "WaiterId".to_string(), handle: 2 },
        ],
    }
}

fn nothing_outside() -> Outside {
    Outside {
        modules: ModuleLoad { faults: Vec::new(), merged: Ok(Arc::new(MergedFom::new())) },
        snapshot: SnapshotLoad::NotFound,
    }
}

impl Hub {
    fn new() -> Hub {
        let mut node = RtiNode::new();
        node.set_default_fom(sushi());
        Hub {
            node,
            now: 1000 * SECOND,
            next_connection: 1,
            next_callback: 0,
            frames: Vec::new(),
            file: None,
        }
    }

    fn opening(message_type: MessageType, session_id: u64) -> OpeningFrame {
        OpeningFrame {
            message_type,
            sequence_number: 0,
            session_id,
            protocol_version: FEDERATE_PROTOCOL_VERSION,
        }
    }

    fn connect(&mut self, ctx: SessionContext) -> Client {
        let connection = self.next_connection;
        self.next_connection += 1;
        let heartbeat = self.node.session_opened(ctx.session_id, connection);
        Client { ctx, next_outbound: 1, heartbeat }
    }

    fn try_open(&mut self) -> Result<Client, Limit> {
        let candidate = self.node.accept_connection(LOCALHOST)?;
        let first = Hub::opening(MessageType::CtrlNewSession, NO_SESSION_ID);
        match self.node.open_session(candidate, &first, self.now) {
            Opening::Opened { reply, ctx } => {
                assert_eq!(
                    reply.header,
                    FrameHeader {
                        sequence_number: None,
                        session_id: candidate,
                        last_received_sequence_number: Some(0),
                        message_type: MessageType::CtrlNewSessionStatus,
                    }
                );
                assert!(matches!(reply.payload, FramePayload::Status(StatusReason::Success)));
                Ok(self.connect(ctx))
            },
            other => panic!("expected an open session, got {other:?}"),
        }
    }

    fn open(&mut self) -> Client {
        match self.try_open() {
            Ok(client) => client,
            Err(limit) => panic!("refused by {}", limit.name()),
        }
    }

    fn event(
        &mut self,
        client: &mut Client,
        event: SessionEvent,
        outside: &Outside,
    ) -> (Option<Frame>, bool) {
        let step = self.node.session_step(&mut client.ctx, &event, outside);
        self.file = step.file;
        self.deliver(step.callbacks);
        (step.reply, step.close)
    }

    fn deliver(&mut self, callbacks: Outbox) {
        for callback in callbacks.into_vec() {
            let number = self.next_callback;
            self.next_callback += 1;
            self.frames.push(callback.into_frame(number));
        }
    }

    fn control(&mut self, client: &mut Client, message_type: MessageType) -> (Option<Frame>, bool) {
        let frame = InboundFrame { message_type, sequence_number: 1, call: Ok(None) };
        self.event(client, SessionEvent::Inbound(frame), &nothing_outside())
    }

    fn call_with(
        &mut self,
        client: &mut Client,
        request: CallRequest,
        outside: &Outside,
    ) -> CallResponse {
        let number = client.next_outbound;
        client.next_outbound += 1;
        let frame = InboundFrame {
            message_type: MessageType::HlaCallRequest,
            sequence_number: number,
            call: Ok(Some(request)),
        };
        let (reply, close) = self.event(client, SessionEvent::Inbound(frame), outside);
        assert!(!close);
        let reply = reply.expect("no response");
        assert_eq!(
            reply.header,
            FrameHeader {
                sequence_number: None,
                session_id: client.ctx.session_id,
                last_received_sequence_number: Some(number),
                message_type: MessageType::HlaCallResponse,
            }
        );
        match reply.payload {
            FramePayload::Response { response_to_sequence_number, response } => {
                assert_eq!(response_to_sequence_number, number);
                response
            },
            other => panic!("expected a response, got {other:?}"),
        }
    }

    fn call(&mut self, client: &mut Client, request: CallRequest) -> CallResponse {
        self.call_with(client, request, &nothing_outside())
    }

    /// The connection of a client is lost.
    fn drop_client(&mut self, client: Client) {
        let window = client.heartbeat.reconnect_window;
        let callbacks = self.node.close_session(&client.ctx, window, self.now);
        self.deliver(callbacks);
        self.node.release_connection(LOCALHOST);
    }

    fn callbacks(&mut self, client: &Client) -> Vec<Arc<CallbackRequest>> {
        let mut mine = Vec::new();
        let mut others = Vec::new();
        for frame in self.frames.drain(..) {
            if frame.header.session_id == client.ctx.session_id {
                assert_eq!(frame.header.message_type, MessageType::HlaCallbackRequest);
                match frame.payload {
                    FramePayload::Callback(c) => mine.push(c),
                    other => panic!("expected a callback, got {other:?}"),
                }
            } else {
                others.push(frame);
            }
        }
        self.frames = others;
        mine
    }

    fn callback(&mut self, client: &Client) -> Arc<CallbackRequest> {
        let mut all = self.callbacks(client);
        assert_eq!(all.len(), 1, "{all:?}");
        all.remove(0)
    }

    fn create(&mut self, client: &mut Client, name: &str) -> CallResponse {
        self.call(
            client,
            CallRequest::CreateFederationExecution {
                create_form: CreateForm::Plain,
                federation_name: name.to_string(),
                fom_modules: Vec::new(),
                mim_module: None,
            },
        )
    }

    fn join(&mut self, client: &mut Client, name: &str) -> CallResponse {
        self.call(
            client,
            CallRequest::JoinFederationExecution {
                join_form: JoinForm::Plain,
                federation_name: name.to_string(),
            },
        )
    }

    fn join_named(&mut self, client: &mut Client, name: &str, federate: &str) -> CallResponse {
        self.call(
            client,
            CallRequest::JoinFederationExecution {
                join_form: JoinForm::WithName(federate.to_string()),
                federation_name: name.to_string(),
            },
        )
    }

    /// Opens a session and joins a federation, which is created where it does not
    /// exist.
    fn member(&mut self, name: &str) -> Client {
        let mut client = self.open();
        let _ = self.create(&mut client, name);
        joined(self.join(&mut client, name));
        client
    }

    fn federation(&self, name: &str) -> &Federation {
        let id = self.node.find_federation(name).expect("no such federation");
        self.node.federations.get(id).expect("no such federation")
    }

    fn drink_and_cups(&mut self, client: &mut Client) -> (Vec<u8>, Vec<u8>) {
        let drink = handle(self.call(
            client,
            CallRequest::GetObjectClassHandle {
                object_class_name: "HLAobjectRoot.Food.Drink".to_string(),
            },
        ));
        let cups = handle(self.call(
            client,
            CallRequest::GetAttributeHandle {
                object_class: Some(drink.clone()),
                attribute_name: "NumberCups".to_string(),
            },
        ));
        (drink, cups)
    }

    fn food_served(&mut self, client: &mut Client) -> (Vec<u8>, Vec<u8>) {
        let served = handle(self.call(
            client,
            CallRequest::GetInteractionClassHandle {
                interaction_class_name: "HLAinteractionRoot.FoodServed".to_string(),
            },
        ));
        let food_type = handle(self.call(
            client,
            CallRequest::GetParameterHandle {
                interaction_class: Some(served.clone()),
                parameter_name: "FoodType".to_string(),
            },
        ));
        (served, food_type)
    }

    fn subscribe(&mut self, client: &mut Client, object_class: &[u8], attributes: &[&[u8]]) {
        let r = self.call(
            client,
            CallRequest::SubscribeObjectClassAttributes {
                subscribe_form: SubscribeForm::Plain,
                object_class: Some(object_class.to_vec()),
                attributes: Some(attributes.iter().map(|a| a.to_vec()).collect()),
            },
        );
        assert_eq!(done(r), Service::SubscribeObjectClassAttributes);
    }

    fn publish(&mut self, client: &mut Client, object_class: &[u8], attributes: &[&[u8]]) {
        let r = self.call(
            client,
            CallRequest::PublishObjectClassAttributes {
                object_class: Some(object_class.to_vec()),
                attributes: Some(attributes.iter().map(|a| a.to_vec()).collect()),
            },
        );
        assert_eq!(done(r), Service::PublishObjectClassAttributes);
    }

    fn register(&mut self, client: &mut Client, object_class: &[u8]) -> Vec<u8> {
        handle(self.call(
            client,
            CallRequest::RegisterObjectInstance { object_class: Some(object_class.to_vec()) },
        ))
    }

    fn update(
        &mut self,
        client: &mut Client,
        instance: &[u8],
        attribute: &[u8],
        value: &[u8],
        tag: &[u8],
    ) -> CallResponse {
        self.call(
            client,
            CallRequest::UpdateAttributeValues {
                object_instance: Some(instance.to_vec()),
                attribute_values: Some(vec![value_of(attribute, value)]),
                user_supplied_tag: tag.to_vec(),
            },
        )
    }

    fn regulate(&mut self, client: &mut Client, lookahead: f64) -> CallResponse {
        self.call(client, CallRequest::EnableTimeRegulation { lookahead: Some(stamp(lookahead)) })
    }

    fn constrain(&mut self, client: &mut Client) -> CallResponse {
        self.call(client, CallRequest::EnableTimeConstrained)
    }

    fn advance(&mut self, client: &mut Client, time: f64) -> CallResponse {
        self.call(
            client,
            CallRequest::TimeAdvance {
                advance_form: AdvanceForm::TimeAdvanceRequest,
                time: Some(stamp(time)),
            },
        )
    }
}

fn value_of(handle: &[u8], value: &[u8]) -> HandleValueField {
    HandleValueField { handle: Some(handle.to_vec()), value: value.to_vec() }
}

fn stamp(t: f64) -> Vec<u8> {
    t.to_be_bytes().to_vec()
}

fn time_in(b: &[u8]) -> f64 {
    f64::from_be_bytes(b.try_into().expect("a time stamp has eight bytes"))
}

fn number32(b: &[u8]) -> u32 {
    u32::from_be_bytes(b.try_into().expect("a short handle has four bytes"))
}

fn number64(b: &[u8]) -> u64 {
    u64::from_be_bytes(b.try_into().expect("a long handle has eight bytes"))
}

fn done(r: CallResponse) -> Service {
    match r {
        CallResponse::Reply { service, payload: Payload::Empty } => service,
        other => panic!("expected an empty reply, got {other:?}"),
    }
}

fn handle(r: CallResponse) -> Vec<u8> {
    match r {
        CallResponse::Reply { payload: Payload::Handle(h), .. } => h,
        other => panic!("expected a handle, got {other:?}"),
    }
}

fn handles(r: CallResponse) -> Vec<Vec<u8>> {
    match r {
        CallResponse::Reply { payload: Payload::Handles(l), .. } => l,
        other => panic!("expected handles, got {other:?}"),
    }
}

fn text(r: CallResponse) -> String {
    match r {
        CallResponse::Reply { payload: Payload::Text(s), .. } => s,
        other => panic!("expected a text, got {other:?}"),
    }
}

fn flag(r: CallResponse) -> bool {
    match r {
        CallResponse::Reply { payload: Payload::Flag(b), .. } => b,
        other => panic!("expected a flag, got {other:?}"),
    }
}

fn joined(r: CallResponse) -> (Vec<u8>, String) {
    match r {
        CallResponse::Reply {
            service: Service::JoinFederationExecution(_),
            payload: Payload::Joined { federate_handle, logical_time_implementation_name },
        } => (federate_handle, logical_time_implementation_name),
        other => panic!("expected a join, got {other:?}"),
    }
}

fn refused(r: CallResponse) -> ExceptionData {
    match r {
        CallResponse::Exception(e) => e,
        other => panic!("expected an exception, got {other:?}"),
    }
}

fn details(e: &ExceptionData) -> &str {
    match &e.details {
        Details::Text(s) => s.as_str(),
        other => panic!("expected a text, got {other:?}"),
    }
}

fn hub_with_window(reconnect_window: u128) -> Hub {
    let mut hub = Hub::new();
    hub.node.set_heartbeat_config(HeartbeatConfig {
        interval: 60 * SECOND,
        missing_timeout: 180 * SECOND,
        reconnect_window,
    });
    hub
}

fn resume(hub: &mut Hub, session_id: u64) -> Opening {
    let candidate = hub.node.accept_connection(LOCALHOST).expect("no limit is set");
    let first = Hub::opening(MessageType::CtrlResumeRequest, session_id);
    let now = hub.now;
    hub.node.open_session(candidate, &first, now)
}

#[test]
fn resume_after_drop_within_window_preserves_membership() {
    let mut hub = hub_with_window(5 * SECOND);
    let mut c = hub.open();
    let id = c.ctx.session_id;
    done(hub.create(&mut c, "resume-fed"));
    joined(hub.join(&mut c, "resume-fed"));
    assert_eq!(hub.federation("resume-fed").federates.len(), 1);

    hub.drop_client(c);
    hub.now += 100 * MILLISECOND;
    let now = hub.now;
    let callbacks = hub.node.expire_suspended(now);
    hub.deliver(callbacks);
    assert!(hub.node.has_suspended_session(id));
    assert!(!hub.node.has_connection(id));
    assert_eq!(hub.federation("resume-fed").federates.len(), 1);

    let mut c = match resume(&mut hub, id) {
        Opening::Opened { reply, ctx } => {
            assert_eq!(reply.header.message_type, MessageType::CtrlResumeStatus);
            assert_eq!(reply.header.session_id, id);
            assert!(matches!(reply.payload, FramePayload::Status(StatusReason::Success)));
            hub.connect(ctx)
        },
        other => panic!("expected the session, got {other:?}"),
    };
    assert_eq!(c.ctx.session_id, id);
    assert!(!hub.node.has_suspended_session(id));
    assert_eq!(hub.federation("resume-fed").federates.len(), 1);
    let r = hub.call(&mut c, CallRequest::ResignFederationExecution);
    assert_eq!(done(r), Service::ResignFederationExecution);
}

#[test]
fn resume_after_expiry_returns_failure() {
    let mut hub = hub_with_window(100 * MILLISECOND);
    let mut c = hub.open();
    let id = c.ctx.session_id;
    done(hub.create(&mut c, "expire-fed"));
    joined(hub.join(&mut c, "expire-fed"));
    hub.drop_client(c);
    hub.now += 400 * MILLISECOND;
    let now = hub.now;
    let callbacks = hub.node.expire_suspended(now);
    hub.deliver(callbacks);
    assert!(!hub.node.has_suspended_session(id));
    match resume(&mut hub, id) {
        Opening::Refused { reply, fault } => {
            assert_eq!(reply.header.message_type, MessageType::CtrlResumeStatus);
            assert_eq!(reply.header.session_id, NO_SESSION_ID);
            assert!(matches!(reply.payload, FramePayload::Status(StatusReason::OtherError)));
            assert_eq!(fault, None);
        },
        other => panic!("expected a refusal, got {other:?}"),
    }
    assert_eq!(hub.federation("expire-fed").federates.len(), 0);
}

#[test]
fn zero_window_skips_suspension_for_compat() {
    let mut hub = hub_with_window(0);
    let mut c = hub.open();
    done(hub.create(&mut c, "zero-win"));
    joined(hub.join(&mut c, "zero-win"));
    hub.drop_client(c);
    let mut admin = hub.open();
    let r = hub.call(
        &mut admin,
        CallRequest::DestroyFederationExecution { federation_name: "zero-win".to_string() },
    );
    assert_eq!(done(r), Service::DestroyFederationExecution);
    assert_eq!(hub.node.suspended_session_count(), 0);
}

#[test]
fn a_late_resume_leaves_the_clean_up_to_the_janitor() {
    let mut hub = hub_with_window(SECOND);
    let mut c = hub.open();
    let id = c.ctx.session_id;
    done(hub.create(&mut c, "late"));
    joined(hub.join(&mut c, "late"));
    hub.drop_client(c);
    assert_eq!(hub.node.suspended_session_count(), 1);
    hub.now += 2 * SECOND;
    assert!(matches!(resume(&mut hub, id), Opening::Refused { .. }));
    assert!(hub.node.has_suspended_session(id));
    assert_eq!(hub.federation("late").federates.len(), 1);
    let now = hub.now;
    let callbacks = hub.node.expire_suspended(now);
    hub.deliver(callbacks);
    assert_eq!(hub.node.suspended_session_count(), 0);
    assert_eq!(hub.federation("late").federates.len(), 0);
}

#[test]
fn a_session_is_resumed_only_once() {
    let mut hub = hub_with_window(5 * SECOND);
    let mut c = hub.open();
    let id = c.ctx.session_id;
    done(hub.create(&mut c, "twice"));
    joined(hub.join(&mut c, "twice"));
    hub.drop_client(c);
    assert!(matches!(resume(&mut hub, id), Opening::Opened { .. }));
    assert!(matches!(resume(&mut hub, id), Opening::Refused { .. }));
}

#[test]
fn a_session_without_a_membership_is_not_kept() {
    let mut hub = hub_with_window(5 * SECOND);
    let c = hub.open();
    hub.drop_client(c);
    assert_eq!(hub.node.suspended_session_count(), 0);
}

#[test]
fn only_those_past_their_deadline_resign() {
    let mut hub = hub_with_window(10 * SECOND);
    let mut a = hub.open();
    let first = a.ctx.session_id;
    done(hub.create(&mut a, "some"));
    joined(hub.join(&mut a, "some"));
    let mut b = hub.open();
    let second = b.ctx.session_id;
    joined(hub.join(&mut b, "some"));
    hub.drop_client(a);
    hub.now += 6 * SECOND;
    hub.drop_client(b);
    hub.now += 6 * SECOND;
    let now = hub.now;
    let callbacks = hub.node.expire_suspended(now);
    hub.deliver(callbacks);
    assert!(!hub.node.has_suspended_session(first));
    assert!(hub.node.has_suspended_session(second));
    assert_eq!(hub.federation("some").federates.len(), 1);
}

#[test]
fn callbacks_to_a_lost_connection_are_left_out() {
    let mut hub = hub_with_window(10 * SECOND);
    let mut b = hub.member("gone");
    let (drink, cups) = hub.drink_and_cups(&mut b);
    hub.subscribe(&mut b, &drink, &[&cups]);
    let mut a = hub.member("gone");
    hub.publish(&mut a, &drink, &[&cups]);
    hub.drop_client(b);
    hub.register(&mut a, &drink);
    assert!(hub.frames.is_empty());
}

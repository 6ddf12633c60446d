//! Time management.

#![allow(dead_code, unused_imports)]

use hla_rti::callbacks::CallbackRequest;
use hla_rti::dispatch::calls::Outside;
use hla_rti::dispatch::federation_mgmt::ModuleLoad;
use hla_rti::dispatch::restore::SnapshotLoad;
use hla_rti::dispatch::save::SnapshotFile;
use hla_rti::exception::{Details, ExceptionData};
use hla_rti::fom::{ClassDef, DimensionDef, MemberDef, MergedFom};
use hla_rti::frames::{
    Frame, FrameHeader, FramePayload, MessageType, StatusReason, FEDERATE_PROTOCOL_VERSION,
    NO_SESSION_ID,
};
use hla_rti::messages::{
    AdvanceForm, CallRequest, CallResponse, CreateForm, HandleValueField, JoinForm, Payload,
    Service, SubscribeForm,
};
use hla_rti::node::Limit;
use hla_rti::routing::Outbox;
use hla_rti::session::SessionContext;
use hla_rti::sessions::{InboundFrame, Opening, OpeningFrame, SessionEvent};
use hla_rti::{Federation, HeartbeatConfig, HlaException, RtiNode, SECOND};
use std::sync::Arc;

const LOCALHOST: (u8, u128) = (4, 0x7f00_0001);
const MILLISECOND: u128 = SECOND / 1000;

/// A node, the frames that are on their way to its clients, and its clock.
struct Hub {
    node: RtiNode,
    now: u128,
    next_connection: u64,
    next_callback: i32,
    frames: Vec<Frame>,
    file: Option<SnapshotFile>,
}

/// A client with an open session.
struct Client {
    ctx: SessionContext,
    next_outbound: i32,
    heartbeat: HeartbeatConfig,
}

fn class(handle: u32, name: &str, parent: Option<&str>, members: &[&str]) -> ClassDef {
    ClassDef {
        handle,
        name: name.to_string(),
        parent: parent.map(|p| p.to_string()),
        members: members.iter().map(|m| m.to_string()).collect(),
    }
}

fn member(class: u32, name: &str, handle: u32) -> MemberDef {
    MemberDef { class, name: name.to_string(), handle }
}

/// Food with a color, drinks with a number of cups, an announcement of what is
/// served, and two dimensions.
fn sushi() -> MergedFom {
    MergedFom {
        object_classes: vec![
            class(1, "HLAobjectRoot", None, &[]),
            class(2, "HLAobjectRoot.Food", Some("HLAobjectRoot"), &["Color"]),
            class(3, "HLAobjectRoot.Food.Drink", Some("HLAobjectRoot.Food"), &["NumberCups"]),
        ],
        attributes: vec![member(2, "Color", 1), member(3, "NumberCups", 2)],
        interaction_classes: vec![
            class(1, "HLAinteractionRoot", None, &[]),
            class(
                2,
                "HLAinteractionRoot.FoodServed",
                Some("HLAinteractionRoot"),
                &["FoodType"],
            ),
        ],
        parameters: vec![member(2, "FoodType", 1)],
        dimensions: vec![
            DimensionDef { name: "BarQuantity".to_string(), handle: 1 },
            DimensionDef { name: "WaiterId".to_string(), handle: 2 },
        ],
    }
}

fn nothing_outside() -> Outside {
    Outside {
        modules: ModuleLoad { faults: Vec::new(), merged: Ok(Arc::new(MergedFom::new())) },
        snapshot: SnapshotLoad::NotFound,
    }
}

impl Hub {
    fn new() -> Hub {
        let mut node = RtiNode::new();
        node.set_default_fom(sushi());
        Hub {
            node,
            now: 1000 * SECOND,
            next_connection: 1,
            next_callback: 0,
            frames: Vec::new(),
            file: None,
        }
    }

    fn opening(message_type: MessageType, session_id: u64) -> OpeningFrame {
        OpeningFrame {
            message_type,
            sequence_number: 0,
            session_id,
            protocol_version: FEDERATE_PROTOCOL_VERSION,
        }
    }

    fn connect(&mut self, ctx: SessionContext) -> Client {
        let connection = self.next_connection;
        self.next_connection += 1;
        let heartbeat = self.node.session_opened(ctx.session_id, connection);
        Client { ctx, next_outbound: 1, heartbeat }
    }

    fn try_open(&mut self) -> Result<Client, Limit> {
        let candidate = self.node.accept_connection(LOCALHOST)?;
        let first = Hub::opening(MessageType::CtrlNewSession, NO_SESSION_ID);
        match self.node.open_session(candidate, &first, self.now) {
            Opening::Opened { reply, ctx } => {
                assert_eq!(
                    reply.header,
                    FrameHeader {
                        sequence_number: None,
                        session_id: candidate,
                        last_received_sequence_number: Some(0),
                        message_type: MessageType::CtrlNewSessionStatus,
                    }
                );
                assert!(matches!(reply.payload, FramePayload::Status(StatusReason::Success)));
                Ok(self.connect(ctx))
            },
            other => panic!("expected an open session, got {other:?}"),
        }
    }

    fn open(&mut self) -> Client {
        match self.try_open() {
            Ok(client) => client,
            Err(limit) => panic!("refused by {}", limit.name()),
        }
    }

    fn event(
        &mut self,
        client: &mut Client,
        event: SessionEvent,
        outside: &Outside,
    ) -> (Option<Frame>, bool) {
        let step = self.node.session_step(&mut client.ctx, &event, outside);
        self.file = step.file;
        self.deliver(step.callbacks);
        (step.reply, step.close)
    }

    fn deliver(&mut self, callbacks: Outbox) {
        for callback in callbacks.into_vec() {
            let number = self.next_callback;
            self.next_callback += 1;
            self.frames.push(callback.into_frame(number));
        }
    }

    fn control(&mut self, client: &mut Client, message_type: MessageType) -> (Option<Frame>, bool) {
        let frame = InboundFrame { message_type, sequence_number: 1, call: Ok(None) };
        self.event(client, SessionEvent::Inbound(frame), &nothing_outside())
    }

    fn call_with(
        &mut self,
        client: &mut Client,
        request: CallRequest,
        outside: &Outside,
    ) -> CallResponse {
        let number = client.next_outbound;
        client.next_outbound += 1;
        let frame = InboundFrame {
            message_type: MessageType::HlaCallRequest,
            sequence_number: number,
            call: Ok(Some(request)),
        };
        let (reply, close) = self.event(client, SessionEvent::Inbound(frame), outside);
        assert!(!close);
        let reply = reply.expect("no response");
        assert_eq!(
            reply.header,
            FrameHeader {
                sequence_number: None,
                session_id: client.ctx.session_id,
                last_received_sequence_number: Some(number),
                message_type: MessageType::HlaCallResponse,
            }
        );
        match reply.payload {
            FramePayload::Response { response_to_sequence_number, response } => {
                assert_eq!(response_to_sequence_number, number);
                response
            },
            other => panic!("expected a response, got {other:?}"),
        }
    }

    fn call(&mut self, client: &mut Client, request: CallRequest) -> CallResponse {
        self.call_with(client, request, &nothing_outside())
    }

    /// The connection of a client is lost.
    fn drop_client(&mut self, client: Client) {
        let window = client.heartbeat.reconnect_window;
        let callbacks = self.node.close_session(&client.ctx, window, self.now);
        self.deliver(callbacks);
        self.node.release_connection(LOCALHOST);
    }

    fn callbacks(&mut self, client: &Client) -> Vec<Arc<CallbackRequest>> {
        let mut mine = Vec::new();
        let mut others = Vec::new();
        for frame in self.frames.drain(..) {
            if frame.header.session_id == client.ctx.session_id {
                assert_eq!(frame.header.message_type, MessageType::HlaCallbackRequest);
                match frame.payload {
                    FramePayload::Callback(c) => mine.push(c),
                    other => panic!("expected a callback, got {other:?}"),
                }
            } else {
                others.push(frame);
            }
        }
        self.frames = others;
        mine
    }

    fn callback(&mut self, client: &Client) -> Arc<CallbackRequest> {
        let mut all = self.callbacks(client);
        assert_eq!(all.len(), 1, "{all:?}");
        all.remove(0)
    }

    fn create(&mut self, client: &mut Client, name: &str) -> CallResponse {
        self.call(
            client,
            CallRequest::CreateFederationExecution {
                create_form: CreateForm::Plain,
                federation_name: name.to_string(),
                fom_modules: Vec::new(),
                mim_module: None,
            },
        )
    }

    fn join(&mut self, client: &mut Client, name: &str) -> CallResponse {
        self.call(
            client,
            CallRequest::JoinFederationExecution {
                join_form: JoinForm::Plain,
                federation_name: name.to_string(),
            },
        )
    }

    fn join_named(&mut self, client: &mut Client, name: &str, federate: &str) -> CallResponse {
        self.call(
            client,
            CallRequest::JoinFederationExecution {
                join_form: JoinForm::WithName(federate.to_string()),
                federation_name: name.to_string(),
            },
        )
    }

    /// Opens a session and joins a federation, which is created where it does not
    /// exist.
    fn member(&mut self, name: &str) -> Client {
        let mut client = self.open();
        let _ = self.create(&mut client, name);
        joined(self.join(&mut client, name));
        client
    }

    fn federation(&self, name: &str) -> &Federation {
        let id = self.node.find_federation(name).expect("no such federation");
        self.node.federations.get(id).expect("no such federation")
    }

    fn drink_and_cups(&mut self, client: &mut Client) -> (Vec<u8>, Vec<u8>) {
        let drink = handle(self.call(
            client,
            CallRequest::GetObjectClassHandle {
                object_class_name: "HLAobjectRoot.Food.Drink".to_string(),
            },
        ));
        let cups = handle(self.call(
            client,
            CallRequest::GetAttributeHandle {
                object_class: Some(drink.clone()),
                attribute_name: "NumberCups".to_string(),
            },
        ));
        (drink, cups)
    }

    fn food_served(&mut self, client: &mut Client) -> (Vec<u8>, Vec<u8>) {
        let served = handle(self.call(
            client,
            CallRequest::GetInteractionClassHandle {
                interaction_class_name: "HLAinteractionRoot.FoodServed".to_string(),
            },
        ));
        let food_type = handle(self.call(
            client,
            CallRequest::GetParameterHandle {
                interaction_class: Some(served.clone()),
                parameter_name: "FoodType".to_string(),
            },
        ));
        (served, food_type)
    }

    fn subscribe(&mut self, client: &mut Client, object_class: &[u8], attributes: &[&[u8]]) {
        let r = self.call(
            client,
            CallRequest::SubscribeObjectClassAttributes {
                subscribe_form: SubscribeForm::Plain,
                object_class: Some(object_class.to_vec()),
                attributes: Some(attributes.iter().map(|a| a.to_vec()).collect()),
            },
        );
        assert_eq!(done(r), Service::SubscribeObjectClassAttributes);
    }

    fn publish(&mut self, client: &mut Client, object_class: &[u8], attributes: &[&[u8]]) {
        let r = self.call(
            client,
            CallRequest::PublishObjectClassAttributes {
                object_class: Some(object_class.to_vec()),
                attributes: Some(attributes.iter().map(|a| a.to_vec()).collect()),
            },
        );
        assert_eq!(done(r), Service::PublishObjectClassAttributes);
    }

    fn register(&mut self, client: &mut Client, object_class: &[u8]) -> Vec<u8> {
        handle(self.call(
            client,
            CallRequest::RegisterObjectInstance { object_class: Some(object_class.to_vec()) },
        ))
    }

    fn update(
        &mut self,
        client: &mut Client,
        instance: &[u8],
        attribute: &[u8],
        value: &[u8],
        tag: &[u8],
    ) -> CallResponse {
        self.call(
            client,
            CallRequest::UpdateAttributeValues {
                object_instance: Some(instance.to_vec()),
                attribute_values: Some(vec![value_of(attribute, value)]),
                user_supplied_tag: tag.to_vec(),
            },
        )
    }

    fn regulate(&mut self, client: &mut Client, lookahead: f64) -> CallResponse {
        self.call(client, CallRequest::EnableTimeRegulation { lookahead: Some(stamp(lookahead)) })
    }

    fn constrain(&mut self, client: &mut Client) -> CallResponse {
        self.call(client, CallRequest::EnableTimeConstrained)
    }

    fn advance(&mut self, client: &mut Client, time: f64) -> CallResponse {
        self.call(
            client,
            CallRequest::TimeAdvance {
                advance_form: AdvanceForm::TimeAdvanceRequest,
                time: Some(stamp(time)),
            },
        )
    }
}

fn value_of(handle: &[u8], value: &[u8]) -> HandleValueField {
    HandleValueField { handle: Some(handle.to_vec()), value: value.to_vec() }
}

fn stamp(t: f64) -> Vec<u8> {
    t.to_be_bytes().to_vec()
}

fn time_in(b: &[u8]) -> f64 {
    f64::from_be_bytes(b.try_into().expect("a time stamp has eight bytes"))
}

fn number32(b: &[u8]) -> u32 {
    u32::from_be_bytes(b.try_into().expect("a short handle has four bytes"))
}

fn number64(b: &[u8]) -> u64 {
    u64::from_be_bytes(b.try_into().expect("a long handle has eight bytes"))
}

fn done(r: CallResponse) -> Service {
    match r {
        CallResponse::Reply { service, payload: Payload::Empty } => service,
        other => panic!("expected an empty reply, got {other:?}"),
    }
}

fn handle(r: CallResponse) -> Vec<u8> {
    match r {
        CallResponse::Reply { payload: Payload::Handle(h), .. } => h,
        other => panic!("expected a handle, got {other:?}"),
    }
}

fn handles(r: CallResponse) -> Vec<Vec<u8>> {
    match r {
        CallResponse::Reply { payload: Payload::Handles(l), .. } => l,
        other => panic!("expected handles, got {other:?}"),
    }
}

fn text(r: CallResponse) -> String {
    match r {
        CallResponse::Reply { payload: Payload::Text(s), .. } => s,
        other => panic!("expected a text, got {other:?}"),
    }
}

fn flag(r: CallResponse) -> bool {
    match r {
        CallResponse::Reply { payload: Payload::Flag(b), .. } => b,
        other => panic!("expected a flag, got {other:?}"),
    }
}

fn joined(r: CallResponse) -> (Vec<u8>, String) {
    match r {
        CallResponse::Reply {
            service: Service::JoinFederationExecution(_),
            payload: Payload::Joined { federate_handle, logical_time_implementation_name },
        } => (federate_handle, logical_time_implementation_name),
        other => panic!("expected a join, got {other:?}"),
    }
}

fn refused(r: CallResponse) -> ExceptionData {
    match r {
        CallResponse::Exception(e) => e,
        other => panic!("expected an exception, got {other:?}"),
    }
}

fn details(e: &ExceptionData) -> &str {
    match &e.details {
        Details::Text(s) => s.as_str(),
        other => panic!("expected a text, got {other:?}"),
    }
}

fn grant(c: &CallbackRequest) -> f64 {
    match c {
        CallbackRequest::TimeAdvanceGrant { time } => time_in(time),
        other => panic!("expected a grant, got {other:?}"),
    }
}

#[test]
fn enable_time_regulation_grants_immediate_callback() {
    let mut hub = Hub::new();
    let mut c = hub.member("tm1");
    let r = hub.regulate(&mut c, 1.0);
    assert_eq!(done(r), Service::EnableTimeRegulation);
    match &*hub.callback(&c) {
        CallbackRequest::TimeRegulationEnabled { time } => assert_eq!(time_in(time), 0.0),
        other => panic!("expected the callback, got {other:?}"),
    }
}

#[test]
fn enable_time_constrained_grants_immediate_callback() {
    let mut hub = Hub::new();
    let mut c = hub.member("tm2");
    let r = hub.constrain(&mut c);
    assert_eq!(done(r), Service::EnableTimeConstrained);
    match &*hub.callback(&c) {
        CallbackRequest::TimeConstrainedEnabled { time } => assert_eq!(time_in(time), 0.0),
        other => panic!("expected the callback, got {other:?}"),
    }
}

#[test]
fn unconstrained_advance_is_granted_immediately() {
    let mut hub = Hub::new();
    let mut c = hub.member("tm3");
    let r = hub.advance(&mut c, 5.0);
    assert_eq!(done(r), Service::TimeAdvanceRequest);
    assert_eq!(grant(&hub.callback(&c)), 5.0);
}

#[test]
fn constrained_with_no_regulator_advances_freely() {
    let mut hub = Hub::new();
    let mut c = hub.member("tm4");
    done(hub.constrain(&mut c));
    hub.callback(&c);
    done(hub.advance(&mut c, 10.0));
    assert_eq!(grant(&hub.callback(&c)), 10.0);
}

#[test]
fn regulator_lookahead_blocks_constrained_until_advanced() {
    let mut hub = Hub::new();
    let mut r = hub.member("tm5");
    done(hub.regulate(&mut r, 1.0));
    hub.callback(&r);
    let mut c = hub.member("tm5");
    done(hub.constrain(&mut c));
    hub.callback(&c);

    done(hub.advance(&mut c, 0.5));
    assert_eq!(grant(&hub.callback(&c)), 0.5);
    done(hub.advance(&mut c, 5.0));
    assert!(hub.callbacks(&c).is_empty());

    done(hub.advance(&mut r, 5.0));
    assert_eq!(grant(&hub.callback(&r)), 5.0);
    assert_eq!(grant(&hub.callback(&c)), 5.0);
}

#[test]
fn two_regulators_compute_min_lbts() {
    let mut hub = Hub::new();
    let mut r1 = hub.member("tm6");
    done(hub.regulate(&mut r1, 2.0));
    let mut r2 = hub.member("tm6");
    done(hub.regulate(&mut r2, 0.5));
    let mut c = hub.member("tm6");
    done(hub.constrain(&mut c));
    hub.callback(&c);
    done(hub.advance(&mut c, 0.5));
    assert_eq!(grant(&hub.callback(&c)), 0.5);
    done(hub.advance(&mut c, 1.0));
    assert!(hub.callbacks(&c).is_empty());
}

#[test]
fn query_logical_time_and_lookahead() {
    let mut hub = Hub::new();
    let mut c = hub.member("tm7");
    match hub.call(&mut c, CallRequest::QueryLogicalTime) {
        CallResponse::Reply { service: Service::QueryLogicalTime, payload: Payload::Time(t) } => {
            assert_eq!(time_in(&t), 0.0);
        },
        other => panic!("expected a time, got {other:?}"),
    }
    let e = refused(hub.call(&mut c, CallRequest::QueryLookahead));
    assert_eq!(e.exception_name(), "TimeRegulationIsNotEnabled");
    done(hub.regulate(&mut c, 2.5));
    match hub.call(&mut c, CallRequest::QueryLookahead) {
        CallResponse::Reply { service: Service::QueryLookahead, payload: Payload::Time(t) } => {
            assert_eq!(t.len(), 8);
            assert_eq!(time_in(&t), 2.5);
        },
        other => panic!("expected a time, got {other:?}"),
    }
}

#[test]
fn double_enable_regulation_fails() {
    let mut hub = Hub::new();
    let mut c = hub.member("tm8");
    done(hub.regulate(&mut c, 1.0));
    let e = refused(hub.regulate(&mut c, 1.0));
    assert_eq!(e.exception_name(), "TimeRegulationAlreadyEnabled");
}

#[test]
fn faulty_times_are_refused() {
    let mut hub = Hub::new();
    let mut c = hub.member("tm9");
    let e = refused(hub.call(&mut c, CallRequest::EnableTimeRegulation { lookahead: None }));
    assert_eq!(e.exception, HlaException::InvalidLookahead);
    assert_eq!(details(&e), "missing");
    let e = refused(hub.regulate(&mut c, -1.0));
    assert_eq!(e.exception, HlaException::InvalidLookahead);
    match e.details {
        Details::Stamp(t) => assert_eq!(f64::from_bits(t), -1.0),
        other => panic!("expected a stamp, got {other:?}"),
    }
    assert_eq!(refused(hub.regulate(&mut c, f64::NAN)).exception, HlaException::InvalidLookahead);
    let e = refused(hub.advance(&mut c, f64::INFINITY));
    assert_eq!(e.exception, HlaException::LogicalTimeAlreadyPassed);
    done(hub.advance(&mut c, 3.0));
    let e = refused(hub.advance(&mut c, 2.0));
    assert_eq!(e.exception, HlaException::LogicalTimeAlreadyPassed);
    let e = refused(hub.call(&mut c, CallRequest::DisableTimeRegulation));
    assert_eq!(e.exception, HlaException::TimeRegulationIsNotEnabled);
    let e = refused(hub.call(&mut c, CallRequest::DisableTimeConstrained));
    assert_eq!(e.exception, HlaException::TimeConstrainedIsNotEnabled);
    done(hub.constrain(&mut c));
    let e = refused(hub.constrain(&mut c));
    assert_eq!(e.exception, HlaException::TimeConstrainedAlreadyEnabled);
}

#[test]
fn one_advance_at_a_time() {
    let mut hub = Hub::new();
    let mut r = hub.member("tm10");
    done(hub.regulate(&mut r, 1.0));
    let mut c = hub.member("tm10");
    done(hub.constrain(&mut c));
    done(hub.advance(&mut c, 4.0));
    let e = refused(hub.advance(&mut c, 5.0));
    assert_eq!(e.exception, HlaException::InTimeAdvancingState);
}

/// A publisher that regulates with a lookahead of one, a constrained subscriber,
/// and an instance that the subscriber knows.
fn timed_pair(hub: &mut Hub, name: &str) -> (Client, Client, Vec<u8>, Vec<u8>) {
    let mut c = hub.member(name);
    let (drink, cups) = hub.drink_and_cups(&mut c);
    hub.subscribe(&mut c, &drink, &[&cups]);
    done(hub.constrain(&mut c));
    let mut a = hub.member(name);
    hub.publish(&mut a, &drink, &[&cups]);
    done(hub.regulate(&mut a, 1.0));
    let instance = hub.register(&mut a, &drink);
    hub.callbacks(&c);
    hub.callbacks(&a);
    (a, c, instance, cups)
}

fn timed_update(
    hub: &mut Hub,
    a: &mut Client,
    instance: &[u8],
    cups: &[u8],
    value: &[u8],
    t: f64,
) -> CallResponse {
    hub.call(
        a,
        CallRequest::UpdateAttributeValuesWithTime {
            object_instance: Some(instance.to_vec()),
            attribute_values: Some(vec![value_of(cups, value)]),
            user_supplied_tag: Vec::new(),
            time: Some(stamp(t)),
        },
    )
}

fn timed_value(c: &CallbackRequest) -> (Vec<u8>, f64) {
    match c {
        CallbackRequest::ReflectAttributeValuesWithTime { attribute_values, time, .. } => {
            (attribute_values[0].value.clone(), time_in(time))
        },
        other => panic!("expected values, got {other:?}"),
    }
}

#[test]
fn messages_wait_until_their_time_and_come_in_its_order() {
    let mut hub = Hub::new();
    let (mut a, mut c, instance, cups) = timed_pair(&mut hub, "tso");
    for (value, t) in [(b"3", 3.0), (b"1", 1.0), (b"2", 2.0), (b"9", 9.0)] {
        let r = timed_update(&mut hub, &mut a, &instance, &cups, value, t);
        assert_eq!(done(r), Service::UpdateAttributeValuesWithTime);
    }
    assert!(hub.callbacks(&c).is_empty());
    done(hub.advance(&mut c, 3.0));
    assert!(hub.callbacks(&c).is_empty());
    done(hub.advance(&mut a, 2.0));
    let received = hub.callbacks(&c);
    assert_eq!(received.len(), 4);
    assert_eq!(timed_value(&received[0]), (b"1".to_vec(), 1.0));
    assert_eq!(timed_value(&received[1]), (b"2".to_vec(), 2.0));
    assert_eq!(timed_value(&received[2]), (b"3".to_vec(), 3.0));
    assert_eq!(grant(&received[3]), 3.0);
    done(hub.advance(&mut a, 20.0));
    done(hub.advance(&mut c, 10.0));
    let received = hub.callbacks(&c);
    assert_eq!(received.len(), 2);
    assert_eq!(timed_value(&received[0]), (b"9".to_vec(), 9.0));
    assert_eq!(grant(&received[1]), 10.0);
}

#[test]
fn a_grant_to_an_unconstrained_federate_brings_what_was_queued() {
    let mut hub = Hub::new();
    let (mut a, mut c, instance, cups) = timed_pair(&mut hub, "tso-off");
    done(timed_update(&mut hub, &mut a, &instance, &cups, b"4", 4.0));
    done(hub.call(&mut c, CallRequest::DisableTimeConstrained));
    assert!(hub.callbacks(&c).is_empty());
    done(hub.advance(&mut c, 5.0));
    let received = hub.callbacks(&c);
    assert_eq!(received.len(), 2);
    assert_eq!(timed_value(&received[0]), (b"4".to_vec(), 4.0));
    assert_eq!(grant(&received[1]), 5.0);
}

#[test]
fn regulating_federates_send_nothing_below_their_bound() {
    let mut hub = Hub::new();
    let (mut a, _c, instance, cups) = timed_pair(&mut hub, "bound");
    let e = refused(timed_update(&mut hub, &mut a, &instance, &cups, b"x", 0.5));
    assert_eq!(e.exception, HlaException::InvalidLogicalTime);
    match e.details {
        Details::StampBelow { time, bound } => {
            assert_eq!(f64::from_bits(time), 0.5);
            assert_eq!(f64::from_bits(bound), 1.0);
        },
        other => panic!("expected stamps, got {other:?}"),
    }
}

#[test]
fn an_unconstrained_subscriber_receives_at_once() {
    let mut hub = Hub::new();
    let (mut a, mut c, instance, cups) = timed_pair(&mut hub, "free");
    done(hub.call(&mut c, CallRequest::DisableTimeConstrained));
    done(timed_update(&mut hub, &mut a, &instance, &cups, b"x", 7.0));
    assert_eq!(timed_value(&hub.callback(&c)), (b"x".to_vec(), 7.0));
}

#[test]
fn timed_interactions_and_removals_wait_too() {
    let mut hub = Hub::new();
    let (mut a, mut c, instance, _) = timed_pair(&mut hub, "wait");
    let (served, food_type) = hub.food_served(&mut a);
    done(hub.call(
        &mut c,
        CallRequest::SubscribeInteractionClass {
            passively: true,
            interaction_class: Some(served.clone()),
        },
    ));
    done(hub.call(
        &mut a,
        CallRequest::PublishInteractionClass { interaction_class: Some(served.clone()) },
    ));
    let r = hub.call(
        &mut a,
        CallRequest::SendInteractionWithTime {
            with_regions: false,
            interaction_class: Some(served),
            parameter_values: Some(vec![value_of(&food_type, b"soup")]),
            user_supplied_tag: Vec::new(),
            time: Some(stamp(2.0)),
        },
    );
    assert_eq!(done(r), Service::SendInteractionWithTime);
    let r = hub.call(
        &mut a,
        CallRequest::DeleteObjectInstanceWithTime {
            object_instance: Some(instance.clone()),
            user_supplied_tag: Vec::new(),
            time: Some(stamp(3.0)),
        },
    );
    assert_eq!(done(r), Service::DeleteObjectInstanceWithTime);
    assert!(hub.callbacks(&c).is_empty());
    done(hub.advance(&mut a, 10.0));
    done(hub.advance(&mut c, 10.0));
    let received = hub.callbacks(&c);
    assert_eq!(received.len(), 3);
    assert!(matches!(&*received[0], CallbackRequest::ReceiveInteractionWithTime { .. }));
    match &*received[1] {
        CallbackRequest::RemoveObjectInstanceWithTime { object_instance, time, .. } => {
            assert_eq!(object_instance, &instance);
            assert_eq!(time_in(time), 3.0);
        },
        other => panic!("expected a removal, got {other:?}"),
    }
    assert_eq!(grant(&received[2]), 10.0);
}

#[test]
fn the_bound_can_be_asked_for() {
    let mut hub = Hub::new();
    let mut c = hub.member("galt");
    match hub.call(&mut c, CallRequest::QueryGalt) {
        CallResponse::Reply {
            service: Service::QueryGalt,
            payload: Payload::TimeQuery { logical_time_is_valid, .. },
        } => assert!(!logical_time_is_valid),
        other => panic!("expected a time, got {other:?}"),
    }
    let mut r = hub.member("galt");
    done(hub.regulate(&mut r, 1.5));
    match hub.call(&mut c, CallRequest::QueryLits) {
        CallResponse::Reply {
            service: Service::QueryLits,
            payload: Payload::TimeQuery { logical_time_is_valid, logical_time },
        } => {
            assert!(logical_time_is_valid);
            assert_eq!(time_in(&logical_time), 1.5);
        },
        other => panic!("expected a time, got {other:?}"),
    }
    done(hub.call(&mut r, CallRequest::ModifyLookahead { lookahead: Some(stamp(4.0)) }));
    match hub.call(&mut c, CallRequest::QueryGalt) {
        CallResponse::Reply { payload: Payload::TimeQuery { logical_time, .. }, .. } => {
            assert_eq!(time_in(&logical_time), 4.0);
        },
        other => panic!("expected a time, got {other:?}"),
    }
}

#[test]
fn grants_follow_one_another() {
    let mut hub = Hub::new();
    let mut b = hub.member("chain");
    done(hub.regulate(&mut b, 10.0));
    done(hub.constrain(&mut b));
    let mut c = hub.member("chain");
    done(hub.constrain(&mut c));
    hub.frames.clear();
    done(hub.advance(&mut c, 12.0));
    assert!(hub.frames.is_empty());
    done(hub.advance(&mut b, 5.0));
    assert_eq!(grant(&hub.callback(&b)), 5.0);
    assert_eq!(grant(&hub.callback(&c)), 12.0);
}

#[test]
fn who_stops_regulating_holds_nobody_back() {
    let mut hub = Hub::new();
    let mut r = hub.member("stop");
    done(hub.regulate(&mut r, 1.0));
    let mut c = hub.member("stop");
    done(hub.constrain(&mut c));
    hub.frames.clear();
    done(hub.advance(&mut c, 50.0));
    assert!(hub.frames.is_empty());
    let r = hub.call(&mut r, CallRequest::DisableTimeRegulation);
    assert_eq!(done(r), Service::DisableTimeRegulation);
    assert_eq!(grant(&hub.callback(&c)), 50.0);
}

/// A regulating member and a constrained one that waits for it.
fn waiting(hub: &mut Hub, name: &str) -> (Client, Client) {
    let mut r = hub.member(name);
    done(hub.regulate(&mut r, 1.0));
    let mut c = hub.member(name);
    done(hub.constrain(&mut c));
    hub.frames.clear();
    done(hub.advance(&mut c, 3.0));
    assert!(hub.frames.is_empty());
    (r, c)
}

#[test]
fn a_greater_lookahead_lets_others_advance() {
    let mut hub = Hub::new();
    let (mut r, c) = waiting(&mut hub, "ahead");
    let request = CallRequest::ModifyLookahead { lookahead: Some(stamp(2.0)) };
    assert_eq!(done(hub.call(&mut r, request)), Service::ModifyLookahead);
    assert!(hub.frames.is_empty());
    let request = CallRequest::ModifyLookahead { lookahead: Some(stamp(3.0)) };
    assert_eq!(done(hub.call(&mut r, request)), Service::ModifyLookahead);
    assert_eq!(grant(&hub.callback(&c)), 3.0);
    assert!(hub.frames.is_empty());
}

#[test]
fn who_gives_up_the_constraint_waits_no_longer() {
    let mut hub = Hub::new();
    let (_r, mut c) = waiting(&mut hub, "free");
    let r = hub.call(&mut c, CallRequest::DisableTimeConstrained);
    assert_eq!(done(r), Service::DisableTimeConstrained);
    assert_eq!(grant(&hub.callback(&c)), 3.0);
    assert!(hub.frames.is_empty());
}

#[test]
fn who_resigns_holds_nobody_back() {
    let mut hub = Hub::new();
    let (mut r, c) = waiting(&mut hub, "left");
    let before = hub.node.metrics_snapshot().callbacks_emitted;
    let reply = hub.call(&mut r, CallRequest::ResignFederationExecution);
    assert_eq!(done(reply), Service::ResignFederationExecution);
    assert_eq!(grant(&hub.callback(&c)), 3.0);
    assert!(hub.frames.is_empty());
    assert_eq!(hub.node.metrics_snapshot().callbacks_emitted, before + 1);
}

#[test]
fn who_is_lost_holds_nobody_back() {
    let mut hub = Hub::new();
    let (r, c) = waiting(&mut hub, "lost");
    let before = hub.node.metrics_snapshot().callbacks_emitted;
    hub.drop_client(r);
    assert_eq!(grant(&hub.callback(&c)), 3.0);
    assert!(hub.frames.is_empty());
    assert_eq!(hub.node.metrics_snapshot().callbacks_emitted, before + 1);
}

#[test]
fn who_could_still_come_back_is_waited_for() {
    let mut hub = Hub::new();
    hub.node.set_heartbeat_config(HeartbeatConfig {
        interval: 60 * SECOND,
        missing_timeout: 180 * SECOND,
        reconnect_window: 10 * SECOND,
    });
    let (r, c) = waiting(&mut hub, "maybe");
    hub.drop_client(r);
    assert!(hub.frames.is_empty());
    let before = hub.node.metrics_snapshot().callbacks_emitted;
    let now = hub.now + 10 * SECOND;
    let callbacks = hub.node.expire_suspended(now);
    hub.deliver(callbacks);
    assert_eq!(hub.federation("maybe").federates.len(), 1);
    assert_eq!(grant(&hub.callback(&c)), 3.0);
    assert!(hub.frames.is_empty());
    assert_eq!(hub.node.metrics_snapshot().callbacks_emitted, before + 1);
}

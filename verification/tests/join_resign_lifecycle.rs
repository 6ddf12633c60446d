//! Joining and resigning.

#![allow(dead_code, unused_imports)]

use hla_rti::callbacks::CallbackRequest;
use hla_rti::dispatch::calls::Outside;
use hla_rti::dispatch::federation_mgmt::ModuleLoad;
use hla_rti::dispatch::restore::SnapshotLoad;
use hla_rti::dispatch::save::SnapshotFile;
use hla_rti::exception::{Details, ExceptionData};
use hla_rti::fom::{ClassDef, DimensionDef, MemberDef, MergedFom};
use hla_rti::frames::{
    Frame, FrameHeader, FramePayload, MessageType, StatusReason, FEDERATE_PROTOCOL_VERSION,
    NO_SESSION_ID,
};
use hla_rti::messages::{
    AdvanceForm, CallRequest, CallResponse, CreateForm, HandleValueField, JoinForm, JoinService,
    Payload, Service, SubscribeForm,
};
use hla_rti::node::Limit;
use hla_rti::routing::Outbox;
use hla_rti::session::SessionContext;
use hla_rti::sessions::{InboundFrame, Opening, OpeningFrame, SessionEvent};
use hla_rti::{Federation, HeartbeatConfig, HlaException, RtiNode, SECOND};
use std::sync::Arc;

const LOCALHOST: (u8, u128) = (4, 0x7f00_0001);
const MILLISECOND: u128 = SECOND / 1000;

/// A node, the frames that are on their way to its clients, and its clock.
struct Hub {
    node: RtiNode,
    now: u128,
    next_connection: u64,
    next_callback: i32,
    frames: Vec<Frame>,
    file: Option<SnapshotFile>,
}

/// A client with an open session.
struct Client {
    ctx: SessionContext,
    next_outbound: i32,
    heartbeat: HeartbeatConfig,
}

fn class(handle: u32, name: &str, parent: Option<&str>, members: &[&str]) -> ClassDef {
    ClassDef {
        handle,
        name: name.to_string(),
        parent: parent.map(|p| p.to_string()),
        members: members.iter().map(|m| m.to_string()).collect(),
    }
}

fn member(class: u32, name: &str, handle: u32) -> MemberDef {
    MemberDef { class, name: name.to_string(), handle }
}

/// Food with a color, drinks with a number of cups, an announcement of what is
/// served, and two dimensions.
fn sushi() -> MergedFom {
    MergedFom {
        object_classes: vec![
            class(1, "HLAobjectRoot", None, &[]),
            class(2, "HLAobjectRoot.Food", Some("HLAobjectRoot"), &["Color"]),
            class(3, "HLAobjectRoot.Food.Drink", Some("HLAobjectRoot.Food"), &["NumberCups"]),
        ],
        attributes: vec![member(2, "Color", 1), member(3, "NumberCups", 2)],
        interaction_classes: vec![
            class(1, "HLAinteractionRoot", None, &[]),
            class(
                2,
                "HLAinteractionRoot.FoodServed",
                Some("HLAinteractionRoot"),
                &["FoodType"],
            ),
        ],
        parameters: vec![member(2, "FoodType", 1)],
        dimensions: vec![
            DimensionDef { name: "BarQuantity".to_string(), handle: 1 },
            DimensionDef { name: "WaiterId".to_string(), handle: 2 },
        ],
    }
}

fn nothing_outside() -> Outside {
    Outside {
        modules: ModuleLoad { faults: Vec::new(), merged: Ok(Arc::new(MergedFom::new())) },
        snapshot: SnapshotLoad::NotFound,
    }
}

impl Hub {
    fn new() -> Hub {
        let mut node = RtiNode::new();
        node.set_default_fom(sushi());
        Hub {
            node,
            now: 1000 * SECOND,
            next_connection: 1,
            next_callback: 0,
            frames: Vec::new(),
            file: None,
        }
    }

    fn opening(message_type: MessageType, session_id: u64) -> OpeningFrame {
        OpeningFrame {
            message_type,
            sequence_number: 0,
            session_id,
            protocol_version: FEDERATE_PROTOCOL_VERSION,
        }
    }

    fn connect(&mut self, ctx: SessionContext) -> Client {
        let connection = self.next_connection;
        self.next_connection += 1;
        let heartbeat = self.node.session_opened(ctx.session_id, connection);
        Client { ctx, next_outbound: 1, heartbeat }
    }

    fn try_open(&mut self) -> Result<Client, Limit> {
        let candidate = self.node.accept_connection(LOCALHOST)?;
        let first = Hub::opening(MessageType::CtrlNewSession, NO_SESSION_ID);
        match self.node.open_session(candidate, &first, self.now) {
            Opening::Opened { reply, ctx } => {
                assert_eq!(
                    reply.header,
                    FrameHeader {
                        sequence_number: None,
                        session_id: candidate,
                        last_received_sequence_number: Some(0),
                        message_type: MessageType::CtrlNewSessionStatus,
                    }
                );
                assert!(matches!(reply.payload, FramePayload::Status(StatusReason::Success)));
                Ok(self.connect(ctx))
            },
            other => panic!("expected an open session, got {other:?}"),
        }
    }

    fn open(&mut self) -> Client {
        match self.try_open() {
            Ok(client) => client,
            Err(limit) => panic!("refused by {}", limit.name()),
        }
    }

    fn event(
        &mut self,
        client: &mut Client,
        event: SessionEvent,
        outside: &Outside,
    ) -> (Option<Frame>, bool) {
        let step = self.node.session_step(&mut client.ctx, &event, outside);
        self.file = step.file;
        self.deliver(step.callbacks);
        (step.reply, step.close)
    }

    fn deliver(&mut self, callbacks: Outbox) {
        for callback in callbacks.into_vec() {
            let number = self.next_callback;
            self.next_callback += 1;
            self.frames.push(callback.into_frame(number));
        }
    }

    fn control(&mut self, client: &mut Client, message_type: MessageType) -> (Option<Frame>, bool) {
        let frame = InboundFrame { message_type, sequence_number: 1, call: Ok(None) };
        self.event(client, SessionEvent::Inbound(frame), &nothing_outside())
    }

    fn call_with(
        &mut self,
        client: &mut Client,
        request: CallRequest,
        outside: &Outside,
    ) -> CallResponse {
        let number = client.next_outbound;
        client.next_outbound += 1;
        let frame = InboundFrame {
            message_type: MessageType::HlaCallRequest,
            sequence_number: number,
            call: Ok(Some(request)),
        };
        let (reply, close) = self.event(client, SessionEvent::Inbound(frame), outside);
        assert!(!close);
        let reply = reply.expect("no response");
        assert_eq!(
            reply.header,
            FrameHeader {
                sequence_number: None,
                session_id: client.ctx.session_id,
                last_received_sequence_number: Some(number),
                message_type: MessageType::HlaCallResponse,
            }
        );
        match reply.payload {
            FramePayload::Response { response_to_sequence_number, response } => {
                assert_eq!(response_to_sequence_number, number);
                response
            },
            other => panic!("expected a response, got {other:?}"),
        }
    }

    fn call(&mut self, client: &mut Client, request: CallRequest) -> CallResponse {
        self.call_with(client, request, &nothing_outside())
    }

    /// The connection of a client is lost.
    fn drop_client(&mut self, client: Client) {
        let window = client.heartbeat.reconnect_window;
        let callbacks = self.node.close_session(&client.ctx, window, self.now);
        self.deliver(callbacks);
        self.node.release_connection(LOCALHOST);
    }

    fn callbacks(&mut self, client: &Client) -> Vec<Arc<CallbackRequest>> {
        let mut mine = Vec::new();
        let mut others = Vec::new();
        for frame in self.frames.drain(..) {
            if frame.header.session_id == client.ctx.session_id {
                assert_eq!(frame.header.message_type, MessageType::HlaCallbackRequest);
                match frame.payload {
                    FramePayload::Callback(c) => mine.push(c),
                    other => panic!("expected a callback, got {other:?}"),
                }
            } else {
                others.push(frame);
            }
        }
        self.frames = others;
        mine
    }

    fn callback(&mut self, client: &Client) -> Arc<CallbackRequest> {
        let mut all = self.callbacks(client);
        assert_eq!(all.len(), 1, "{all:?}");
        all.remove(0)
    }

    fn create(&mut self, client: &mut Client, name: &str) -> CallResponse {
        self.call(
            client,
            CallRequest::CreateFederationExecution {
                create_form: CreateForm::Plain,
                federation_name: name.to_string(),
                fom_modules: Vec::new(),
                mim_module: None,
            },
        )
    }

    fn join(&mut self, client: &mut Client, name: &str) -> CallResponse {
        self.call(
            client,
            CallRequest::JoinFederationExecution {
                join_form: JoinForm::Plain,
                federation_name: name.to_string(),
            },
        )
    }

    fn join_named(&mut self, client: &mut Client, name: &str, federate: &str) -> CallResponse {
        self.call(
            client,
            CallRequest::JoinFederationExecution {
                join_form: JoinForm::WithName(federate.to_string()),
                federation_name: name.to_string(),
            },
        )
    }

    /// Opens a session and joins a federation, which is created where it does not
    /// exist.
    fn member(&mut self, name: &str) -> Client {
        let mut client = self.open();
        let _ = self.create(&mut client, name);
        joined(self.join(&mut client, name));
        client
    }

    fn federation(&self, name: &str) -> &Federation {
        let id = self.node.find_federation(name).expect("no such federation");
        self.node.federations.get(id).expect("no such federation")
    }

    fn drink_and_cups(&mut self, client: &mut Client) -> (Vec<u8>, Vec<u8>) {
        let drink = handle(self.call(
            client,
            CallRequest::GetObjectClassHandle {
                object_class_name: "HLAobjectRoot.Food.Drink".to_string(),
            },
        ));
        let cups = handle(self.call(
            client,
            CallRequest::GetAttributeHandle {
                object_class: Some(drink.clone()),
                attribute_name: "NumberCups".to_string(),
            },
        ));
        (drink, cups)
    }

    fn food_served(&mut self, client: &mut Client) -> (Vec<u8>, Vec<u8>) {
        let served = handle(self.call(
            client,
            CallRequest::GetInteractionClassHandle {
                interaction_class_name: "HLAinteractionRoot.FoodServed".to_string(),
            },
        ));
        let food_type = handle(self.call(
            client,
            CallRequest::GetParameterHandle {
                interaction_class: Some(served.clone()),
                parameter_name: "FoodType".to_string(),
            },
        ));
        (served, food_type)
    }

    fn subscribe(&mut self, client: &mut Client, object_class: &[u8], attributes: &[&[u8]]) {
        let r = self.call(
            client,
            CallRequest::SubscribeObjectClassAttributes {
                subscribe_form: SubscribeForm::Plain,
                object_class: Some(object_class.to_vec()),
                attributes: Some(attributes.iter().map(|a| a.to_vec()).collect()),
            },
        );
        assert_eq!(done(r), Service::SubscribeObjectClassAttributes);
    }

    fn publish(&mut self, client: &mut Client, object_class: &[u8], attributes: &[&[u8]]) {
        let r = self.call(
            client,
            CallRequest::PublishObjectClassAttributes {
                object_class: Some(object_class.to_vec()),
                attributes: Some(attributes.iter().map(|a| a.to_vec()).collect()),
            },
        );
        assert_eq!(done(r), Service::PublishObjectClassAttributes);
    }

    fn register(&mut self, client: &mut Client, object_class: &[u8]) -> Vec<u8> {
        handle(self.call(
            client,
            CallRequest::RegisterObjectInstance { object_class: Some(object_class.to_vec()) },
        ))
    }

    fn update(
        &mut self,
        client: &mut Client,
        instance: &[u8],
        attribute: &[u8],
        value: &[u8],
        tag: &[u8],
    ) -> CallResponse {
        self.call(
            client,
            CallRequest::UpdateAttributeValues {
                object_instance: Some(instance.to_vec()),
                attribute_values: Some(vec![value_of(attribute, value)]),
                user_supplied_tag: tag.to_vec(),
            },
        )
    }

    fn regulate(&mut self, client: &mut Client, lookahead: f64) -> CallResponse {
        self.call(client, CallRequest::EnableTimeRegulation { lookahead: Some(stamp(lookahead)) })
    }

    fn constrain(&mut self, client: &mut Client) -> CallResponse {
        self.call(client, CallRequest::EnableTimeConstrained)
    }

    fn advance(&mut self, client: &mut Client, time: f64) -> CallResponse {
        self.call(
            client,
            CallRequest::TimeAdvance {
                advance_form: AdvanceForm::TimeAdvanceRequest,
                time: Some(stamp(time)),
            },
        )
    }
}

fn value_of(handle: &[u8], value: &[u8]) -> HandleValueField {
    HandleValueField { handle: Some(handle.to_vec()), value: value.to_vec() }
}

fn stamp(t: f64) -> Vec<u8> {
    t.to_be_bytes().to_vec()
}

fn time_in(b: &[u8]) -> f64 {
    f64::from_be_bytes(b.try_into().expect("a time stamp has eight bytes"))
}

fn number32(b: &[u8]) -> u32 {
    u32::from_be_bytes(b.try_into().expect("a short handle has four bytes"))
}

fn number64(b: &[u8]) -> u64 {
    u64::from_be_bytes(b.try_into().expect("a long handle has eight bytes"))
}

fn done(r: CallResponse) -> Service {
    match r {
        CallResponse::Reply { service, payload: Payload::Empty } => service,
        other => panic!("expected an empty reply, got {other:?}"),
    }
}

fn handle(r: CallResponse) -> Vec<u8> {
    match r {
        CallResponse::Reply { payload: Payload::Handle(h), .. } => h,
        other => panic!("expected a handle, got {other:?}"),
    }
}

fn handles(r: CallResponse) -> Vec<Vec<u8>> {
    match r {
        CallResponse::Reply { payload: Payload::Handles(l), .. } => l,
        other => panic!("expected handles, got {other:?}"),
    }
}

fn text(r: CallResponse) -> String {
    match r {
        CallResponse::Reply { payload: Payload::Text(s), .. } => s,
        other => panic!("expected a text, got {other:?}"),
    }
}

fn flag(r: CallResponse) -> bool {
    match r {
        CallResponse::Reply { payload: Payload::Flag(b), .. } => b,
        other => panic!("expected a flag, got {other:?}"),
    }
}

fn joined(r: CallResponse) -> (Vec<u8>, String) {
    match r {
        CallResponse::Reply {
            service: Service::JoinFederationExecution(_),
            payload: Payload::Joined { federate_handle, logical_time_implementation_name },
        } => (federate_handle, logical_time_implementation_name),
        other => panic!("expected a join, got {other:?}"),
    }
}

fn refused(r: CallResponse) -> ExceptionData {
    match r {
        CallResponse::Exception(e) => e,
        other => panic!("expected an exception, got {other:?}"),
    }
}

fn details(e: &ExceptionData) -> &str {
    match &e.details {
        Details::Text(s) => s.as_str(),
        other => panic!("expected a text, got {other:?}"),
    }
}

fn destroy(name: &str) -> CallRequest {
    CallRequest::DestroyFederationExecution { federation_name: name.to_string() }
}

#[test]
fn join_and_resign_happy_path() {
    let mut hub = Hub::new();
    let mut c = hub.open();
    done(hub.create(&mut c, "alpha"));
    let (federate, time) = joined(hub.join(&mut c, "alpha"));
    assert_eq!(federate.len(), 4);
    assert!(number32(&federate) >= 1);
    assert_eq!(time, "HLAfloat64Time");
    assert!(c.ctx.is_joined());
    let r = hub.call(&mut c, CallRequest::ResignFederationExecution);
    assert_eq!(done(r), Service::ResignFederationExecution);
    assert!(!c.ctx.is_joined());
}

#[test]
fn join_unknown_federation_fails() {
    let mut hub = Hub::new();
    let mut c = hub.open();
    let e = refused(hub.join(&mut c, "no-such-federation"));
    assert_eq!(e.exception_name(), "FederationExecutionDoesNotExist");
}

#[test]
fn double_join_fails() {
    let mut hub = Hub::new();
    let mut c = hub.open();
    done(hub.create(&mut c, "beta"));
    joined(hub.join(&mut c, "beta"));
    let e = refused(hub.join(&mut c, "beta"));
    assert_eq!(e.exception_name(), "FederateAlreadyExecutionMember");
}

#[test]
fn resign_without_joining_fails() {
    let mut hub = Hub::new();
    let mut c = hub.open();
    let e = refused(hub.call(&mut c, CallRequest::ResignFederationExecution));
    assert_eq!(e.exception_name(), "FederateNotExecutionMember");
}

#[test]
fn destroy_blocked_while_joined() {
    let mut hub = Hub::new();
    let mut a = hub.open();
    done(hub.create(&mut a, "gamma"));
    joined(hub.join(&mut a, "gamma"));
    let mut b = hub.open();
    let e = refused(hub.call(&mut b, destroy("gamma")));
    assert_eq!(e.exception_name(), "FederatesCurrentlyJoined");
    done(hub.call(&mut a, CallRequest::ResignFederationExecution));
    let r = hub.call(&mut b, destroy("gamma"));
    assert_eq!(done(r), Service::DestroyFederationExecution);
}

#[test]
fn two_federates_get_distinct_handles() {
    let mut hub = Hub::new();
    let mut admin = hub.open();
    done(hub.create(&mut admin, "delta"));
    let mut federates = Vec::new();
    for _ in 0..3 {
        let mut c = hub.open();
        federates.push(number32(&joined(hub.join(&mut c, "delta")).0));
    }
    assert_eq!(federates, [1, 2, 3]);
}

#[test]
fn join_with_explicit_name_then_duplicate_fails() {
    let mut hub = Hub::new();
    let mut admin = hub.open();
    done(hub.create(&mut admin, "epsilon"));
    let mut a = hub.open();
    let r = hub.join_named(&mut a, "epsilon", "alice");
    assert!(matches!(
        r,
        CallResponse::Reply {
            service: Service::JoinFederationExecution(JoinService::WithName),
            payload: Payload::Joined { .. },
        }
    ));
    let mut b = hub.open();
    let e = refused(hub.join_named(&mut b, "epsilon", "alice"));
    assert_eq!(e.exception_name(), "FederateNameAlreadyInUse");
    assert_eq!(details(&e), "alice");
}

#[test]
fn auto_resign_on_disconnect_unblocks_destroy() {
    let mut hub = Hub::new();
    let mut admin = hub.open();
    done(hub.create(&mut admin, "zeta"));
    let mut c = hub.open();
    joined(hub.join(&mut c, "zeta"));
    let (_, close) = hub.event(&mut c, SessionEvent::PeerClosed, &nothing_outside());
    assert!(close);
    hub.drop_client(c);
    let r = hub.call(&mut admin, destroy("zeta"));
    assert_eq!(done(r), Service::DestroyFederationExecution);
}

#[test]
fn federates_find_each_other_by_name() {
    let mut hub = Hub::new();
    let mut a = hub.open();
    done(hub.create(&mut a, "eta"));
    let (alice, _) = joined(hub.join_named(&mut a, "eta", "alice"));
    let found = handle(hub.call(
        &mut a,
        CallRequest::GetFederateHandle { federate_name: "alice".to_string() },
    ));
    assert_eq!(found, alice);
    let name = text(hub.call(&mut a, CallRequest::GetFederateName { federate: Some(alice) }));
    assert_eq!(name, "alice");
    let e = refused(hub.call(
        &mut a,
        CallRequest::GetFederateHandle { federate_name: "bob".to_string() },
    ));
    assert_eq!(e.exception, HlaException::NameNotFound);
    let e = refused(hub.call(&mut a, CallRequest::GetFederateName { federate: None }));
    assert_eq!(e.exception, HlaException::InvalidFederateHandle);
}

#[test]
fn who_resigns_is_a_member_no_more() {
    let mut hub = Hub::new();
    let mut a = hub.member("theta");
    let (drink, cups) = hub.drink_and_cups(&mut a);
    hub.subscribe(&mut a, &drink, &[&cups]);
    done(hub.call(&mut a, CallRequest::ResignFederationExecution));
    let fed = hub.federation("theta");
    assert_eq!(fed.federates.len(), 0);
    let e = refused(hub.call(&mut a, CallRequest::QueryLogicalTime));
    assert_eq!(e.exception, HlaException::FederateNotExecutionMember);
    let (again, _) = joined(hub.join(&mut a, "theta"));
    assert_eq!(number32(&again), 2);
}

#[test]
fn a_federation_of_the_same_name_is_another_one() {
    let mut hub = Hub::new();
    let mut a = hub.open();
    done(hub.create(&mut a, "iota"));
    let first = hub.node.find_federation("iota");
    done(hub.call(&mut a, destroy("iota")));
    assert_eq!(hub.node.find_federation("iota"), None);
    done(hub.create(&mut a, "iota"));
    assert_ne!(hub.node.find_federation("iota"), first);
}

#[test]
fn a_federation_needs_a_name() {
    let mut hub = Hub::new();
    let mut a = hub.open();
    let e = refused(hub.create(&mut a, ""));
    assert_eq!(e.exception, HlaException::ErrorReadingFdd);
    assert_eq!(details(&e), "federationName must not be empty");
}

#[test]
fn who_has_resigned_can_join_again_as_another() {
    let mut hub = Hub::new();
    let other = hub.member("again");
    let mut c = hub.open();
    let (first, _) = joined(hub.join_named(&mut c, "again", "ann"));
    let r = hub.call(&mut c, CallRequest::ResignFederationExecution);
    assert_eq!(done(r), Service::ResignFederationExecution);
    assert_eq!(c.ctx.membership, None);
    assert_eq!(hub.federation("again").federates.keys(), vec![1]);
    let e = refused(hub.call(&mut c, CallRequest::ResignFederationExecution));
    assert_eq!(e.exception, HlaException::FederateNotExecutionMember);
    assert_eq!(hub.federation("again").federates.keys(), vec![1]);
    let (second, _) = joined(hub.join_named(&mut c, "again", "ann"));
    assert!(first != second);
    assert_eq!(hub.federation("again").federates.keys(), vec![1, 3]);
    assert!(hub.callbacks(&other).is_empty());
}

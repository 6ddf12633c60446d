//! Lookups, declarations and registrations.

#![allow(dead_code, unused_imports)]

use hla_rti::callbacks::CallbackRequest;
use hla_rti::dispatch::calls::Outside;
use hla_rti::dispatch::federation_mgmt::ModuleLoad;
use hla_rti::dispatch::restore::SnapshotLoad;
use hla_rti::dispatch::save::SnapshotFile;
use hla_rti::exception::{Details, ExceptionData};
use hla_rti::fom::{ClassDef, DimensionDef, MemberDef, MergedFom};
use hla_rti::frames::{
    Frame, FrameHeader, FramePayload, MessageType, StatusReason, FEDERATE_PROTOCOL_VERSION,
    NO_SESSION_ID,
};
use hla_rti::messages::{
    AdvanceForm, CallRequest, CallResponse, CreateForm, HandleValueField, JoinForm, Payload,
    Service, SettableSwitch, SubscribeForm,
};
use hla_rti::node::Limit;
use hla_rti::routing::Outbox;
use hla_rti::session::SessionContext;
use hla_rti::sessions::{InboundFrame, Opening, OpeningFrame, SessionEvent};
use hla_rti::subscriptions::SubscriptionMatrix;
use hla_rti::{Federation, HeartbeatConfig, HlaException, RtiNode, SECOND};
use std::sync::Arc;

const LOCALHOST: (u8, u128) = (4, 0x7f00_0001);
const MILLISECOND: u128 = SECOND / 1000;

/// A node, the frames that are on their way to its clients, and its clock.
struct Hub {
    node: RtiNode,
    now: u128,
    next_connection: u64,
    next_callback: i32,
    frames: Vec<Frame>,
    file: Option<SnapshotFile>,
}

/// A client with an open session.
struct Client {
    ctx: SessionContext,
    next_outbound: i32,
    heartbeat: HeartbeatConfig,
}

fn class(handle: u32, name: &str, parent: Option<&str>, members: &[&str]) -> ClassDef {
    ClassDef {
        handle,
        name: name.to_string(),
        parent: parent.map(|p| p.to_string()),
        members: members.iter().map(|m| m.to_string()).collect(),
    }
}

fn member(class: u32, name: &str, handle: u32) -> MemberDef {
    MemberDef { class, name: name.to_string(), handle }
}

/// Food with a color, drinks with a number of cups, an announcement of what is
/// served, and two dimensions.
fn sushi() -> MergedFom {
    MergedFom {
        object_classes: vec![
            class(1, "HLAobjectRoot", None, &[]),
            class(2, "HLAobjectRoot.Food", Some("HLAobjectRoot"), &["Color"]),
            class(3, "HLAobjectRoot.Food.Drink", Some("HLAobjectRoot.Food"), &["NumberCups"]),
        ],
        attributes: vec![member(2, "Color", 1), member(3, "NumberCups", 2)],
        interaction_classes: vec![
            class(1, "HLAinteractionRoot", None, &[]),
            class(
                2,
                "HLAinteractionRoot.FoodServed",
                Some("HLAinteractionRoot"),
                &["FoodType"],
            ),
        ],
        parameters: vec![member(2, "FoodType", 1)],
        dimensions: vec![
            DimensionDef { name: "BarQuantity".to_string(), handle: 1 },
            DimensionDef { name: "WaiterId".to_string(), handle: 2 },
        ],
    }
}

fn nothing_outside() -> Outside {
    Outside {
        modules: ModuleLoad { faults: Vec::new(), merged: Ok(Arc::new(MergedFom::new())) },
        snapshot: SnapshotLoad::NotFound,
    }
}

impl Hub {
    fn new() -> Hub {
        let mut node = RtiNode::new();
        node.set_default_fom(sushi());
        Hub {
            node,
            now: 1000 * SECOND,
            next_connection: 1,
            next_callback: 0,
            frames: Vec::new(),
            file: None,
        }
    }

    fn opening(message_type: MessageType, session_id: u64) -> OpeningFrame {
        OpeningFrame {
            message_type,
            sequence_number: 0,
            session_id,
            protocol_version: FEDERATE_PROTOCOL_VERSION,
        }
    }

    fn connect(&mut self, ctx: SessionContext) -> Client {
        let connection = self.next_connection;
        self.next_connection += 1;
        let heartbeat = self.node.session_opened(ctx.session_id, connection);
        Client { ctx, next_outbound: 1, heartbeat }
    }

    fn try_open(&mut self) -> Result<Client, Limit> {
        let candidate = self.node.accept_connection(LOCALHOST)?;
        let first = Hub::opening(MessageType::CtrlNewSession, NO_SESSION_ID);
        match self.node.open_session(candidate, &first, self.now) {
            Opening::Opened { reply, ctx } => {
                assert_eq!(
                    reply.header,
                    FrameHeader {
                        sequence_number: None,
                        session_id: candidate,
                        last_received_sequence_number: Some(0),
                        message_type: MessageType::CtrlNewSessionStatus,
                    }
                );
                assert!(matches!(reply.payload, FramePayload::Status(StatusReason::Success)));
                Ok(self.connect(ctx))
            },
            other => panic!("expected an open session, got {other:?}"),
        }
    }

    fn open(&mut self) -> Client {
        match self.try_open() {
            Ok(client) => client,
            Err(limit) => panic!("refused by {}", limit.name()),
        }
    }

    fn event(
        &mut self,
        client: &mut Client,
        event: SessionEvent,
        outside: &Outside,
    ) -> (Option<Frame>, bool) {
        let step = self.node.session_step(&mut client.ctx, &event, outside);
        self.file = step.file;
        self.deliver(step.callbacks);
        (step.reply, step.close)
    }

    fn deliver(&mut self, callbacks: Outbox) {
        for callback in callbacks.into_vec() {
            let number = self.next_callback;
            self.next_callback += 1;
            self.frames.push(callback.into_frame(number));
        }
    }

    fn control(&mut self, client: &mut Client, message_type: MessageType) -> (Option<Frame>, bool) {
        let frame = InboundFrame { message_type, sequence_number: 1, call: Ok(None) };
        self.event(client, SessionEvent::Inbound(frame), &nothing_outside())
    }

    fn call_with(
        &mut self,
        client: &mut Client,
        request: CallRequest,
        outside: &Outside,
    ) -> CallResponse {
        let number = client.next_outbound;
        client.next_outbound += 1;
        let frame = InboundFrame {
            message_type: MessageType::HlaCallRequest,
            sequence_number: number,
            call: Ok(Some(request)),
        };
        let (reply, close) = self.event(client, SessionEvent::Inbound(frame), outside);
        assert!(!close);
        let reply = reply.expect("no response");
        assert_eq!(
            reply.header,
            FrameHeader {
                sequence_number: None,
                session_id: client.ctx.session_id,
                last_received_sequence_number: Some(number),
                message_type: MessageType::HlaCallResponse,
            }
        );
        match reply.payload {
            FramePayload::Response { response_to_sequence_number, response } => {
                assert_eq!(response_to_sequence_number, number);
                response
            },
            other => panic!("expected a response, got {other:?}"),
        }
    }

    fn call(&mut self, client: &mut Client, request: CallRequest) -> CallResponse {
        self.call_with(client, request, &nothing_outside())
    }

    /// The connection of a client is lost.
    fn drop_client(&mut self, client: Client) {
        let window = client.heartbeat.reconnect_window;
        let callbacks = self.node.close_session(&client.ctx, window, self.now);
        self.deliver(callbacks);
        self.node.release_connection(LOCALHOST);
    }

    fn callbacks(&mut self, client: &Client) -> Vec<Arc<CallbackRequest>> {
        let mut mine = Vec::new();
        let mut others = Vec::new();
        for frame in self.frames.drain(..) {
            if frame.header.session_id == client.ctx.session_id {
                assert_eq!(frame.header.message_type, MessageType::HlaCallbackRequest);
                match frame.payload {
                    FramePayload::Callback(c) => mine.push(c),
                    other => panic!("expected a callback, got {other:?}"),
                }
            } else {
                others.push(frame);
            }
        }
        self.frames = others;
        mine
    }

    fn callback(&mut self, client: &Client) -> Arc<CallbackRequest> {
        let mut all = self.callbacks(client);
        assert_eq!(all.len(), 1, "{all:?}");
        all.remove(0)
    }

    fn create(&mut self, client: &mut Client, name: &str) -> CallResponse {
        self.call(
            client,
            CallRequest::CreateFederationExecution {
                create_form: CreateForm::Plain,
                federation_name: name.to_string(),
                fom_modules: Vec::new(),
                mim_module: None,
            },
        )
    }

    fn join(&mut self, client: &mut Client, name: &str) -> CallResponse {
        self.call(
            client,
            CallRequest::JoinFederationExecution {
                join_form: JoinForm::Plain,
                federation_name: name.to_string(),
            },
        )
    }

    fn join_named(&mut self, client: &mut Client, name: &str, federate: &str) -> CallResponse {
        self.call(
            client,
            CallRequest::JoinFederationExecution {
                join_form: JoinForm::WithName(federate.to_string()),
                federation_name: name.to_string(),
            },
        )
    }

    /// Opens a session and joins a federation, which is created where it does not
    /// exist.
    fn member(&mut self, name: &str) -> Client {
        let mut client = self.open();
        let _ = self.create(&mut client, name);
        joined(self.join(&mut client, name));
        client
    }

    fn federation(&self, name: &str) -> &Federation {
        let id = self.node.find_federation(name).expect("no such federation");
        self.node.federations.get(id).expect("no such federation")
    }

    fn drink_and_cups(&mut self, client: &mut Client) -> (Vec<u8>, Vec<u8>) {
        let drink = handle(self.call(
            client,
            CallRequest::GetObjectClassHandle {
                object_class_name: "HLAobjectRoot.Food.Drink".to_string(),
            },
        ));
        let cups = handle(self.call(
            client,
            CallRequest::GetAttributeHandle {
                object_class: Some(drink.clone()),
                attribute_name: "NumberCups".to_string(),
            },
        ));
        (drink, cups)
    }

    fn food_served(&mut self, client: &mut Client) -> (Vec<u8>, Vec<u8>) {
        let served = handle(self.call(
            client,
            CallRequest::GetInteractionClassHandle {
                interaction_class_name: "HLAinteractionRoot.FoodServed".to_string(),
            },
        ));
        let food_type = handle(self.call(
            client,
            CallRequest::GetParameterHandle {
                interaction_class: Some(served.clone()),
                parameter_name: "FoodType".to_string(),
            },
        ));
        (served, food_type)
    }

    fn subscribe(&mut self, client: &mut Client, object_class: &[u8], attributes: &[&[u8]]) {
        let r = self.call(
            client,
            CallRequest::SubscribeObjectClassAttributes {
                subscribe_form: SubscribeForm::Plain,
                object_class: Some(object_class.to_vec()),
                attributes: Some(attributes.iter().map(|a| a.to_vec()).collect()),
            },
        );
        assert_eq!(done(r), Service::SubscribeObjectClassAttributes);
    }

    fn publish(&mut self, client: &mut Client, object_class: &[u8], attributes: &[&[u8]]) {
        let r = self.call(
            client,
            CallRequest::PublishObjectClassAttributes {
                object_class: Some(object_class.to_vec()),
                attributes: Some(attributes.iter().map(|a| a.to_vec()).collect()),
            },
        );
        assert_eq!(done(r), Service::PublishObjectClassAttributes);
    }

    fn register(&mut self, client: &mut Client, object_class: &[u8]) -> Vec<u8> {
        handle(self.call(
            client,
            CallRequest::RegisterObjectInstance { object_class: Some(object_class.to_vec()) },
        ))
    }

    fn update(
        &mut self,
        client: &mut Client,
        instance: &[u8],
        attribute: &[u8],
        value: &[u8],
        tag: &[u8],
    ) -> CallResponse {
        self.call(
            client,
            CallRequest::UpdateAttributeValues {
                object_instance: Some(instance.to_vec()),
                attribute_values: Some(vec![value_of(attribute, value)]),
                user_supplied_tag: tag.to_vec(),
            },
        )
    }

    fn regulate(&mut self, client: &mut Client, lookahead: f64) -> CallResponse {
        self.call(client, CallRequest::EnableTimeRegulation { lookahead: Some(stamp(lookahead)) })
    }

    fn constrain(&mut self, client: &mut Client) -> CallResponse {
        self.call(client, CallRequest::EnableTimeConstrained)
    }

    fn advance(&mut self, client: &mut Client, time: f64) -> CallResponse {
        self.call(
            client,
            CallRequest::TimeAdvance {
                advance_form: AdvanceForm::TimeAdvanceRequest,
                time: Some(stamp(time)),
            },
        )
    }
}

fn value_of(handle: &[u8], value: &[u8]) -> HandleValueField {
    HandleValueField { handle: Some(handle.to_vec()), value: value.to_vec() }
}

fn stamp(t: f64) -> Vec<u8> {
    t.to_be_bytes().to_vec()
}

fn time_in(b: &[u8]) -> f64 {
    f64::from_be_bytes(b.try_into().expect("a time stamp has eight bytes"))
}

fn number32(b: &[u8]) -> u32 {
    u32::from_be_bytes(b.try_into().expect("a short handle has four bytes"))
}

fn number64(b: &[u8]) -> u64 {
    u64::from_be_bytes(b.try_into().expect("a long handle has eight bytes"))
}

fn done(r: CallResponse) -> Service {
    match r {
        CallResponse::Reply { service, payload: Payload::Empty } => service,
        other => panic!("expected an empty reply, got {other:?}"),
    }
}

fn handle(r: CallResponse) -> Vec<u8> {
    match r {
        CallResponse::Reply { payload: Payload::Handle(h), .. } => h,
        other => panic!("expected a handle, got {other:?}"),
    }
}

fn handles(r: CallResponse) -> Vec<Vec<u8>> {
    match r {
        CallResponse::Reply { payload: Payload::Handles(l), .. } => l,
        other => panic!("expected handles, got {other:?}"),
    }
}

fn text(r: CallResponse) -> String {
    match r {
        CallResponse::Reply { payload: Payload::Text(s), .. } => s,
        other => panic!("expected a text, got {other:?}"),
    }
}

fn flag(r: CallResponse) -> bool {
    match r {
        CallResponse::Reply { payload: Payload::Flag(b), .. } => b,
        other => panic!("expected a flag, got {other:?}"),
    }
}

fn joined(r: CallResponse) -> (Vec<u8>, String) {
    match r {
        CallResponse::Reply {
            service: Service::JoinFederationExecution(_),
            payload: Payload::Joined { federate_handle, logical_time_implementation_name },
        } => (federate_handle, logical_time_implementation_name),
        other => panic!("expected a join, got {other:?}"),
    }
}

fn refused(r: CallResponse) -> ExceptionData {
    match r {
        CallResponse::Exception(e) => e,
        other => panic!("expected an exception, got {other:?}"),
    }
}

fn details(e: &ExceptionData) -> &str {
    match &e.details {
        Details::Text(s) => s.as_str(),
        other => panic!("expected a text, got {other:?}"),
    }
}

#[test]
fn handle_lookup_roundtrip() {
    let mut hub = Hub::new();
    let mut c = hub.member("fed-1");
    let food = handle(hub.call(
        &mut c,
        CallRequest::GetObjectClassHandle { object_class_name: "HLAobjectRoot.Food".to_string() },
    ));
    assert_eq!(food.len(), 4);
    let name = text(hub.call(
        &mut c,
        CallRequest::GetObjectClassName { object_class: Some(food.clone()) },
    ));
    assert_eq!(name, "HLAobjectRoot.Food");
    let color = handle(hub.call(
        &mut c,
        CallRequest::GetAttributeHandle {
            object_class: Some(food.clone()),
            attribute_name: "Color".to_string(),
        },
    ));
    assert_eq!(color.len(), 4);
    let name = text(hub.call(
        &mut c,
        CallRequest::GetAttributeName { object_class: Some(food.clone()), attribute: Some(color) },
    ));
    assert_eq!(name, "Color");
    let e = refused(hub.call(
        &mut c,
        CallRequest::GetAttributeHandle {
            object_class: Some(food),
            attribute_name: "NoSuch".to_string(),
        },
    ));
    assert_eq!(e.exception_name(), "NameNotFound");
}

#[test]
fn interaction_handle_lookup() {
    let mut hub = Hub::new();
    let mut c = hub.member("fed-ix");
    let (served, food_type) = hub.food_served(&mut c);
    let name = text(hub.call(
        &mut c,
        CallRequest::GetInteractionClassName { interaction_class: Some(served.clone()) },
    ));
    assert_eq!(name, "HLAinteractionRoot.FoodServed");
    let name = text(hub.call(
        &mut c,
        CallRequest::GetParameterName {
            interaction_class: Some(served),
            parameter: Some(food_type),
        },
    ));
    assert_eq!(name, "FoodType");
}

#[test]
fn publish_then_register_object_instance() {
    let mut hub = Hub::new();
    let mut c = hub.member("fed-pub");
    let (drink, cups) = hub.drink_and_cups(&mut c);
    hub.publish(&mut c, &drink, &[&cups]);
    let instance = hub.register(&mut c, &drink);
    assert_eq!(instance.len(), 8);
    let fed = hub.federation("fed-pub");
    assert_eq!(fed.object_instances.len(), 1);
    let single = fed.object_instances.get(number64(&instance)).expect("no such instance");
    assert_eq!(single.name, "HLA1");
    assert_eq!(single.registrar, 1);
    assert_eq!(single.attribute_owners.get(number32(&cups)), Some(&1));
}

#[test]
fn register_without_publish_fails() {
    let mut hub = Hub::new();
    let mut c = hub.member("fed-no-pub");
    let (drink, _) = hub.drink_and_cups(&mut c);
    let e = refused(hub.call(
        &mut c,
        CallRequest::RegisterObjectInstance { object_class: Some(drink) },
    ));
    assert_eq!(e.exception_name(), "ObjectClassNotPublished");
}

#[test]
fn subscribe_populates_federation_subscription_matrix() {
    let mut hub = Hub::new();
    let mut c = hub.member("fed-sub");
    let (drink, cups) = hub.drink_and_cups(&mut c);
    hub.subscribe(&mut c, &drink, &[&cups]);
    let subscriptions = &hub.federation("fed-sub").subscriptions;
    let found = subscriptions.subscribers_of_attribute(number32(&drink), number32(&cups));
    assert_eq!(found.len(), 1);
    assert!(subscriptions.class_has_subscribers(number32(&drink)));
}

#[test]
fn unsubscribe_clears_federation_subscription_matrix() {
    let mut hub = Hub::new();
    let mut c = hub.member("fed-unsub");
    let (drink, cups) = hub.drink_and_cups(&mut c);
    hub.subscribe(&mut c, &drink, &[&cups]);
    let r = hub.call(
        &mut c,
        CallRequest::UnsubscribeObjectClassAttributes {
            object_class: Some(drink.clone()),
            attributes: Some(vec![cups.clone()]),
        },
    );
    assert_eq!(done(r), Service::UnsubscribeObjectClassAttributes);
    let subscriptions = &hub.federation("fed-unsub").subscriptions;
    let found = subscriptions.subscribers_of_attribute(number32(&drink), number32(&cups));
    assert!(found.is_empty());
    assert!(!subscriptions.class_has_subscribers(number32(&drink)));
}

#[test]
fn publish_subscribe_interaction_class() {
    let mut hub = Hub::new();
    let mut c = hub.member("fed-ix-sub");
    let (served, _) = hub.food_served(&mut c);
    let r = hub.call(
        &mut c,
        CallRequest::PublishInteractionClass { interaction_class: Some(served.clone()) },
    );
    assert_eq!(done(r), Service::PublishInteractionClass);
    let r = hub.call(
        &mut c,
        CallRequest::SubscribeInteractionClass {
            passively: false,
            interaction_class: Some(served.clone()),
        },
    );
    assert_eq!(done(r), Service::SubscribeInteractionClass);
    assert!(hub
        .federation("fed-ix-sub")
        .subscriptions
        .interaction_has_subscribers(number32(&served)));
}

fn named(object_class: &[u8], name: &str) -> CallRequest {
    CallRequest::RegisterObjectInstanceWithName {
        object_class: Some(object_class.to_vec()),
        object_instance_name: name.to_string(),
    }
}

#[test]
fn register_object_instance_with_name_conflict() {
    let mut hub = Hub::new();
    let mut c = hub.member("fed-named");
    let (drink, cups) = hub.drink_and_cups(&mut c);
    hub.publish(&mut c, &drink, &[&cups]);
    let r = hub.call(&mut c, named(&drink, "Cola"));
    assert!(matches!(
        r,
        CallResponse::Reply { service: Service::RegisterObjectInstanceWithName, .. }
    ));
    let e = refused(hub.call(&mut c, named(&drink, "Cola")));
    assert_eq!(e.exception_name(), "ObjectInstanceNameInUse");
    assert_eq!(details(&e), "Cola");
}

#[test]
fn a_named_instance_is_found_by_its_name() {
    let mut hub = Hub::new();
    let mut c = hub.member("fed-find");
    let (drink, cups) = hub.drink_and_cups(&mut c);
    hub.publish(&mut c, &drink, &[&cups]);
    let cola = handle(hub.call(&mut c, named(&drink, "Cola")));
    let found = handle(hub.call(
        &mut c,
        CallRequest::GetObjectInstanceHandle { object_instance_name: "Cola".to_string() },
    ));
    assert_eq!(found, cola);
    let name = text(hub.call(
        &mut c,
        CallRequest::GetObjectInstanceName { object_instance: Some(cola.clone()) },
    ));
    assert_eq!(name, "Cola");
    let known = handle(hub.call(
        &mut c,
        CallRequest::GetKnownObjectClassHandle { object_instance: Some(cola) },
    ));
    assert_eq!(known, drink);
    let e = refused(hub.call(
        &mut c,
        CallRequest::GetObjectInstanceHandle { object_instance_name: "Tea".to_string() },
    ));
    assert_eq!(e.exception, HlaException::ObjectInstanceNotKnown);
}

#[test]
fn instance_numbers_grow_past_refused_names() {
    let mut hub = Hub::new();
    let mut c = hub.member("fed-grow");
    let (drink, cups) = hub.drink_and_cups(&mut c);
    hub.publish(&mut c, &drink, &[&cups]);
    assert_eq!(number64(&handle(hub.call(&mut c, named(&drink, "x")))), 1);
    refused(hub.call(&mut c, named(&drink, "x")));
    assert_eq!(number64(&hub.register(&mut c, &drink)), 3);
    assert_eq!(
        hub.federation("fed-grow").object_instances.get(3).map(|i| i.name.as_str()),
        Some("HLA3"),
    );
}

#[test]
fn malformed_and_unknown_handles_are_refused() {
    let mut hub = Hub::new();
    let mut c = hub.member("fed-bad");
    let e = refused(hub.call(&mut c, CallRequest::GetObjectClassName { object_class: None }));
    assert_eq!(e.exception, HlaException::InvalidObjectClassHandle);
    assert_eq!(details(&e), "missing handle");
    let e = refused(hub.call(
        &mut c,
        CallRequest::GetObjectClassName { object_class: Some(vec![1, 2, 3]) },
    ));
    assert_eq!(e.exception, HlaException::InvalidObjectClassHandle);
    let e = refused(hub.call(
        &mut c,
        CallRequest::GetObjectClassName { object_class: Some(99u32.to_be_bytes().to_vec()) },
    ));
    assert_eq!(details(&e), "ObjectClassHandle(99)");
    let e = refused(hub.call(
        &mut c,
        CallRequest::GetAttributeName {
            object_class: Some(2u32.to_be_bytes().to_vec()),
            attribute: Some(77u32.to_be_bytes().to_vec()),
        },
    ));
    assert_eq!(e.exception, HlaException::AttributeNotDefined);
    assert_eq!(details(&e), "AttributeHandle(77)");
    let e = refused(hub.call(
        &mut c,
        CallRequest::GetInteractionClassName {
            interaction_class: Some(99u32.to_be_bytes().to_vec()),
        },
    ));
    assert_eq!(e.exception, HlaException::InvalidInteractionClassHandle);
    let e = refused(hub.call(
        &mut c,
        CallRequest::GetParameterName {
            interaction_class: Some(2u32.to_be_bytes().to_vec()),
            parameter: Some(77u32.to_be_bytes().to_vec()),
        },
    ));
    assert_eq!(e.exception, HlaException::InteractionParameterNotDefined);
    let e = refused(hub.call(
        &mut c,
        CallRequest::RegisterObjectInstance { object_class: Some(99u32.to_be_bytes().to_vec()) },
    ));
    assert_eq!(e.exception, HlaException::ObjectClassNotDefined);
    let e = refused(hub.call(&mut c, CallRequest::RegisterObjectInstance { object_class: None }));
    assert_eq!(e.exception, HlaException::InvalidObjectClassHandle);
}

#[test]
fn subscribers_of_a_parent_class_discover_instances() {
    let mut hub = Hub::new();
    let mut b = hub.member("fed-parent");
    let food = 2u32.to_be_bytes().to_vec();
    let color = 1u32.to_be_bytes().to_vec();
    hub.subscribe(&mut b, &food, &[&color]);
    let mut a = hub.member("fed-parent");
    let (drink, cups) = hub.drink_and_cups(&mut a);
    hub.publish(&mut a, &drink, &[&cups]);
    hub.register(&mut a, &drink);
    assert!(matches!(&*hub.callback(&b), CallbackRequest::DiscoverObjectInstance { .. }));
}

#[test]
fn publishers_are_advised_of_interest() {
    let mut hub = Hub::new();
    let mut a = hub.member("fed-adv");
    let (drink, cups) = hub.drink_and_cups(&mut a);
    hub.publish(&mut a, &drink, &[&cups]);
    done(hub.call(
        &mut a,
        CallRequest::SetSwitch { settable: SettableSwitch::ObjectClassRelevanceAdvisory, on: true },
    ));
    let mut b = hub.member("fed-adv");
    hub.subscribe(&mut b, &drink, &[&cups]);
    match &*hub.callback(&a) {
        CallbackRequest::StartRegistrationForObjectClass { object_class } => {
            assert_eq!(object_class, &drink);
        },
        other => panic!("expected an advice, got {other:?}"),
    }
    done(hub.call(
        &mut b,
        CallRequest::UnsubscribeObjectClassAttributes {
            object_class: Some(drink.clone()),
            attributes: Some(vec![cups]),
        },
    ));
    match &*hub.callback(&a) {
        CallbackRequest::StopRegistrationForObjectClass { object_class } => {
            assert_eq!(object_class, &drink);
        },
        other => panic!("expected an advice, got {other:?}"),
    }
}

#[test]
fn unpublishing_ends_registrations() {
    let mut hub = Hub::new();
    let mut c = hub.member("fed-unpub");
    let (drink, cups) = hub.drink_and_cups(&mut c);
    hub.publish(&mut c, &drink, &[&cups]);
    hub.register(&mut c, &drink);
    let r = hub.call(
        &mut c,
        CallRequest::UnpublishObjectClass { object_class: Some(drink.clone()) },
    );
    assert_eq!(done(r), Service::UnpublishObjectClass);
    let e = refused(hub.call(
        &mut c,
        CallRequest::RegisterObjectInstance { object_class: Some(drink) },
    ));
    assert_eq!(e.exception, HlaException::ObjectClassNotPublished);
}

#[test]
fn to_unsubscribe_from_a_class_ends_all_subscriptions_to_it() {
    let mut hub = Hub::new();
    let mut a = hub.member("classes");
    let mut b = hub.member("classes");
    let (drink, cups) = hub.drink_and_cups(&mut a);
    hub.subscribe(&mut a, &drink, &[&cups]);
    hub.subscribe(&mut b, &drink, &[&cups]);
    let r = hub.call(
        &mut a,
        CallRequest::UnsubscribeObjectClass { object_class: Some(drink.clone()) },
    );
    assert_eq!(done(r), Service::UnsubscribeObjectClass);
    let class = number32(&drink);
    let fed = hub.federation("classes");
    assert!(!fed.subscriptions.class_has_subscribers(class));
    assert!(!fed.federates.get(1).unwrap().pub_sub.subscribed_attrs.contains_key(class));
    assert!(fed.federates.get(2).unwrap().pub_sub.subscribed_attrs.contains_key(class));

    let mut p = hub.member("classes");
    hub.publish(&mut p, &drink, &[&cups]);
    hub.frames.clear();
    hub.register(&mut p, &drink);
    assert!(hub.frames.is_empty());
}

#[test]
fn a_class_that_is_removed_has_no_subscribers() {
    let mut m = SubscriptionMatrix::new();
    assert!(m.subscribe_attribute(1, 10, 5));
    assert!(!m.subscribe_attribute(1, 11, 5));
    assert!(m.subscribe_attribute(1, 10, 6));
    assert!(m.subscribe_attribute(2, 10, 5));
    m.remove_class(1);
    assert!(!m.class_has_subscribers(1));
    assert_eq!(m.subscribers_of_class(2).members(), vec![5]);
    assert!(m.subscribe_attribute(1, 11, 5));
}

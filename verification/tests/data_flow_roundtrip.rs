//! Data flow from a publisher over the node to a subscriber.

#![allow(dead_code, unused_imports)]

use hla_rti::callbacks::CallbackRequest;
use hla_rti::dispatch::calls::Outside;
use hla_rti::dispatch::federation_mgmt::ModuleLoad;
use hla_rti::dispatch::restore::SnapshotLoad;
use hla_rti::dispatch::save::SnapshotFile;
use hla_rti::exception::{Details, ExceptionData};
use hla_rti::fom::{ClassDef, DimensionDef, MemberDef, MergedFom};
use hla_rti::frames::{
    Frame, FrameHeader, FramePayload, MessageType, StatusReason, FEDERATE_PROTOCOL_VERSION,
    NO_SESSION_ID,
};
use hla_rti::messages::{
    AdvanceForm, CallRequest, CallResponse, CreateForm, HandleValueField, JoinForm, Payload,
    Service, SubscribeForm,
};
use hla_rti::node::Limit;
use hla_rti::routing::Outbox;
use hla_rti::session::SessionContext;
use hla_rti::sessions::{InboundFrame, Opening, OpeningFrame, SessionEvent};
use hla_rti::{Federation, HeartbeatConfig, HlaException, RtiNode, SECOND};
use std::sync::Arc;

const LOCALHOST: (u8, u128) = (4, 0x7f00_0001);
const MILLISECOND: u128 = SECOND / 1000;

/// A node, the frames that are on their way to its clients, and its clock.
struct Hub {
    node: RtiNode,
    now: u128,
    next_connection: u64,
    next_callback: i32,
    frames: Vec<Frame>,
    file: Option<SnapshotFile>,
}

/// A client with an open session.
struct Client {
    ctx: SessionContext,
    next_outbound: i32,
    heartbeat: HeartbeatConfig,
}

fn class(handle: u32, name: &str, parent: Option<&str>, members: &[&str]) -> ClassDef {
    ClassDef {
        handle,
        name: name.to_string(),
        parent: parent.map(|p| p.to_string()),
        members: members.iter().map(|m| m.to_string()).collect(),
    }
}

fn member(class: u32, name: &str, handle: u32) -> MemberDef {
    MemberDef { class, name: name.to_string(), handle }
}

/// Food with a color, drinks with a number of cups, an announcement of what is
/// served, and two dimensions.
fn sushi() -> MergedFom {
    MergedFom {
        object_classes: vec![
            class(1, "HLAobjectRoot", None, &[]),
            class(2, "HLAobjectRoot.Food", Some("HLAobjectRoot"), &["Color"]),
            class(3, "HLAobjectRoot.Food.Drink", Some("HLAobjectRoot.Food"), &["NumberCups"]),
        ],
        attributes: vec![member(2, "Color", 1), member(3, "NumberCups", 2)],
        interaction_classes: vec![
            class(1, "HLAinteractionRoot", None, &[]),
            class(
                2,
                "HLAinteractionRoot.FoodServed",
                Some("HLAinteractionRoot"),
                &["FoodType"],
            ),
        ],
        parameters: vec![member(2, "FoodType", 1)],
        dimensions: vec![
            DimensionDef { name: "BarQuantity".to_string(), handle: 1 },
            DimensionDef { name: "WaiterId".to_string(), handle: 2 },
        ],
    }
}

fn nothing_outside() -> Outside {
    Outside {
        modules: ModuleLoad { faults: Vec::new(), merged: Ok(Arc::new(MergedFom::new())) },
        snapshot: SnapshotLoad::NotFound,
    }
}

impl Hub {
    fn new() -> Hub {
        let mut node = RtiNode::new();
        node.set_default_fom(sushi());
        Hub {
            node,
            now: 1000 * SECOND,
            next_connection: 1,
            next_callback: 0,
            frames: Vec::new(),
            file: None,
        }
    }

    fn opening(message_type: MessageType, session_id: u64) -> OpeningFrame {
        OpeningFrame {
            message_type,
            sequence_number: 0,
            session_id,
            protocol_version: FEDERATE_PROTOCOL_VERSION,
        }
    }

    fn connect(&mut self, ctx: SessionContext) -> Client {
        let connection = self.next_connection;
        self.next_connection += 1;
        let heartbeat = self.node.session_opened(ctx.session_id, connection);
        Client { ctx, next_outbound: 1, heartbeat }
    }

    fn try_open(&mut self) -> Result<Client, Limit> {
        let candidate = self.node.accept_connection(LOCALHOST)?;
        let first = Hub::opening(MessageType::CtrlNewSession, NO_SESSION_ID);
        match self.node.open_session(candidate, &first, self.now) {
            Opening::Opened { reply, ctx } => {
                assert_eq!(
                    reply.header,
                    FrameHeader {
                        sequence_number: None,
                        session_id: candidate,
                        last_received_sequence_number: Some(0),
                        message_type: MessageType::CtrlNewSessionStatus,
                    }
                );
                assert!(matches!(reply.payload, FramePayload::Status(StatusReason::Success)));
                Ok(self.connect(ctx))
            },
            other => panic!("expected an open session, got {other:?}"),
        }
    }

    fn open(&mut self) -> Client {
        match self.try_open() {
            Ok(client) => client,
            Err(limit) => panic!("refused by {}", limit.name()),
        }
    }

    fn event(
        &mut self,
        client: &mut Client,
        event: SessionEvent,
        outside: &Outside,
    ) -> (Option<Frame>, bool) {
        let step = self.node.session_step(&mut client.ctx, &event, outside);
        self.file = step.file;
        self.deliver(step.callbacks);
        (step.reply, step.close)
    }

    fn deliver(&mut self, callbacks: Outbox) {
        for callback in callbacks.into_vec() {
            let number = self.next_callback;
            self.next_callback += 1;
            self.frames.push(callback.into_frame(number));
        }
    }

    fn control(&mut self, client: &mut Client, message_type: MessageType) -> (Option<Frame>, bool) {
        let frame = InboundFrame { message_type, sequence_number: 1, call: Ok(None) };
        self.event(client, SessionEvent::Inbound(frame), &nothing_outside())
    }

    fn call_with(
        &mut self,
        client: &mut Client,
        request: CallRequest,
        outside: &Outside,
    ) -> CallResponse {
        let number = client.next_outbound;
        client.next_outbound += 1;
        let frame = InboundFrame {
            message_type: MessageType::HlaCallRequest,
            sequence_number: number,
            call: Ok(Some(request)),
        };
        let (reply, close) = self.event(client, SessionEvent::Inbound(frame), outside);
        assert!(!close);
        let reply = reply.expect("no response");
        assert_eq!(
            reply.header,
            FrameHeader {
                sequence_number: None,
                session_id: client.ctx.session_id,
                last_received_sequence_number: Some(number),
                message_type: MessageType::HlaCallResponse,
            }
        );
        match reply.payload {
            FramePayload::Response { response_to_sequence_number, response } => {
                assert_eq!(response_to_sequence_number, number);
                response
            },
            other => panic!("expected a response, got {other:?}"),
        }
    }

    fn call(&mut self, client: &mut Client, request: CallRequest) -> CallResponse {
        self.call_with(client, request, &nothing_outside())
    }

    /// The connection of a client is lost.
    fn drop_client(&mut self, client: Client) {
        let window = client.heartbeat.reconnect_window;
        let callbacks = self.node.close_session(&client.ctx, window, self.now);
        self.deliver(callbacks);
        self.node.release_connection(LOCALHOST);
    }

    fn callbacks(&mut self, client: &Client) -> Vec<Arc<CallbackRequest>> {
        let mut mine = Vec::new();
        let mut others = Vec::new();
        for frame in self.frames.drain(..) {
            if frame.header.session_id == client.ctx.session_id {
                assert_eq!(frame.header.message_type, MessageType::HlaCallbackRequest);
                match frame.payload {
                    FramePayload::Callback(c) => mine.push(c),
                    other => panic!("expected a callback, got {other:?}"),
                }
            } else {
                others.push(frame);
            }
        }
        self.frames = others;
        mine
    }

    fn callback(&mut self, client: &Client) -> Arc<CallbackRequest> {
        let mut all = self.callbacks(client);
        assert_eq!(all.len(), 1, "{all:?}");
        all.remove(0)
    }

    fn create(&mut self, client: &mut Client, name: &str) -> CallResponse {
        self.call(
            client,
            CallRequest::CreateFederationExecution {
                create_form: CreateForm::Plain,
                federation_name: name.to_string(),
                fom_modules: Vec::new(),
                mim_module: None,
            },
        )
    }

    fn join(&mut self, client: &mut Client, name: &str) -> CallResponse {
        self.call(
            client,
            CallRequest::JoinFederationExecution {
                join_form: JoinForm::Plain,
                federation_name: name.to_string(),
            },
        )
    }

    fn join_named(&mut self, client: &mut Client, name: &str, federate: &str) -> CallResponse {
        self.call(
            client,
            CallRequest::JoinFederationExecution {
                join_form: JoinForm::WithName(federate.to_string()),
                federation_name: name.to_string(),
            },
        )
    }

    /// Opens a session and joins a federation, which is created where it does not
    /// exist.
    fn member(&mut self, name: &str) -> Client {
        let mut client = self.open();
        let _ = self.create(&mut client, name);
        joined(self.join(&mut client, name));
        client
    }

    fn federation(&self, name: &str) -> &Federation {
        let id = self.node.find_federation(name).expect("no such federation");
        self.node.federations.get(id).expect("no such federation")
    }

    fn drink_and_cups(&mut self, client: &mut Client) -> (Vec<u8>, Vec<u8>) {
        let drink = handle(self.call(
            client,
            CallRequest::GetObjectClassHandle {
                object_class_name: "HLAobjectRoot.Food.Drink".to_string(),
            },
        ));
        let cups = handle(self.call(
            client,
            CallRequest::GetAttributeHandle {
                object_class: Some(drink.clone()),
                attribute_name: "NumberCups".to_string(),
            },
        ));
        (drink, cups)
    }

    fn food_served(&mut self, client: &mut Client) -> (Vec<u8>, Vec<u8>) {
        let served = handle(self.call(
            client,
            CallRequest::GetInteractionClassHandle {
                interaction_class_name: "HLAinteractionRoot.FoodServed".to_string(),
            },
        ));
        let food_type = handle(self.call(
            client,
            CallRequest::GetParameterHandle {
                interaction_class: Some(served.clone()),
                parameter_name: "FoodType".to_string(),
            },
        ));
        (served, food_type)
    }

    fn subscribe(&mut self, client: &mut Client, object_class: &[u8], attributes: &[&[u8]]) {
        let r = self.call(
            client,
            CallRequest::SubscribeObjectClassAttributes {
                subscribe_form: SubscribeForm::Plain,
                object_class: Some(object_class.to_vec()),
                attributes: Some(attributes.iter().map(|a| a.to_vec()).collect()),
            },
        );
        assert_eq!(done(r), Service::SubscribeObjectClassAttributes);
    }

    fn publish(&mut self, client: &mut Client, object_class: &[u8], attributes: &[&[u8]]) {
        let r = self.call(
            client,
            CallRequest::PublishObjectClassAttributes {
                object_class: Some(object_class.to_vec()),
                attributes: Some(attributes.iter().map(|a| a.to_vec()).collect()),
            },
        );
        assert_eq!(done(r), Service::PublishObjectClassAttributes);
    }

    fn register(&mut self, client: &mut Client, object_class: &[u8]) -> Vec<u8> {
        handle(self.call(
            client,
            CallRequest::RegisterObjectInstance { object_class: Some(object_class.to_vec()) },
        ))
    }

    fn update(
        &mut self,
        client: &mut Client,
        instance: &[u8],
        attribute: &[u8],
        value: &[u8],
        tag: &[u8],
    ) -> CallResponse {
        self.call(
            client,
            CallRequest::UpdateAttributeValues {
                object_instance: Some(instance.to_vec()),
                attribute_values: Some(vec![value_of(attribute, value)]),
                user_supplied_tag: tag.to_vec(),
            },
        )
    }

    fn regulate(&mut self, client: &mut Client, lookahead: f64) -> CallResponse {
        self.call(client, CallRequest::EnableTimeRegulation { lookahead: Some(stamp(lookahead)) })
    }

    fn constrain(&mut self, client: &mut Client) -> CallResponse {
        self.call(client, CallRequest::EnableTimeConstrained)
    }

    fn advance(&mut self, client: &mut Client, time: f64) -> CallResponse {
        self.call(
            client,
            CallRequest::TimeAdvance {
                advance_form: AdvanceForm::TimeAdvanceRequest,
                time: Some(stamp(time)),
            },
        )
    }
}

fn value_of(handle: &[u8], value: &[u8]) -> HandleValueField {
    HandleValueField { handle: Some(handle.to_vec()), value: value.to_vec() }
}

fn stamp(t: f64) -> Vec<u8> {
    t.to_be_bytes().to_vec()
}

fn time_in(b: &[u8]) -> f64 {
    f64::from_be_bytes(b.try_into().expect("a time stamp has eight bytes"))
}

fn number32(b: &[u8]) -> u32 {
    u32::from_be_bytes(b.try_into().expect("a short handle has four bytes"))
}

fn number64(b: &[u8]) -> u64 {
    u64::from_be_bytes(b.try_into().expect("a long handle has eight bytes"))
}

fn done(r: CallResponse) -> Service {
    match r {
        CallResponse::Reply { service, payload: Payload::Empty } => service,
        other => panic!("expected an empty reply, got {other:?}"),
    }
}

fn handle(r: CallResponse) -> Vec<u8> {
    match r {
        CallResponse::Reply { payload: Payload::Handle(h), .. } => h,
        other => panic!("expected a handle, got {other:?}"),
    }
}

fn handles(r: CallResponse) -> Vec<Vec<u8>> {
    match r {
        CallResponse::Reply { payload: Payload::Handles(l), .. } => l,
        other => panic!("expected handles, got {other:?}"),
    }
}

fn text(r: CallResponse) -> String {
    match r {
        CallResponse::Reply { payload: Payload::Text(s), .. } => s,
        other => panic!("expected a text, got {other:?}"),
    }
}

fn flag(r: CallResponse) -> bool {
    match r {
        CallResponse::Reply { payload: Payload::Flag(b), .. } => b,
        other => panic!("expected a flag, got {other:?}"),
    }
}

fn joined(r: CallResponse) -> (Vec<u8>, String) {
    match r {
        CallResponse::Reply {
            service: Service::JoinFederationExecution(_),
            payload: Payload::Joined { federate_handle, logical_time_implementation_name },
        } => (federate_handle, logical_time_implementation_name),
        other => panic!("expected a join, got {other:?}"),
    }
}

fn refused(r: CallResponse) -> ExceptionData {
    match r {
        CallResponse::Exception(e) => e,
        other => panic!("expected an exception, got {other:?}"),
    }
}

fn details(e: &ExceptionData) -> &str {
    match &e.details {
        Details::Text(s) => s.as_str(),
        other => panic!("expected a text, got {other:?}"),
    }
}

#[test]
fn publisher_to_subscriber_object_update() {
    let mut hub = Hub::new();

    let mut b = hub.member("feda");
    let (drink, cups) = hub.drink_and_cups(&mut b);
    hub.subscribe(&mut b, &drink, &[&cups]);

    let mut a = hub.member("feda");
    let (drink_a, cups_a) = hub.drink_and_cups(&mut a);
    assert_eq!(drink, drink_a);
    assert_eq!(cups, cups_a);
    hub.publish(&mut a, &drink_a, &[&cups_a]);
    let instance = hub.register(&mut a, &drink_a);
    let r = hub.update(&mut a, &instance, &cups_a, &42i32.to_be_bytes(), b"first-pour");
    assert_eq!(done(r), Service::UpdateAttributeValues);

    let received = hub.callbacks(&b);
    assert_eq!(received.len(), 2);
    match &*received[0] {
        CallbackRequest::DiscoverObjectInstance { object_instance, object_class, .. } => {
            assert_eq!(object_instance, &instance);
            assert_eq!(object_class, &drink);
        },
        other => panic!("expected a discovery, got {other:?}"),
    }
    match &*received[1] {
        CallbackRequest::ReflectAttributeValues { attribute_values, user_supplied_tag, .. } => {
            assert_eq!(attribute_values.len(), 1);
            assert_eq!(attribute_values[0].handle, cups);
            assert_eq!(attribute_values[0].value, 42i32.to_be_bytes());
            assert_eq!(user_supplied_tag, b"first-pour");
        },
        other => panic!("expected values, got {other:?}"),
    }
}

#[test]
fn publisher_to_subscriber_interaction() {
    let mut hub = Hub::new();

    let mut b = hub.member("fedi");
    let (served, food_type) = hub.food_served(&mut b);
    let r = hub.call(
        &mut b,
        CallRequest::SubscribeInteractionClass {
            passively: false,
            interaction_class: Some(served.clone()),
        },
    );
    assert_eq!(done(r), Service::SubscribeInteractionClass);

    let mut a = hub.member("fedi");
    let (served_a, food_type_a) = hub.food_served(&mut a);
    let r = hub.call(
        &mut a,
        CallRequest::PublishInteractionClass { interaction_class: Some(served_a.clone()) },
    );
    assert_eq!(done(r), Service::PublishInteractionClass);
    let r = hub.call(
        &mut a,
        CallRequest::SendInteraction {
            with_regions: false,
            interaction_class: Some(served_a),
            parameter_values: Some(vec![value_of(&food_type_a, b"ramen")]),
            user_supplied_tag: b"order-1".to_vec(),
        },
    );
    assert_eq!(done(r), Service::SendInteraction);

    match &*hub.callback(&b) {
        CallbackRequest::ReceiveInteraction {
            interaction_class,
            parameter_values,
            user_supplied_tag,
            ..
        } => {
            assert_eq!(interaction_class, &served);
            assert_eq!(parameter_values.len(), 1);
            assert_eq!(parameter_values[0].value, b"ramen");
            assert_eq!(parameter_values[0].handle, food_type);
            assert_eq!(user_supplied_tag, b"order-1");
        },
        other => panic!("expected an interaction, got {other:?}"),
    }
}

#[test]
fn delete_object_instance_fires_remove_callback() {
    let mut hub = Hub::new();

    let mut b = hub.member("feddel");
    let (drink, cups) = hub.drink_and_cups(&mut b);
    hub.subscribe(&mut b, &drink, &[&cups]);

    let mut a = hub.member("feddel");
    let (drink_a, cups_a) = hub.drink_and_cups(&mut a);
    hub.publish(&mut a, &drink_a, &[&cups_a]);
    let instance = hub.register(&mut a, &drink_a);
    assert!(matches!(&*hub.callback(&b), CallbackRequest::DiscoverObjectInstance { .. }));

    let r = hub.call(
        &mut a,
        CallRequest::DeleteObjectInstance {
            object_instance: Some(instance.clone()),
            user_supplied_tag: b"closing-time".to_vec(),
        },
    );
    assert_eq!(done(r), Service::DeleteObjectInstance);
    match &*hub.callback(&b) {
        CallbackRequest::RemoveObjectInstance { object_instance, user_supplied_tag, .. } => {
            assert_eq!(object_instance, &instance);
            assert_eq!(user_supplied_tag, b"closing-time");
        },
        other => panic!("expected a removal, got {other:?}"),
    }
}

#[test]
fn producer_does_not_receive_own_callback() {
    let mut hub = Hub::new();

    let mut a = hub.member("fedself");
    let (drink, cups) = hub.drink_and_cups(&mut a);
    hub.subscribe(&mut a, &drink, &[&cups]);
    hub.publish(&mut a, &drink, &[&cups]);
    let instance = hub.register(&mut a, &drink);
    let r = hub.update(&mut a, &instance, &cups, &1i32.to_be_bytes(), b"self-test");
    assert_eq!(done(r), Service::UpdateAttributeValues);
    assert!(hub.callbacks(&a).is_empty());
}

#[test]
fn an_instance_is_discovered_only_once() {
    let mut hub = Hub::new();
    let mut b = hub.member("once");
    let (drink, cups) = hub.drink_and_cups(&mut b);
    hub.subscribe(&mut b, &drink, &[&cups]);
    let mut a = hub.member("once");
    hub.publish(&mut a, &drink, &[&cups]);
    let instance = hub.register(&mut a, &drink);
    for n in 0..3i32 {
        done(hub.update(&mut a, &instance, &cups, &n.to_be_bytes(), b""));
    }
    let received = hub.callbacks(&b);
    assert_eq!(received.len(), 4);
    assert!(matches!(&*received[0], CallbackRequest::DiscoverObjectInstance { .. }));
    for n in 0..3usize {
        match &*received[n + 1] {
            CallbackRequest::ReflectAttributeValues { attribute_values, .. } => {
                assert_eq!(attribute_values[0].value, (n as i32).to_be_bytes());
            },
            other => panic!("expected values, got {other:?}"),
        }
    }
}

#[test]
fn a_late_subscriber_learns_of_the_instance_with_the_first_update() {
    let mut hub = Hub::new();
    let mut a = hub.member("late");
    let (drink, cups) = hub.drink_and_cups(&mut a);
    hub.publish(&mut a, &drink, &[&cups]);
    let instance = hub.register(&mut a, &drink);
    let mut b = hub.member("late");
    hub.subscribe(&mut b, &drink, &[&cups]);
    assert!(hub.callbacks(&b).is_empty());
    done(hub.update(&mut a, &instance, &cups, b"1", b""));
    let received = hub.callbacks(&b);
    assert_eq!(received.len(), 2);
    match &*received[0] {
        CallbackRequest::DiscoverObjectInstance {
            object_instance_name,
            producing_federate,
            ..
        } => {
            assert_eq!(object_instance_name, "HLA1");
            assert_eq!(number32(producing_federate), 1);
        },
        other => panic!("expected a discovery, got {other:?}"),
    }
    assert!(matches!(&*received[1], CallbackRequest::ReflectAttributeValues { .. }));
}

#[test]
fn updates_of_foreign_or_unknown_instances_are_refused() {
    let mut hub = Hub::new();
    let mut a = hub.member("own");
    let (drink, cups) = hub.drink_and_cups(&mut a);
    hub.publish(&mut a, &drink, &[&cups]);
    let instance = hub.register(&mut a, &drink);
    let mut b = hub.member("own");

    let e = refused(hub.update(&mut b, &instance, &cups, b"1", b""));
    assert_eq!(e.exception, HlaException::AttributeNotOwned);
    assert_eq!(details(&e), "");
    let e = refused(hub.update(&mut a, &9u64.to_be_bytes(), &cups, b"1", b""));
    assert_eq!(e.exception, HlaException::ObjectInstanceNotKnown);
    let e = refused(hub.call(
        &mut a,
        CallRequest::UpdateAttributeValues {
            object_instance: None,
            attribute_values: None,
            user_supplied_tag: Vec::new(),
        },
    ));
    assert_eq!(e.exception, HlaException::ObjectInstanceNotKnown);
    assert_eq!(details(&e), "missing handle");
    let e = refused(hub.update(&mut a, &instance, b"xy", b"1", b""));
    assert_eq!(e.exception, HlaException::InvalidAttributeHandle);
}

#[test]
fn only_the_registrar_deletes() {
    let mut hub = Hub::new();
    let mut a = hub.member("del");
    let (drink, cups) = hub.drink_and_cups(&mut a);
    hub.publish(&mut a, &drink, &[&cups]);
    let instance = hub.register(&mut a, &drink);
    let mut b = hub.member("del");
    let e = refused(hub.call(
        &mut b,
        CallRequest::DeleteObjectInstance {
            object_instance: Some(instance.clone()),
            user_supplied_tag: Vec::new(),
        },
    ));
    assert_eq!(e.exception, HlaException::DeletePrivilegeNotHeld);
    assert_eq!(hub.federation("del").object_instances.len(), 1);
    done(hub.call(
        &mut a,
        CallRequest::DeleteObjectInstance {
            object_instance: Some(instance),
            user_supplied_tag: Vec::new(),
        },
    ));
    assert_eq!(hub.federation("del").object_instances.len(), 0);
}

#[test]
fn interactions_need_a_publication() {
    let mut hub = Hub::new();
    let mut a = hub.member("ix");
    let (served, food_type) = hub.food_served(&mut a);
    let e = refused(hub.call(
        &mut a,
        CallRequest::SendInteraction {
            with_regions: false,
            interaction_class: Some(served),
            parameter_values: Some(vec![value_of(&food_type, b"x")]),
            user_supplied_tag: Vec::new(),
        },
    ));
    assert_eq!(e.exception, HlaException::InteractionClassNotPublished);
}

#[test]
fn all_recipients_share_one_callback() {
    let mut hub = Hub::new();
    let mut b = hub.member("shared");
    let (drink, cups) = hub.drink_and_cups(&mut b);
    hub.subscribe(&mut b, &drink, &[&cups]);
    let mut c = hub.member("shared");
    hub.subscribe(&mut c, &drink, &[&cups]);
    let mut a = hub.member("shared");
    hub.publish(&mut a, &drink, &[&cups]);
    hub.register(&mut a, &drink);
    let to_b = hub.callback(&b);
    let to_c = hub.callback(&c);
    assert!(Arc::ptr_eq(&to_b, &to_c));
}

#[test]
fn directed_interactions_reach_the_owner_side_subscribers() {
    let mut hub = Hub::new();
    let mut b = hub.member("directed");
    let (drink, cups) = hub.drink_and_cups(&mut b);
    let (served, food_type) = hub.food_served(&mut b);
    hub.publish(&mut b, &drink, &[&cups]);
    let instance = hub.register(&mut b, &drink);
    done(hub.call(
        &mut b,
        CallRequest::SubscribeObjectClassDirectedInteractions {
            universally: false,
            object_class: Some(drink.clone()),
            interaction_classes: Some(vec![served.clone()]),
        },
    ));
    let mut a = hub.member("directed");
    done(hub.call(
        &mut a,
        CallRequest::PublishObjectClassDirectedInteractions {
            object_class: Some(drink.clone()),
            interaction_classes: Some(vec![served.clone()]),
        },
    ));
    let r = hub.call(
        &mut a,
        CallRequest::SendDirectedInteraction {
            interaction_class: Some(served.clone()),
            object_instance: Some(instance.clone()),
            parameter_values: Some(vec![value_of(&food_type, b"tea")]),
            user_supplied_tag: b"t".to_vec(),
        },
    );
    assert_eq!(done(r), Service::SendDirectedInteraction);
    match &*hub.callback(&b) {
        CallbackRequest::ReceiveDirectedInteraction {
            interaction_class,
            object_instance,
            parameter_values,
            ..
        } => {
            assert_eq!(interaction_class, &served);
            assert_eq!(object_instance, &instance);
            assert_eq!(parameter_values[0].value, b"tea");
        },
        other => panic!("expected a directed interaction, got {other:?}"),
    }
    assert!(hub.callbacks(&a).is_empty());
}

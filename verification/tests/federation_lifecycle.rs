//! Creating, listing and destroying federations.

#![allow(dead_code, unused_imports)]

use hla_rti::callbacks::CallbackRequest;
use hla_rti::dispatch::calls::Outside;
use hla_rti::dispatch::federation_mgmt::ModuleLoad;
use hla_rti::dispatch::restore::SnapshotLoad;
use hla_rti::dispatch::save::SnapshotFile;
use hla_rti::exception::{Details, ExceptionData};
use hla_rti::fom::{ClassDef, DimensionDef, MemberDef, MergedFom};
use hla_rti::frames::{
    Frame, FrameHeader, FramePayload, MessageType, StatusReason, FEDERATE_PROTOCOL_VERSION,
    NO_SESSION_ID,
};
use hla_rti::messages::{
    AdvanceForm, CallRequest, CallResponse, CreateForm, FomModule, HandleValueField, JoinForm,
    PassiveService, Payload, Service, SubscribeForm,
};
use hla_rti::node::Limit;
use hla_rti::routing::Outbox;
use hla_rti::session::SessionContext;
use hla_rti::sessions::{InboundFrame, Opening, OpeningFrame, SessionEvent};
use hla_rti::{Federation, HeartbeatConfig, HlaException, RtiNode, SECOND};
use std::sync::Arc;

const LOCALHOST: (u8, u128) = (4, 0x7f00_0001);
const MILLISECOND: u128 = SECOND / 1000;

/// A node, the frames that are on their way to its clients, and its clock.
struct Hub {
    node: RtiNode,
    now: u128,
    next_connection: u64,
    next_callback: i32,
    frames: Vec<Frame>,
    file: Option<SnapshotFile>,
}

/// A client with an open session.
struct Client {
    ctx: SessionContext,
    next_outbound: i32,
    heartbeat: HeartbeatConfig,
}

fn class(handle: u32, name: &str, parent: Option<&str>, members: &[&str]) -> ClassDef {
    ClassDef {
        handle,
        name: name.to_string(),
        parent: parent.map(|p| p.to_string()),
        members: members.iter().map(|m| m.to_string()).collect(),
    }
}

fn member(class: u32, name: &str, handle: u32) -> MemberDef {
    MemberDef { class, name: name.to_string(), handle }
}

/// Food with a color, drinks with a number of cups, an announcement of what is
/// served, and two dimensions.
fn sushi() -> MergedFom {
    MergedFom {
        object_classes: vec![
            class(1, "HLAobjectRoot", None, &[]),
            class(2, "HLAobjectRoot.Food", Some("HLAobjectRoot"), &["Color"]),
            class(3, "HLAobjectRoot.Food.Drink", Some("HLAobjectRoot.Food"), &["NumberCups"]),
        ],
        attributes: vec![member(2, "Color", 1), member(3, "NumberCups", 2)],
        interaction_classes: vec![
            class(1, "HLAinteractionRoot", None, &[]),
            class(
                2,
                "HLAinteractionRoot.FoodServed",
                Some("HLAinteractionRoot"),
                &["FoodType"],
            ),
        ],
        parameters: vec![member(2, "FoodType", 1)],
        dimensions: vec![
            DimensionDef { name: "BarQuantity".to_string(), handle: 1 },
            DimensionDef { name: "WaiterId".to_string(), handle: 2 },
        ],
    }
}

fn nothing_outside() -> Outside {
    Outside {
        modules: ModuleLoad { faults: Vec::new(), merged: Ok(Arc::new(MergedFom::new())) },
        snapshot: SnapshotLoad::NotFound,
    }
}

impl Hub {
    fn new() -> Hub {
        let mut node = RtiNode::new();
        node.set_default_fom(sushi());
        Hub {
            node,
            now: 1000 * SECOND,
            next_connection: 1,
            next_callback: 0,
            frames: Vec::new(),
            file: None,
        }
    }

    fn opening(message_type: MessageType, session_id: u64) -> OpeningFrame {
        OpeningFrame {
            message_type,
            sequence_number: 0,
            session_id,
            protocol_version: FEDERATE_PROTOCOL_VERSION,
        }
    }

    fn connect(&mut self, ctx: SessionContext) -> Client {
        let connection = self.next_connection;
        self.next_connection += 1;
        let heartbeat = self.node.session_opened(ctx.session_id, connection);
        Client { ctx, next_outbound: 1, heartbeat }
    }

    fn try_open(&mut self) -> Result<Client, Limit> {
        let candidate = self.node.accept_connection(LOCALHOST)?;
        let first = Hub::opening(MessageType::CtrlNewSession, NO_SESSION_ID);
        match self.node.open_session(candidate, &first, self.now) {
            Opening::Opened { reply, ctx } => {
                assert_eq!(
                    reply.header,
                    FrameHeader {
                        sequence_number: None,
                        session_id: candidate,
                        last_received_sequence_number: Some(0),
                        message_type: MessageType::CtrlNewSessionStatus,
                    }
                );
                assert!(matches!(reply.payload, FramePayload::Status(StatusReason::Success)));
                Ok(self.connect(ctx))
            },
            other => panic!("expected an open session, got {other:?}"),
        }
    }

    fn open(&mut self) -> Client {
        match self.try_open() {
            Ok(client) => client,
            Err(limit) => panic!("refused by {}", limit.name()),
        }
    }

    fn event(
        &mut self,
        client: &mut Client,
        event: SessionEvent,
        outside: &Outside,
    ) -> (Option<Frame>, bool) {
        let step = self.node.session_step(&mut client.ctx, &event, outside);
        self.file = step.file;
        self.deliver(step.callbacks);
        (step.reply, step.close)
    }

    fn deliver(&mut self, callbacks: Outbox) {
        for callback in callbacks.into_vec() {
            let number = self.next_callback;
            self.next_callback += 1;
            self.frames.push(callback.into_frame(number));
        }
    }

    fn control(&mut self, client: &mut Client, message_type: MessageType) -> (Option<Frame>, bool) {
        let frame = InboundFrame { message_type, sequence_number: 1, call: Ok(None) };
        self.event(client, SessionEvent::Inbound(frame), &nothing_outside())
    }

    fn call_with(
        &mut self,
        client: &mut Client,
        request: CallRequest,
        outside: &Outside,
    ) -> CallResponse {
        let number = client.next_outbound;
        client.next_outbound += 1;
        let frame = InboundFrame {
            message_type: MessageType::HlaCallRequest,
            sequence_number: number,
            call: Ok(Some(request)),
        };
        let (reply, close) = self.event(client, SessionEvent::Inbound(frame), outside);
        assert!(!close);
        let reply = reply.expect("no response");
        assert_eq!(
            reply.header,
            FrameHeader {
                sequence_number: None,
                session_id: client.ctx.session_id,
                last_received_sequence_number: Some(number),
                message_type: MessageType::HlaCallResponse,
            }
        );
        match reply.payload {
            FramePayload::Response { response_to_sequence_number, response } => {
                assert_eq!(response_to_sequence_number, number);
                response
            },
            other => panic!("expected a response, got {other:?}"),
        }
    }

    fn call(&mut self, client: &mut Client, request: CallRequest) -> CallResponse {
        self.call_with(client, request, &nothing_outside())
    }

    /// The connection of a client is lost.
    fn drop_client(&mut self, client: Client) {
        let window = client.heartbeat.reconnect_window;
        let callbacks = self.node.close_session(&client.ctx, window, self.now);
        self.deliver(callbacks);
        self.node.release_connection(LOCALHOST);
    }

    fn callbacks(&mut self, client: &Client) -> Vec<Arc<CallbackRequest>> {
        let mut mine = Vec::new();
        let mut others = Vec::new();
        for frame in self.frames.drain(..) {
            if frame.header.session_id == client.ctx.session_id {
                assert_eq!(frame.header.message_type, MessageType::HlaCallbackRequest);
                match frame.payload {
                    FramePayload::Callback(c) => mine.push(c),
                    other => panic!("expected a callback, got {other:?}"),
                }
            } else {
                others.push(frame);
            }
        }
        self.frames = others;
        mine
    }

    fn callback(&mut self, client: &Client) -> Arc<CallbackRequest> {
        let mut all = self.callbacks(client);
        assert_eq!(all.len(), 1, "{all:?}");
        all.remove(0)
    }

    fn create(&mut self, client: &mut Client, name: &str) -> CallResponse {
        self.call(
            client,
            CallRequest::CreateFederationExecution {
                create_form: CreateForm::Plain,
                federation_name: name.to_string(),
                fom_modules: Vec::new(),
                mim_module: None,
            },
        )
    }

    fn join(&mut self, client: &mut Client, name: &str) -> CallResponse {
        self.call(
            client,
            CallRequest::JoinFederationExecution {
                join_form: JoinForm::Plain,
                federation_name: name.to_string(),
            },
        )
    }

    fn join_named(&mut self, client: &mut Client, name: &str, federate: &str) -> CallResponse {
        self.call(
            client,
            CallRequest::JoinFederationExecution {
                join_form: JoinForm::WithName(federate.to_string()),
                federation_name: name.to_string(),
            },
        )
    }

    /// Opens a session and joins a federation, which is created where it does not
    /// exist.
    fn member(&mut self, name: &str) -> Client {
        let mut client = self.open();
        let _ = self.create(&mut client, name);
        joined(self.join(&mut client, name));
        client
    }

    fn federation(&self, name: &str) -> &Federation {
        let id = self.node.find_federation(name).expect("no such federation");
        self.node.federations.get(id).expect("no such federation")
    }

    fn drink_and_cups(&mut self, client: &mut Client) -> (Vec<u8>, Vec<u8>) {
        let drink = handle(self.call(
            client,
            CallRequest::GetObjectClassHandle {
                object_class_name: "HLAobjectRoot.Food.Drink".to_string(),
            },
        ));
        let cups = handle(self.call(
            client,
            CallRequest::GetAttributeHandle {
                object_class: Some(drink.clone()),
                attribute_name: "NumberCups".to_string(),
            },
        ));
        (drink, cups)
    }

    fn food_served(&mut self, client: &mut Client) -> (Vec<u8>, Vec<u8>) {
        let served = handle(self.call(
            client,
            CallRequest::GetInteractionClassHandle {
                interaction_class_name: "HLAinteractionRoot.FoodServed".to_string(),
            },
        ));
        let food_type = handle(self.call(
            client,
            CallRequest::GetParameterHandle {
                interaction_class: Some(served.clone()),
                parameter_name: "FoodType".to_string(),
            },
        ));
        (served, food_type)
    }

    fn subscribe(&mut self, client: &mut Client, object_class: &[u8], attributes: &[&[u8]]) {
        let r = self.call(
            client,
            CallRequest::SubscribeObjectClassAttributes {
                subscribe_form: SubscribeForm::Plain,
                object_class: Some(object_class.to_vec()),
                attributes: Some(attributes.iter().map(|a| a.to_vec()).collect()),
            },
        );
        assert_eq!(done(r), Service::SubscribeObjectClassAttributes);
    }

    fn publish(&mut self, client: &mut Client, object_class: &[u8], attributes: &[&[u8]]) {
        let r = self.call(
            client,
            CallRequest::PublishObjectClassAttributes {
                object_class: Some(object_class.to_vec()),
                attributes: Some(attributes.iter().map(|a| a.to_vec()).collect()),
            },
        );
        assert_eq!(done(r), Service::PublishObjectClassAttributes);
    }

    fn register(&mut self, client: &mut Client, object_class: &[u8]) -> Vec<u8> {
        handle(self.call(
            client,
            CallRequest::RegisterObjectInstance { object_class: Some(object_class.to_vec()) },
        ))
    }

    fn update(
        &mut self,
        client: &mut Client,
        instance: &[u8],
        attribute: &[u8],
        value: &[u8],
        tag: &[u8],
    ) -> CallResponse {
        self.call(
            client,
            CallRequest::UpdateAttributeValues {
                object_instance: Some(instance.to_vec()),
                attribute_values: Some(vec![value_of(attribute, value)]),
                user_supplied_tag: tag.to_vec(),
            },
        )
    }

    fn regulate(&mut self, client: &mut Client, lookahead: f64) -> CallResponse {
        self.call(client, CallRequest::EnableTimeRegulation { lookahead: Some(stamp(lookahead)) })
    }

    fn constrain(&mut self, client: &mut Client) -> CallResponse {
        self.call(client, CallRequest::EnableTimeConstrained)
    }

    fn advance(&mut self, client: &mut Client, time: f64) -> CallResponse {
        self.call(
            client,
            CallRequest::TimeAdvance {
                advance_form: AdvanceForm::TimeAdvanceRequest,
                time: Some(stamp(time)),
            },
        )
    }
}

fn value_of(handle: &[u8], value: &[u8]) -> HandleValueField {
    HandleValueField { handle: Some(handle.to_vec()), value: value.to_vec() }
}

fn stamp(t: f64) -> Vec<u8> {
    t.to_be_bytes().to_vec()
}

fn time_in(b: &[u8]) -> f64 {
    f64::from_be_bytes(b.try_into().expect("a time stamp has eight bytes"))
}

fn number32(b: &[u8]) -> u32 {
    u32::from_be_bytes(b.try_into().expect("a short handle has four bytes"))
}

fn number64(b: &[u8]) -> u64 {
    u64::from_be_bytes(b.try_into().expect("a long handle has eight bytes"))
}

fn done(r: CallResponse) -> Service {
    match r {
        CallResponse::Reply { service, payload: Payload::Empty } => service,
        other => panic!("expected an empty reply, got {other:?}"),
    }
}

fn handle(r: CallResponse) -> Vec<u8> {
    match r {
        CallResponse::Reply { payload: Payload::Handle(h), .. } => h,
        other => panic!("expected a handle, got {other:?}"),
    }
}

fn handles(r: CallResponse) -> Vec<Vec<u8>> {
    match r {
        CallResponse::Reply { payload: Payload::Handles(l), .. } => l,
        other => panic!("expected handles, got {other:?}"),
    }
}

fn text(r: CallResponse) -> String {
    match r {
        CallResponse::Reply { payload: Payload::Text(s), .. } => s,
        other => panic!("expected a text, got {other:?}"),
    }
}

fn flag(r: CallResponse) -> bool {
    match r {
        CallResponse::Reply { payload: Payload::Flag(b), .. } => b,
        other => panic!("expected a flag, got {other:?}"),
    }
}

fn joined(r: CallResponse) -> (Vec<u8>, String) {
    match r {
        CallResponse::Reply {
            service: Service::JoinFederationExecution(_),
            payload: Payload::Joined { federate_handle, logical_time_implementation_name },
        } => (federate_handle, logical_time_implementation_name),
        other => panic!("expected a join, got {other:?}"),
    }
}

fn refused(r: CallResponse) -> ExceptionData {
    match r {
        CallResponse::Exception(e) => e,
        other => panic!("expected an exception, got {other:?}"),
    }
}

fn details(e: &ExceptionData) -> &str {
    match &e.details {
        Details::Text(s) => s.as_str(),
        other => panic!("expected a text, got {other:?}"),
    }
}

#[test]
fn create_destroy_roundtrip() {
    let mut hub = Hub::new();
    let mut c = hub.open();
    let r = hub.create(&mut c, "lifecycle-test");
    assert_eq!(done(r), Service::CreateFederationExecution(CreateForm::Plain));
    let r = hub.call(
        &mut c,
        CallRequest::DestroyFederationExecution { federation_name: "lifecycle-test".to_string() },
    );
    assert_eq!(done(r), Service::DestroyFederationExecution);
}

#[test]
fn duplicate_create_returns_already_exists() {
    let mut hub = Hub::new();
    let mut c = hub.open();
    let r = hub.create(&mut c, "dup");
    assert_eq!(done(r), Service::CreateFederationExecution(CreateForm::Plain));
    let e = refused(hub.create(&mut c, "dup"));
    assert_eq!(e.exception_name(), "FederationExecutionAlreadyExists");
    assert_eq!(details(&e), "dup");
}

#[test]
fn destroy_unknown_federation_returns_does_not_exist() {
    let mut hub = Hub::new();
    let mut c = hub.open();
    let e = refused(hub.call(
        &mut c,
        CallRequest::DestroyFederationExecution { federation_name: "ghost".to_string() },
    ));
    assert_eq!(e.exception_name(), "FederationExecutionDoesNotExist");
}

#[test]
fn list_federation_executions_returns_ack() {
    let mut hub = Hub::new();
    let mut c = hub.open();
    let r = hub.call(&mut c, CallRequest::ListFederationExecutions);
    assert_eq!(done(r), Service::ListFederationExecutions);
}

#[test]
fn multiple_calls_in_one_session_increment_sequence() {
    let mut hub = Hub::new();
    let mut c = hub.open();
    for i in 0..5 {
        let r = hub.create(&mut c, &format!("multi-{i}"));
        assert_eq!(done(r), Service::CreateFederationExecution(CreateForm::Plain));
    }
    assert_eq!(c.next_outbound, 6);
}

#[test]
fn a_list_reports_every_federation_to_the_requester() {
    let mut hub = Hub::new();
    let mut c = hub.open();
    done(hub.create(&mut c, "one"));
    done(hub.create(&mut c, "two"));
    done(hub.call(&mut c, CallRequest::ListFederationExecutions));
    match &*hub.callback(&c) {
        CallbackRequest::ReportFederationExecutions { federations } => {
            let mut names: Vec<&str> =
                federations.iter().map(|f| f.federation_execution_name.as_str()).collect();
            names.sort();
            assert_eq!(names, ["one", "two"]);
            assert!(federations
                .iter()
                .all(|f| f.logical_time_implementation_name == "HLAfloat64Time"));
        },
        other => panic!("expected a report, got {other:?}"),
    }
}

#[test]
fn a_list_of_members_names_them() {
    let mut hub = Hub::new();
    let mut c = hub.open();
    done(hub.create(&mut c, "fed"));
    joined(hub.join_named(&mut c, "fed", "alice"));
    let r = hub.call(
        &mut c,
        CallRequest::ListFederationExecutionMembers { federation_name: "fed".to_string() },
    );
    assert_eq!(done(r), Service::ListFederationExecutionMembers);
    match &*hub.callback(&c) {
        CallbackRequest::ReportFederationExecutionMembers { federation_name, members } => {
            assert_eq!(federation_name, "fed");
            assert_eq!(members.len(), 1);
            assert_eq!(members[0].federate_name, "alice");
        },
        other => panic!("expected a report, got {other:?}"),
    }
    done(hub.call(
        &mut c,
        CallRequest::ListFederationExecutionMembers { federation_name: "none".to_string() },
    ));
    match &*hub.callback(&c) {
        CallbackRequest::ReportFederationExecutionDoesNotExist { federation_name } => {
            assert_eq!(federation_name, "none");
        },
        other => panic!("expected a report, got {other:?}"),
    }
}

fn create_with(fom_modules: Vec<FomModule>, mim_module: Option<FomModule>) -> CallRequest {
    CallRequest::CreateFederationExecution {
        create_form: CreateForm::WithModules,
        federation_name: "mod".to_string(),
        fom_modules,
        mim_module,
    }
}

#[test]
fn modules_make_the_model_of_the_federation() {
    let mut hub = Hub::new();
    let mut c = hub.open();
    let file = || FomModule::File { name: "a.xml".to_string(), content: b"<a/>".to_vec() };

    let outside = Outside {
        modules: ModuleLoad {
            faults: vec![Some("broken".to_string())],
            merged: Ok(Arc::new(MergedFom::new())),
        },
        snapshot: SnapshotLoad::NotFound,
    };
    let e = refused(hub.call_with(&mut c, create_with(vec![file()], None), &outside));
    assert_eq!(e.exception, HlaException::CouldNotOpenFdd);
    assert_eq!(details(&e), "broken");
    assert!(hub.node.find_federation("mod").is_none());

    let bytes = FomModule::File { name: "m.xml".to_string(), content: vec![b'a', 0xff] };
    let outside = Outside {
        modules: ModuleLoad { faults: vec![None], merged: Ok(Arc::new(MergedFom::new())) },
        snapshot: SnapshotLoad::NotFound,
    };
    let e = refused(hub.call_with(&mut c, create_with(vec![bytes], None), &outside));
    assert_eq!(e.exception, HlaException::CouldNotOpenFdd);
    assert_eq!(
        details(&e),
        "FOM module \"m.xml\" content is not UTF-8: \
         invalid utf-8 sequence of 1 bytes from index 1"
    );
    assert!(hub.node.find_federation("mod").is_none());

    let e = refused(hub.call(
        &mut c,
        create_with(vec![FomModule::CompressedModule(Vec::new())], None),
    ));
    assert_eq!(details(&e), "unsupported FOM module form");
    let e = refused(hub.call(&mut c, create_with(vec![FomModule::Url("u".to_string())], None)));
    assert_eq!(details(&e), "unsupported FOM module form");

    let mut fom = MergedFom::new();
    fom.object_classes.push(class(7, "HLAobjectRoot", None, &[]));
    let outside = Outside {
        modules: ModuleLoad { faults: vec![None], merged: Ok(Arc::new(fom)) },
        snapshot: SnapshotLoad::NotFound,
    };
    let r = hub.call_with(&mut c, create_with(vec![file()], None), &outside);
    assert_eq!(done(r), Service::CreateFederationExecution(CreateForm::WithModules));
    joined(hub.join(&mut c, "mod"));
    let root = handle(hub.call(
        &mut c,
        CallRequest::GetObjectClassHandle { object_class_name: "HLAobjectRoot".to_string() },
    ));
    assert_eq!(number32(&root), 7);
}

#[test]
fn passive_services_are_acknowledged_without_a_membership() {
    let mut hub = Hub::new();
    let mut c = hub.open();
    for service in [PassiveService::Connect, PassiveService::Disconnect, PassiveService::Retract] {
        let r = hub.call(&mut c, CallRequest::Passive { service });
        assert_eq!(done(r), Service::Passive(service));
    }
}

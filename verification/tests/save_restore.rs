//! Saving and restoring federations, and synchronization points.

#![allow(dead_code, unused_imports)]

use hla_rti::callbacks::CallbackRequest;
use hla_rti::dispatch::calls::Outside;
use hla_rti::dispatch::federation_mgmt::ModuleLoad;
use hla_rti::dispatch::restore::SnapshotLoad;
use hla_rti::dispatch::save::SnapshotFile;
use hla_rti::exception::{Details, ExceptionData};
use hla_rti::fom::{ClassDef, DimensionDef, MemberDef, MergedFom};
use hla_rti::frames::{
    Frame, FrameHeader, FramePayload, MessageType, StatusReason, FEDERATE_PROTOCOL_VERSION,
    NO_SESSION_ID,
};
use hla_rti::messages::{
    AdvanceForm, CallRequest, CallResponse, CreateForm, HandleValueField, JoinForm, Payload,
    Service, SubscribeForm,
};
use hla_rti::node::Limit;
use hla_rti::persistence::snapshot_path;
use hla_rti::routing::Outbox;
use hla_rti::session::SessionContext;
use hla_rti::sessions::{InboundFrame, Opening, OpeningFrame, SessionEvent};
use hla_rti::{Federation, HeartbeatConfig, HlaException, RtiNode, SECOND};
use std::sync::Arc;

const LOCALHOST: (u8, u128) = (4, 0x7f00_0001);
const MILLISECOND: u128 = SECOND / 1000;

/// A node, the frames that are on their way to its clients, and its clock.
struct Hub {
    node: RtiNode,
    now: u128,
    next_connection: u64,
    next_callback: i32,
    frames: Vec<Frame>,
    file: Option<SnapshotFile>,
}

/// A client with an open session.
struct Client {
    ctx: SessionContext,
    next_outbound: i32,
    heartbeat: HeartbeatConfig,
}

fn class(handle: u32, name: &str, parent: Option<&str>, members: &[&str]) -> ClassDef {
    ClassDef {
        handle,
        name: name.to_string(),
        parent: parent.map(|p| p.to_string()),
        members: members.iter().map(|m| m.to_string()).collect(),
    }
}

fn member(class: u32, name: &str, handle: u32) -> MemberDef {
    MemberDef { class, name: name.to_string(), handle }
}

/// Food with a color, drinks with a number of cups, an announcement of what is
/// served, and two dimensions.
fn sushi() -> MergedFom {
    MergedFom {
        object_classes: vec![
            class(1, "HLAobjectRoot", None, &[]),
            class(2, "HLAobjectRoot.Food", Some("HLAobjectRoot"), &["Color"]),
            class(3, "HLAobjectRoot.Food.Drink", Some("HLAobjectRoot.Food"), &["NumberCups"]),
        ],
        attributes: vec![member(2, "Color", 1), member(3, "NumberCups", 2)],
        interaction_classes: vec![
            class(1, "HLAinteractionRoot", None, &[]),
            class(
                2,
                "HLAinteractionRoot.FoodServed",
                Some("HLAinteractionRoot"),
                &["FoodType"],
            ),
        ],
        parameters: vec![member(2, "FoodType", 1)],
        dimensions: vec![
            DimensionDef { name: "BarQuantity".to_string(), handle: 1 },
            DimensionDef { name: "WaiterId".to_string(), handle: 2 },
        ],
    }
}

fn nothing_outside() -> Outside {
    Outside {
        modules: ModuleLoad { faults: Vec::new(), merged: Ok(Arc::new(MergedFom::new())) },
        snapshot: SnapshotLoad::NotFound,
    }
}

impl Hub {
    fn new() -> Hub {
        let mut node = RtiNode::new();
        node.set_default_fom(sushi());
        Hub {
            node,
            now: 1000 * SECOND,
            next_connection: 1,
            next_callback: 0,
            frames: Vec::new(),
            file: None,
        }
    }

    fn opening(message_type: MessageType, session_id: u64) -> OpeningFrame {
        OpeningFrame {
            message_type,
            sequence_number: 0,
            session_id,
            protocol_version: FEDERATE_PROTOCOL_VERSION,
        }
    }

    fn connect(&mut self, ctx: SessionContext) -> Client {
        let connection = self.next_connection;
        self.next_connection += 1;
        let heartbeat = self.node.session_opened(ctx.session_id, connection);
        Client { ctx, next_outbound: 1, heartbeat }
    }

    fn try_open(&mut self) -> Result<Client, Limit> {
        let candidate = self.node.accept_connection(LOCALHOST)?;
        let first = Hub::opening(MessageType::CtrlNewSession, NO_SESSION_ID);
        match self.node.open_session(candidate, &first, self.now) {
            Opening::Opened { reply, ctx } => {
                assert_eq!(
                    reply.header,
                    FrameHeader {
                        sequence_number: None,
                        session_id: candidate,
                        last_received_sequence_number: Some(0),
                        message_type: MessageType::CtrlNewSessionStatus,
                    }
                );
                assert!(matches!(reply.payload, FramePayload::Status(StatusReason::Success)));
                Ok(self.connect(ctx))
            },
            other => panic!("expected an open session, got {other:?}"),
        }
    }

    fn open(&mut self) -> Client {
        match self.try_open() {
            Ok(client) => client,
            Err(limit) => panic!("refused by {}", limit.name()),
        }
    }

    fn event(
        &mut self,
        client: &mut Client,
        event: SessionEvent,
        outside: &Outside,
    ) -> (Option<Frame>, bool) {
        let step = self.node.session_step(&mut client.ctx, &event, outside);
        self.file = step.file;
        self.deliver(step.callbacks);
        (step.reply, step.close)
    }

    fn deliver(&mut self, callbacks: Outbox) {
        for callback in callbacks.into_vec() {
            let number = self.next_callback;
            self.next_callback += 1;
            self.frames.push(callback.into_frame(number));
        }
    }

    fn control(&mut self, client: &mut Client, message_type: MessageType) -> (Option<Frame>, bool) {
        let frame = InboundFrame { message_type, sequence_number: 1, call: Ok(None) };
        self.event(client, SessionEvent::Inbound(frame), &nothing_outside())
    }

    fn call_with(
        &mut self,
        client: &mut Client,
        request: CallRequest,
        outside: &Outside,
    ) -> CallResponse {
        let number = client.next_outbound;
        client.next_outbound += 1;
        let frame = InboundFrame {
            message_type: MessageType::HlaCallRequest,
            sequence_number: number,
            call: Ok(Some(request)),
        };
        let (reply, close) = self.event(client, SessionEvent::Inbound(frame), outside);
        assert!(!close);
        let reply = reply.expect("no response");
        assert_eq!(
            reply.header,
            FrameHeader {
                sequence_number: None,
                session_id: client.ctx.session_id,
                last_received_sequence_number: Some(number),
                message_type: MessageType::HlaCallResponse,
            }
        );
        match reply.payload {
            FramePayload::Response { response_to_sequence_number, response } => {
                assert_eq!(response_to_sequence_number, number);
                response
            },
            other => panic!("expected a response, got {other:?}"),
        }
    }

    fn call(&mut self, client: &mut Client, request: CallRequest) -> CallResponse {
        self.call_with(client, request, &nothing_outside())
    }

    /// The connection of a client is lost.
    fn drop_client(&mut self, client: Client) {
        let window = client.heartbeat.reconnect_window;
        let callbacks = self.node.close_session(&client.ctx, window, self.now);
        self.deliver(callbacks);
        self.node.release_connection(LOCALHOST);
    }

    fn callbacks(&mut self, client: &Client) -> Vec<Arc<CallbackRequest>> {
        let mut mine = Vec::new();
        let mut others = Vec::new();
        for frame in self.frames.drain(..) {
            if frame.header.session_id == client.ctx.session_id {
                assert_eq!(frame.header.message_type, MessageType::HlaCallbackRequest);
                match frame.payload {
                    FramePayload::Callback(c) => mine.push(c),
                    other => panic!("expected a callback, got {other:?}"),
                }
            } else {
                others.push(frame);
            }
        }
        self.frames = others;
        mine
    }

    fn callback(&mut self, client: &Client) -> Arc<CallbackRequest> {
        let mut all = self.callbacks(client);
        assert_eq!(all.len(), 1, "{all:?}");
        all.remove(0)
    }

    fn create(&mut self, client: &mut Client, name: &str) -> CallResponse {
        self.call(
            client,
            CallRequest::CreateFederationExecution {
                create_form: CreateForm::Plain,
                federation_name: name.to_string(),
                fom_modules: Vec::new(),
                mim_module: None,
            },
        )
    }

    fn join(&mut self, client: &mut Client, name: &str) -> CallResponse {
        self.call(
            client,
            CallRequest::JoinFederationExecution {
                join_form: JoinForm::Plain,
                federation_name: name.to_string(),
            },
        )
    }

    fn join_named(&mut self, client: &mut Client, name: &str, federate: &str) -> CallResponse {
        self.call(
            client,
            CallRequest::JoinFederationExecution {
                join_form: JoinForm::WithName(federate.to_string()),
                federation_name: name.to_string(),
            },
        )
    }

    /// Opens a session and joins a federation, which is created where it does not
    /// exist.
    fn member(&mut self, name: &str) -> Client {
        let mut client = self.open();
        let _ = self.create(&mut client, name);
        joined(self.join(&mut client, name));
        client
    }

    fn federation(&self, name: &str) -> &Federation {
        let id = self.node.find_federation(name).expect("no such federation");
        self.node.federations.get(id).expect("no such federation")
    }

    fn drink_and_cups(&mut self, client: &mut Client) -> (Vec<u8>, Vec<u8>) {
        let drink = handle(self.call(
            client,
            CallRequest::GetObjectClassHandle {
                object_class_name: "HLAobjectRoot.Food.Drink".to_string(),
            },
        ));
        let cups = handle(self.call(
            client,
            CallRequest::GetAttributeHandle {
                object_class: Some(drink.clone()),
                attribute_name: "NumberCups".to_string(),
            },
        ));
        (drink, cups)
    }

    fn food_served(&mut self, client: &mut Client) -> (Vec<u8>, Vec<u8>) {
        let served = handle(self.call(
            client,
            CallRequest::GetInteractionClassHandle {
                interaction_class_name: "HLAinteractionRoot.FoodServed".to_string(),
            },
        ));
        let food_type = handle(self.call(
            client,
            CallRequest::GetParameterHandle {
                interaction_class: Some(served.clone()),
                parameter_name: "FoodType".to_string(),
            },
        ));
        (served, food_type)
    }

    fn subscribe(&mut self, client: &mut Client, object_class: &[u8], attributes: &[&[u8]]) {
        let r = self.call(
            client,
            CallRequest::SubscribeObjectClassAttributes {
                subscribe_form: SubscribeForm::Plain,
                object_class: Some(object_class.to_vec()),
                attributes: Some(attributes.iter().map(|a| a.to_vec()).collect()),
            },
        );
        assert_eq!(done(r), Service::SubscribeObjectClassAttributes);
    }

    fn publish(&mut self, client: &mut Client, object_class: &[u8], attributes: &[&[u8]]) {
        let r = self.call(
            client,
            CallRequest::PublishObjectClassAttributes {
                object_class: Some(object_class.to_vec()),
                attributes: Some(attributes.iter().map(|a| a.to_vec()).collect()),
            },
        );
        assert_eq!(done(r), Service::PublishObjectClassAttributes);
    }

    fn register(&mut self, client: &mut Client, object_class: &[u8]) -> Vec<u8> {
        handle(self.call(
            client,
            CallRequest::RegisterObjectInstance { object_class: Some(object_class.to_vec()) },
        ))
    }

    fn update(
        &mut self,
        client: &mut Client,
        instance: &[u8],
        attribute: &[u8],
        value: &[u8],
        tag: &[u8],
    ) -> CallResponse {
        self.call(
            client,
            CallRequest::UpdateAttributeValues {
                object_instance: Some(instance.to_vec()),
                attribute_values: Some(vec![value_of(attribute, value)]),
                user_supplied_tag: tag.to_vec(),
            },
        )
    }

    fn regulate(&mut self, client: &mut Client, lookahead: f64) -> CallResponse {
        self.call(client, CallRequest::EnableTimeRegulation { lookahead: Some(stamp(lookahead)) })
    }

    fn constrain(&mut self, client: &mut Client) -> CallResponse {
        self.call(client, CallRequest::EnableTimeConstrained)
    }

    fn advance(&mut self, client: &mut Client, time: f64) -> CallResponse {
        self.call(
            client,
            CallRequest::TimeAdvance {
                advance_form: AdvanceForm::TimeAdvanceRequest,
                time: Some(stamp(time)),
            },
        )
    }
}

fn value_of(handle: &[u8], value: &[u8]) -> HandleValueField {
    HandleValueField { handle: Some(handle.to_vec()), value: value.to_vec() }
}

fn stamp(t: f64) -> Vec<u8> {
    t.to_be_bytes().to_vec()
}

fn time_in(b: &[u8]) -> f64 {
    f64::from_be_bytes(b.try_into().expect("a time stamp has eight bytes"))
}

fn number32(b: &[u8]) -> u32 {
    u32::from_be_bytes(b.try_into().expect("a short handle has four bytes"))
}

fn number64(b: &[u8]) -> u64 {
    u64::from_be_bytes(b.try_into().expect("a long handle has eight bytes"))
}

fn done(r: CallResponse) -> Service {
    match r {
        CallResponse::Reply { service, payload: Payload::Empty } => service,
        other => panic!("expected an empty reply, got {other:?}"),
    }
}

fn handle(r: CallResponse) -> Vec<u8> {
    match r {
        CallResponse::Reply { payload: Payload::Handle(h), .. } => h,
        other => panic!("expected a handle, got {other:?}"),
    }
}

fn handles(r: CallResponse) -> Vec<Vec<u8>> {
    match r {
        CallResponse::Reply { payload: Payload::Handles(l), .. } => l,
        other => panic!("expected handles, got {other:?}"),
    }
}

fn text(r: CallResponse) -> String {
    match r {
        CallResponse::Reply { payload: Payload::Text(s), .. } => s,
        other => panic!("expected a text, got {other:?}"),
    }
}

fn flag(r: CallResponse) -> bool {
    match r {
        CallResponse::Reply { payload: Payload::Flag(b), .. } => b,
        other => panic!("expected a flag, got {other:?}"),
    }
}

fn joined(r: CallResponse) -> (Vec<u8>, String) {
    match r {
        CallResponse::Reply {
            service: Service::JoinFederationExecution(_),
            payload: Payload::Joined { federate_handle, logical_time_implementation_name },
        } => (federate_handle, logical_time_implementation_name),
        other => panic!("expected a join, got {other:?}"),
    }
}

fn refused(r: CallResponse) -> ExceptionData {
    match r {
        CallResponse::Exception(e) => e,
        other => panic!("expected an exception, got {other:?}"),
    }
}

fn details(e: &ExceptionData) -> &str {
    match &e.details {
        Details::Text(s) => s.as_str(),
        other => panic!("expected a text, got {other:?}"),
    }
}

fn save(label: &str) -> CallRequest {
    CallRequest::RequestFederationSave { with_time: false, label: label.to_string() }
}

fn restore(label: &str) -> CallRequest {
    CallRequest::RequestFederationRestore { label: label.to_string() }
}

/// Two named members, the first of which has registered an instance and a
/// synchronization point.
fn pair(hub: &mut Hub) -> (Client, Client, Vec<u8>) {
    let mut a = hub.open();
    done(hub.create(&mut a, "fed"));
    joined(hub.join_named(&mut a, "fed", "alice"));
    let mut b = hub.open();
    joined(hub.join_named(&mut b, "fed", "bob"));
    let (drink, cups) = hub.drink_and_cups(&mut a);
    hub.publish(&mut a, &drink, &[&cups]);
    let instance = hub.register(&mut a, &drink);
    done(hub.call(
        &mut a,
        CallRequest::RegisterFederationSynchronizationPoint {
            synchronization_point_label: "ready".to_string(),
            user_supplied_tag: b"tag".to_vec(),
        },
    ));
    hub.frames.clear();
    (a, b, instance)
}

fn saved(hub: &mut Hub, a: &mut Client, b: &mut Client) -> SnapshotFile {
    done(hub.call(a, save("s1")));
    done(hub.call(a, CallRequest::FederateSaveComplete));
    done(hub.call(b, CallRequest::FederateSaveComplete));
    hub.frames.clear();
    hub.file.take().expect("no snapshot")
}

#[test]
fn a_save_ends_when_all_have_reported() {
    let mut hub = Hub::new();
    let (mut a, mut b, _) = pair(&mut hub);
    let r = hub.call(&mut a, save("s1"));
    assert_eq!(done(r), Service::RequestFederationSave);
    for c in [&a, &b] {
        match &*hub.callback(c) {
            CallbackRequest::InitiateFederateSave { label } => assert_eq!(label, "s1"),
            other => panic!("expected the begin, got {other:?}"),
        }
    }
    assert_eq!(refused(hub.call(&mut b, save("s2"))).exception, HlaException::SaveInProgress);
    let r = hub.call(&mut a, CallRequest::FederateSaveBegun);
    assert_eq!(done(r), Service::FederateSaveBegun);
    let e = refused(hub.call(&mut a, CallRequest::FederateSaveBegun));
    assert_eq!(e.exception, HlaException::FederateNotInSaveInitiated);
    let r = hub.call(&mut a, CallRequest::FederateSaveComplete);
    assert_eq!(done(r), Service::FederateSaveComplete);
    assert!(hub.file.is_none() && hub.frames.is_empty());
    done(hub.call(&mut b, CallRequest::FederateSaveComplete));
    assert!(matches!(&*hub.callback(&a), CallbackRequest::FederationSaved));
    assert!(matches!(&*hub.callback(&b), CallbackRequest::FederationSaved));
    let file = hub.file.take().expect("no snapshot");
    assert_eq!(file.snapshot.federation_name, "fed");
    assert_eq!(file.snapshot.instances.len(), 1);
    assert_eq!(file.snapshot.sync_points.len(), 1);
    assert!(hub.federation("fed").current_save.is_none());
}

#[test]
fn one_failure_spoils_the_save() {
    let mut hub = Hub::new();
    let (mut a, mut b, _) = pair(&mut hub);
    done(hub.call(&mut a, save("s1")));
    hub.frames.clear();
    let r = hub.call(&mut a, CallRequest::FederateSaveNotComplete);
    assert_eq!(done(r), Service::FederateSaveNotComplete);
    done(hub.call(&mut b, CallRequest::FederateSaveComplete));
    assert!(matches!(&*hub.callback(&a), CallbackRequest::FederationNotSaved { reason: 0 }));
    assert!(hub.file.is_none());
}

#[test]
fn saves_need_a_label_and_a_beginning() {
    let mut hub = Hub::new();
    let (mut a, mut b, _) = pair(&mut hub);
    assert_eq!(refused(hub.call(&mut a, save(""))).exception, HlaException::InvalidSaveLabel);
    for request in [
        CallRequest::FederateSaveBegun,
        CallRequest::FederateSaveComplete,
        CallRequest::FederateSaveNotComplete,
        CallRequest::AbortFederationSave,
    ] {
        assert_eq!(refused(hub.call(&mut a, request)).exception, HlaException::SaveNotInProgress);
    }
    done(hub.call(&mut a, save("s1")));
    let mut c = hub.open();
    joined(hub.join(&mut c, "fed"));
    let e = refused(hub.call(&mut c, CallRequest::FederateSaveBegun));
    assert_eq!(e.exception, HlaException::FederateNotInSaveSet);
    done(hub.call(&mut b, CallRequest::AbortFederationSave));
    done(hub.call(&mut a, save("s2")));
}

#[test]
fn snapshot_files_are_named_after_federation_and_label() {
    let mut hub = Hub::new();
    let (mut a, mut b, _) = pair(&mut hub);
    let file = saved(&mut hub, &mut a, &mut b);
    assert_eq!(file.file_name, snapshot_path("fed", "s1"));
    let evil = snapshot_path("../fed", "a/b");
    assert!(!evil.contains('/'));
    assert!(evil != snapshot_path("fed", "a"));
}

#[test]
fn every_federation_and_label_have_their_own_file() {
    assert_eq!(snapshot_path("fed", "s1"), "fed__s1.json");
    assert_eq!(snapshot_path("a/b", "x\\y"), "a_b__x_y.json");
    assert_eq!(snapshot_path("a_b", "x_y"), "a_b__x_y~uju~.json");
    assert_eq!(snapshot_path("a\\b", "x/y"), "a_b__x_y~bjs~.json");
    assert_eq!(snapshot_path("a_b", "l"), "a_b__l~uj~.json");
    assert_eq!(snapshot_path("a", "b__c"), "a__b__c~juu~.json");
    assert_eq!(snapshot_path("a__b", "c"), "a__b__c~uuj~.json");
    assert_eq!(snapshot_path("a", "b~"), "a__b~~j~.json");

    let texts = ["a", "a/", "/a", "a\\", "a_", "_a", "a__a", "a//a", "a/\\a", "__", "_", "~", "a~j~"];
    let mut seen: Vec<String> = Vec::new();
    for federation in texts {
        for label in texts {
            let name = snapshot_path(federation, label);
            assert!(!name.contains('/') && !name.contains('\\'), "{name}");
            assert!(!seen.contains(&name), "{name}");
            seen.push(name);
        }
    }
}

#[test]
fn a_restore_gives_back_what_was_saved() {
    let mut hub = Hub::new();
    let (mut a, mut b, instance) = pair(&mut hub);
    let file = saved(&mut hub, &mut a, &mut b);
    done(hub.call(
        &mut a,
        CallRequest::DeleteObjectInstance {
            object_instance: Some(instance.clone()),
            user_supplied_tag: Vec::new(),
        },
    ));
    assert_eq!(hub.federation("fed").object_instances.len(), 0);
    let outside = Outside { snapshot: SnapshotLoad::Found(file.snapshot), ..nothing_outside() };
    let r = hub.call_with(&mut a, restore("s1"), &outside);
    assert_eq!(done(r), Service::RequestFederationRestore);
    let fed = hub.federation("fed");
    let back = fed.object_instances.get(number64(&instance)).expect("no such instance");
    assert_eq!(back.name, "HLA1");
    assert_eq!(back.registrar, 1);
    assert_eq!(back.attribute_owners.get(2), Some(&1));
    assert_eq!(fed.sync_points.len(), 1);
    assert_eq!(fed.next_object_id, 2);

    let to_a = hub.callbacks(&a);
    assert_eq!(to_a.len(), 3);
    assert!(matches!(&*to_a[0], CallbackRequest::RequestFederationRestoreSucceeded { .. }));
    assert!(matches!(&*to_a[1], CallbackRequest::FederationRestoreBegun));
    match &*to_a[2] {
        CallbackRequest::InitiateFederateRestore {
            label,
            federate_name,
            post_restore_federate_handle,
        } => {
            assert_eq!(label, "s1");
            assert_eq!(federate_name, "alice");
            assert_eq!(number32(post_restore_federate_handle), 1);
        },
        other => panic!("expected the begin, got {other:?}"),
    }
    assert_eq!(hub.callbacks(&b).len(), 2);
    let e = refused(hub.call(&mut b, restore("s1")));
    assert_eq!(e.exception, HlaException::RestoreInProgress);
    done(hub.call(&mut a, CallRequest::FederateRestoreComplete));
    assert!(hub.frames.is_empty());
    let r = hub.call(&mut b, CallRequest::FederateRestoreComplete);
    assert_eq!(done(r), Service::FederateRestoreComplete);
    assert!(matches!(&*hub.callback(&a), CallbackRequest::FederationRestored));
    assert!(matches!(&*hub.callback(&b), CallbackRequest::FederationRestored));
}

#[test]
fn instances_of_those_who_left_are_not_restored() {
    let mut hub = Hub::new();
    let (mut a, mut b, _) = pair(&mut hub);
    let file = saved(&mut hub, &mut a, &mut b);
    done(hub.call(&mut a, CallRequest::ResignFederationExecution));
    let outside = Outside { snapshot: SnapshotLoad::Found(file.snapshot), ..nothing_outside() };
    done(hub.call_with(&mut b, restore("s1"), &outside));
    assert_eq!(hub.federation("fed").object_instances.len(), 0);
}

#[test]
fn restores_fail_as_they_should() {
    let mut hub = Hub::new();
    let (mut a, mut b, _) = pair(&mut hub);
    assert_eq!(refused(hub.call(&mut a, restore(""))).exception, HlaException::InvalidRestoreLabel);
    let outside = Outside { snapshot: SnapshotLoad::Failed, ..nothing_outside() };
    done(hub.call_with(&mut a, restore("s1"), &outside));
    match &*hub.callback(&a) {
        CallbackRequest::RequestFederationRestoreFailed { label } => assert_eq!(label, "s1"),
        other => panic!("expected the failure, got {other:?}"),
    }
    for request in [
        CallRequest::FederateRestoreComplete,
        CallRequest::FederateRestoreNotComplete,
        CallRequest::AbortFederationRestore,
    ] {
        let e = refused(hub.call(&mut a, request));
        assert_eq!(e.exception, HlaException::RestoreNotInProgress);
    }
    done(hub.call(&mut a, restore("s1")));
    hub.frames.clear();
    done(hub.call(&mut a, CallRequest::FederateRestoreNotComplete));
    done(hub.call(&mut b, CallRequest::FederateRestoreComplete));
    assert!(matches!(&*hub.callback(&b), CallbackRequest::FederationNotRestored { reason: 0 }));
    done(hub.call(&mut a, restore("s1")));
    done(hub.call(&mut b, CallRequest::AbortFederationRestore));
    assert!(hub.federation("fed").current_restore.is_none());
}

#[test]
fn the_wanted_snapshot_is_named_ahead_of_the_restore() {
    let mut hub = Hub::new();
    let (a, _, _) = pair(&mut hub);
    let wanted =
        hla_rti::dispatch::calls::snapshot_wanted(&hub.node, &a.ctx, &restore("s1"));
    assert_eq!(wanted, Some(snapshot_path("fed", "s1")));
    let wanted = hla_rti::dispatch::calls::snapshot_wanted(&hub.node, &a.ctx, &save("s1"));
    assert_eq!(wanted, None);
}

fn point(label: &str) -> CallRequest {
    CallRequest::RegisterFederationSynchronizationPoint {
        synchronization_point_label: label.to_string(),
        user_supplied_tag: b"now".to_vec(),
    }
}

fn achieved(label: &str, successfully: bool) -> CallRequest {
    CallRequest::SynchronizationPointAchieved {
        synchronization_point_label: label.to_string(),
        successfully,
    }
}

#[test]
fn a_synchronization_point_is_reached_together() {
    let mut hub = Hub::new();
    let mut a = hub.member("sync");
    let mut b = hub.member("sync");
    let r = hub.call(&mut a, point("go"));
    assert_eq!(done(r), Service::RegisterFederationSynchronizationPoint);
    let to_a = hub.callbacks(&a);
    assert_eq!(to_a.len(), 2);
    assert!(matches!(
        &*to_a[0],
        CallbackRequest::SynchronizationPointRegistrationSucceeded { .. }
    ));
    match &*hub.callback(&b) {
        CallbackRequest::AnnounceSynchronizationPoint {
            synchronization_point_label,
            user_supplied_tag,
        } => {
            assert_eq!(synchronization_point_label, "go");
            assert_eq!(user_supplied_tag, b"now");
        },
        other => panic!("expected the announcement, got {other:?}"),
    }
    done(hub.call(&mut a, achieved("go", true)));
    assert!(hub.frames.is_empty());
    let r = hub.call(&mut b, achieved("go", false));
    assert_eq!(done(r), Service::SynchronizationPointAchieved);
    match &*hub.callback(&a) {
        CallbackRequest::FederationSynchronized {
            synchronization_point_label,
            failed_to_sync_set,
        } => {
            assert_eq!(synchronization_point_label, "go");
            assert_eq!(failed_to_sync_set.len(), 1);
            assert_eq!(number32(&failed_to_sync_set[0]), 2);
        },
        other => panic!("expected the end, got {other:?}"),
    }
    assert_eq!(hub.federation("sync").sync_points.len(), 0);
}

#[test]
fn synchronization_points_are_checked() {
    let mut hub = Hub::new();
    let mut a = hub.member("sync2");
    let mut b = hub.member("sync2");
    let e = refused(hub.call(&mut a, point("")));
    assert_eq!(e.exception, HlaException::InvalidSynchronizationPointLabel);
    assert_eq!(details(&e), "label must not be empty");
    let e = refused(hub.call(&mut a, achieved("none", true)));
    assert_eq!(e.exception, HlaException::SynchronizationPointLabelNotAnnounced);
    assert_eq!(details(&e), "none");
    done(hub.call(
        &mut a,
        CallRequest::RegisterFederationSynchronizationPointWithSet {
            synchronization_point_label: "mine".to_string(),
            user_supplied_tag: Vec::new(),
            synchronization_set: Some(vec![1u32.to_be_bytes().to_vec()]),
        },
    ));
    assert!(hub.callbacks(&b).is_empty());
    let e = refused(hub.call(&mut b, achieved("mine", true)));
    assert_eq!(e.exception, HlaException::FederateNotInSynchronizationGroup);
    assert_eq!(details(&e), "federate 2 not in sync set for mine");
    done(hub.call(&mut b, point("mine")));
    match &*hub.callback(&b) {
        CallbackRequest::SynchronizationPointRegistrationFailed { reason, .. } => {
            assert_eq!(*reason, 0);
        },
        other => panic!("expected the failure, got {other:?}"),
    }
}

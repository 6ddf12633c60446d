//! Ownership, regions, lookups and switches.

#![allow(dead_code, unused_imports)]

use hla_rti::callbacks::CallbackRequest;
use hla_rti::dispatch::calls::Outside;
use hla_rti::dispatch::federation_mgmt::ModuleLoad;
use hla_rti::dispatch::restore::SnapshotLoad;
use hla_rti::dispatch::save::SnapshotFile;
use hla_rti::exception::{Details, ExceptionData};
use hla_rti::fom::{ClassDef, DimensionDef, MemberDef, MergedFom};
use hla_rti::frames::{
    Frame, FrameHeader, FramePayload, MessageType, StatusReason, FEDERATE_PROTOCOL_VERSION,
    NO_SESSION_ID,
};
use hla_rti::messages::{
    AdvanceForm, CallRequest, CallResponse, CreateForm, DivestForm, HandleValueField, JoinForm,
    Payload, RangeBounds, RegionPair, Service, SettableSwitch, SubscribeForm, Switch,
};
use hla_rti::node::Limit;
use hla_rti::routing::Outbox;
use hla_rti::session::SessionContext;
use hla_rti::sessions::{InboundFrame, Opening, OpeningFrame, SessionEvent};
use hla_rti::{Federation, HeartbeatConfig, HlaException, RtiNode, SECOND};
use std::sync::Arc;

const LOCALHOST: (u8, u128) = (4, 0x7f00_0001);
const MILLISECOND: u128 = SECOND / 1000;

/// A node, the frames that are on their way to its clients, and its clock.
struct Hub {
    node: RtiNode,
    now: u128,
    next_connection: u64,
    next_callback: i32,
    frames: Vec<Frame>,
    file: Option<SnapshotFile>,
}

/// A client with an open session.
struct Client {
    ctx: SessionContext,
    next_outbound: i32,
    heartbeat: HeartbeatConfig,
}

fn class(handle: u32, name: &str, parent: Option<&str>, members: &[&str]) -> ClassDef {
    ClassDef {
        handle,
        name: name.to_string(),
        parent: parent.map(|p| p.to_string()),
        members: members.iter().map(|m| m.to_string()).collect(),
    }
}

fn member(class: u32, name: &str, handle: u32) -> MemberDef {
    MemberDef { class, name: name.to_string(), handle }
}

/// Food with a color, drinks with a number of cups, an announcement of what is
/// served, and two dimensions.
fn sushi() -> MergedFom {
    MergedFom {
        object_classes: vec![
            class(1, "HLAobjectRoot", None, &[]),
            class(2, "HLAobjectRoot.Food", Some("HLAobjectRoot"), &["Color"]),
            class(3, "HLAobjectRoot.Food.Drink", Some("HLAobjectRoot.Food"), &["NumberCups"]),
        ],
        attributes: vec![member(2, "Color", 1), member(3, "NumberCups", 2)],
        interaction_classes: vec![
            class(1, "HLAinteractionRoot", None, &[]),
            class(
                2,
                "HLAinteractionRoot.FoodServed",
                Some("HLAinteractionRoot"),
                &["FoodType"],
            ),
        ],
        parameters: vec![member(2, "FoodType", 1)],
        dimensions: vec![
            DimensionDef { name: "BarQuantity".to_string(), handle: 1 },
            DimensionDef { name: "WaiterId".to_string(), handle: 2 },
        ],
    }
}

fn nothing_outside() -> Outside {
    Outside {
        modules: ModuleLoad { faults: Vec::new(), merged: Ok(Arc::new(MergedFom::new())) },
        snapshot: SnapshotLoad::NotFound,
    }
}

impl Hub {
    fn new() -> Hub {
        let mut node = RtiNode::new();
        node.set_default_fom(sushi());
        Hub {
            node,
            now: 1000 * SECOND,
            next_connection: 1,
            next_callback: 0,
            frames: Vec::new(),
            file: None,
        }
    }

    fn opening(message_type: MessageType, session_id: u64) -> OpeningFrame {
        OpeningFrame {
            message_type,
            sequence_number: 0,
            session_id,
            protocol_version: FEDERATE_PROTOCOL_VERSION,
        }
    }

    fn connect(&mut self, ctx: SessionContext) -> Client {
        let connection = self.next_connection;
        self.next_connection += 1;
        let heartbeat = self.node.session_opened(ctx.session_id, connection);
        Client { ctx, next_outbound: 1, heartbeat }
    }

    fn try_open(&mut self) -> Result<Client, Limit> {
        let candidate = self.node.accept_connection(LOCALHOST)?;
        let first = Hub::opening(MessageType::CtrlNewSession, NO_SESSION_ID);
        match self.node.open_session(candidate, &first, self.now) {
            Opening::Opened { reply, ctx } => {
                assert_eq!(
                    reply.header,
                    FrameHeader {
                        sequence_number: None,
                        session_id: candidate,
                        last_received_sequence_number: Some(0),
                        message_type: MessageType::CtrlNewSessionStatus,
                    }
                );
                assert!(matches!(reply.payload, FramePayload::Status(StatusReason::Success)));
                Ok(self.connect(ctx))
            },
            other => panic!("expected an open session, got {other:?}"),
        }
    }

    fn open(&mut self) -> Client {
        match self.try_open() {
            Ok(client) => client,
            Err(limit) => panic!("refused by {}", limit.name()),
        }
    }

    fn event(
        &mut self,
        client: &mut Client,
        event: SessionEvent,
        outside: &Outside,
    ) -> (Option<Frame>, bool) {
        let step = self.node.session_step(&mut client.ctx, &event, outside);
        self.file = step.file;
        self.deliver(step.callbacks);
        (step.reply, step.close)
    }

    fn deliver(&mut self, callbacks: Outbox) {
        for callback in callbacks.into_vec() {
            let number = self.next_callback;
            self.next_callback += 1;
            self.frames.push(callback.into_frame(number));
        }
    }

    fn control(&mut self, client: &mut Client, message_type: MessageType) -> (Option<Frame>, bool) {
        let frame = InboundFrame { message_type, sequence_number: 1, call: Ok(None) };
        self.event(client, SessionEvent::Inbound(frame), &nothing_outside())
    }

    fn call_with(
        &mut self,
        client: &mut Client,
        request: CallRequest,
        outside: &Outside,
    ) -> CallResponse {
        let number = client.next_outbound;
        client.next_outbound += 1;
        let frame = InboundFrame {
            message_type: MessageType::HlaCallRequest,
            sequence_number: number,
            call: Ok(Some(request)),
        };
        let (reply, close) = self.event(client, SessionEvent::Inbound(frame), outside);
        assert!(!close);
        let reply = reply.expect("no response");
        assert_eq!(
            reply.header,
            FrameHeader {
                sequence_number: None,
                session_id: client.ctx.session_id,
                last_received_sequence_number: Some(number),
                message_type: MessageType::HlaCallResponse,
            }
        );
        match reply.payload {
            FramePayload::Response { response_to_sequence_number, response } => {
                assert_eq!(response_to_sequence_number, number);
                response
            },
            other => panic!("expected a response, got {other:?}"),
        }
    }

    fn call(&mut self, client: &mut Client, request: CallRequest) -> CallResponse {
        self.call_with(client, request, &nothing_outside())
    }

    /// The connection of a client is lost.
    fn drop_client(&mut self, client: Client) {
        let window = client.heartbeat.reconnect_window;
        let callbacks = self.node.close_session(&client.ctx, window, self.now);
        self.deliver(callbacks);
        self.node.release_connection(LOCALHOST);
    }

    fn callbacks(&mut self, client: &Client) -> Vec<Arc<CallbackRequest>> {
        let mut mine = Vec::new();
        let mut others = Vec::new();
        for frame in self.frames.drain(..) {
            if frame.header.session_id == client.ctx.session_id {
                assert_eq!(frame.header.message_type, MessageType::HlaCallbackRequest);
                match frame.payload {
                    FramePayload::Callback(c) => mine.push(c),
                    other => panic!("expected a callback, got {other:?}"),
                }
            } else {
                others.push(frame);
            }
        }
        self.frames = others;
        mine
    }

    fn callback(&mut self, client: &Client) -> Arc<CallbackRequest> {
        let mut all = self.callbacks(client);
        assert_eq!(all.len(), 1, "{all:?}");
        all.remove(0)
    }

    fn create(&mut self, client: &mut Client, name: &str) -> CallResponse {
        self.call(
            client,
            CallRequest::CreateFederationExecution {
                create_form: CreateForm::Plain,
                federation_name: name.to_string(),
                fom_modules: Vec::new(),
                mim_module: None,
            },
        )
    }

    fn join(&mut self, client: &mut Client, name: &str) -> CallResponse {
        self.call(
            client,
            CallRequest::JoinFederationExecution {
                join_form: JoinForm::Plain,
                federation_name: name.to_string(),
            },
        )
    }

    fn join_named(&mut self, client: &mut Client, name: &str, federate: &str) -> CallResponse {
        self.call(
            client,
            CallRequest::JoinFederationExecution {
                join_form: JoinForm::WithName(federate.to_string()),
                federation_name: name.to_string(),
            },
        )
    }

    /// Opens a session and joins a federation, which is created where it does not
    /// exist.
    fn member(&mut self, name: &str) -> Client {
        let mut client = self.open();
        let _ = self.create(&mut client, name);
        joined(self.join(&mut client, name));
        client
    }

    fn federation(&self, name: &str) -> &Federation {
        let id = self.node.find_federation(name).expect("no such federation");
        self.node.federations.get(id).expect("no such federation")
    }

    fn drink_and_cups(&mut self, client: &mut Client) -> (Vec<u8>, Vec<u8>) {
        let drink = handle(self.call(
            client,
            CallRequest::GetObjectClassHandle {
                object_class_name: "HLAobjectRoot.Food.Drink".to_string(),
            },
        ));
        let cups = handle(self.call(
            client,
            CallRequest::GetAttributeHandle {
                object_class: Some(drink.clone()),
                attribute_name: "NumberCups".to_string(),
            },
        ));
        (drink, cups)
    }

    fn food_served(&mut self, client: &mut Client) -> (Vec<u8>, Vec<u8>) {
        let served = handle(self.call(
            client,
            CallRequest::GetInteractionClassHandle {
                interaction_class_name: "HLAinteractionRoot.FoodServed".to_string(),
            },
        ));
        let food_type = handle(self.call(
            client,
            CallRequest::GetParameterHandle {
                interaction_class: Some(served.clone()),
                parameter_name: "FoodType".to_string(),
            },
        ));
        (served, food_type)
    }

    fn subscribe(&mut self, client: &mut Client, object_class: &[u8], attributes: &[&[u8]]) {
        let r = self.call(
            client,
            CallRequest::SubscribeObjectClassAttributes {
                subscribe_form: SubscribeForm::Plain,
                object_class: Some(object_class.to_vec()),
                attributes: Some(attributes.iter().map(|a| a.to_vec()).collect()),
            },
        );
        assert_eq!(done(r), Service::SubscribeObjectClassAttributes);
    }

    fn publish(&mut self, client: &mut Client, object_class: &[u8], attributes: &[&[u8]]) {
        let r = self.call(
            client,
            CallRequest::PublishObjectClassAttributes {
                object_class: Some(object_class.to_vec()),
                attributes: Some(attributes.iter().map(|a| a.to_vec()).collect()),
            },
        );
        assert_eq!(done(r), Service::PublishObjectClassAttributes);
    }

    fn register(&mut self, client: &mut Client, object_class: &[u8]) -> Vec<u8> {
        handle(self.call(
            client,
            CallRequest::RegisterObjectInstance { object_class: Some(object_class.to_vec()) },
        ))
    }

    fn update(
        &mut self,
        client: &mut Client,
        instance: &[u8],
        attribute: &[u8],
        value: &[u8],
        tag: &[u8],
    ) -> CallResponse {
        self.call(
            client,
            CallRequest::UpdateAttributeValues {
                object_instance: Some(instance.to_vec()),
                attribute_values: Some(vec![value_of(attribute, value)]),
                user_supplied_tag: tag.to_vec(),
            },
        )
    }

    fn regulate(&mut self, client: &mut Client, lookahead: f64) -> CallResponse {
        self.call(client, CallRequest::EnableTimeRegulation { lookahead: Some(stamp(lookahead)) })
    }

    fn constrain(&mut self, client: &mut Client) -> CallResponse {
        self.call(client, CallRequest::EnableTimeConstrained)
    }

    fn advance(&mut self, client: &mut Client, time: f64) -> CallResponse {
        self.call(
            client,
            CallRequest::TimeAdvance {
                advance_form: AdvanceForm::TimeAdvanceRequest,
                time: Some(stamp(time)),
            },
        )
    }
}

fn value_of(handle: &[u8], value: &[u8]) -> HandleValueField {
    HandleValueField { handle: Some(handle.to_vec()), value: value.to_vec() }
}

fn stamp(t: f64) -> Vec<u8> {
    t.to_be_bytes().to_vec()
}

fn time_in(b: &[u8]) -> f64 {
    f64::from_be_bytes(b.try_into().expect("a time stamp has eight bytes"))
}

fn number32(b: &[u8]) -> u32 {
    u32::from_be_bytes(b.try_into().expect("a short handle has four bytes"))
}

fn number64(b: &[u8]) -> u64 {
    u64::from_be_bytes(b.try_into().expect("a long handle has eight bytes"))
}

fn done(r: CallResponse) -> Service {
    match r {
        CallResponse::Reply { service, payload: Payload::Empty } => service,
        other => panic!("expected an empty reply, got {other:?}"),
    }
}

fn handle(r: CallResponse) -> Vec<u8> {
    match r {
        CallResponse::Reply { payload: Payload::Handle(h), .. } => h,
        other => panic!("expected a handle, got {other:?}"),
    }
}

fn handles(r: CallResponse) -> Vec<Vec<u8>> {
    match r {
        CallResponse::Reply { payload: Payload::Handles(l), .. } => l,
        other => panic!("expected handles, got {other:?}"),
    }
}

fn text(r: CallResponse) -> String {
    match r {
        CallResponse::Reply { payload: Payload::Text(s), .. } => s,
        other => panic!("expected a text, got {other:?}"),
    }
}

fn flag(r: CallResponse) -> bool {
    match r {
        CallResponse::Reply { payload: Payload::Flag(b), .. } => b,
        other => panic!("expected a flag, got {other:?}"),
    }
}

fn joined(r: CallResponse) -> (Vec<u8>, String) {
    match r {
        CallResponse::Reply {
            service: Service::JoinFederationExecution(_),
            payload: Payload::Joined { federate_handle, logical_time_implementation_name },
        } => (federate_handle, logical_time_implementation_name),
        other => panic!("expected a join, got {other:?}"),
    }
}

fn refused(r: CallResponse) -> ExceptionData {
    match r {
        CallResponse::Exception(e) => e,
        other => panic!("expected an exception, got {other:?}"),
    }
}

fn details(e: &ExceptionData) -> &str {
    match &e.details {
        Details::Text(s) => s.as_str(),
        other => panic!("expected a text, got {other:?}"),
    }
}

fn three(n: u32) -> Vec<u8> {
    n.to_be_bytes().to_vec()
}

/// A member with a published and registered drink.
fn producer(hub: &mut Hub, name: &str) -> (Client, Vec<u8>, Vec<u8>, Vec<u8>) {
    let mut a = hub.member(name);
    let (drink, cups) = hub.drink_and_cups(&mut a);
    hub.publish(&mut a, &drink, &[&cups]);
    let instance = hub.register(&mut a, &drink);
    (a, instance, drink, cups)
}

fn is_owner(hub: &mut Hub, c: &mut Client, instance: &[u8], cups: &[u8]) -> bool {
    flag(hub.call(
        c,
        CallRequest::IsAttributeOwnedByFederate {
            object_instance: Some(instance.to_vec()),
            attribute: Some(cups.to_vec()),
        },
    ))
}

#[test]
fn attributes_change_hands() {
    let mut hub = Hub::new();
    let (mut a, instance, _, cups) = producer(&mut hub, "own");
    let mut b = hub.member("own");
    assert!(is_owner(&mut hub, &mut a, &instance, &cups));
    assert!(!is_owner(&mut hub, &mut b, &instance, &cups));

    let acquire = || CallRequest::AttributeOwnershipAcquisition {
        if_available: true,
        object_instance: Some(instance.clone()),
        desired_attributes: Some(vec![cups.clone()]),
        user_supplied_tag: b"pls".to_vec(),
    };
    done(hub.call(&mut b, acquire()));
    match &*hub.callback(&b) {
        CallbackRequest::AttributeOwnershipUnavailable { attributes, user_supplied_tag, .. } => {
            assert_eq!(attributes, &vec![cups.clone()]);
            assert_eq!(user_supplied_tag, b"pls");
        },
        other => panic!("expected a refusal, got {other:?}"),
    }
    assert!(!is_owner(&mut hub, &mut b, &instance, &cups));

    let r = hub.call(
        &mut a,
        CallRequest::AttributeOwnershipDivestiture {
            divest_form: DivestForm::Unconditional,
            object_instance: Some(instance.clone()),
            attributes: Some(vec![cups.clone()]),
            user_supplied_tag: Vec::new(),
        },
    );
    assert_eq!(done(r), Service::UnconditionalAttributeOwnershipDivestiture);
    hub.frames.clear();
    done(hub.call(
        &mut a,
        CallRequest::QueryAttributeOwnership {
            object_instance: Some(instance.clone()),
            attributes: Some(vec![cups.clone()]),
        },
    ));
    assert!(matches!(&*hub.callback(&a), CallbackRequest::AttributeIsNotOwned { .. }));

    let r = hub.call(&mut b, acquire());
    assert_eq!(done(r), Service::AttributeOwnershipAcquisitionIfAvailable);
    match &*hub.callback(&b) {
        CallbackRequest::AttributeOwnershipAcquisitionNotification { secured_attributes, .. } => {
            assert_eq!(secured_attributes, &vec![cups.clone()]);
        },
        other => panic!("expected the attribute, got {other:?}"),
    }
    assert!(is_owner(&mut hub, &mut b, &instance, &cups));
    done(hub.call(
        &mut a,
        CallRequest::QueryAttributeOwnership {
            object_instance: Some(instance.clone()),
            attributes: Some(vec![cups.clone()]),
        },
    ));
    match &*hub.callback(&a) {
        CallbackRequest::InformAttributeOwnership { federate, .. } => {
            assert_eq!(number32(federate), 2);
        },
        other => panic!("expected the owner, got {other:?}"),
    }
}

#[test]
fn ownership_of_unknown_instances_is_refused() {
    let mut hub = Hub::new();
    let mut a = hub.member("own2");
    let e = refused(hub.call(
        &mut a,
        CallRequest::QueryAttributeOwnership { object_instance: None, attributes: None },
    ));
    assert_eq!(e.exception, HlaException::ObjectInstanceNotKnown);
    let e = refused(hub.call(
        &mut a,
        CallRequest::AttributeOwnershipAcquisition {
            if_available: false,
            object_instance: Some(1u64.to_be_bytes().to_vec()),
            desired_attributes: Some(vec![vec![1]]),
            user_supplied_tag: Vec::new(),
        },
    ));
    assert_eq!(e.exception, HlaException::InvalidAttributeHandle);
}

fn region(hub: &mut Hub, c: &mut Client, dimension: u32, lower: u32, upper: u32) -> Vec<u8> {
    let r = handle(hub.call(
        c,
        CallRequest::CreateRegion { dimensions: Some(vec![three(dimension)]) },
    ));
    done(hub.call(
        c,
        CallRequest::SetRangeBounds {
            region: Some(r.clone()),
            dimension: Some(three(dimension)),
            range_bounds: Some(RangeBounds { lower, upper }),
        },
    ));
    let done_now = hub.call(
        c,
        CallRequest::CommitRegionModifications { regions: Some(vec![r.clone()]) },
    );
    assert_eq!(done(done_now), Service::CommitRegionModifications);
    r
}

fn pairs(attribute: &[u8], region: &[u8]) -> Option<Vec<RegionPair>> {
    Some(vec![RegionPair {
        attribute_set: Some(vec![attribute.to_vec()]),
        region_set: Some(vec![region.to_vec()]),
    }])
}

#[test]
fn regions_keep_data_apart() {
    let mut hub = Hub::new();
    let mut near = hub.member("ddm");
    let (drink, cups) = hub.drink_and_cups(&mut near);
    let r = region(&mut hub, &mut near, 1, 0, 10);
    done(hub.call(
        &mut near,
        CallRequest::SubscribeObjectClassAttributesWithRegions {
            object_class: Some(drink.clone()),
            attributes_and_regions: pairs(&cups, &r),
        },
    ));
    let mut far = hub.member("ddm");
    let r = region(&mut hub, &mut far, 1, 50, 60);
    done(hub.call(
        &mut far,
        CallRequest::SubscribeObjectClassAttributesWithRegions {
            object_class: Some(drink.clone()),
            attributes_and_regions: pairs(&cups, &r),
        },
    ));
    let mut a = hub.member("ddm");
    hub.publish(&mut a, &drink, &[&cups]);
    let mine = region(&mut hub, &mut a, 1, 10, 20);
    let instance = handle(hub.call(
        &mut a,
        CallRequest::RegisterObjectInstanceWithRegions {
            object_class: Some(drink.clone()),
            attributes_and_regions: pairs(&cups, &mine),
        },
    ));
    hub.frames.clear();
    done(hub.update(&mut a, &instance, &cups, b"v", b""));
    assert!(matches!(&*hub.callback(&near), CallbackRequest::ReflectAttributeValues { .. }));
    assert!(hub.callbacks(&far).is_empty());
}

#[test]
fn new_bounds_count_when_they_are_committed() {
    let mut hub = Hub::new();
    let mut a = hub.member("ddm2");
    let r = region(&mut hub, &mut a, 2, 3, 4);
    let bounds = |hub: &mut Hub, a: &mut Client| match hub.call(
        a,
        CallRequest::GetRangeBounds { region: Some(r.clone()), dimension: Some(three(2)) },
    ) {
        CallResponse::Reply { payload: Payload::Range(b), .. } => (b.lower, b.upper),
        other => panic!("expected bounds, got {other:?}"),
    };
    assert_eq!(bounds(&mut hub, &mut a), (3, 4));
    done(hub.call(
        &mut a,
        CallRequest::SetRangeBounds {
            region: Some(r.clone()),
            dimension: Some(three(2)),
            range_bounds: Some(RangeBounds { lower: 7, upper: 8 }),
        },
    ));
    assert_eq!(bounds(&mut hub, &mut a), (3, 4));
    done(
        hub.call(&mut a, CallRequest::CommitRegionModifications { regions: Some(vec![r.clone()]) }),
    );
    assert_eq!(bounds(&mut hub, &mut a), (7, 8));
    let dims = handles(
        hub.call(&mut a, CallRequest::GetDimensionHandleSet { region: Some(r.clone()) }),
    );
    assert_eq!(dims, vec![three(2)]);
}

#[test]
fn regions_belong_to_their_makers() {
    let mut hub = Hub::new();
    let mut a = hub.member("ddm3");
    let r = region(&mut hub, &mut a, 1, 0, 1);
    let mut b = hub.member("ddm3");
    let e = refused(hub.call(
        &mut b,
        CallRequest::CommitRegionModifications { regions: Some(vec![r.clone()]) },
    ));
    assert_eq!(e.exception, HlaException::RegionNotCreatedByThisFederate);
    let e = refused(hub.call(&mut b, CallRequest::DeleteRegion { region: Some(r.clone()) }));
    assert_eq!(e.exception, HlaException::RegionNotCreatedByThisFederate);
    let e = refused(hub.call(
        &mut a,
        CallRequest::SetRangeBounds {
            region: Some(r.clone()),
            dimension: Some(three(1)),
            range_bounds: Some(RangeBounds { lower: 2, upper: 1 }),
        },
    ));
    assert_eq!(e.exception, HlaException::InvalidRangeBound);
    assert_eq!(details(&e), "lower > upper");
    done(hub.call(&mut a, CallRequest::DeleteRegion { region: Some(r.clone()) }));
    let e = refused(hub.call(&mut a, CallRequest::DeleteRegion { region: Some(r) }));
    assert_eq!(e.exception, HlaException::InvalidRegion);
}

#[test]
fn dimensions_are_looked_up() {
    let mut hub = Hub::new();
    let mut a = hub.member("dim");
    let d = handle(hub.call(
        &mut a,
        CallRequest::GetDimensionHandle { dimension_name: "WaiterId".to_string() },
    ));
    assert_eq!(d, three(2));
    let e = refused(hub.call(
        &mut a,
        CallRequest::GetDimensionHandle { dimension_name: "No".to_string() },
    ));
    assert_eq!(e.exception, HlaException::NameNotFound);
    let mut c = hub.open();
    let name = text(hub.call(&mut c, CallRequest::GetDimensionName { dimension: Some(three(17)) }));
    assert_eq!(name, "Dim17");
}

#[test]
fn orders_and_transportations_have_names() {
    let mut hub = Hub::new();
    let mut c = hub.open();
    for (name, code) in [("Receive", 0), ("TimeStamp", 1)] {
        match hub.call(&mut c, CallRequest::GetOrderType { order_type_name: name.to_string() }) {
            CallResponse::Reply { payload: Payload::Code(n), .. } => assert_eq!(n, code),
            other => panic!("expected a code, got {other:?}"),
        }
        assert_eq!(text(hub.call(&mut c, CallRequest::GetOrderName { order_type: code })), name);
    }
    let e = refused(hub.call(&mut c, CallRequest::GetOrderName { order_type: -7 }));
    assert_eq!(e.exception, HlaException::InvalidOrderType);
    assert_eq!(details(&e), "-7");
    let e = refused(
        hub.call(&mut c, CallRequest::GetOrderType { order_type_name: "x".to_string() }),
    );
    assert_eq!(e.exception, HlaException::InvalidOrderName);
    for (name, number) in [("HLAreliable", 1u32), ("HLAbestEffort", 2)] {
        let h = handle(hub.call(
            &mut c,
            CallRequest::GetTransportationTypeHandle { transportation_type_name: name.to_string() },
        ));
        assert_eq!(h, three(number));
        let back = text(hub.call(
            &mut c,
            CallRequest::GetTransportationTypeName { transportation_type: Some(h) },
        ));
        assert_eq!(back, name);
    }
    let e = refused(hub.call(
        &mut c,
        CallRequest::GetTransportationTypeName { transportation_type: Some(three(30)) },
    ));
    assert_eq!(details(&e), "30");
    let e = refused(hub.call(
        &mut c,
        CallRequest::GetTransportationTypeHandle { transportation_type_name: "udp".to_string() },
    ));
    assert_eq!(e.exception, HlaException::InvalidTransportationName);
}

#[test]
fn switches_hold_their_positions() {
    let mut hub = Hub::new();
    let mut a = hub.member("switch");
    let settable = SettableSwitch::ServiceReporting;
    for on in [true, false] {
        let r = hub.call(&mut a, CallRequest::SetSwitch { settable, on });
        assert_eq!(done(r), Service::SetSwitch(settable));
        assert_eq!(
            flag(hub.call(&mut a, CallRequest::GetSwitch { switch: Switch::ServiceReporting })),
            on,
        );
    }
    for value in 0..6 {
        done(hub.call(&mut a, CallRequest::SetAutomaticResignDirective { value }));
        match hub.call(&mut a, CallRequest::GetAutomaticResignDirective) {
            CallResponse::Reply { payload: Payload::Code(n), .. } => assert_eq!(n, value),
            other => panic!("expected a code, got {other:?}"),
        }
    }
    let e = refused(hub.call(&mut a, CallRequest::SetAutomaticResignDirective { value: 6 }));
    assert_eq!(e.exception, HlaException::InvalidResignAction);
    assert_eq!(details(&e), "6");
}

#[test]
fn outsiders_get_nothing_done() {
    let mut hub = Hub::new();
    let mut c = hub.open();
    for request in [
        CallRequest::QueryLogicalTime,
        CallRequest::EnableTimeConstrained,
        CallRequest::RegisterObjectInstance { object_class: Some(three(3)) },
        CallRequest::CreateRegion { dimensions: None },
    ] {
        let e = refused(hub.call(&mut c, request));
        assert_eq!(e.exception, HlaException::FederateNotExecutionMember);
    }
}

#[test]
fn a_refused_request_leaves_no_trace() {
    let mut hub = Hub::new();
    let (mut a, instance, drink, cups) = producer(&mut hub, "trace");
    let mut b = hub.member("trace");
    hub.subscribe(&mut b, &drink, &[&cups]);
    hub.frames.clear();
    refused(hub.update(&mut b, &instance, &cups, b"1", b""));
    refused(hub.call(
        &mut a,
        CallRequest::PublishObjectClassAttributes {
            object_class: Some(drink.clone()),
            attributes: Some(vec![vec![0]]),
        },
    ));
    assert!(hub.frames.is_empty());
    assert_eq!(hub.federation("trace").object_instances.len(), 1);
}

#[test]
fn a_commit_stops_at_a_foreign_region() {
    let mut hub = Hub::new();
    let mut b = hub.member("stop");
    let foreign = region(&mut hub, &mut b, 1, 0, 1);
    let mut a = hub.member("stop");
    let mine = region(&mut hub, &mut a, 1, 0, 1);
    done(hub.call(
        &mut a,
        CallRequest::SetRangeBounds {
            region: Some(mine.clone()),
            dimension: Some(three(1)),
            range_bounds: Some(RangeBounds { lower: 5, upper: 6 }),
        },
    ));
    refused(hub.call(
        &mut a,
        CallRequest::CommitRegionModifications { regions: Some(vec![mine.clone(), foreign]) },
    ));
    match hub.call(
        &mut a,
        CallRequest::GetRangeBounds { region: Some(mine), dimension: Some(three(1)) },
    ) {
        CallResponse::Reply { payload: Payload::Range(b), .. } => assert_eq!(
            (b.lower, b.upper),
            (5, 6),
        ),
        other => panic!("expected bounds, got {other:?}"),
    }
}

#[test]
fn to_forget_an_instance_is_to_discover_it_again() {
    let mut hub = Hub::new();
    let mut b = hub.member("forget");
    let (drink, cups) = hub.drink_and_cups(&mut b);
    hub.subscribe(&mut b, &drink, &[&cups]);
    let mut a = hub.member("forget");
    hub.publish(&mut a, &drink, &[&cups]);
    let instance = hub.register(&mut a, &drink);
    hub.callback(&b);
    let r = hub.call(
        &mut b,
        CallRequest::LocalDeleteObjectInstance { object_instance: Some(instance.clone()) },
    );
    assert_eq!(done(r), Service::LocalDeleteObjectInstance);
    done(hub.update(&mut a, &instance, &cups, b"1", b""));
    let received = hub.callbacks(&b);
    assert_eq!(received.len(), 2);
    assert!(matches!(&*received[0], CallbackRequest::DiscoverObjectInstance { .. }));
}

#[test]
fn handles_are_normalized() {
    let mut hub = Hub::new();
    let mut c = hub.member("norm");
    let number = |r: CallResponse| match r {
        CallResponse::Reply { payload: Payload::Number(n), .. } => n,
        other => panic!("expected a number, got {other:?}"),
    };
    let r = hub.call(&mut c, CallRequest::NormalizeFederateHandle { federate: Some(three(5)) });
    assert_eq!(number(r), 5);
    let r = hub.call(
        &mut c,
        CallRequest::NormalizeObjectInstanceHandle {
            object_instance: Some(0x1_0000_0007u64.to_be_bytes().to_vec()),
        },
    );
    assert_eq!(number(r), 7);
    let r = hub.call(&mut c, CallRequest::NormalizeServiceGroup { service_group: -1 });
    assert_eq!(number(r), u32::MAX);
}

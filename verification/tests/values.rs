//! Handles, time stamps, texts and tables.

#![allow(dead_code, unused_imports)]

use hla_rti::callbacks::CallbackRequest;
use hla_rti::dispatch::calls::Outside;
use hla_rti::dispatch::federation_mgmt::ModuleLoad;
use hla_rti::dispatch::restore::SnapshotLoad;
use hla_rti::dispatch::save::SnapshotFile;
use hla_rti::exception::{Details, ExceptionData};
use hla_rti::fom::{ClassDef, DimensionDef, MemberDef, MergedFom};
use hla_rti::frames::{
    Frame, FrameHeader, FramePayload, MessageType, StatusReason, FEDERATE_PROTOCOL_VERSION,
    NO_SESSION_ID,
};
use hla_rti::messages::{
    AdvanceForm, CallRequest, CallResponse, CreateForm, HandleValueField, JoinForm, Payload,
    Service, SubscribeForm,
};
use hla_rti::modules::{module_text, not_utf8_text, parse_fault};
use hla_rti::node::Limit;
use hla_rti::routing::Outbox;
use hla_rti::session::SessionContext;
use hla_rti::sessions::{InboundFrame, Opening, OpeningFrame, SessionEvent};
use hla_rti::{Federation, HeartbeatConfig, HlaException, RtiNode, SECOND};
use std::sync::Arc;

const LOCALHOST: (u8, u128) = (4, 0x7f00_0001);
const MILLISECOND: u128 = SECOND / 1000;

/// A node, the frames that are on their way to its clients, and its clock.
struct Hub {
    node: RtiNode,
    now: u128,
    next_connection: u64,
    next_callback: i32,
    frames: Vec<Frame>,
    file: Option<SnapshotFile>,
}

/// A client with an open session.
struct Client {
    ctx: SessionContext,
    next_outbound: i32,
    heartbeat: HeartbeatConfig,
}

fn class(handle: u32, name: &str, parent: Option<&str>, members: &[&str]) -> ClassDef {
    ClassDef {
        handle,
        name: name.to_string(),
        parent: parent.map(|p| p.to_string()),
        members: members.iter().map(|m| m.to_string()).collect(),
    }
}

fn member(class: u32, name: &str, handle: u32) -> MemberDef {
    MemberDef { class, name: name.to_string(), handle }
}

/// Food with a color, drinks with a number of cups, an announcement of what is
/// served, and two dimensions.
fn sushi() -> MergedFom {
    MergedFom {
        object_classes: vec![
            class(1, "HLAobjectRoot", None, &[]),
            class(2, "HLAobjectRoot.Food", Some("HLAobjectRoot"), &["Color"]),
            class(3, "HLAobjectRoot.Food.Drink", Some("HLAobjectRoot.Food"), &["NumberCups"]),
        ],
        attributes: vec![member(2, "Color", 1), member(3, "NumberCups", 2)],
        interaction_classes: vec![
            class(1, "HLAinteractionRoot", None, &[]),
            class(
                2,
                "HLAinteractionRoot.FoodServed",
                Some("HLAinteractionRoot"),
                &["FoodType"],
            ),
        ],
        parameters: vec![member(2, "FoodType", 1)],
        dimensions: vec![
            DimensionDef { name: "BarQuantity".to_string(), handle: 1 },
            DimensionDef { name: "WaiterId".to_string(), handle: 2 },
        ],
    }
}

fn nothing_outside() -> Outside {
    Outside {
        modules: ModuleLoad { faults: Vec::new(), merged: Ok(Arc::new(MergedFom::new())) },
        snapshot: SnapshotLoad::NotFound,
    }
}

impl Hub {
    fn new() -> Hub {
        let mut node = RtiNode::new();
        node.set_default_fom(sushi());
        Hub {
            node,
            now: 1000 * SECOND,
            next_connection: 1,
            next_callback: 0,
            frames: Vec::new(),
            file: None,
        }
    }

    fn opening(message_type: MessageType, session_id: u64) -> OpeningFrame {
        OpeningFrame {
            message_type,
            sequence_number: 0,
            session_id,
            protocol_version: FEDERATE_PROTOCOL_VERSION,
        }
    }

    fn connect(&mut self, ctx: SessionContext) -> Client {
        let connection = self.next_connection;
        self.next_connection += 1;
        let heartbeat = self.node.session_opened(ctx.session_id, connection);
        Client { ctx, next_outbound: 1, heartbeat }
    }

    fn try_open(&mut self) -> Result<Client, Limit> {
        let candidate = self.node.accept_connection(LOCALHOST)?;
        let first = Hub::opening(MessageType::CtrlNewSession, NO_SESSION_ID);
        match self.node.open_session(candidate, &first, self.now) {
            Opening::Opened { reply, ctx } => {
                assert_eq!(
                    reply.header,
                    FrameHeader {
                        sequence_number: None,
                        session_id: candidate,
                        last_received_sequence_number: Some(0),
                        message_type: MessageType::CtrlNewSessionStatus,
                    }
                );
                assert!(matches!(reply.payload, FramePayload::Status(StatusReason::Success)));
                Ok(self.connect(ctx))
            },
            other => panic!("expected an open session, got {other:?}"),
        }
    }

    fn open(&mut self) -> Client {
        match self.try_open() {
            Ok(client) => client,
            Err(limit) => panic!("refused by {}", limit.name()),
        }
    }

    fn event(
        &mut self,
        client: &mut Client,
        event: SessionEvent,
        outside: &Outside,
    ) -> (Option<Frame>, bool) {
        let step = self.node.session_step(&mut client.ctx, &event, outside);
        self.file = step.file;
        self.deliver(step.callbacks);
        (step.reply, step.close)
    }

    fn deliver(&mut self, callbacks: Outbox) {
        for callback in callbacks.into_vec() {
            let number = self.next_callback;
            self.next_callback += 1;
            self.frames.push(callback.into_frame(number));
        }
    }

    fn control(&mut self, client: &mut Client, message_type: MessageType) -> (Option<Frame>, bool) {
        let frame = InboundFrame { message_type, sequence_number: 1, call: Ok(None) };
        self.event(client, SessionEvent::Inbound(frame), &nothing_outside())
    }

    fn call_with(
        &mut self,
        client: &mut Client,
        request: CallRequest,
        outside: &Outside,
    ) -> CallResponse {
        let number = client.next_outbound;
        client.next_outbound += 1;
        let frame = InboundFrame {
            message_type: MessageType::HlaCallRequest,
            sequence_number: number,
            call: Ok(Some(request)),
        };
        let (reply, close) = self.event(client, SessionEvent::Inbound(frame), outside);
        assert!(!close);
        let reply = reply.expect("no response");
        assert_eq!(
            reply.header,
            FrameHeader {
                sequence_number: None,
                session_id: client.ctx.session_id,
                last_received_sequence_number: Some(number),
                message_type: MessageType::HlaCallResponse,
            }
        );
        match reply.payload {
            FramePayload::Response { response_to_sequence_number, response } => {
                assert_eq!(response_to_sequence_number, number);
                response
            },
            other => panic!("expected a response, got {other:?}"),
        }
    }

    fn call(&mut self, client: &mut Client, request: CallRequest) -> CallResponse {
        self.call_with(client, request, &nothing_outside())
    }

    /// The connection of a client is lost.
    fn drop_client(&mut self, client: Client) {
        let window = client.heartbeat.reconnect_window;
        let callbacks = self.node.close_session(&client.ctx, window, self.now);
        self.deliver(callbacks);
        self.node.release_connection(LOCALHOST);
    }

    fn callbacks(&mut self, client: &Client) -> Vec<Arc<CallbackRequest>> {
        let mut mine = Vec::new();
        let mut others = Vec::new();
        for frame in self.frames.drain(..) {
            if frame.header.session_id == client.ctx.session_id {
                assert_eq!(frame.header.message_type, MessageType::HlaCallbackRequest);
                match frame.payload {
                    FramePayload::Callback(c) => mine.push(c),
                    other => panic!("expected a callback, got {other:?}"),
                }
            } else {
                others.push(frame);
            }
        }
        self.frames = others;
        mine
    }

    fn callback(&mut self, client: &Client) -> Arc<CallbackRequest> {
        let mut all = self.callbacks(client);
        assert_eq!(all.len(), 1, "{all:?}");
        all.remove(0)
    }

    fn create(&mut self, client: &mut Client, name: &str) -> CallResponse {
        self.call(
            client,
            CallRequest::CreateFederationExecution {
                create_form: CreateForm::Plain,
                federation_name: name.to_string(),
                fom_modules: Vec::new(),
                mim_module: None,
            },
        )
    }

    fn join(&mut self, client: &mut Client, name: &str) -> CallResponse {
        self.call(
            client,
            CallRequest::JoinFederationExecution {
                join_form: JoinForm::Plain,
                federation_name: name.to_string(),
            },
        )
    }

    fn join_named(&mut self, client: &mut Client, name: &str, federate: &str) -> CallResponse {
        self.call(
            client,
            CallRequest::JoinFederationExecution {
                join_form: JoinForm::WithName(federate.to_string()),
                federation_name: name.to_string(),
            },
        )
    }

    /// Opens a session and joins a federation, which is created where it does not
    /// exist.
    fn member(&mut self, name: &str) -> Client {
        let mut client = self.open();
        let _ = self.create(&mut client, name);
        joined(self.join(&mut client, name));
        client
    }

    fn federation(&self, name: &str) -> &Federation {
        let id = self.node.find_federation(name).expect("no such federation");
        self.node.federations.get(id).expect("no such federation")
    }

    fn drink_and_cups(&mut self, client: &mut Client) -> (Vec<u8>, Vec<u8>) {
        let drink = handle(self.call(
            client,
            CallRequest::GetObjectClassHandle {
                object_class_name: "HLAobjectRoot.Food.Drink".to_string(),
            },
        ));
        let cups = handle(self.call(
            client,
            CallRequest::GetAttributeHandle {
                object_class: Some(drink.clone()),
                attribute_name: "NumberCups".to_string(),
            },
        ));
        (drink, cups)
    }

    fn food_served(&mut self, client: &mut Client) -> (Vec<u8>, Vec<u8>) {
        let served = handle(self.call(
            client,
            CallRequest::GetInteractionClassHandle {
                interaction_class_name: "HLAinteractionRoot.FoodServed".to_string(),
            },
        ));
        let food_type = handle(self.call(
            client,
            CallRequest::GetParameterHandle {
                interaction_class: Some(served.clone()),
                parameter_name: "FoodType".to_string(),
            },
        ));
        (served, food_type)
    }

    fn subscribe(&mut self, client: &mut Client, object_class: &[u8], attributes: &[&[u8]]) {
        let r = self.call(
            client,
            CallRequest::SubscribeObjectClassAttributes {
                subscribe_form: SubscribeForm::Plain,
                object_class: Some(object_class.to_vec()),
                attributes: Some(attributes.iter().map(|a| a.to_vec()).collect()),
            },
        );
        assert_eq!(done(r), Service::SubscribeObjectClassAttributes);
    }

    fn publish(&mut self, client: &mut Client, object_class: &[u8], attributes: &[&[u8]]) {
        let r = self.call(
            client,
            CallRequest::PublishObjectClassAttributes {
                object_class: Some(object_class.to_vec()),
                attributes: Some(attributes.iter().map(|a| a.to_vec()).collect()),
            },
        );
        assert_eq!(done(r), Service::PublishObjectClassAttributes);
    }

    fn register(&mut self, client: &mut Client, object_class: &[u8]) -> Vec<u8> {
        handle(self.call(
            client,
            CallRequest::RegisterObjectInstance { object_class: Some(object_class.to_vec()) },
        ))
    }

    fn update(
        &mut self,
        client: &mut Client,
        instance: &[u8],
        attribute: &[u8],
        value: &[u8],
        tag: &[u8],
    ) -> CallResponse {
        self.call(
            client,
            CallRequest::UpdateAttributeValues {
                object_instance: Some(instance.to_vec()),
                attribute_values: Some(vec![value_of(attribute, value)]),
                user_supplied_tag: tag.to_vec(),
            },
        )
    }

    fn regulate(&mut self, client: &mut Client, lookahead: f64) -> CallResponse {
        self.call(client, CallRequest::EnableTimeRegulation { lookahead: Some(stamp(lookahead)) })
    }

    fn constrain(&mut self, client: &mut Client) -> CallResponse {
        self.call(client, CallRequest::EnableTimeConstrained)
    }

    fn advance(&mut self, client: &mut Client, time: f64) -> CallResponse {
        self.call(
            client,
            CallRequest::TimeAdvance {
                advance_form: AdvanceForm::TimeAdvanceRequest,
                time: Some(stamp(time)),
            },
        )
    }
}

fn value_of(handle: &[u8], value: &[u8]) -> HandleValueField {
    HandleValueField { handle: Some(handle.to_vec()), value: value.to_vec() }
}

fn stamp(t: f64) -> Vec<u8> {
    t.to_be_bytes().to_vec()
}

fn time_in(b: &[u8]) -> f64 {
    f64::from_be_bytes(b.try_into().expect("a time stamp has eight bytes"))
}

fn number32(b: &[u8]) -> u32 {
    u32::from_be_bytes(b.try_into().expect("a short handle has four bytes"))
}

fn number64(b: &[u8]) -> u64 {
    u64::from_be_bytes(b.try_into().expect("a long handle has eight bytes"))
}

fn done(r: CallResponse) -> Service {
    match r {
        CallResponse::Reply { service, payload: Payload::Empty } => service,
        other => panic!("expected an empty reply, got {other:?}"),
    }
}

fn handle(r: CallResponse) -> Vec<u8> {
    match r {
        CallResponse::Reply { payload: Payload::Handle(h), .. } => h,
        other => panic!("expected a handle, got {other:?}"),
    }
}

fn handles(r: CallResponse) -> Vec<Vec<u8>> {
    match r {
        CallResponse::Reply { payload: Payload::Handles(l), .. } => l,
        other => panic!("expected handles, got {other:?}"),
    }
}

fn text(r: CallResponse) -> String {
    match r {
        CallResponse::Reply { payload: Payload::Text(s), .. } => s,
        other => panic!("expected a text, got {other:?}"),
    }
}

fn flag(r: CallResponse) -> bool {
    match r {
        CallResponse::Reply { payload: Payload::Flag(b), .. } => b,
        other => panic!("expected a flag, got {other:?}"),
    }
}

fn joined(r: CallResponse) -> (Vec<u8>, String) {
    match r {
        CallResponse::Reply {
            service: Service::JoinFederationExecution(_),
            payload: Payload::Joined { federate_handle, logical_time_implementation_name },
        } => (federate_handle, logical_time_implementation_name),
        other => panic!("expected a join, got {other:?}"),
    }
}

fn refused(r: CallResponse) -> ExceptionData {
    match r {
        CallResponse::Exception(e) => e,
        other => panic!("expected an exception, got {other:?}"),
    }
}

fn details(e: &ExceptionData) -> &str {
    match &e.details {
        Details::Text(s) => s.as_str(),
        other => panic!("expected a text, got {other:?}"),
    }
}

fn bits(t: f64) -> u64 {
    t.to_bits()
}

#[test]
fn handles_are_big_endian() {
    assert_eq!(hla_rti::handles::encode_u32(0x0102_0304), [1, 2, 3, 4]);
    assert_eq!(hla_rti::handles::encode_u64(0x0102_0304_0506_0708), [1, 2, 3, 4, 5, 6, 7, 8]);
    for h in [0u32, 1, 255, 256, u32::MAX] {
        let b = hla_rti::handles::encode_object_class(h);
        assert_eq!(hla_rti::handles::decode_object_class(&b).ok(), Some(h));
        assert_eq!(b, h.to_be_bytes());
    }
    for h in [0u64, 1, u64::MAX] {
        let b = hla_rti::handles::encode_object_instance(h);
        assert_eq!(hla_rti::handles::decode_object_instance(&b).ok(), Some(h));
    }
    assert!(hla_rti::handles::decode_attribute(&[1, 2, 3]).is_err());
    assert!(hla_rti::handles::decode_object_instance(&[1, 2, 3, 4]).is_err());
}

#[test]
fn stamps_compare_like_the_numbers_they_are() {
    let all = [
        f64::NEG_INFINITY,
        -2.5,
        -0.0,
        0.0,
        f64::MIN_POSITIVE / 2.0,
        1.0,
        1.5,
        f64::MAX,
        f64::INFINITY,
        f64::NAN,
    ];
    for a in all {
        assert_eq!(hla_rti::logical_time::stamp_is_finite(bits(a)), a.is_finite());
        assert_eq!(hla_rti::logical_time::stamp_is_duration(bits(a)), a.is_finite() && a >= 0.0);
        for b in all {
            assert_eq!(hla_rti::logical_time::stamp_before(bits(a), bits(b)), a < b, "{a} {b}");
            assert_eq!(hla_rti::logical_time::stamp_not_after(bits(a), bits(b)), a <= b, "{a} {b}");
        }
    }
}

#[test]
fn sums_of_stamps_are_those_of_the_numbers() {
    let mut seed: u64 = 0x9e37_79b9_7f4a_7c15;
    let mut next = || {
        seed ^= seed << 13;
        seed ^= seed >> 7;
        seed ^= seed << 17;
        seed
    };
    let fixed = [
        0.0,
        1.0,
        0.1,
        0.2,
        1e-320,
        f64::MIN_POSITIVE,
        f64::MAX,
        9007199254740992.0,
        9007199254740993.0,
        1.0 + f64::EPSILON,
        f64::EPSILON / 2.0,
    ];
    let check = |a: f64, b: f64| {
        let sum = hla_rti::logical_time::stamp_plus(bits(a), bits(b));
        assert_eq!(sum, bits(a + b), "{a} + {b}");
    };
    for a in fixed {
        for b in fixed {
            check(a, b);
        }
    }
    for _ in 0..20000 {
        let a = f64::from_bits(next() >> 1);
        let b = f64::from_bits(next() >> 1);
        if a.is_finite() && b.is_finite() {
            check(a, b);
        }
        let near = f64::from_bits((bits(1.0) & !0xff) ^ (next() >> 10));
        let other = f64::from_bits((bits(1.0) & !0xff) ^ (next() >> 9));
        if near.is_finite() && other.is_finite() && near >= 0.0 && other >= 0.0 {
            check(near, other);
        }
    }
}

#[test]
fn numbers_are_written_out() {
    assert_eq!(hla_rti::text::decimal(0), "0");
    assert_eq!(hla_rti::text::decimal(18446744073709551615), "18446744073709551615");
    assert_eq!(hla_rti::text::signed_decimal(-2147483648), "-2147483648");
    assert_eq!(hla_rti::text::signed_decimal(42), "42");
    assert_eq!(hla_rti::text::joined("a", "\u{e9}b"), "a\u{e9}b");
    assert!(hla_rti::text::same_text("ab", "ab"));
    assert!(!hla_rti::text::same_text("ab", "abc"));
}

#[test]
fn tables_keep_one_value_for_each_key_in_order() {
    let mut t: hla_rti::tables::Table<u32, u64> = hla_rti::tables::Table::new();
    for (k, v) in [(5, 50), (1, 10), (3, 30), (1, 11)] {
        t.insert(k, v);
    }
    assert_eq!(t.len(), 3);
    assert_eq!(t.keys(), [1, 3, 5]);
    assert_eq!(t.get(1), Some(&11));
    assert_eq!(t.remove(3), Some(30));
    assert_eq!(t.get(3), None);
    assert!(!t.contains_key(3));
    let mut s: hla_rti::tables::KeySet<u64> = hla_rti::tables::KeySet::new();
    assert!(s.is_empty());
    assert!(s.insert(9));
    assert!(!s.insert(9));
    assert!(s.insert(2));
    assert_eq!(s.members(), [2, 9]);
    assert!(s.remove(9));
    assert!(!s.contains(9));
    assert_eq!(s.len(), 1);
}

#[test]
fn connections_are_kept_by_session() {
    let mut c = hla_rti::connections::Connections::new();
    assert_eq!(c.len(), 0);
    c.insert(1, 10);
    c.insert(2, 20);
    c.insert(1, 11);
    assert_eq!(c.len(), 2);
    assert_eq!(c.get(1).map(|h| (h.session_id, h.connection)), Some((1, 11)));
    c.remove(1);
    assert_eq!(c.get(1), None);
    assert_eq!(c.len(), 1);
}

#[test]
fn suspended_sessions_are_kept_until_taken() {
    let mut s = hla_rti::connections::SuspendedSessions::new();
    let m = hla_rti::session::Membership { federation: 3, federate_handle: 4 };
    s.insert(1, m, 100);
    s.insert(2, m, 200);
    assert_eq!(s.len(), 2);
    assert_eq!(s.get(1).map(|e| (e.membership, e.deadline)), Some((Some(m), 100)));
    assert_eq!(s.expired(99), Vec::<u64>::new());
    assert_eq!(s.expired(100), [1]);
    let mut all = s.expired(1000);
    all.sort();
    assert_eq!(all, [1, 2]);
    assert_eq!(s.remove(1).map(|e| e.deadline), Some(100));
    assert!(s.remove(1).is_none());
    assert!(s.get(1).is_none());
    assert_eq!(s.len(), 1);
}

#[test]
fn the_chain_of_a_class_leads_to_the_root() {
    let fom = sushi();
    assert_eq!(fom.inheritance_chain(3), [3, 2, 1]);
    assert_eq!(fom.inheritance_chain(1), [1]);
    assert_eq!(fom.interaction_chain(2), [2, 1]);
    assert_eq!(fom.object_class_handle("HLAobjectRoot.Food"), Some(2));
    assert_eq!(fom.object_class_handle("Food"), None);
    assert_eq!(fom.attribute_handle(3, "NumberCups"), Some(2));
}

#[test]
fn exceptions_have_their_names() {
    assert_eq!(HlaException::NameNotFound.name(), "NameNotFound");
    assert_eq!(HlaException::CouldNotOpenFdd.name(), "CouldNotOpenFDD");
    assert_eq!(HlaException::RtiInternalError.name(), "RTIinternalError");
}

#[test]
fn exceptions_have_names_of_their_own() {
    let all = [
        HlaException::AttributeNotDefined,
        HlaException::AttributeNotOwned,
        HlaException::CouldNotOpenFdd,
        HlaException::DeletePrivilegeNotHeld,
        HlaException::ErrorReadingFdd,
        HlaException::FederateAlreadyExecutionMember,
        HlaException::FederateNameAlreadyInUse,
        HlaException::FederateNotExecutionMember,
        HlaException::FederateNotInSaveInitiated,
        HlaException::FederateNotInSaveSet,
        HlaException::FederateNotInSynchronizationGroup,
        HlaException::FederatesCurrentlyJoined,
        HlaException::FederationExecutionAlreadyExists,
        HlaException::FederationExecutionDoesNotExist,
        HlaException::InteractionClassNotDefined,
        HlaException::InteractionClassNotPublished,
        HlaException::InteractionParameterNotDefined,
        HlaException::InTimeAdvancingState,
        HlaException::InvalidAttributeHandle,
        HlaException::InvalidDimension,
        HlaException::InvalidDimensionHandle,
        HlaException::InvalidFederateHandle,
        HlaException::InvalidInteractionClassHandle,
        HlaException::InvalidLogicalTime,
        HlaException::InvalidLookahead,
        HlaException::InvalidObjectClassHandle,
        HlaException::InvalidObjectInstanceHandle,
        HlaException::InvalidOrderName,
        HlaException::InvalidOrderType,
        HlaException::InvalidParameterHandle,
        HlaException::InvalidRangeBound,
        HlaException::InvalidRegion,
        HlaException::InvalidResignAction,
        HlaException::InvalidRestoreLabel,
        HlaException::InvalidSaveLabel,
        HlaException::InvalidSynchronizationPointLabel,
        HlaException::InvalidTransportationName,
        HlaException::InvalidTransportationTypeHandle,
        HlaException::LogicalTimeAlreadyPassed,
        HlaException::NameNotFound,
        HlaException::ObjectClassNotDefined,
        HlaException::ObjectClassNotPublished,
        HlaException::ObjectInstanceNameInUse,
        HlaException::ObjectInstanceNotKnown,
        HlaException::RegionNotCreatedByThisFederate,
        HlaException::RestoreInProgress,
        HlaException::RestoreNotInProgress,
        HlaException::RtiInternalError,
        HlaException::SaveInProgress,
        HlaException::SaveNotInProgress,
        HlaException::SynchronizationPointLabelNotAnnounced,
        HlaException::TimeConstrainedAlreadyEnabled,
        HlaException::TimeConstrainedIsNotEnabled,
        HlaException::TimeRegulationAlreadyEnabled,
        HlaException::TimeRegulationIsNotEnabled,
    ];
    let mut seen: Vec<&str> = Vec::new();
    for e in all {
        assert!(!seen.contains(&e.name()), "{e:?}");
        seen.push(e.name());
        match e {
            HlaException::CouldNotOpenFdd => assert_eq!(e.name(), "CouldNotOpenFDD"),
            HlaException::ErrorReadingFdd => assert_eq!(e.name(), "ErrorReadingFDD"),
            HlaException::RtiInternalError => assert_eq!(e.name(), "RTIinternalError"),
            _ => assert_eq!(e.name(), format!("{e:?}")),
        }
    }
    assert_eq!(seen.len(), 55);
}

#[test]
fn the_content_of_a_module_is_text() {
    assert_eq!(module_text("m.xml", "<x>\u{e9}</x>".as_bytes()), Ok("<x>\u{e9}</x>".to_string()));
    assert_eq!(module_text("m.xml", &[]), Ok(String::new()));
    assert_eq!(
        module_text("m \"1\".xml", &[b'a', 0xff, b'b']),
        Err("FOM module \"m \\\"1\\\".xml\" content is not UTF-8: \
             invalid utf-8 sequence of 1 bytes from index 1"
            .to_string())
    );
    assert_eq!(
        module_text("m", &[b'a', 0xe2, 0x82]),
        Err("FOM module \"m\" content is not UTF-8: \
             incomplete utf-8 byte sequence from index 1"
            .to_string())
    );
    assert_eq!(not_utf8_text("q", "w"), "FOM module q content is not UTF-8: w");
    assert_eq!(parse_fault("m.xml", "no root"), "m.xml: no root");
}

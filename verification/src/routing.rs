//! Routing of callbacks to federates.

use crate::callbacks::{
    byte_lists, handle_values, CallbackRequest, CallbackView, FederationInformation,
    FederationInformationView, FederationMember, FederationMemberView, HandleValue, HandleValueView,
};
use crate::connections::{ConnectionHandle, Connections};
use crate::exception::HlaException;
use crate::federation::{share, FederateSession, FederateView, Federation, FederationView};
use crate::frames::{
    initiative, Frame, FrameHeader, FramePayload, FramePayloadView, MessageType,
};
use crate::fom::chain;
use crate::handles::{
    bytes_of_u32, bytes_of_u64, decode_u64, encode_attribute, encode_federate,
    encode_interaction_class, encode_object_class, encode_object_instance, encode_u64, handle64,
    AttributeHandle, FederateHandle, HandleError, InteractionClassHandle, ObjectClassHandle,
    ObjectInstanceHandle,
};
use crate::subscriptions::lemma_handles_finite;
use crate::tables::{ascending, lemma_ascending, KeySet, Table};
use crate::text::{copy_bytes, copy_text};
use std::sync::Arc;
use vstd::prelude::*;

verus! {

/// The name of the time representation of every federation.
pub const TIME_IMPLEMENTATION: &'static str = "HLAfloat64Time";

/// The order type of messages with a time stamp.
pub const TIME_STAMP_ORDER: i32 = 1;

/// The federates that subscribe to one of `attrs` at one of `classes`.
pub open spec fn subscribers_at(
    fed: FederationView,
    classes: Seq<u32>,
    attrs: Seq<u32>,
    exclude: Option<u32>,
) -> Set<u32> {
    Set::new(
        |f: u32|
            Some(f) != exclude && exists|c: u32, a: u32|
                classes.contains(c) && attrs.contains(a) && #[trigger]
                fed.subscriptions.attributes.contains((c, a, f)),
    )
}

/// The federates that subscribe to one of `attrs` at a class or an ancestor.
pub open spec fn attribute_audience(
    fed: FederationView,
    class: u32,
    attrs: Seq<u32>,
    exclude: Option<u32>,
) -> Set<u32> {
    subscribers_at(fed, chain(fed.fom.object_classes, class), attrs, exclude)
}

/// The federates that subscribe to one of the given interaction classes.
pub open spec fn interaction_subscribers_at(
    fed: FederationView,
    classes: Seq<u32>,
    exclude: Option<u32>,
) -> Set<u32> {
    Set::new(
        |f: u32|
            Some(f) != exclude && exists|c: u32|
                classes.contains(c) && #[trigger] fed.subscriptions.interactions.contains((c, f)),
    )
}

/// The federates that subscribe to an interaction class or an ancestor.
pub open spec fn interaction_audience(
    fed: FederationView,
    class: u32,
    exclude: Option<u32>,
) -> Set<u32> {
    interaction_subscribers_at(fed, chain(fed.fom.interaction_classes, class), exclude)
}

/// The federates that subscribe to one of `attrs` at `class` or an ancestor,
/// without `exclude`.
pub fn subscribers_for_attributes(
    federation: &Federation,
    class: ObjectClassHandle,
    attrs: &Vec<AttributeHandle>,
    exclude: Option<FederateHandle>,
) -> (r: KeySet<FederateHandle>)
    ensures
        r@ == attribute_audience(federation@, class, attrs@, exclude),
{
    let classes = federation.fom.inheritance_chain(class);
    let mut out: KeySet<u32> = KeySet::new();
    let mut i: usize = 0;
    while i < classes.len()
        invariant
            i <= classes@.len(),
            out@ =~= subscribers_at(federation@, classes@.take(i as int), attrs@, None),
        decreases classes@.len() - i,
    {
        let mut j: usize = 0;
        while j < attrs.len()
            invariant
                i < classes@.len(),
                j <= attrs@.len(),
                out@ =~= subscribers_at(federation@, classes@.take(i as int), attrs@, None).union(
                    subscribers_at(
                        federation@,
                        seq![classes@[i as int]],
                        attrs@.take(j as int),
                        None,
                    ),
                ),
            decreases attrs@.len() - j,
        {
            let found = federation.subscriptions.subscribers_of_attribute(classes[i], attrs[j]);
            proof {
                let c = classes@[i as int];
                let a = attrs@[j as int];
                let before = attrs@.take(j as int);
                let after = attrs@.take(j + 1);
                assert(after =~= before.push(a));
                assert forall|f: u32|
                    subscribers_at(federation@, seq![c], after, None).contains(f) <==> (
                    subscribers_at(federation@, seq![c], before, None).contains(f) || found@.contains(
                        f,
                    )) by {
                    lemma_push_contains(before, a);
                    assert(seq![c][0] == c);
                    if found@.contains(f) {
                        assert(after[j as int] == a);
                        assert(federation@.subscriptions.attributes.contains((c, a, f)));
                    }
                }
            }
            out.extend(&found);
            j = j + 1;
        }
        proof {
            let c = classes@[i as int];
            let before = classes@.take(i as int);
            let after = classes@.take(i + 1);
            assert(after =~= before.push(c));
            assert(attrs@.take(j as int) =~= attrs@);
            assert forall|f: u32|
                subscribers_at(federation@, after, attrs@, None).contains(f) <==> (subscribers_at(
                    federation@,
                    before,
                    attrs@,
                    None,
                ).contains(f) || subscribers_at(federation@, seq![c], attrs@, None).contains(f)) by {
                lemma_push_contains(before, c);
                assert(seq![c][0] == c);
                assert(after[i as int] == c);
            }
        }
        i = i + 1;
    }
    assert(classes@.take(i as int) =~= classes@);
    if let Some(x) = exclude {
        out.remove(x);
    }
    assert(out@ =~= attribute_audience(federation@, class, attrs@, exclude));
    out
}

/// What a list contains after one more element.
proof fn lemma_push_contains<A>(s: Seq<A>, a: A)
    ensures
        forall|x: A| #[trigger] s.push(a).contains(x) <==> s.contains(x) || x == a,
{
    assert forall|x: A| #[trigger] s.push(a).contains(x) <==> s.contains(x) || x == a by {
        if s.contains(x) {
            let i = s.index_of(x);
            assert(s.push(a)[i] == x);
        }
        if x == a {
            assert(s.push(a)[s.len() as int] == x);
        }
    }
}

/// The federates that subscribe to an interaction class or an ancestor, without
/// `exclude`.
pub fn subscribers_for_interaction(
    federation: &Federation,
    class: InteractionClassHandle,
    exclude: Option<FederateHandle>,
) -> (r: KeySet<FederateHandle>)
    ensures
        r@ == interaction_audience(federation@, class, exclude),
{
    let classes = federation.fom.interaction_chain(class);
    let mut out: KeySet<u32> = KeySet::new();
    let mut i: usize = 0;
    while i < classes.len()
        invariant
            i <= classes@.len(),
            out@ =~= interaction_subscribers_at(federation@, classes@.take(i as int), None),
        decreases classes@.len() - i,
    {
        let found = federation.subscriptions.subscribers_of_interaction(classes[i]);
        proof {
            let c = classes@[i as int];
            let before = classes@.take(i as int);
            let after = classes@.take(i + 1);
            assert(after =~= before.push(c));
            assert forall|f: u32|
                interaction_subscribers_at(federation@, after, None).contains(f) <==> (
                interaction_subscribers_at(federation@, before, None).contains(f)
                    || found@.contains(f)) by {
                lemma_push_contains(before, c);
                assert(after[i as int] == c);
                if found@.contains(f) {
                    assert(federation@.subscriptions.interactions.contains((c, f)));
                }
            }
        }
        out.extend(&found);
        i = i + 1;
    }
    assert(classes@.take(i as int) =~= classes@);
    if let Some(x) = exclude {
        out.remove(x);
    }
    assert(out@ =~= interaction_audience(federation@, class, exclude));
    out
}

/// The live connection of a federate.
pub open spec fn connection_of(
    conns: Map<u64, u64>,
    federates: Map<u32, FederateView>,
    f: u32,
) -> Option<ConnectionHandle> {
    if federates.contains_key(f) && conns.contains_key(federates[f].session_id) {
        Some(
            ConnectionHandle {
                session_id: federates[f].session_id,
                connection: conns[federates[f].session_id],
            },
        )
    } else {
        None
    }
}

/// The live connections of listed federates.
pub open spec fn connections_of(
    conns: Map<u64, u64>,
    federates: Map<u32, FederateView>,
    q: Seq<u32>,
) -> Seq<ConnectionHandle>
    decreases q.len(),
{
    if q.len() == 0 {
        Seq::empty()
    } else {
        let rest = connections_of(conns, federates, q.drop_last());
        match connection_of(conns, federates, q.last()) {
            Some(c) => rest.push(c),
            None => rest,
        }
    }
}

/// The live connections of a set of federates, in the order of their handles.
pub open spec fn live(
    conns: Map<u64, u64>,
    federates: Map<u32, FederateView>,
    set: Set<u32>,
) -> Seq<ConnectionHandle> {
    connections_of(conns, federates, ascending(set))
}

/// The live connections of a set of federates. A federate whose connection is
/// gone is left out.
pub fn live_connections(
    conns: &Connections,
    federates: &Table<u32, FederateSession>,
    set: &KeySet<FederateHandle>,
) -> (r: Vec<ConnectionHandle>)
    ensures
        r@ == live(conns@, federates@, set@),
{
    let members = set.members();
    let mut out: Vec<ConnectionHandle> = Vec::new();
    let mut i: usize = 0;
    while i < members.len()
        invariant
            i <= members@.len(),
            out@ == connections_of(conns@, federates@, members@.take(i as int)),
        decreases members@.len() - i,
    {
        proof {
            assert(members@.take(i + 1).drop_last() =~= members@.take(i as int));
        }
        if let Some(fs) = federates.get(members[i]) {
            if let Some(c) = conns.get(fs.session_id) {
                out.push(c);
            }
        }
        i = i + 1;
    }
    assert(members@.take(i as int) =~= members@);
    out
}

/// A callback that is to be delivered once the request is answered. All
/// recipients of one fan-out share one callback.
pub struct OutboundCallback {
    pub target: ConnectionHandle,
    pub callback: Arc<CallbackRequest>,
}

/// The mathematical content of [`OutboundCallback`].
#[verifier::ext_equal]
pub struct OutboundView {
    pub target: ConnectionHandle,
    pub callback: CallbackView,
}

impl View for OutboundCallback {
    type V = OutboundView;

    open spec fn view(&self) -> OutboundView {
        OutboundView { target: self.target, callback: self.callback@ }
    }
}

impl OutboundCallback {
    /// The frame that carries the callback, under the next number of the
    /// connection that it goes to.
    pub fn into_frame(self, sequence_number: i32) -> (r: Frame)
        ensures
            r@ == initiative(
                self@.target.session_id,
                sequence_number,
                MessageType::HlaCallbackRequest,
                FramePayloadView::Callback(self@.callback),
            ),
    {
        Frame {
            header: FrameHeader {
                sequence_number: Some(sequence_number),
                session_id: self.target.session_id,
                last_received_sequence_number: None,
                message_type: MessageType::HlaCallbackRequest,
            },
            payload: FramePayload::Callback(self.callback),
        }
    }
}

/// Callbacks in the order in which they are to be delivered.
pub struct Outbox {
    items: Vec<OutboundCallback>,
}

impl View for Outbox {
    type V = Seq<OutboundView>;

    closed spec fn view(&self) -> Seq<OutboundView> {
        self.items@.map_values(|o: OutboundCallback| o@)
    }
}

impl Outbox {
    /// No callbacks.
    pub fn new() -> (r: Self)
        ensures
            r@ == Seq::<OutboundView>::empty(),
    {
        let r = Outbox { items: Vec::new() };
        assert(r@ =~= Seq::<OutboundView>::empty());
        r
    }

    /// Adds a callback.
    pub fn push(&mut self, o: OutboundCallback)
        ensures
            final(self)@ == old(self)@.push(o@),
    {
        self.items.push(o);
        assert(self@ =~= old(self)@.push(o@));
    }

    /// The number of callbacks.
    pub fn len(&self) -> (r: usize)
        ensures
            r == self@.len(),
    {
        self.items.len()
    }

    /// The callbacks as a list.
    pub fn into_vec(self) -> (r: Vec<OutboundCallback>)
        ensures
            r@.map_values(|o: OutboundCallback| o@) == self@,
    {
        self.items
    }
}

/// One callback for each of the given connections.
pub open spec fn copies(targets: Seq<ConnectionHandle>, callback: CallbackView) -> Seq<
    OutboundView,
> {
    targets.map_values(|target: ConnectionHandle| OutboundView { target, callback })
}

/// One callback for each live connection of a set of federates.
pub open spec fn deliveries(
    conns: Map<u64, u64>,
    fed: FederationView,
    set: Set<u32>,
    callback: CallbackView,
) -> Seq<OutboundView> {
    copies(live(conns, fed.federates, set), callback)
}

/// Queues one callback for every given connection.
pub fn fan_out(out: &mut Outbox, targets: &Vec<ConnectionHandle>, callback: CallbackRequest)
    ensures
        final(out)@ == old(out)@ + copies(targets@, callback@),
{
    fan_out_shared(out, targets, &Arc::new(callback));
}

/// Queues one shared callback for every given connection.
pub fn fan_out_shared(
    out: &mut Outbox,
    targets: &Vec<ConnectionHandle>,
    callback: &Arc<CallbackRequest>,
)
    ensures
        final(out)@ == old(out)@ + copies(targets@, callback@),
{
    let mut i: usize = 0;
    assert(old(out)@ + copies(targets@.take(0), callback@) =~= old(out)@);
    while i < targets.len()
        invariant
            i <= targets@.len(),
            out@ == old(out)@ + copies(targets@.take(i as int), callback@),
        decreases targets@.len() - i,
    {
        proof {
            let o = OutboundView { target: targets@[i as int], callback: callback@ };
            assert(targets@.take(i + 1) =~= targets@.take(i as int).push(targets@[i as int]));
            assert(copies(targets@.take(i + 1), callback@) =~= copies(
                targets@.take(i as int),
                callback@,
            ).push(o));
            assert((old(out)@ + copies(targets@.take(i as int), callback@)).push(o) =~= old(out)@
                + copies(targets@.take(i + 1), callback@));
        }
        out.push(OutboundCallback { target: targets[i], callback: share(callback) });
        i = i + 1;
    }
    assert(targets@.take(i as int) =~= targets@);
}

/// Queues one callback for every live connection of a set of federates.
pub fn deliver(
    out: &mut Outbox,
    conns: &Connections,
    federation: &Federation,
    set: &KeySet<FederateHandle>,
    callback: CallbackRequest,
)
    ensures
        final(out)@ == old(out)@ + deliveries(conns@, federation@, set@, callback@),
{
    let targets = live_connections(conns, &federation.federates, set);
    fan_out(out, &targets, callback);
}

/// The wire form of values under handles, in the order of the handles.
pub open spec fn value_list(values: Map<u32, Seq<u8>>) -> Seq<HandleValueView> {
    ascending(values.dom()).map_values(
        |h: u32| HandleValueView { handle: bytes_of_u32(h), value: values[h] },
    )
}

fn encode_values(values: &Table<u32, Vec<u8>>) -> (r: Vec<HandleValue>)
    ensures
        handle_values(r@) == value_list(values@),
{
    let keys = values.keys();
    let mut out: Vec<HandleValue> = Vec::new();
    let mut i: usize = 0;
    while i < keys.len()
        invariant
            i <= keys@.len(),
            keys@ == ascending(values@.dom()),
            values@.dom().finite(),
            out@.len() == i,
            forall|j: int|
                0 <= j < i ==> (#[trigger] out@[j])@ == (HandleValueView {
                    handle: bytes_of_u32(keys@[j]),
                    value: values@[keys@[j]],
                }),
        decreases keys@.len() - i,
    {
        let h = keys[i];
        proof {
            lemma_ascending(values@.dom());
            assert(keys@.contains(h));
        }
        let value = match values.get(h) {
            Some(v) => copy_bytes(v.as_slice()),
            None => Vec::new(),
        };
        out.push(HandleValue { handle: encode_attribute(h), value });
        i = i + 1;
    }
    assert(handle_values(out@) =~= value_list(values@));
    out
}

/// The wire form of listed handles.
pub open spec fn handle_list(handles: Seq<u32>) -> Seq<Seq<u8>> {
    handles.map_values(|h: u32| bytes_of_u32(h))
}

/// The wire form of listed handles.
pub fn encode_handles(handles: &Vec<u32>) -> (r: Vec<Vec<u8>>)
    ensures
        byte_lists(r@) == handle_list(handles@),
{
    let mut out: Vec<Vec<u8>> = Vec::new();
    let mut i: usize = 0;
    while i < handles.len()
        invariant
            i <= handles@.len(),
            out@.len() == i,
            forall|j: int| 0 <= j < i ==> (#[trigger] out@[j])@ == bytes_of_u32(handles@[j]),
        decreases handles@.len() - i,
    {
        out.push(encode_attribute(handles[i]));
        i = i + 1;
    }
    assert(byte_lists(out@) =~= handle_list(handles@));
    out
}

/// The report on listed federations.
pub open spec fn federation_list(names: Seq<Seq<char>>) -> Seq<FederationInformationView> {
    names.map_values(
        |n: Seq<char>|
            FederationInformationView {
                federation_execution_name: n,
                logical_time_implementation_name: TIME_IMPLEMENTATION@,
            },
    )
}

fn describe_federations(names: &Vec<String>) -> (r: Vec<FederationInformation>)
    ensures
        r@.map_values(|m: FederationInformation| m@) == federation_list(
            names@.map_values(|s: String| s@),
        ),
{
    let mut out: Vec<FederationInformation> = Vec::new();
    let mut i: usize = 0;
    while i < names.len()
        invariant
            i <= names@.len(),
            out@.len() == i,
            forall|j: int|
                0 <= j < i ==> (#[trigger] out@[j])@ == (FederationInformationView {
                    federation_execution_name: names@[j]@,
                    logical_time_implementation_name: TIME_IMPLEMENTATION@,
                }),
        decreases names@.len() - i,
    {
        out.push(
            FederationInformation {
                federation_execution_name: names[i].clone(),
                logical_time_implementation_name: copy_text(TIME_IMPLEMENTATION),
            },
        );
        i = i + 1;
    }
    assert(out@.map_values(|m: FederationInformation| m@) =~= federation_list(
        names@.map_values(|s: String| s@),
    ));
    out
}

/// The wire form of a time stamp.
pub fn encode_logical_time(t: u64) -> (r: Vec<u8>)
    ensures
        r@ == bytes_of_u64(t),
{
    encode_u64(t)
}

/// The wire form of a time interval.
pub fn encode_logical_time_interval(d: u64) -> (r: Vec<u8>)
    ensures
        r@ == bytes_of_u64(d),
{
    encode_u64(d)
}

/// The time stamp in bytes.
pub fn decode_logical_time(p: &[u8]) -> (r: Result<u64, HandleError>)
    ensures
        r == (match handle64(p@) {
            Some(n) => Ok::<u64, HandleError>(n),
            None => Err(HandleError::Invalid(HlaException::InvalidLogicalTime)),
        }),
{
    decode_u64(p, HlaException::InvalidLogicalTime)
}

/// The time interval in bytes.
pub fn decode_logical_time_interval(p: &[u8]) -> (r: Result<u64, HandleError>)
    ensures
        r == (match handle64(p@) {
            Some(n) => Ok::<u64, HandleError>(n),
            None => Err(HandleError::Invalid(HlaException::InvalidLookahead)),
        }),
{
    decode_u64(p, HlaException::InvalidLookahead)
}

/// An instance became known.
pub open spec fn discover_object_instance_view(
    instance: u64,
    class: u32,
    name: Seq<char>,
    producer: u32,
) -> CallbackView {
    CallbackView::DiscoverObjectInstance {
        object_instance: bytes_of_u64(instance),
        object_class: bytes_of_u32(class),
        object_instance_name: name,
        producing_federate: bytes_of_u32(producer),
    }
}

/// An instance became known.
pub fn discover_object_instance(
    instance: ObjectInstanceHandle,
    class: u32,
    name: &str,
    producer: FederateHandle,
) -> (r: CallbackRequest)
    ensures
        r@ == discover_object_instance_view(instance, class, name@, producer),
{
    CallbackRequest::DiscoverObjectInstance {
        object_instance: encode_object_instance(instance),
        object_class: encode_object_class(class),
        object_instance_name: copy_text(name),
        producing_federate: encode_federate(producer),
    }
}

/// Attributes have new values at a time.
pub open spec fn reflect_attribute_values_with_time_view(
    instance: u64,
    values: Map<u32, Seq<u8>>,
    tag: Seq<u8>,
    producer: u32,
    time: u64,
) -> CallbackView {
    CallbackView::ReflectAttributeValuesWithTime {
        object_instance: bytes_of_u64(instance),
        attribute_values: value_list(values),
        user_supplied_tag: tag,
        producing_federate: bytes_of_u32(producer),
        time: bytes_of_u64(time),
        sent_order_type: TIME_STAMP_ORDER,
        received_order_type: TIME_STAMP_ORDER,
    }
}

/// Attributes have new values at a time.
pub fn reflect_attribute_values_with_time(
    instance: ObjectInstanceHandle,
    values: &Table<u32, Vec<u8>>,
    tag: &[u8],
    producer: FederateHandle,
    time: u64,
) -> (r: CallbackRequest)
    ensures
        r@ == reflect_attribute_values_with_time_view(instance, values@, tag@, producer, time),
{
    CallbackRequest::ReflectAttributeValuesWithTime {
        object_instance: encode_object_instance(instance),
        attribute_values: encode_values(values),
        user_supplied_tag: copy_bytes(tag),
        producing_federate: encode_federate(producer),
        time: encode_logical_time(time),
        sent_order_type: TIME_STAMP_ORDER,
        received_order_type: TIME_STAMP_ORDER,
    }
}

/// An interaction was sent at a time.
pub open spec fn receive_interaction_with_time_view(
    class: u32,
    params: Map<u32, Seq<u8>>,
    tag: Seq<u8>,
    producer: u32,
    time: u64,
) -> CallbackView {
    CallbackView::ReceiveInteractionWithTime {
        interaction_class: bytes_of_u32(class),
        parameter_values: value_list(params),
        user_supplied_tag: tag,
        producing_federate: bytes_of_u32(producer),
        time: bytes_of_u64(time),
        sent_order_type: TIME_STAMP_ORDER,
        received_order_type: TIME_STAMP_ORDER,
    }
}

/// An interaction was sent at a time.
pub fn receive_interaction_with_time(
    class: u32,
    params: &Table<u32, Vec<u8>>,
    tag: &[u8],
    producer: FederateHandle,
    time: u64,
) -> (r: CallbackRequest)
    ensures
        r@ == receive_interaction_with_time_view(class, params@, tag@, producer, time),
{
    CallbackRequest::ReceiveInteractionWithTime {
        interaction_class: encode_interaction_class(class),
        parameter_values: encode_values(params),
        user_supplied_tag: copy_bytes(tag),
        producing_federate: encode_federate(producer),
        time: encode_logical_time(time),
        sent_order_type: TIME_STAMP_ORDER,
        received_order_type: TIME_STAMP_ORDER,
    }
}

/// An instance was deleted at a time.
pub open spec fn remove_object_instance_with_time_view(
    instance: u64,
    tag: Seq<u8>,
    producer: u32,
    time: u64,
) -> CallbackView {
    CallbackView::RemoveObjectInstanceWithTime {
        object_instance: bytes_of_u64(instance),
        user_supplied_tag: tag,
        producing_federate: bytes_of_u32(producer),
        time: bytes_of_u64(time),
        sent_order_type: TIME_STAMP_ORDER,
        received_order_type: TIME_STAMP_ORDER,
    }
}

/// An instance was deleted at a time.
pub fn remove_object_instance_with_time(
    instance: ObjectInstanceHandle,
    tag: &[u8],
    producer: FederateHandle,
    time: u64,
) -> (r: CallbackRequest)
    ensures
        r@ == remove_object_instance_with_time_view(instance, tag@, producer, time),
{
    CallbackRequest::RemoveObjectInstanceWithTime {
        object_instance: encode_object_instance(instance),
        user_supplied_tag: copy_bytes(tag),
        producing_federate: encode_federate(producer),
        time: encode_logical_time(time),
        sent_order_type: TIME_STAMP_ORDER,
        received_order_type: TIME_STAMP_ORDER,
    }
}

/// Attributes have new values.
pub open spec fn reflect_attribute_values_view(
    instance: u64,
    values: Map<u32, Seq<u8>>,
    tag: Seq<u8>,
    producer: u32,
) -> CallbackView {
    CallbackView::ReflectAttributeValues {
        object_instance: bytes_of_u64(instance),
        attribute_values: value_list(values),
        user_supplied_tag: tag,
        producing_federate: bytes_of_u32(producer),
    }
}

/// Attributes have new values.
pub fn reflect_attribute_values(
    instance: ObjectInstanceHandle,
    values: &Table<u32, Vec<u8>>,
    tag: &[u8],
    producer: FederateHandle,
) -> (r: CallbackRequest)
    ensures
        r@ == reflect_attribute_values_view(instance, values@, tag@, producer),
{
    CallbackRequest::ReflectAttributeValues {
        object_instance: encode_object_instance(instance),
        attribute_values: encode_values(values),
        user_supplied_tag: copy_bytes(tag),
        producing_federate: encode_federate(producer),
    }
}

/// An interaction was directed at an instance.
pub open spec fn receive_directed_interaction_view(
    class: u32,
    instance: u64,
    params: Map<u32, Seq<u8>>,
    tag: Seq<u8>,
    producer: u32,
) -> CallbackView {
    CallbackView::ReceiveDirectedInteraction {
        interaction_class: bytes_of_u32(class),
        object_instance: bytes_of_u64(instance),
        parameter_values: value_list(params),
        user_supplied_tag: tag,
        producing_federate: bytes_of_u32(producer),
    }
}

/// An interaction was directed at an instance.
pub fn receive_directed_interaction(
    class: u32,
    instance: ObjectInstanceHandle,
    params: &Table<u32, Vec<u8>>,
    tag: &[u8],
    producer: FederateHandle,
) -> (r: CallbackRequest)
    ensures
        r@ == receive_directed_interaction_view(class, instance, params@, tag@, producer),
{
    CallbackRequest::ReceiveDirectedInteraction {
        interaction_class: encode_interaction_class(class),
        object_instance: encode_object_instance(instance),
        parameter_values: encode_values(params),
        user_supplied_tag: copy_bytes(tag),
        producing_federate: encode_federate(producer),
    }
}

/// An interaction was sent.
pub open spec fn receive_interaction_view(
    class: u32,
    params: Map<u32, Seq<u8>>,
    tag: Seq<u8>,
    producer: u32,
) -> CallbackView {
    CallbackView::ReceiveInteraction {
        interaction_class: bytes_of_u32(class),
        parameter_values: value_list(params),
        user_supplied_tag: tag,
        producing_federate: bytes_of_u32(producer),
    }
}

/// An interaction was sent.
pub fn receive_interaction(
    class: u32,
    params: &Table<u32, Vec<u8>>,
    tag: &[u8],
    producer: FederateHandle,
) -> (r: CallbackRequest)
    ensures
        r@ == receive_interaction_view(class, params@, tag@, producer),
{
    CallbackRequest::ReceiveInteraction {
        interaction_class: encode_interaction_class(class),
        parameter_values: encode_values(params),
        user_supplied_tag: copy_bytes(tag),
        producing_federate: encode_federate(producer),
    }
}

/// An instance was deleted.
pub open spec fn remove_object_instance_view(
    instance: u64,
    tag: Seq<u8>,
    producer: u32,
) -> CallbackView {
    CallbackView::RemoveObjectInstance {
        object_instance: bytes_of_u64(instance),
        user_supplied_tag: tag,
        producing_federate: bytes_of_u32(producer),
    }
}

/// An instance was deleted.
pub fn remove_object_instance(
    instance: ObjectInstanceHandle,
    tag: &[u8],
    producer: FederateHandle,
) -> (r: CallbackRequest)
    ensures
        r@ == remove_object_instance_view(instance, tag@, producer),
{
    CallbackRequest::RemoveObjectInstance {
        object_instance: encode_object_instance(instance),
        user_supplied_tag: copy_bytes(tag),
        producing_federate: encode_federate(producer),
    }
}

/// The federates of a federation.
pub open spec fn report_federation_execution_members_view(
    federation_name: Seq<char>,
    members: Seq<FederationMemberView>,
) -> CallbackView {
    CallbackView::ReportFederationExecutionMembers {
        federation_name,
        members,
    }
}

/// The federates of a federation.
pub fn report_federation_execution_members(
    federation_name: &str,
    members: Vec<FederationMember>,
) -> (r: CallbackRequest)
    ensures
        r@ == report_federation_execution_members_view(federation_name@, members@.map_values(|m: FederationMember| m@)),
{
    CallbackRequest::ReportFederationExecutionMembers {
        federation_name: copy_text(federation_name),
        members,
    }
}

/// A federation does not exist.
pub open spec fn report_federation_execution_does_not_exist_view(
    federation_name: Seq<char>,
) -> CallbackView {
    CallbackView::ReportFederationExecutionDoesNotExist {
        federation_name,
    }
}

/// A federation does not exist.
pub fn report_federation_execution_does_not_exist(federation_name: &str) -> (r: CallbackRequest)
    ensures
        r@ == report_federation_execution_does_not_exist_view(federation_name@),
{
    CallbackRequest::ReportFederationExecutionDoesNotExist {
        federation_name: copy_text(federation_name),
    }
}

/// The federations of the node.
pub open spec fn report_federation_executions_view(federations: Seq<Seq<char>>) -> CallbackView {
    CallbackView::ReportFederationExecutions {
        federations: federation_list(federations),
    }
}

/// The federations of the node.
pub fn report_federation_executions(federations: &Vec<String>) -> (r: CallbackRequest)
    ensures
        r@ == report_federation_executions_view(federations@.map_values(|s: String| s@)),
{
    CallbackRequest::ReportFederationExecutions {
        federations: describe_federations(federations),
    }
}

/// Attributes were acquired.
pub open spec fn attribute_ownership_acquisition_notification_view(
    instance: u64,
    secured: Seq<u32>,
    tag: Seq<u8>,
) -> CallbackView {
    CallbackView::AttributeOwnershipAcquisitionNotification {
        object_instance: bytes_of_u64(instance),
        secured_attributes: handle_list(secured),
        user_supplied_tag: tag,
    }
}

/// Attributes were acquired.
pub fn attribute_ownership_acquisition_notification(
    instance: ObjectInstanceHandle,
    secured: &Vec<u32>,
    tag: &[u8],
) -> (r: CallbackRequest)
    ensures
        r@ == attribute_ownership_acquisition_notification_view(instance, secured@, tag@),
{
    CallbackRequest::AttributeOwnershipAcquisitionNotification {
        object_instance: encode_object_instance(instance),
        secured_attributes: encode_handles(secured),
        user_supplied_tag: copy_bytes(tag),
    }
}

/// Attributes have another owner.
pub open spec fn attribute_ownership_unavailable_view(
    instance: u64,
    unavailable: Seq<u32>,
    tag: Seq<u8>,
) -> CallbackView {
    CallbackView::AttributeOwnershipUnavailable {
        object_instance: bytes_of_u64(instance),
        attributes: handle_list(unavailable),
        user_supplied_tag: tag,
    }
}

/// Attributes have another owner.
pub fn attribute_ownership_unavailable(
    instance: ObjectInstanceHandle,
    unavailable: &Vec<u32>,
    tag: &[u8],
) -> (r: CallbackRequest)
    ensures
        r@ == attribute_ownership_unavailable_view(instance, unavailable@, tag@),
{
    CallbackRequest::AttributeOwnershipUnavailable {
        object_instance: encode_object_instance(instance),
        attributes: encode_handles(unavailable),
        user_supplied_tag: copy_bytes(tag),
    }
}

/// A restore was accepted.
pub open spec fn request_federation_restore_succeeded_view(label: Seq<char>) -> CallbackView {
    CallbackView::RequestFederationRestoreSucceeded {
        label,
    }
}

/// A restore was accepted.
pub fn request_federation_restore_succeeded(label: &str) -> (r: CallbackRequest)
    ensures
        r@ == request_federation_restore_succeeded_view(label@),
{
    CallbackRequest::RequestFederationRestoreSucceeded {
        label: copy_text(label),
    }
}

/// A restore was refused.
pub open spec fn request_federation_restore_failed_view(label: Seq<char>) -> CallbackView {
    CallbackView::RequestFederationRestoreFailed {
        label,
    }
}

/// A restore was refused.
pub fn request_federation_restore_failed(label: &str) -> (r: CallbackRequest)
    ensures
        r@ == request_federation_restore_failed_view(label@),
{
    CallbackRequest::RequestFederationRestoreFailed {
        label: copy_text(label),
    }
}

/// A restore began.
pub open spec fn federation_restore_begun_view() -> CallbackView {
    CallbackView::FederationRestoreBegun
}

/// A restore began.
pub fn federation_restore_begun() -> (r: CallbackRequest)
    ensures
        r@ == federation_restore_begun_view(),
{
    CallbackRequest::FederationRestoreBegun
}

/// A federate is to restore its state.
pub open spec fn initiate_federate_restore_view(
    label: Seq<char>,
    federate_name: Seq<char>,
    post_restore_handle: u32,
) -> CallbackView {
    CallbackView::InitiateFederateRestore {
        label,
        federate_name,
        post_restore_federate_handle: bytes_of_u32(post_restore_handle),
    }
}

/// A federate is to restore its state.
pub fn initiate_federate_restore(
    label: &str,
    federate_name: &str,
    post_restore_handle: FederateHandle,
) -> (r: CallbackRequest)
    ensures
        r@ == initiate_federate_restore_view(label@, federate_name@, post_restore_handle),
{
    CallbackRequest::InitiateFederateRestore {
        label: copy_text(label),
        federate_name: copy_text(federate_name),
        post_restore_federate_handle: encode_federate(post_restore_handle),
    }
}

/// A restore is complete.
pub open spec fn federation_restored_view() -> CallbackView {
    CallbackView::FederationRestored
}

/// A restore is complete.
pub fn federation_restored() -> (r: CallbackRequest)
    ensures
        r@ == federation_restored_view(),
{
    CallbackRequest::FederationRestored
}

/// A restore failed.
pub open spec fn federation_not_restored_view(reason: i32) -> CallbackView {
    CallbackView::FederationNotRestored {
        reason,
    }
}

/// A restore failed.
pub fn federation_not_restored(reason: i32) -> (r: CallbackRequest)
    ensures
        r@ == federation_not_restored_view(reason),
{
    CallbackRequest::FederationNotRestored {
        reason,
    }
}

/// A federate is to save its state.
pub open spec fn initiate_federate_save_view(label: Seq<char>) -> CallbackView {
    CallbackView::InitiateFederateSave {
        label,
    }
}

/// A federate is to save its state.
pub fn initiate_federate_save(label: &str) -> (r: CallbackRequest)
    ensures
        r@ == initiate_federate_save_view(label@),
{
    CallbackRequest::InitiateFederateSave {
        label: copy_text(label),
    }
}

/// A save is complete.
pub open spec fn federation_saved_view() -> CallbackView {
    CallbackView::FederationSaved
}

/// A save is complete.
pub fn federation_saved() -> (r: CallbackRequest)
    ensures
        r@ == federation_saved_view(),
{
    CallbackRequest::FederationSaved
}

/// A save failed.
pub open spec fn federation_not_saved_view(reason: i32) -> CallbackView {
    CallbackView::FederationNotSaved {
        reason,
    }
}

/// A save failed.
pub fn federation_not_saved(reason: i32) -> (r: CallbackRequest)
    ensures
        r@ == federation_not_saved_view(reason),
{
    CallbackRequest::FederationNotSaved {
        reason,
    }
}

/// Who owns attributes.
pub open spec fn inform_attribute_ownership_view(
    instance: u64,
    attributes: Seq<u32>,
    federate: u32,
) -> CallbackView {
    CallbackView::InformAttributeOwnership {
        object_instance: bytes_of_u64(instance),
        attributes: handle_list(attributes),
        federate: bytes_of_u32(federate),
    }
}

/// Who owns attributes.
pub fn inform_attribute_ownership(
    instance: ObjectInstanceHandle,
    attributes: &Vec<u32>,
    federate: FederateHandle,
) -> (r: CallbackRequest)
    ensures
        r@ == inform_attribute_ownership_view(instance, attributes@, federate),
{
    CallbackRequest::InformAttributeOwnership {
        object_instance: encode_object_instance(instance),
        attributes: encode_handles(attributes),
        federate: encode_federate(federate),
    }
}

/// Nobody owns attributes.
pub open spec fn attribute_is_not_owned_view(instance: u64, attributes: Seq<u32>) -> CallbackView {
    CallbackView::AttributeIsNotOwned {
        object_instance: bytes_of_u64(instance),
        attributes: handle_list(attributes),
    }
}

/// Nobody owns attributes.
pub fn attribute_is_not_owned(
    instance: ObjectInstanceHandle,
    attributes: &Vec<u32>,
) -> (r: CallbackRequest)
    ensures
        r@ == attribute_is_not_owned_view(instance, attributes@),
{
    CallbackRequest::AttributeIsNotOwned {
        object_instance: encode_object_instance(instance),
        attributes: encode_handles(attributes),
    }
}

/// A synchronization point was registered.
pub open spec fn synchronization_point_registration_succeeded_view(
    label: Seq<char>,
) -> CallbackView {
    CallbackView::SynchronizationPointRegistrationSucceeded {
        synchronization_point_label: label,
    }
}

/// A synchronization point was registered.
pub fn synchronization_point_registration_succeeded(label: &str) -> (r: CallbackRequest)
    ensures
        r@ == synchronization_point_registration_succeeded_view(label@),
{
    CallbackRequest::SynchronizationPointRegistrationSucceeded {
        synchronization_point_label: copy_text(label),
    }
}

/// A synchronization point was refused.
pub open spec fn synchronization_point_registration_failed_view(
    label: Seq<char>,
    reason: i32,
) -> CallbackView {
    CallbackView::SynchronizationPointRegistrationFailed {
        synchronization_point_label: label,
        reason,
    }
}

/// A synchronization point was refused.
pub fn synchronization_point_registration_failed(label: &str, reason: i32) -> (r: CallbackRequest)
    ensures
        r@ == synchronization_point_registration_failed_view(label@, reason),
{
    CallbackRequest::SynchronizationPointRegistrationFailed {
        synchronization_point_label: copy_text(label),
        reason,
    }
}

/// A synchronization point is announced.
pub open spec fn announce_synchronization_point_view(
    label: Seq<char>,
    tag: Seq<u8>,
) -> CallbackView {
    CallbackView::AnnounceSynchronizationPoint {
        synchronization_point_label: label,
        user_supplied_tag: tag,
    }
}

/// A synchronization point is announced.
pub fn announce_synchronization_point(label: &str, tag: &[u8]) -> (r: CallbackRequest)
    ensures
        r@ == announce_synchronization_point_view(label@, tag@),
{
    CallbackRequest::AnnounceSynchronizationPoint {
        synchronization_point_label: copy_text(label),
        user_supplied_tag: copy_bytes(tag),
    }
}

/// A synchronization point is achieved.
pub open spec fn federation_synchronized_view(
    label: Seq<char>,
    failed_set: Set<u32>,
) -> CallbackView {
    CallbackView::FederationSynchronized {
        synchronization_point_label: label,
        failed_to_sync_set: handle_list(ascending(failed_set)),
    }
}

/// A synchronization point is achieved.
pub fn federation_synchronized(label: &str, failed_set: &KeySet<u32>) -> (r: CallbackRequest)
    ensures
        r@ == federation_synchronized_view(label@, failed_set@),
{
    CallbackRequest::FederationSynchronized {
        synchronization_point_label: copy_text(label),
        failed_to_sync_set: encode_handles(&failed_set.members()),
    }
}

/// A class gained a subscriber.
pub open spec fn start_registration_for_object_class_view(class: u32) -> CallbackView {
    CallbackView::StartRegistrationForObjectClass {
        object_class: bytes_of_u32(class),
    }
}

/// A class gained a subscriber.
pub fn start_registration_for_object_class(class: u32) -> (r: CallbackRequest)
    ensures
        r@ == start_registration_for_object_class_view(class),
{
    CallbackRequest::StartRegistrationForObjectClass {
        object_class: encode_object_class(class),
    }
}

/// A class lost its last subscriber.
pub open spec fn stop_registration_for_object_class_view(class: u32) -> CallbackView {
    CallbackView::StopRegistrationForObjectClass {
        object_class: bytes_of_u32(class),
    }
}

/// A class lost its last subscriber.
pub fn stop_registration_for_object_class(class: u32) -> (r: CallbackRequest)
    ensures
        r@ == stop_registration_for_object_class_view(class),
{
    CallbackRequest::StopRegistrationForObjectClass {
        object_class: encode_object_class(class),
    }
}

/// An interaction class gained a subscriber.
pub open spec fn turn_interactions_on_view(class: u32) -> CallbackView {
    CallbackView::TurnInteractionsOn {
        interaction_class: bytes_of_u32(class),
    }
}

/// An interaction class gained a subscriber.
pub fn turn_interactions_on(class: u32) -> (r: CallbackRequest)
    ensures
        r@ == turn_interactions_on_view(class),
{
    CallbackRequest::TurnInteractionsOn {
        interaction_class: encode_interaction_class(class),
    }
}

/// An interaction class lost its last subscriber.
pub open spec fn turn_interactions_off_view(class: u32) -> CallbackView {
    CallbackView::TurnInteractionsOff {
        interaction_class: bytes_of_u32(class),
    }
}

/// An interaction class lost its last subscriber.
pub fn turn_interactions_off(class: u32) -> (r: CallbackRequest)
    ensures
        r@ == turn_interactions_off_view(class),
{
    CallbackRequest::TurnInteractionsOff {
        interaction_class: encode_interaction_class(class),
    }
}

/// A federate regulates time.
pub open spec fn time_regulation_enabled_view(time: u64) -> CallbackView {
    CallbackView::TimeRegulationEnabled {
        time: bytes_of_u64(time),
    }
}

/// A federate regulates time.
pub fn time_regulation_enabled(time: u64) -> (r: CallbackRequest)
    ensures
        r@ == time_regulation_enabled_view(time),
{
    CallbackRequest::TimeRegulationEnabled {
        time: encode_logical_time(time),
    }
}

/// A federate is time constrained.
pub open spec fn time_constrained_enabled_view(time: u64) -> CallbackView {
    CallbackView::TimeConstrainedEnabled {
        time: bytes_of_u64(time),
    }
}

/// A federate is time constrained.
pub fn time_constrained_enabled(time: u64) -> (r: CallbackRequest)
    ensures
        r@ == time_constrained_enabled_view(time),
{
    CallbackRequest::TimeConstrainedEnabled {
        time: encode_logical_time(time),
    }
}

/// A federate advanced to a time.
pub open spec fn time_advance_grant_view(time: u64) -> CallbackView {
    CallbackView::TimeAdvanceGrant {
        time: bytes_of_u64(time),
    }
}

/// A federate advanced to a time.
pub fn time_advance_grant(time: u64) -> (r: CallbackRequest)
    ensures
        r@ == time_advance_grant_view(time),
{
    CallbackRequest::TimeAdvanceGrant {
        time: encode_logical_time(time),
    }
}

proof fn lemma_connections_of(
    conns: Map<u64, u64>,
    federates: Map<u32, FederateView>,
    q: Seq<u32>,
)
    ensures
        connections_of(conns, federates, q).len() <= q.len(),
        forall|i: int|
            0 <= i < connections_of(conns, federates, q).len() ==> exists|f: u32| #[trigger]
                q.contains(f) && connection_of(conns, federates, f) == Some(
                    #[trigger] connections_of(conns, federates, q)[i],
                ),
        forall|f: u32| #[trigger]
            q.contains(f) && connection_of(conns, federates, f) is Some ==> connections_of(
                conns,
                federates,
                q,
            ).contains(connection_of(conns, federates, f)->0),
    decreases q.len(),
{
    if q.len() > 0 {
        let rest = q.drop_last();
        lemma_connections_of(conns, federates, rest);
        let all = connections_of(conns, federates, q);
        let few = connections_of(conns, federates, rest);
        assert(q.contains(q.last())) by {
            assert(q[q.len() - 1] == q.last());
        }
        assert forall|f: u32| #[trigger] rest.contains(f) implies q.contains(f) by {
            let k = rest.index_of(f);
            assert(q[k] == f);
        }
        assert forall|i: int| 0 <= i < all.len() implies exists|f: u32| #[trigger]
            q.contains(f) && connection_of(conns, federates, f) == Some(#[trigger] all[i]) by {
            if i < few.len() {
                assert(all[i] == few[i]);
                let f = choose|f: u32| #[trigger]
                    rest.contains(f) && connection_of(conns, federates, f) == Some(few[i]);
                assert(q.contains(f));
            }
        }
        assert forall|f: u32| #[trigger]
            q.contains(f) && connection_of(conns, federates, f) is Some implies all.contains(
            connection_of(conns, federates, f)->0,
        ) by {
            if f == q.last() {
                assert(all[all.len() - 1] == connection_of(conns, federates, f)->0);
            } else {
                let k = q.index_of(f);
                assert(rest[k] == f);
                assert(rest.contains(f));
                let i = few.index_of(connection_of(conns, federates, f)->0);
                assert(all[i] == few[i]);
            }
        }
    }
}

/// A callback to a set of federates goes to each of them that has a connection,
/// once, and to nobody else.
pub proof fn deliveries_reach_exactly_the_members(
    conns: Map<u64, u64>,
    fed: FederationView,
    set: Set<u32>,
    callback: CallbackView,
)
    ensures
        ({
            let sent = deliveries(conns, fed, set, callback);
            &&& sent.len() <= set.len()
            &&& forall|i: int|
                0 <= i < sent.len() ==> (#[trigger] sent[i]).callback == callback && exists|f: u32|
                    set.contains(f) && #[trigger] connection_of(conns, fed.federates, f) == Some(
                        sent[i].target,
                    )
            &&& forall|f: u32|
                set.contains(f) && (#[trigger] connection_of(conns, fed.federates, f)) is Some
                    ==> sent.contains(
                    OutboundView {
                        target: connection_of(conns, fed.federates, f)->0,
                        callback,
                    },
                )
        }),
{
    lemma_handles_finite(set);
    lemma_ascending(set);
    let q = ascending(set);
    lemma_connections_of(conns, fed.federates, q);
    let targets = live(conns, fed.federates, set);
    let sent = deliveries(conns, fed, set, callback);
    assert forall|i: int| 0 <= i < sent.len() implies (#[trigger] sent[i]).callback == callback
        && exists|f: u32|
        set.contains(f) && #[trigger] connection_of(conns, fed.federates, f) == Some(
            sent[i].target,
        ) by {
        assert(sent[i].target == targets[i]);
        let f = choose|f: u32| #[trigger]
            q.contains(f) && connection_of(conns, fed.federates, f) == Some(targets[i]);
        assert(set.contains(f));
        assert(connection_of(conns, fed.federates, f) == Some(sent[i].target));
    }
    assert forall|f: u32|
        set.contains(f) && (#[trigger] connection_of(
            conns,
            fed.federates,
            f,
        )) is Some implies sent.contains(
        OutboundView { target: connection_of(conns, fed.federates, f)->0, callback },
    ) by {
        assert(q.contains(f));
        let c = connection_of(conns, fed.federates, f)->0;
        let i = targets.index_of(c);
        assert(sent[i] == (OutboundView { target: c, callback }));
    }
}

/// What goes to a set of federates does not come to a federate outside it, as
/// long as no two federates share a session.
pub proof fn deliveries_pass_others_by(
    conns: Map<u64, u64>,
    fed: FederationView,
    set: Set<u32>,
    callback: CallbackView,
    other: u32,
)
    requires
        fed.federates.contains_key(other),
        !set.contains(other),
        forall|f: u32| #[trigger]
            fed.federates.contains_key(f) && f != other ==> fed.federates[f].session_id
                != fed.federates[other].session_id,
    ensures
        forall|i: int|
            0 <= i < deliveries(conns, fed, set, callback).len() ==> (#[trigger] deliveries(
                conns,
                fed,
                set,
                callback,
            )[i]).target.session_id != fed.federates[other].session_id,
{
    deliveries_reach_exactly_the_members(conns, fed, set, callback);
    let sent = deliveries(conns, fed, set, callback);
    assert forall|i: int| 0 <= i < sent.len() implies (#[trigger] sent[i]).target.session_id
        != fed.federates[other].session_id by {
        let f = choose|f: u32|
            set.contains(f) && #[trigger] connection_of(conns, fed.federates, f) == Some(
                sent[i].target,
            );
        assert(fed.federates.contains_key(f));
    }
}

/// Who subscribes at an ancestor is in the audience of the descendants, of their
/// attributes as of their interactions.
pub proof fn subscribers_at_ancestors_are_served(
    fed: FederationView,
    class: u32,
    ancestor: u32,
    attrs: Seq<u32>,
    attr: u32,
    f: u32,
    exclude: Option<u32>,
)
    requires
        Some(f) != exclude,
        attrs.contains(attr),
    ensures
        chain(fed.fom.object_classes, class).contains(ancestor)
            && fed.subscriptions.attributes.contains((ancestor, attr, f)) ==> attribute_audience(
            fed,
            class,
            attrs,
            exclude,
        ).contains(f),
        chain(fed.fom.interaction_classes, class).contains(ancestor)
            && fed.subscriptions.interactions.contains((ancestor, f)) ==> interaction_audience(
            fed,
            class,
            exclude,
        ).contains(f),
{
}

} // verus!

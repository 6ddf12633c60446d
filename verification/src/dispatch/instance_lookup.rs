//! Object instances and dimensions.

use crate::callbacks::byte_lists;
use crate::dispatch::data_flow::forgetful;
use crate::dispatch::helpers::{refusal, refuse, refuse_bare, silent, Outcome};
use crate::exception::{bare, exception_variant, raised, HlaException};
use crate::federation::{lemma_put_back, Federation, FederationView};
use crate::handles::{
    bytes_of_u32, bytes_of_u64, encode_object_class, encode_object_instance, field32, field64,
    read_field32, read_field64, FederateHandle,
};
use crate::messages::{
    answered, refused, reply, reply_with, CallResponse, Payload, PayloadView, ResponseView,
    Service,
};
use crate::routing::{encode_handles, handle_list};
use crate::tables::{ascending, lemma_ascending, KeySet};
use crate::text::{copy_text, decimal, decimal_of, joined, same_text};
use vstd::prelude::*;

verus! {

/// The instances with a name.
pub open spec fn instances_named(fed: FederationView, name: Seq<char>) -> Set<u64> {
    Set::new(
        |o: u64| fed.object_instances.contains_key(o) && fed.object_instances[o].name == name,
    )
}

/// The response to a query for the handle of an instance. Where several have the
/// name, it is the first of them.
pub open spec fn instance_handle_reply(fed: FederationView, name: Seq<char>) -> ResponseView {
    let all = ascending(instances_named(fed, name));
    if all.len() == 0 {
        refused(raised(HlaException::ObjectInstanceNotKnown, name))
    } else {
        answered(Service::GetObjectInstanceHandle, PayloadView::Handle(bytes_of_u64(all[0])))
    }
}

/// The handle of an instance.
pub fn get_object_instance_handle(federation: &Federation, name: &str) -> (r: CallResponse)
    ensures
        r@ == instance_handle_reply(federation@, name@),
{
    let ghost fed = federation@;
    let keys = federation.object_instances.keys();
    proof {
        lemma_ascending(fed.object_instances.dom());
    }
    let ghost wanted = instances_named(fed, name@);
    let mut found: KeySet<u64> = KeySet::new();
    let mut i: usize = 0;
    while i < keys.len()
        invariant
            i <= keys@.len(),
            fed == federation@,
            wanted == instances_named(fed, name@),
            forall|o: u64| #[trigger] keys@.contains(o) <==> fed.object_instances.contains_key(o),
            forall|o: u64| #[trigger]
                found@.contains(o) <==> wanted.contains(o) && exists|k: int|
                    0 <= k < i && keys@[k] == o,
        decreases keys@.len() - i,
    {
        assert(keys@.contains(keys@[i as int]));
        if let Some(inst) = federation.object_instances.get(keys[i]) {
            if same_text(inst.name.as_str(), name) {
                found.insert(keys[i]);
            }
        }
        i = i + 1;
    }
    assert(found@ =~= wanted) by {
        assert forall|o: u64| wanted.contains(o) implies found@.contains(o) by {
            assert(keys@.contains(o));
            let k = keys@.index_of(o);
            assert(keys@[k] == o);
        }
    }
    let all = found.members();
    if all.len() == 0 {
        refuse(exception_variant(HlaException::ObjectInstanceNotKnown, name))
    } else {
        reply_with(
            Service::GetObjectInstanceHandle,
            Payload::Handle(encode_object_instance(all[0])),
        )
    }
}

/// The response to a query for the name of an instance.
pub open spec fn instance_name_reply(fed: FederationView, instance: Option<u64>) -> ResponseView {
    match instance {
        Some(o) if fed.object_instances.contains_key(o) => answered(
            Service::GetObjectInstanceName,
            PayloadView::Text(fed.object_instances[o].name),
        ),
        _ => refused(bare(HlaException::ObjectInstanceNotKnown)),
    }
}

/// The name of an instance.
pub fn get_object_instance_name(
    federation: &Federation,
    object_instance: &Option<Vec<u8>>,
) -> (r: CallResponse)
    ensures
        r@ == instance_name_reply(federation@, field64(*object_instance)),
{
    let handle = match read_field64(object_instance) {
        Some(h) => h,
        None => return refuse_bare(HlaException::ObjectInstanceNotKnown),
    };
    match federation.object_instances.get(handle) {
        Some(inst) => reply_with(
            Service::GetObjectInstanceName,
            Payload::Text(copy_text(inst.name.as_str())),
        ),
        None => refuse_bare(HlaException::ObjectInstanceNotKnown),
    }
}

/// The response to a query for the class of an instance.
pub open spec fn known_class_reply(fed: FederationView, instance: Option<u64>) -> ResponseView {
    match instance {
        Some(o) if fed.object_instances.contains_key(o) => answered(
            Service::GetKnownObjectClassHandle,
            PayloadView::Handle(bytes_of_u32(fed.object_instances[o].class)),
        ),
        _ => refused(bare(HlaException::ObjectInstanceNotKnown)),
    }
}

/// The class of an instance.
pub fn get_known_object_class_handle(
    federation: &Federation,
    object_instance: &Option<Vec<u8>>,
) -> (r: CallResponse)
    ensures
        r@ == known_class_reply(federation@, field64(*object_instance)),
{
    let handle = match read_field64(object_instance) {
        Some(h) => h,
        None => return refuse_bare(HlaException::ObjectInstanceNotKnown),
    };
    match federation.object_instances.get(handle) {
        Some(inst) => reply_with(
            Service::GetKnownObjectClassHandle,
            Payload::Handle(encode_object_class(inst.class)),
        ),
        None => refuse_bare(HlaException::ObjectInstanceNotKnown),
    }
}

/// What a local deletion does: the federate alone forgets the instance.
pub open spec fn local_delete_outcome(
    fed: FederationView,
    me: u32,
    instance: Option<u64>,
) -> Outcome {
    match instance {
        None => refusal(fed, bare(HlaException::ObjectInstanceNotKnown)),
        Some(o) => silent(
            if fed.federates.contains_key(me) {
                fed.with_federate(me, forgetful(fed.federates[me], o))
            } else {
                fed
            },
            Service::LocalDeleteObjectInstance,
        ),
    }
}

/// Lets a federate forget an instance.
pub fn local_delete_object_instance(
    federation: &mut Federation,
    me: FederateHandle,
    object_instance: &Option<Vec<u8>>,
) -> (r: CallResponse)
    requires
        old(federation).wf(),
    ensures
        final(federation).wf(),
        ({
            let o = local_delete_outcome(old(federation)@, me, field64(*object_instance));
            &&& final(federation)@ == o.fed
            &&& r@ == o.reply
        }),
{
    broadcast use lemma_put_back;

    let handle = match read_field64(object_instance) {
        Some(h) => h,
        None => return refuse_bare(HlaException::ObjectInstanceNotKnown),
    };
    if let Some(mut fs) = federation.federates.remove(me) {
        fs.pub_sub.discovered_instances.remove(handle);
        federation.federates.insert(me, fs);
    }
    reply(Service::LocalDeleteObjectInstance)
}

/// The response to a query for the name of a dimension: its number.
pub open spec fn dimension_name_reply(dimension: Option<u32>) -> ResponseView {
    match dimension {
        Some(d) => answered(
            Service::GetDimensionName,
            PayloadView::Text("Dim"@ + decimal_of(d as nat)),
        ),
        None => refused(bare(HlaException::InvalidDimensionHandle)),
    }
}

/// The name of a dimension.
pub fn get_dimension_name(dimension: &Option<Vec<u8>>) -> (r: CallResponse)
    ensures
        r@ == dimension_name_reply(field32(*dimension)),
{
    match read_field32(dimension) {
        Some(d) => reply_with(
            Service::GetDimensionName,
            Payload::Text(joined("Dim", decimal(d as u64).as_str())),
        ),
        None => refuse_bare(HlaException::InvalidDimensionHandle),
    }
}

/// The upper bound of a dimension: that of every dimension.
pub fn get_dimension_upper_bound() -> (r: CallResponse)
    ensures
        r@ == answered(Service::GetDimensionUpperBound, PayloadView::Number(u32::MAX)),
{
    reply_with(Service::GetDimensionUpperBound, Payload::Number(u32::MAX))
}

/// The response to a query for the dimensions of a region.
pub open spec fn dimension_set_reply(fed: FederationView, region: Option<u64>) -> ResponseView {
    match region {
        Some(h) if fed.regions.contains_key(h) => answered(
            Service::GetDimensionHandleSet,
            PayloadView::Handles(handle_list(ascending(fed.regions[h].committed.dom()))),
        ),
        _ => refused(bare(HlaException::InvalidRegion)),
    }
}

/// The dimensions of a region.
pub fn get_dimension_handle_set(
    federation: &Federation,
    region: &Option<Vec<u8>>,
) -> (r: CallResponse)
    ensures
        r@ == dimension_set_reply(federation@, field64(*region)),
{
    let handle = match read_field64(region) {
        Some(h) => h,
        None => return refuse_bare(HlaException::InvalidRegion),
    };
    match federation.regions.get(handle) {
        Some(region) => reply_with(
            Service::GetDimensionHandleSet,
            Payload::Handles(encode_handles(&region.committed.keys())),
        ),
        None => refuse_bare(HlaException::InvalidRegion),
    }
}

/// The dimensions of an object class: none are recorded.
pub fn get_available_dimensions_for_object_class() -> (r: CallResponse)
    ensures
        r@ == answered(
            Service::GetAvailableDimensionsForObjectClass,
            PayloadView::Handles(Seq::empty()),
        ),
{
    let none: Vec<Vec<u8>> = Vec::new();
    assert(byte_lists(none@) =~= Seq::empty());
    reply_with(Service::GetAvailableDimensionsForObjectClass, Payload::Handles(none))
}

/// The dimensions of an interaction class: none are recorded.
pub fn get_available_dimensions_for_interaction_class() -> (r: CallResponse)
    ensures
        r@ == answered(
            Service::GetAvailableDimensionsForInteractionClass,
            PayloadView::Handles(Seq::empty()),
        ),
{
    let none: Vec<Vec<u8>> = Vec::new();
    assert(byte_lists(none@) =~= Seq::empty());
    reply_with(Service::GetAvailableDimensionsForInteractionClass, Payload::Handles(none))
}

} // verus!

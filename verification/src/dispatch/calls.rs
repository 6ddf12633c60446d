//! The dispatch of requests.

use crate::connections::Connections;
use crate::dispatch::data_flow::{
    delete_object_instance, delete_object_instance_with_time, delete_outcome, interaction_outcome,
    send_interaction, send_interaction_with_time, timed_delete_outcome, timed_interaction_outcome,
    timed_update_outcome, update_attribute_values, update_attribute_values_with_time,
    update_outcome,
};
use crate::dispatch::ddm_lifecycle::{
    commit_region_modifications, commit_regions_outcome, create_region, create_region_outcome,
    delete_region, delete_region_outcome, get_range_bounds, range_bounds_reply, set_range_bounds,
    set_range_bounds_outcome,
};
use crate::dispatch::ddm_regions::{
    region_pairs, register_object_instance_with_regions, registration_with_regions,
    subscribe_object_class_attributes_with_regions, subscribe_with_regions_outcome,
    unsubscribe_object_class_attributes_with_regions, unsubscribe_with_regions_outcome,
};
use crate::dispatch::declaration::{
    publish_attributes_outcome, publish_interaction_class, publish_interaction_outcome,
    publish_object_class_attributes, subscribe_attributes_outcome,
    subscribe_interaction_class_inner, subscribe_interaction_outcome,
    subscribe_object_class_attributes_inner, unpublish_attributes_outcome,
    unpublish_class_outcome, unpublish_interaction_class, unpublish_interaction_outcome,
    unpublish_object_class, unpublish_object_class_attributes, unsubscribe_attributes_outcome,
    unsubscribe_class_outcome, unsubscribe_interaction_class_inner,
    unsubscribe_interaction_outcome, unsubscribe_object_class,
    unsubscribe_object_class_attributes_inner,
};
use crate::dispatch::directed::{
    directed_outcome, optional_list, publish_directed_outcome,
    publish_object_class_directed_interactions, send_directed_interaction,
    subscribe_directed_outcome, subscribe_object_class_directed_interactions,
    unpublish_directed_outcome, unpublish_object_class_directed_interactions,
    unsubscribe_directed_outcome, unsubscribe_object_class_directed_interactions,
};
use crate::dispatch::federation_mgmt::{
    all_modules, create_federation, create_outcome, destroy_federation_execution, destroy_outcome,
    join, join_outcome, lemma_federation_back, list_federation_execution_members,
    list_federation_executions, list_members_outcome, list_outcome, resign, resign_outcome,
    ModuleLoad, NodeOutcome,
};
use crate::dispatch::handle_lookup::{
    attribute_handle_reply, attribute_name_reply, dimension_handle_reply, get_attribute_handle,
    get_attribute_name, get_dimension_handle, get_interaction_class_handle,
    get_interaction_class_name, get_object_class_handle, get_object_class_name,
    get_parameter_handle, get_parameter_name, interaction_class_handle_reply,
    interaction_class_name_reply, object_class_handle_reply, object_class_name_reply,
    parameter_handle_reply, parameter_name_reply, wire,
};
use crate::dispatch::helpers::{
    handles_in, listed, read_handles, refusal, refuse, refuse_bare, value_fields, Outcome,
};
use crate::dispatch::instance_lookup::{
    dimension_name_reply, dimension_set_reply, get_available_dimensions_for_interaction_class,
    get_available_dimensions_for_object_class, get_dimension_handle_set, get_dimension_name,
    get_dimension_upper_bound, get_known_object_class_handle, get_object_instance_handle,
    get_object_instance_name, instance_handle_reply, instance_name_reply, known_class_reply,
    local_delete_object_instance, local_delete_outcome,
};
use crate::dispatch::introspection::{
    federate_handle_reply, federate_name_reply, get_federate_handle, get_federate_name,
    get_order_name, get_order_type, get_transportation_type_handle, get_transportation_type_name,
    normalize_handle, normalize_object_instance, normalize_service_group, normalized,
    normalized_instance, order_name_reply, order_type_reply, transportation_handle_reply,
    transportation_name_reply, unsigned,
};
use crate::dispatch::invariants::requests_keep_order;
use crate::dispatch::object_mgmt::{register_object_instance, registration, Registration};
use crate::dispatch::ownership::{
    acquire_outcome, attribute_ownership_acquisition_if_available, divest_outcome,
    is_attribute_owned_by_federate, is_owned_reply, query_attribute_ownership,
    query_ownership_outcome, unconditional_attribute_ownership_divestiture,
};
use crate::dispatch::restore::{
    abort_federation_restore, abort_restore_outcome, federate_restore_progressed,
    request_federation_restore, request_restore_outcome, restore_progress_outcome, SnapshotLoad,
    SnapshotLoadView,
};
use crate::dispatch::save::{
    abort_federation_save, abort_save_outcome, federate_save_begun, federate_save_progressed,
    file_view, request_federation_save, request_save_outcome, save_begun_outcome,
    save_progress_file, save_progress_outcome, SnapshotFile, SnapshotFileView,
};
use crate::dispatch::switches::{
    get_automatic_resign_directive, get_switch_bool, resign_directive_reply,
    set_automatic_resign_directive, set_resign_directive_outcome, set_switch_bool,
    set_switch_outcome, switch_reply,
};
use crate::dispatch::sync_points::{
    achieve_point_outcome, register_point_outcome, register_synchronization_point,
    synchronization_point_achieved,
};
use crate::dispatch::time_mgmt::{
    advance_outcome, bound_payload, disable_constrained_outcome, disable_regulation_outcome,
    disable_time_constrained, disable_time_regulation, enable_constrained_outcome,
    enable_regulation_outcome, enable_time_constrained, enable_time_regulation,
    lemma_advance_forward, lemma_regulation_forward, lemma_release_forward,
    lemma_time_services_keep, logical_time_reply, lookahead_reply, modify_lookahead, modify_lookahead_outcome, query_galt, query_lits,
    query_logical_time, query_lookahead, time_advance_request,
};
use crate::exception::{
    bare, bare_exception, exception_variant, raised, ExceptionData, ExceptionView, HlaException,
};
use crate::federation::{lemma_put_back, Federation, FederationView};
use crate::handles::{
    bytes_of_u64, encode_object_instance, field32, field64, FederateHandle,
};
use crate::messages::{
    answered, done, refused, reply, reply_with, CallRequest, CallResponse, Payload, PayloadView,
    ResponseView, Service,
};
use crate::node::{NodeView, RtiNode};
use crate::persistence::{file_name_of, snapshot_path};
use crate::routing::{OutboundView, Outbox};
use crate::session::{Membership, SessionContext};
use crate::text::copy_text;
use crate::time::moves_forward;
use vstd::prelude::*;

verus! {

/// The response to a member's request that changes nothing.
#[verifier::opaque]
pub open spec fn lookup_reply(
    fed: FederationView,
    me: u32,
    request: CallRequest,
) -> Option<ResponseView> {
    match request {
        CallRequest::GetSwitch { switch } => Some(switch_reply(fed, me, switch)),
        CallRequest::GetAutomaticResignDirective => Some(resign_directive_reply(fed, me)),
        CallRequest::GetObjectInstanceHandle { object_instance_name } => Some(
            instance_handle_reply(fed, object_instance_name@),
        ),
        CallRequest::GetObjectInstanceName { object_instance } => Some(
            instance_name_reply(fed, field64(object_instance)),
        ),
        CallRequest::GetKnownObjectClassHandle { object_instance } => Some(
            known_class_reply(fed, field64(object_instance)),
        ),
        CallRequest::GetDimensionHandle { dimension_name } => Some(
            dimension_handle_reply(fed, dimension_name@),
        ),
        CallRequest::GetDimensionHandleSet { region } => Some(
            dimension_set_reply(fed, field64(region)),
        ),
        CallRequest::GetFederateHandle { federate_name } => Some(
            federate_handle_reply(fed, federate_name@),
        ),
        CallRequest::GetFederateName { federate } => Some(
            federate_name_reply(fed, field32(federate)),
        ),
        CallRequest::GetObjectClassHandle { object_class_name } => Some(
            object_class_handle_reply(fed, object_class_name@),
        ),
        CallRequest::GetObjectClassName { object_class } => Some(
            object_class_name_reply(fed, wire(object_class)),
        ),
        CallRequest::GetAttributeHandle { object_class, attribute_name } => Some(
            attribute_handle_reply(fed, wire(object_class), attribute_name@),
        ),
        CallRequest::GetAttributeName { object_class, attribute } => Some(
            attribute_name_reply(fed, wire(object_class), wire(attribute)),
        ),
        CallRequest::GetInteractionClassHandle { interaction_class_name } => Some(
            interaction_class_handle_reply(fed, interaction_class_name@),
        ),
        CallRequest::GetInteractionClassName { interaction_class } => Some(
            interaction_class_name_reply(fed, wire(interaction_class)),
        ),
        CallRequest::GetParameterHandle { interaction_class, parameter_name } => Some(
            parameter_handle_reply(fed, wire(interaction_class), parameter_name@),
        ),
        CallRequest::GetParameterName { interaction_class, parameter } => Some(
            parameter_name_reply(fed, wire(interaction_class), wire(parameter)),
        ),
        CallRequest::IsAttributeOwnedByFederate { object_instance, attribute } => Some(
            is_owned_reply(fed, me, field64(object_instance), field32(attribute)),
        ),
        CallRequest::GetRangeBounds { region, dimension } => Some(
            range_bounds_reply(fed, field64(region), field32(dimension)),
        ),
        CallRequest::QueryLogicalTime => Some(logical_time_reply(fed, me)),
        CallRequest::QueryLookahead => Some(lookahead_reply(fed, me)),
        CallRequest::QueryLits => Some(answered(Service::QueryLits, bound_payload(fed))),
        CallRequest::QueryGalt => Some(answered(Service::QueryGalt, bound_payload(fed))),
        _ => None,
    }
}

/// Answers a member's request that changes nothing.
fn look_up(federation: &Federation, me: FederateHandle, request: &CallRequest) -> (r: Option<
    CallResponse,
>)
    requires
        federation.wf(),
    ensures
        match r {
            Some(c) => lookup_reply(federation@, me, *request) == Some(c@),
            None => lookup_reply(federation@, me, *request) is None,
        },
{
    reveal(lookup_reply);
    match request {
        CallRequest::GetSwitch { switch } => Some(get_switch_bool(federation, me, *switch)),
        CallRequest::GetAutomaticResignDirective => Some(
            get_automatic_resign_directive(federation, me),
        ),
        CallRequest::GetObjectInstanceHandle { object_instance_name } => Some(
            get_object_instance_handle(federation, object_instance_name.as_str()),
        ),
        CallRequest::GetObjectInstanceName { object_instance } => Some(
            get_object_instance_name(federation, object_instance),
        ),
        CallRequest::GetKnownObjectClassHandle { object_instance } => Some(
            get_known_object_class_handle(federation, object_instance),
        ),
        CallRequest::GetDimensionHandle { dimension_name } => Some(
            get_dimension_handle(federation, dimension_name.as_str()),
        ),
        CallRequest::GetDimensionHandleSet { region } => Some(
            get_dimension_handle_set(federation, region),
        ),
        CallRequest::GetFederateHandle { federate_name } => Some(
            get_federate_handle(federation, federate_name.as_str()),
        ),
        CallRequest::GetFederateName { federate } => Some(get_federate_name(federation, federate)),
        CallRequest::GetObjectClassHandle { object_class_name } => Some(
            get_object_class_handle(federation, object_class_name.as_str()),
        ),
        CallRequest::GetObjectClassName { object_class } => Some(
            get_object_class_name(federation, object_class),
        ),
        CallRequest::GetAttributeHandle { object_class, attribute_name } => Some(
            get_attribute_handle(federation, object_class, attribute_name.as_str()),
        ),
        CallRequest::GetAttributeName { object_class, attribute } => Some(
            get_attribute_name(federation, object_class, attribute),
        ),
        CallRequest::GetInteractionClassHandle { interaction_class_name } => Some(
            get_interaction_class_handle(federation, interaction_class_name.as_str()),
        ),
        CallRequest::GetInteractionClassName { interaction_class } => Some(
            get_interaction_class_name(federation, interaction_class),
        ),
        CallRequest::GetParameterHandle { interaction_class, parameter_name } => Some(
            get_parameter_handle(federation, interaction_class, parameter_name.as_str()),
        ),
        CallRequest::GetParameterName { interaction_class, parameter } => Some(
            get_parameter_name(federation, interaction_class, parameter),
        ),
        CallRequest::IsAttributeOwnedByFederate { object_instance, attribute } => Some(
            is_attribute_owned_by_federate(federation, me, object_instance, attribute),
        ),
        CallRequest::GetRangeBounds { region, dimension } => Some(
            get_range_bounds(federation, region, dimension),
        ),
        CallRequest::QueryLogicalTime => Some(query_logical_time(federation, me)),
        CallRequest::QueryLookahead => Some(query_lookahead(federation, me)),
        CallRequest::QueryLits => Some(query_lits(federation)),
        CallRequest::QueryGalt => Some(query_galt(federation)),
        _ => None,
    }
}

/// What a member's request does that sends nothing.
#[verifier::opaque]
pub open spec fn quiet_outcome(
    fed: FederationView,
    me: u32,
    request: CallRequest,
) -> Option<Outcome> {
    match request {
        CallRequest::SetSwitch { settable, on } => Some(set_switch_outcome(fed, me, settable, on)),
        CallRequest::SetAutomaticResignDirective { value } => Some(
            set_resign_directive_outcome(fed, me, value),
        ),
        CallRequest::LocalDeleteObjectInstance { object_instance } => Some(
            local_delete_outcome(fed, me, field64(object_instance)),
        ),
        CallRequest::PublishObjectClassAttributes { object_class, attributes } => Some(
            publish_attributes_outcome(fed, me, field32(object_class), listed(attributes)),
        ),
        CallRequest::UnpublishObjectClass { object_class } => Some(
            unpublish_class_outcome(fed, me, field32(object_class)),
        ),
        CallRequest::UnpublishObjectClassAttributes { object_class, attributes } => Some(
            unpublish_attributes_outcome(fed, me, field32(object_class), listed(attributes)),
        ),
        CallRequest::UnsubscribeObjectClass { object_class } => Some(
            unsubscribe_class_outcome(fed, me, field32(object_class)),
        ),
        CallRequest::PublishInteractionClass { interaction_class } => Some(
            publish_interaction_outcome(fed, me, field32(interaction_class)),
        ),
        CallRequest::UnpublishInteractionClass { interaction_class } => Some(
            unpublish_interaction_outcome(fed, me, field32(interaction_class)),
        ),
        CallRequest::FederateSaveBegun => Some(save_begun_outcome(fed, me)),
        CallRequest::AbortFederationSave => Some(abort_save_outcome(fed)),
        CallRequest::AbortFederationRestore => Some(abort_restore_outcome(fed)),
        CallRequest::CreateRegion { dimensions } => Some(
            create_region_outcome(fed, me, listed(dimensions)),
        ),
        CallRequest::CommitRegionModifications { regions } => Some(
            commit_regions_outcome(fed, me, listed(regions)),
        ),
        CallRequest::DeleteRegion { region } => Some(
            delete_region_outcome(fed, me, field64(region)),
        ),
        CallRequest::SetRangeBounds { region, dimension, range_bounds } => Some(
            set_range_bounds_outcome(fed, me, field64(region), field32(dimension), range_bounds),
        ),
        CallRequest::UnsubscribeObjectClassAttributesWithRegions {
            object_class,
            attributes_and_regions,
        } => Some(
            unsubscribe_with_regions_outcome(
                fed,
                me,
                field32(object_class),
                region_pairs(attributes_and_regions),
            ),
        ),
        CallRequest::PublishObjectClassDirectedInteractions {
            object_class,
            interaction_classes,
        } => Some(
            publish_directed_outcome(fed, me, field32(object_class), listed(interaction_classes)),
        ),
        CallRequest::UnpublishObjectClassDirectedInteractions { object_class } => Some(
            unpublish_directed_outcome(fed, me, field32(object_class), None),
        ),
        CallRequest::UnpublishObjectClassDirectedInteractionsWithSet {
            object_class,
            interaction_classes,
        } => Some(
            unpublish_directed_outcome(
                fed,
                me,
                field32(object_class),
                optional_list(interaction_classes),
            ),
        ),
        CallRequest::SubscribeObjectClassDirectedInteractions {
            universally: _,
            object_class,
            interaction_classes,
        } => Some(
            subscribe_directed_outcome(fed, me, field32(object_class), listed(interaction_classes)),
        ),
        CallRequest::UnsubscribeObjectClassDirectedInteractions { object_class } => Some(
            unsubscribe_directed_outcome(fed, me, field32(object_class), None),
        ),
        CallRequest::UnsubscribeObjectClassDirectedInteractionsWithSet {
            object_class,
            interaction_classes,
        } => Some(
            unsubscribe_directed_outcome(
                fed,
                me,
                field32(object_class),
                optional_list(interaction_classes),
            ),
        ),
        _ => None,
    }
}

/// Serves a member's request that sends nothing.
fn serve_quietly(
    federation: &mut Federation,
    me: FederateHandle,
    request: &CallRequest,
) -> (r: Option<CallResponse>)
    requires
        old(federation).wf(),
    ensures
        final(federation).wf(),
        match quiet_outcome(old(federation)@, me, *request) {
            Some(o) => r is Some && r->0@ == o.reply && final(federation)@ == o.fed && o.sent
                == Seq::<OutboundView>::empty(),
            None => r is None && final(federation)@ == old(federation)@,
        },
{
    reveal(quiet_outcome);
    match request {
        CallRequest::SetSwitch { settable, on } => Some(
            set_switch_bool(federation, me, *settable, *on),
        ),
        CallRequest::SetAutomaticResignDirective { value } => Some(
            set_automatic_resign_directive(federation, me, *value),
        ),
        CallRequest::LocalDeleteObjectInstance { object_instance } => Some(
            local_delete_object_instance(federation, me, object_instance),
        ),
        CallRequest::PublishObjectClassAttributes { object_class, attributes } => Some(
            publish_object_class_attributes(federation, me, object_class, attributes),
        ),
        CallRequest::UnpublishObjectClass { object_class } => Some(
            unpublish_object_class(federation, me, object_class),
        ),
        CallRequest::UnpublishObjectClassAttributes { object_class, attributes } => Some(
            unpublish_object_class_attributes(federation, me, object_class, attributes),
        ),
        CallRequest::UnsubscribeObjectClass { object_class } => Some(
            unsubscribe_object_class(federation, me, object_class),
        ),
        CallRequest::PublishInteractionClass { interaction_class } => Some(
            publish_interaction_class(federation, me, interaction_class),
        ),
        CallRequest::UnpublishInteractionClass { interaction_class } => Some(
            unpublish_interaction_class(federation, me, interaction_class),
        ),
        CallRequest::FederateSaveBegun => Some(federate_save_begun(federation, me)),
        CallRequest::AbortFederationSave => Some(abort_federation_save(federation)),
        CallRequest::AbortFederationRestore => Some(abort_federation_restore(federation)),
        CallRequest::CreateRegion { dimensions } => Some(create_region(federation, me, dimensions)),
        CallRequest::CommitRegionModifications { regions } => Some(
            commit_region_modifications(federation, me, regions),
        ),
        CallRequest::DeleteRegion { region } => Some(delete_region(federation, me, region)),
        CallRequest::SetRangeBounds { region, dimension, range_bounds } => Some(
            set_range_bounds(federation, me, region, dimension, range_bounds),
        ),
        CallRequest::UnsubscribeObjectClassAttributesWithRegions {
            object_class,
            attributes_and_regions,
        } => Some(
            unsubscribe_object_class_attributes_with_regions(
                federation,
                me,
                object_class,
                attributes_and_regions,
            ),
        ),
        CallRequest::PublishObjectClassDirectedInteractions {
            object_class,
            interaction_classes,
        } => Some(
            publish_object_class_directed_interactions(
                federation,
                me,
                object_class,
                interaction_classes,
            ),
        ),
        CallRequest::UnpublishObjectClassDirectedInteractions { object_class } => Some(
            unpublish_object_class_directed_interactions(federation, me, object_class, &None),
        ),
        CallRequest::UnpublishObjectClassDirectedInteractionsWithSet {
            object_class,
            interaction_classes,
        } => Some(
            unpublish_object_class_directed_interactions(
                federation,
                me,
                object_class,
                interaction_classes,
            ),
        ),
        CallRequest::SubscribeObjectClassDirectedInteractions {
            universally: _,
            object_class,
            interaction_classes,
        } => Some(
            subscribe_object_class_directed_interactions(
                federation,
                me,
                object_class,
                interaction_classes,
            ),
        ),
        CallRequest::UnsubscribeObjectClassDirectedInteractions { object_class } => Some(
            unsubscribe_object_class_directed_interactions(federation, me, object_class, &None),
        ),
        CallRequest::UnsubscribeObjectClassDirectedInteractionsWithSet {
            object_class,
            interaction_classes,
        } => Some(
            unsubscribe_object_class_directed_interactions(
                federation,
                me,
                object_class,
                interaction_classes,
            ),
        ),
        _ => None,
    }
}

/// The outcome of a registration as the response of a service.
pub open spec fn registered(service: Service, r: Registration) -> Outcome {
    Outcome {
        fed: r.fed,
        reply: match r.result {
            Ok(h) => answered(service, PayloadView::Handle(bytes_of_u64(h))),
            Err(e) => refused(e),
        },
        sent: r.sent,
    }
}

fn answer_registration(service: Service, result: Result<u64, ExceptionData>) -> (r: CallResponse)
    ensures
        r@ == (match result {
            Ok(h) => answered(service, PayloadView::Handle(bytes_of_u64(h))),
            Err(e) => refused(e@),
        }),
{
    match result {
        Ok(h) => reply_with(service, Payload::Handle(encode_object_instance(h))),
        Err(e) => refuse(e),
    }
}

/// What a member's request for the exchange of data does.
#[verifier::opaque]
pub open spec fn exchange_outcome(
    fed: FederationView,
    conns: Map<u64, u64>,
    me: u32,
    request: CallRequest,
) -> Option<Outcome> {
    match request {
        CallRequest::SubscribeObjectClassAttributes {
            subscribe_form: _,
            object_class,
            attributes,
        } => Some(
            subscribe_attributes_outcome(fed, conns, me, field32(object_class), listed(attributes)),
        ),
        CallRequest::UnsubscribeObjectClassAttributes { object_class, attributes } => Some(
            unsubscribe_attributes_outcome(
                fed,
                conns,
                me,
                field32(object_class),
                listed(attributes),
            ),
        ),
        CallRequest::SubscribeInteractionClass { passively: _, interaction_class } => Some(
            subscribe_interaction_outcome(fed, conns, me, field32(interaction_class)),
        ),
        CallRequest::UnsubscribeInteractionClass { interaction_class } => Some(
            unsubscribe_interaction_outcome(fed, conns, me, field32(interaction_class)),
        ),
        CallRequest::SubscribeObjectClassAttributesWithRegions {
            object_class,
            attributes_and_regions,
        } => Some(
            subscribe_with_regions_outcome(
                fed,
                conns,
                me,
                field32(object_class),
                region_pairs(attributes_and_regions),
            ),
        ),
        CallRequest::RegisterObjectInstance { object_class } => Some(
            registered(
                Service::RegisterObjectInstance,
                registration(fed, conns, me, field32(object_class), None),
            ),
        ),
        CallRequest::RegisterObjectInstanceWithName { object_class, object_instance_name } => Some(
            registered(
                Service::RegisterObjectInstanceWithName,
                registration(fed, conns, me, field32(object_class), Some(object_instance_name@)),
            ),
        ),
        CallRequest::RegisterObjectInstanceWithRegions {
            object_class,
            attributes_and_regions,
        } => Some(
            registered(
                Service::RegisterObjectInstanceWithRegions,
                registration_with_regions(
                    fed,
                    conns,
                    me,
                    field32(object_class),
                    None,
                    region_pairs(attributes_and_regions),
                ),
            ),
        ),
        CallRequest::RegisterObjectInstanceWithNameAndRegions {
            object_class,
            object_instance_name,
            attributes_and_regions,
        } => Some(
            registered(
                Service::RegisterObjectInstanceWithNameAndRegions,
                registration_with_regions(
                    fed,
                    conns,
                    me,
                    field32(object_class),
                    Some(object_instance_name@),
                    region_pairs(attributes_and_regions),
                ),
            ),
        ),
        CallRequest::UpdateAttributeValues {
            object_instance,
            attribute_values,
            user_supplied_tag,
        } => Some(
            update_outcome(
                fed,
                conns,
                me,
                field64(object_instance),
                value_fields(attribute_values),
                user_supplied_tag@,
            ),
        ),
        CallRequest::UpdateAttributeValuesWithTime {
            object_instance,
            attribute_values,
            user_supplied_tag,
            time,
        } => Some(
            timed_update_outcome(
                fed,
                conns,
                me,
                field64(object_instance),
                value_fields(attribute_values),
                user_supplied_tag@,
                field64(time),
            ),
        ),
        CallRequest::SendInteraction {
            with_regions: _,
            interaction_class,
            parameter_values,
            user_supplied_tag,
        } => Some(
            interaction_outcome(
                fed,
                conns,
                me,
                field32(interaction_class),
                value_fields(parameter_values),
                user_supplied_tag@,
            ),
        ),
        CallRequest::SendInteractionWithTime {
            with_regions: _,
            interaction_class,
            parameter_values,
            user_supplied_tag,
            time,
        } => Some(
            timed_interaction_outcome(
                fed,
                conns,
                me,
                field32(interaction_class),
                value_fields(parameter_values),
                user_supplied_tag@,
                field64(time),
            ),
        ),
        CallRequest::DeleteObjectInstance { object_instance, user_supplied_tag } => Some(
            delete_outcome(fed, conns, me, field64(object_instance), user_supplied_tag@),
        ),
        CallRequest::DeleteObjectInstanceWithTime {
            object_instance,
            user_supplied_tag,
            time,
        } => Some(
            timed_delete_outcome(
                fed,
                conns,
                me,
                field64(object_instance),
                user_supplied_tag@,
                field64(time),
            ),
        ),
        CallRequest::SendDirectedInteraction {
            interaction_class,
            object_instance,
            parameter_values,
            user_supplied_tag,
        } => Some(
            directed_outcome(
                fed,
                conns,
                me,
                field32(interaction_class),
                field64(object_instance),
                value_fields(parameter_values),
                user_supplied_tag@,
            ),
        ),
        _ => None,
    }
}

/// Serves a member's request for the exchange of data.
fn serve_exchange(
    federation: &mut Federation,
    conns: &Connections,
    out: &mut Outbox,
    me: FederateHandle,
    request: &CallRequest,
) -> (r: Option<CallResponse>)
    requires
        old(federation).wf(),
    ensures
        final(federation).wf(),
        match exchange_outcome(old(federation)@, conns@, me, *request) {
            Some(o) => r is Some && r->0@ == o.reply && final(federation)@ == o.fed && final(out)@
                == old(out)@ + o.sent,
            None => r is None && final(federation)@ == old(federation)@ && final(out)@ == old(
                out,
            )@,
        },
{
    reveal(exchange_outcome);
    match request {
        CallRequest::SubscribeObjectClassAttributes {
            subscribe_form: _,
            object_class,
            attributes,
        } => Some(
            subscribe_object_class_attributes_inner(
                federation,
                conns,
                out,
                me,
                object_class,
                attributes,
            ),
        ),
        CallRequest::UnsubscribeObjectClassAttributes { object_class, attributes } => Some(
            unsubscribe_object_class_attributes_inner(
                federation,
                conns,
                out,
                me,
                object_class,
                attributes,
            ),
        ),
        CallRequest::SubscribeInteractionClass { passively: _, interaction_class } => Some(
            subscribe_interaction_class_inner(federation, conns, out, me, interaction_class),
        ),
        CallRequest::UnsubscribeInteractionClass { interaction_class } => Some(
            unsubscribe_interaction_class_inner(federation, conns, out, me, interaction_class),
        ),
        CallRequest::SubscribeObjectClassAttributesWithRegions {
            object_class,
            attributes_and_regions,
        } => Some(
            subscribe_object_class_attributes_with_regions(
                federation,
                conns,
                out,
                me,
                object_class,
                attributes_and_regions,
            ),
        ),
        CallRequest::RegisterObjectInstance { object_class } => Some(
            answer_registration(
                Service::RegisterObjectInstance,
                register_object_instance(federation, conns, out, me, object_class, None),
            ),
        ),
        CallRequest::RegisterObjectInstanceWithName { object_class, object_instance_name } => Some(
            answer_registration(
                Service::RegisterObjectInstanceWithName,
                register_object_instance(
                    federation,
                    conns,
                    out,
                    me,
                    object_class,
                    Some(copy_text(object_instance_name.as_str())),
                ),
            ),
        ),
        CallRequest::RegisterObjectInstanceWithRegions {
            object_class,
            attributes_and_regions,
        } => Some(
            answer_registration(
                Service::RegisterObjectInstanceWithRegions,
                register_object_instance_with_regions(
                    federation,
                    conns,
                    out,
                    me,
                    object_class,
                    None,
                    attributes_and_regions,
                ),
            ),
        ),
        CallRequest::RegisterObjectInstanceWithNameAndRegions {
            object_class,
            object_instance_name,
            attributes_and_regions,
        } => Some(
            answer_registration(
                Service::RegisterObjectInstanceWithNameAndRegions,
                register_object_instance_with_regions(
                    federation,
                    conns,
                    out,
                    me,
                    object_class,
                    Some(copy_text(object_instance_name.as_str())),
                    attributes_and_regions,
                ),
            ),
        ),
        CallRequest::UpdateAttributeValues {
            object_instance,
            attribute_values,
            user_supplied_tag,
        } => Some(
            update_attribute_values(
                federation,
                conns,
                out,
                me,
                object_instance,
                attribute_values,
                user_supplied_tag.as_slice(),
            ),
        ),
        CallRequest::UpdateAttributeValuesWithTime {
            object_instance,
            attribute_values,
            user_supplied_tag,
            time,
        } => Some(
            update_attribute_values_with_time(
                federation,
                conns,
                out,
                me,
                object_instance,
                attribute_values,
                user_supplied_tag.as_slice(),
                time,
            ),
        ),
        CallRequest::SendInteraction {
            with_regions: _,
            interaction_class,
            parameter_values,
            user_supplied_tag,
        } => Some(
            send_interaction(
                federation,
                conns,
                out,
                me,
                interaction_class,
                parameter_values,
                user_supplied_tag.as_slice(),
            ),
        ),
        CallRequest::SendInteractionWithTime {
            with_regions: _,
            interaction_class,
            parameter_values,
            user_supplied_tag,
            time,
        } => Some(
            send_interaction_with_time(
                federation,
                conns,
                out,
                me,
                interaction_class,
                parameter_values,
                user_supplied_tag.as_slice(),
                time,
            ),
        ),
        CallRequest::DeleteObjectInstance { object_instance, user_supplied_tag } => Some(
            delete_object_instance(
                federation,
                conns,
                out,
                me,
                object_instance,
                user_supplied_tag.as_slice(),
            ),
        ),
        CallRequest::DeleteObjectInstanceWithTime {
            object_instance,
            user_supplied_tag,
            time,
        } => Some(
            delete_object_instance_with_time(
                federation,
                conns,
                out,
                me,
                object_instance,
                user_supplied_tag.as_slice(),
                time,
            ),
        ),
        CallRequest::SendDirectedInteraction {
            interaction_class,
            object_instance,
            parameter_values,
            user_supplied_tag,
        } => Some(
            send_directed_interaction(
                federation,
                conns,
                out,
                me,
                interaction_class,
                object_instance,
                parameter_values,
                user_supplied_tag.as_slice(),
            ),
        ),
        _ => None,
    }
}

/// What a member's request does by which the federation acts together.
#[verifier::opaque]
pub open spec fn coordination_outcome(
    fed: FederationView,
    conns: Map<u64, u64>,
    me: u32,
    request: CallRequest,
    load: SnapshotLoadView,
) -> Option<Outcome> {
    match request {
        CallRequest::QueryAttributeOwnership { object_instance, attributes } => Some(
            query_ownership_outcome(fed, conns, me, field64(object_instance), listed(attributes)),
        ),
        CallRequest::AttributeOwnershipDivestiture {
            divest_form: _,
            object_instance,
            attributes,
            user_supplied_tag: _,
        } => Some(
            divest_outcome(fed, conns, me, field64(object_instance), listed(attributes)),
        ),
        CallRequest::AttributeOwnershipAcquisition {
            if_available: _,
            object_instance,
            desired_attributes,
            user_supplied_tag,
        } => Some(
            acquire_outcome(
                fed,
                conns,
                me,
                field64(object_instance),
                listed(desired_attributes),
                user_supplied_tag@,
            ),
        ),
        CallRequest::RequestFederationSave { with_time: _, label } => Some(
            request_save_outcome(fed, conns, label@),
        ),
        CallRequest::RequestFederationRestore { label } => Some(
            request_restore_outcome(fed, conns, me, label@, load),
        ),
        CallRequest::FederateRestoreComplete => Some(
            restore_progress_outcome(fed, conns, me, true),
        ),
        CallRequest::FederateRestoreNotComplete => Some(
            restore_progress_outcome(fed, conns, me, false),
        ),
        CallRequest::RegisterFederationSynchronizationPoint {
            synchronization_point_label,
            user_supplied_tag,
        } => Some(
            register_point_outcome(
                fed,
                conns,
                me,
                synchronization_point_label@,
                user_supplied_tag@,
                None,
            ),
        ),
        CallRequest::RegisterFederationSynchronizationPointWithSet {
            synchronization_point_label,
            user_supplied_tag,
            synchronization_set,
        } => Some(
            register_point_outcome(
                fed,
                conns,
                me,
                synchronization_point_label@,
                user_supplied_tag@,
                Some(handles_in(listed(synchronization_set))),
            ),
        ),
        CallRequest::SynchronizationPointAchieved {
            synchronization_point_label,
            successfully,
        } => Some(
            achieve_point_outcome(fed, conns, me, synchronization_point_label@, successfully),
        ),
        CallRequest::EnableTimeRegulation { lookahead } => Some(
            enable_regulation_outcome(fed, conns, me, wire(lookahead)),
        ),
        CallRequest::DisableTimeRegulation => Some(disable_regulation_outcome(fed, conns, me)),
        CallRequest::EnableTimeConstrained => Some(enable_constrained_outcome(fed, conns, me)),
        CallRequest::DisableTimeConstrained => Some(disable_constrained_outcome(fed, conns, me)),
        CallRequest::ModifyLookahead { lookahead } => Some(
            modify_lookahead_outcome(fed, conns, me, field64(lookahead)),
        ),
        CallRequest::TimeAdvance { advance_form: _, time } => Some(
            advance_outcome(fed, conns, me, wire(time)),
        ),
        _ => None,
    }
}

/// Serves a member's request by which the federation acts together.
fn serve_coordination(
    federation: &mut Federation,
    conns: &Connections,
    out: &mut Outbox,
    me: FederateHandle,
    request: &CallRequest,
    load: &SnapshotLoad,
) -> (r: Option<CallResponse>)
    requires
        old(federation).wf(),
    ensures
        final(federation).wf(),
        match coordination_outcome(old(federation)@, conns@, me, *request, load@) {
            Some(o) => r is Some && r->0@ == o.reply && final(federation)@ == o.fed && final(out)@
                == old(out)@ + o.sent,
            None => r is None && final(federation)@ == old(federation)@ && final(out)@ == old(
                out,
            )@,
        },
{
    reveal(coordination_outcome);
    match request {
        CallRequest::QueryAttributeOwnership { object_instance, attributes } => Some(
            query_attribute_ownership(federation, conns, out, me, object_instance, attributes),
        ),
        CallRequest::AttributeOwnershipDivestiture {
            divest_form: _,
            object_instance,
            attributes,
            user_supplied_tag: _,
        } => Some(
            unconditional_attribute_ownership_divestiture(
                federation,
                conns,
                out,
                me,
                object_instance,
                attributes,
            ),
        ),
        CallRequest::AttributeOwnershipAcquisition {
            if_available: _,
            object_instance,
            desired_attributes,
            user_supplied_tag,
        } => Some(
            attribute_ownership_acquisition_if_available(
                federation,
                conns,
                out,
                me,
                object_instance,
                desired_attributes,
                user_supplied_tag.as_slice(),
            ),
        ),
        CallRequest::RequestFederationSave { with_time: _, label } => Some(
            request_federation_save(federation, conns, out, label.as_str()),
        ),
        CallRequest::RequestFederationRestore { label } => Some(
            request_federation_restore(federation, conns, out, me, label.as_str(), load),
        ),
        CallRequest::FederateRestoreComplete => Some(
            federate_restore_progressed(federation, conns, out, me, true),
        ),
        CallRequest::FederateRestoreNotComplete => Some(
            federate_restore_progressed(federation, conns, out, me, false),
        ),
        CallRequest::RegisterFederationSynchronizationPoint {
            synchronization_point_label,
            user_supplied_tag,
        } => Some(
            register_synchronization_point(
                federation,
                conns,
                out,
                me,
                synchronization_point_label.as_str(),
                user_supplied_tag.as_slice(),
                &None,
            ),
        ),
        CallRequest::RegisterFederationSynchronizationPointWithSet {
            synchronization_point_label,
            user_supplied_tag,
            synchronization_set,
        } => Some(
            register_synchronization_point(
                federation,
                conns,
                out,
                me,
                synchronization_point_label.as_str(),
                user_supplied_tag.as_slice(),
                &Some(read_handles(synchronization_set)),
            ),
        ),
        CallRequest::SynchronizationPointAchieved {
            synchronization_point_label,
            successfully,
        } => Some(
            synchronization_point_achieved(
                federation,
                conns,
                out,
                me,
                synchronization_point_label.as_str(),
                *successfully,
            ),
        ),
        CallRequest::EnableTimeRegulation { lookahead } => Some(
            enable_time_regulation(federation, conns, out, me, lookahead),
        ),
        CallRequest::DisableTimeRegulation => Some(
            disable_time_regulation(federation, conns, out, me),
        ),
        CallRequest::EnableTimeConstrained => Some(
            enable_time_constrained(federation, conns, out, me),
        ),
        CallRequest::DisableTimeConstrained => Some(
            disable_time_constrained(federation, conns, out, me),
        ),
        CallRequest::ModifyLookahead { lookahead } => Some(
            modify_lookahead(federation, conns, out, me, lookahead),
        ),
        CallRequest::TimeAdvance { advance_form: _, time } => Some(
            time_advance_request(federation, conns, out, me, time),
        ),
        _ => None,
    }
}

/// Whether a request is a federate's word that it has finished saving, and with
/// what success.
pub open spec fn save_report_in(request: CallRequest) -> Option<bool> {
    match request {
        CallRequest::FederateSaveComplete => Some(true),
        CallRequest::FederateSaveNotComplete => Some(false),
        _ => None,
    }
}

/// What a member's request does.
pub open spec fn member_outcome(
    fed: FederationView,
    conns: Map<u64, u64>,
    me: u32,
    request: CallRequest,
    load: SnapshotLoadView,
) -> Outcome {
    match (
        save_report_in(request),
        lookup_reply(fed, me, request),
        quiet_outcome(fed, me, request),
        exchange_outcome(fed, conns, me, request),
        coordination_outcome(fed, conns, me, request, load),
    ) {
        (Some(success), _, _, _, _) => save_progress_outcome(fed, conns, me, success),
        (None, Some(reply), _, _, _) => Outcome { fed, reply, sent: Seq::empty() },
        (None, None, Some(o), _, _) => o,
        (None, None, None, Some(o), _) => o,
        (None, None, None, None, Some(o)) => o,
        (None, None, None, None, None) => refusal(
            fed,
            raised(HlaException::RtiInternalError, "service not yet implemented"@),
        ),
    }
}

/// The snapshot that is to be written after a member's request.
pub open spec fn member_file(
    fed: FederationView,
    me: u32,
    request: CallRequest,
) -> Option<SnapshotFileView> {
    match save_report_in(request) {
        Some(success) => save_progress_file(fed, me, success),
        None => None,
    }
}

/// Serves a member's request.
fn serve_member(
    federation: &mut Federation,
    conns: &Connections,
    out: &mut Outbox,
    me: FederateHandle,
    request: &CallRequest,
    load: &SnapshotLoad,
) -> (r: (CallResponse, Option<SnapshotFile>))
    requires
        old(federation).wf(),
    ensures
        final(federation).wf(),
        ({
            let o = member_outcome(old(federation)@, conns@, me, *request, load@);
            &&& final(federation)@ == o.fed
            &&& r.0@ == o.reply
            &&& final(out)@ == old(out)@ + o.sent
        }),
        file_view(r.1) == member_file(old(federation)@, me, *request),
{
    assert(old(out)@ + Seq::empty() =~= old(out)@);
    match request {
        CallRequest::FederateSaveComplete => {
            return federate_save_progressed(federation, conns, out, me, true);
        },
        CallRequest::FederateSaveNotComplete => {
            return federate_save_progressed(federation, conns, out, me, false);
        },
        _ => {},
    }
    if let Some(c) = look_up(federation, me, request) {
        return (c, None);
    }
    if let Some(c) = serve_quietly(federation, me, request) {
        return (c, None);
    }
    if let Some(c) = serve_exchange(federation, conns, out, me, request) {
        return (c, None);
    }
    if let Some(c) = serve_coordination(federation, conns, out, me, request, load) {
        return (c, None);
    }
    let e = exception_variant(HlaException::RtiInternalError, "service not yet implemented");
    (refuse(e), None)
}

/// Whether two states belong to one federation: it keeps its name, its number,
/// its object model and its next federate number.
pub open spec fn same_federation(a: FederationView, b: FederationView) -> bool {
    &&& a.name == b.name
    &&& a.serial == b.serial
    &&& a.fom == b.fom
    &&& a.next_federate_id == b.next_federate_id
}

#[verifier::spinoff_prover]
#[verifier::rlimit(60)]
proof fn lemma_quiet_keeps(fed: FederationView, me: u32, request: CallRequest)
    ensures
        quiet_outcome(fed, me, request) is Some ==> same_federation(
            quiet_outcome(fed, me, request)->0.fed,
            fed,
        ),
{
    reveal(quiet_outcome);
}

#[verifier::spinoff_prover]
#[verifier::rlimit(60)]
proof fn lemma_exchange_keeps(
    fed: FederationView,
    conns: Map<u64, u64>,
    me: u32,
    request: CallRequest,
)
    ensures
        exchange_outcome(fed, conns, me, request) is Some ==> same_federation(
            exchange_outcome(fed, conns, me, request)->0.fed,
            fed,
        ),
{
    reveal(exchange_outcome);
}

#[verifier::spinoff_prover]
#[verifier::rlimit(60)]
proof fn lemma_coordination_keeps(
    fed: FederationView,
    conns: Map<u64, u64>,
    me: u32,
    request: CallRequest,
    load: SnapshotLoadView,
)
    ensures
        coordination_outcome(fed, conns, me, request, load) is Some ==> same_federation(
            coordination_outcome(fed, conns, me, request, load)->0.fed,
            fed,
        ),
{
    reveal(coordination_outcome);
    match request {
        CallRequest::EnableTimeRegulation { lookahead } => {
            lemma_time_services_keep(fed, conns, me, wire(lookahead), None);
        },
        CallRequest::ModifyLookahead { lookahead } => {
            lemma_time_services_keep(fed, conns, me, None, field64(lookahead));
        },
        CallRequest::TimeAdvance { time, .. } => {
            lemma_time_services_keep(fed, conns, me, wire(time), None);
        },
        CallRequest::DisableTimeRegulation => {
            lemma_time_services_keep(fed, conns, me, None, None);
        },
        CallRequest::DisableTimeConstrained => {
            lemma_time_services_keep(fed, conns, me, None, None);
        },
        _ => {},
    }
}

/// No request of a member changes the name, the number or the object model of
/// its federation, nor the number of its next federate.
pub proof fn a_federation_keeps_its_name(
    fed: FederationView,
    conns: Map<u64, u64>,
    me: u32,
    request: CallRequest,
    load: SnapshotLoadView,
)
    ensures
        same_federation(member_outcome(fed, conns, me, request, load).fed, fed),
{
    lemma_quiet_keeps(fed, me, request);
    lemma_exchange_keeps(fed, conns, me, request);
    lemma_coordination_keeps(fed, conns, me, request, load);
}

/// Whether an outcome, where it is a refusal, leaves everything as it was. Only a
/// number for an instance may have been used up.
pub open spec fn refuses_cleanly(fed: FederationView, o: Outcome) -> bool {
    o.reply is Exception ==> o.sent.len() == 0 && o.fed == (FederationView {
        next_object_id: o.fed.next_object_id,
        renumbered: o.fed.renumbered,
        ..fed
    })
}

#[verifier::spinoff_prover]
#[verifier::rlimit(60)]
proof fn lemma_quiet_refusal(fed: FederationView, me: u32, request: CallRequest)
    requires
        !(request is CommitRegionModifications),
    ensures
        quiet_outcome(fed, me, request) matches Some(o) ==> refuses_cleanly(fed, o),
{
    reveal(quiet_outcome);
}

#[verifier::spinoff_prover]
#[verifier::rlimit(60)]
proof fn lemma_exchange_refusal(
    fed: FederationView,
    conns: Map<u64, u64>,
    me: u32,
    request: CallRequest,
)
    ensures
        exchange_outcome(fed, conns, me, request) matches Some(o) ==> refuses_cleanly(fed, o),
{
    reveal(exchange_outcome);
    match request {
        CallRequest::SubscribeObjectClassAttributes { .. } => {},
        CallRequest::UnsubscribeObjectClassAttributes { .. } => {},
        CallRequest::SubscribeInteractionClass { .. } => {},
        CallRequest::UnsubscribeInteractionClass { .. } => {},
        CallRequest::SubscribeObjectClassAttributesWithRegions { .. } => {},
        CallRequest::UpdateAttributeValues { .. } => {},
        CallRequest::UpdateAttributeValuesWithTime { .. } => {},
        CallRequest::SendInteraction { .. } => {},
        CallRequest::SendInteractionWithTime { .. } => {},
        CallRequest::DeleteObjectInstance { .. } => {},
        CallRequest::DeleteObjectInstanceWithTime { .. } => {},
        CallRequest::SendDirectedInteraction { .. } => {},
        _ => {},
    }
}

#[verifier::spinoff_prover]
#[verifier::rlimit(60)]
proof fn lemma_coordination_refusal(
    fed: FederationView,
    conns: Map<u64, u64>,
    me: u32,
    request: CallRequest,
    load: SnapshotLoadView,
)
    ensures
        coordination_outcome(fed, conns, me, request, load) matches Some(o) ==> refuses_cleanly(
            fed,
            o,
        ),
{
    reveal(coordination_outcome);
}

/// A request that is refused changes nothing, and nobody hears of it. What it may
/// use up is a number for an instance. The commit of a list of regions is left
/// out: the regions ahead of the faulty one stay committed.
pub proof fn a_refused_request_changes_nothing(
    fed: FederationView,
    conns: Map<u64, u64>,
    me: u32,
    request: CallRequest,
    load: SnapshotLoadView,
)
    requires
        !(request is CommitRegionModifications),
    ensures
        refuses_cleanly(fed, member_outcome(fed, conns, me, request, load)),
{
    lemma_quiet_refusal(fed, me, request);
    lemma_exchange_refusal(fed, conns, me, request);
    lemma_coordination_refusal(fed, conns, me, request, load);
}

#[verifier::spinoff_prover]
#[verifier::rlimit(60)]
proof fn lemma_quiet_forward(fed: FederationView, me: u32, request: CallRequest)
    requires
        fed.wf(),
    ensures
        quiet_outcome(fed, me, request) matches Some(o) ==> moves_forward(fed, o.fed),
{
    reveal(quiet_outcome);
    match request {
        CallRequest::SetSwitch { .. } => {},
        CallRequest::SetAutomaticResignDirective { .. } => {},
        CallRequest::LocalDeleteObjectInstance { .. } => {},
        CallRequest::PublishObjectClassAttributes { .. } => {},
        CallRequest::UnpublishObjectClass { .. } => {},
        CallRequest::UnpublishObjectClassAttributes { .. } => {},
        CallRequest::UnsubscribeObjectClass { .. } => {},
        CallRequest::PublishInteractionClass { .. } => {},
        CallRequest::UnpublishInteractionClass { .. } => {},
        CallRequest::CreateRegion { .. } => {},
        CallRequest::DeleteRegion { .. } => {},
        CallRequest::SetRangeBounds { .. } => {},
        CallRequest::CommitRegionModifications { .. } => {},
        CallRequest::UnsubscribeObjectClassAttributesWithRegions { .. } => {},
        CallRequest::PublishObjectClassDirectedInteractions { .. } => {},
        CallRequest::UnpublishObjectClassDirectedInteractions { .. } => {},
        CallRequest::UnpublishObjectClassDirectedInteractionsWithSet { .. } => {},
        CallRequest::SubscribeObjectClassDirectedInteractions { .. } => {},
        CallRequest::UnsubscribeObjectClassDirectedInteractions { .. } => {},
        CallRequest::UnsubscribeObjectClassDirectedInteractionsWithSet { .. } => {},
        _ => {},
    }
}

#[verifier::spinoff_prover]
#[verifier::rlimit(60)]
proof fn lemma_exchange_forward(
    fed: FederationView,
    conns: Map<u64, u64>,
    me: u32,
    request: CallRequest,
)
    requires
        fed.wf(),
    ensures
        exchange_outcome(fed, conns, me, request) matches Some(o) ==> moves_forward(fed, o.fed),
{
    reveal(exchange_outcome);
    match request {
        CallRequest::SubscribeObjectClassAttributes { .. } => {},
        CallRequest::UnsubscribeObjectClassAttributes { .. } => {},
        CallRequest::SubscribeInteractionClass { .. } => {},
        CallRequest::UnsubscribeInteractionClass { .. } => {},
        CallRequest::SubscribeObjectClassAttributesWithRegions { .. } => {},
        CallRequest::UpdateAttributeValues { .. } => {},
        CallRequest::UpdateAttributeValuesWithTime { .. } => {},
        CallRequest::SendInteraction { .. } => {},
        CallRequest::SendInteractionWithTime { .. } => {},
        CallRequest::DeleteObjectInstance { .. } => {},
        CallRequest::DeleteObjectInstanceWithTime { .. } => {},
        CallRequest::SendDirectedInteraction { .. } => {},
        _ => {},
    }
}

#[verifier::spinoff_prover]
#[verifier::rlimit(60)]
proof fn lemma_coordination_forward(
    fed: FederationView,
    conns: Map<u64, u64>,
    me: u32,
    request: CallRequest,
    load: SnapshotLoadView,
)
    requires
        fed.wf(),
    ensures
        coordination_outcome(fed, conns, me, request, load) matches Some(o) ==> moves_forward(
            fed,
            o.fed,
        ),
{
    reveal(coordination_outcome);
    match request {
        CallRequest::EnableTimeRegulation { lookahead } => {
            lemma_regulation_forward(fed, conns, me, wire(lookahead));
        },
        CallRequest::DisableTimeRegulation => {
            lemma_regulation_forward(fed, conns, me, None);
        },
        CallRequest::DisableTimeConstrained => {
            lemma_release_forward(fed, conns, me, None);
        },
        CallRequest::ModifyLookahead { lookahead } => {
            lemma_release_forward(fed, conns, me, field64(lookahead));
        },
        CallRequest::TimeAdvance { time, .. } => {
            lemma_advance_forward(fed, conns, me, wire(time));
        },
        CallRequest::QueryAttributeOwnership { .. } => {},
        CallRequest::AttributeOwnershipDivestiture { .. } => {},
        CallRequest::AttributeOwnershipAcquisition { .. } => {},
        CallRequest::RequestFederationSave { .. } => {},
        CallRequest::RequestFederationRestore { .. } => {},
        CallRequest::FederateRestoreComplete => {},
        CallRequest::FederateRestoreNotComplete => {},
        CallRequest::RegisterFederationSynchronizationPoint { .. } => {},
        CallRequest::RegisterFederationSynchronizationPointWithSet { .. } => {},
        CallRequest::SynchronizationPointAchieved { .. } => {},
        CallRequest::EnableTimeConstrained => {},
        _ => {},
    }
}

/// The logical time of a federate never goes back, whatever a member asks for.
pub proof fn logical_time_does_not_go_back(
    fed: FederationView,
    conns: Map<u64, u64>,
    me: u32,
    request: CallRequest,
    load: SnapshotLoadView,
)
    requires
        fed.wf(),
    ensures
        moves_forward(fed, member_outcome(fed, conns, me, request, load).fed),
{
    lemma_quiet_forward(fed, me, request);
    lemma_exchange_forward(fed, conns, me, request);
    lemma_coordination_forward(fed, conns, me, request, load);
}

/// The response to a request that needs no membership and changes nothing.
pub open spec fn open_reply(request: CallRequest) -> Option<ResponseView> {
    match request {
        CallRequest::Passive { service } => Some(done(Service::Passive(service))),
        CallRequest::GetDimensionName { dimension } => Some(
            dimension_name_reply(field32(dimension)),
        ),
        CallRequest::GetDimensionUpperBound { dimension: _ } => Some(
            answered(Service::GetDimensionUpperBound, PayloadView::Number(u32::MAX)),
        ),
        CallRequest::GetAvailableDimensionsForObjectClass { object_class: _ } => Some(
            answered(
                Service::GetAvailableDimensionsForObjectClass,
                PayloadView::Handles(Seq::empty()),
            ),
        ),
        CallRequest::GetAvailableDimensionsForInteractionClass { interaction_class: _ } => Some(
            answered(
                Service::GetAvailableDimensionsForInteractionClass,
                PayloadView::Handles(Seq::empty()),
            ),
        ),
        CallRequest::GetOrderType { order_type_name } => Some(order_type_reply(order_type_name@)),
        CallRequest::GetOrderName { order_type } => Some(order_name_reply(order_type)),
        CallRequest::GetTransportationTypeHandle { transportation_type_name } => Some(
            transportation_handle_reply(transportation_type_name@),
        ),
        CallRequest::GetTransportationTypeName { transportation_type } => Some(
            transportation_name_reply(field32(transportation_type)),
        ),
        CallRequest::NormalizeServiceGroup { service_group } => Some(
            answered(
                Service::NormalizeServiceGroup,
                PayloadView::Number(unsigned(service_group)),
            ),
        ),
        CallRequest::NormalizeFederateHandle { federate } => Some(
            answered(
                Service::NormalizeFederateHandle,
                PayloadView::Number(normalized(field32(federate))),
            ),
        ),
        CallRequest::NormalizeObjectClassHandle { object_class } => Some(
            answered(
                Service::NormalizeObjectClassHandle,
                PayloadView::Number(normalized(field32(object_class))),
            ),
        ),
        CallRequest::NormalizeInteractionClassHandle { interaction_class } => Some(
            answered(
                Service::NormalizeInteractionClassHandle,
                PayloadView::Number(normalized(field32(interaction_class))),
            ),
        ),
        CallRequest::NormalizeObjectInstanceHandle { object_instance } => Some(
            answered(
                Service::NormalizeObjectInstanceHandle,
                PayloadView::Number(normalized_instance(field64(object_instance))),
            ),
        ),
        CallRequest::GetUpdateRateValue => Some(
            answered(Service::GetUpdateRateValue, PayloadView::Rate(0)),
        ),
        CallRequest::GetUpdateRateValueForAttribute => Some(
            answered(Service::GetUpdateRateValueForAttribute, PayloadView::Rate(0)),
        ),
        _ => None,
    }
}

/// Answers a request that needs no membership and changes nothing.
fn answer_openly(request: &CallRequest) -> (r: Option<CallResponse>)
    ensures
        match r {
            Some(c) => open_reply(*request) == Some(c@),
            None => open_reply(*request) is None,
        },
{
    match request {
        CallRequest::Passive { service } => Some(reply(Service::Passive(*service))),
        CallRequest::GetDimensionName { dimension } => Some(get_dimension_name(dimension)),
        CallRequest::GetDimensionUpperBound { dimension: _ } => Some(get_dimension_upper_bound()),
        CallRequest::GetAvailableDimensionsForObjectClass { object_class: _ } => Some(
            get_available_dimensions_for_object_class(),
        ),
        CallRequest::GetAvailableDimensionsForInteractionClass { interaction_class: _ } => Some(
            get_available_dimensions_for_interaction_class(),
        ),
        CallRequest::GetOrderType { order_type_name } => Some(
            get_order_type(order_type_name.as_str()),
        ),
        CallRequest::GetOrderName { order_type } => Some(get_order_name(*order_type)),
        CallRequest::GetTransportationTypeHandle { transportation_type_name } => Some(
            get_transportation_type_handle(transportation_type_name.as_str()),
        ),
        CallRequest::GetTransportationTypeName { transportation_type } => Some(
            get_transportation_type_name(transportation_type),
        ),
        CallRequest::NormalizeServiceGroup { service_group } => Some(
            normalize_service_group(*service_group),
        ),
        CallRequest::NormalizeFederateHandle { federate } => Some(
            normalize_handle(Service::NormalizeFederateHandle, federate),
        ),
        CallRequest::NormalizeObjectClassHandle { object_class } => Some(
            normalize_handle(Service::NormalizeObjectClassHandle, object_class),
        ),
        CallRequest::NormalizeInteractionClassHandle { interaction_class } => Some(
            normalize_handle(Service::NormalizeInteractionClassHandle, interaction_class),
        ),
        CallRequest::NormalizeObjectInstanceHandle { object_instance } => Some(
            normalize_object_instance(object_instance),
        ),
        CallRequest::GetUpdateRateValue => Some(
            reply_with(Service::GetUpdateRateValue, Payload::Rate(0)),
        ),
        CallRequest::GetUpdateRateValueForAttribute => Some(
            reply_with(Service::GetUpdateRateValueForAttribute, Payload::Rate(0)),
        ),
        _ => None,
    }
}

/// Why a request is refused before anybody asks who sent it: it lacks a handle.
pub open spec fn early_fault(request: CallRequest) -> Option<ExceptionView> {
    match request {
        CallRequest::GetFederateName { federate: None } => Some(
            bare(HlaException::InvalidFederateHandle),
        ),
        CallRequest::GetObjectClassName { object_class: None } => Some(
            raised(HlaException::InvalidObjectClassHandle, "missing handle"@),
        ),
        CallRequest::GetAttributeHandle { object_class: None, attribute_name: _ } => Some(
            raised(HlaException::InvalidObjectClassHandle, "missing handle"@),
        ),
        CallRequest::GetAttributeName { object_class, attribute } => if object_class is None
            || attribute is None {
            Some(raised(HlaException::InvalidObjectClassHandle, "missing handle(s)"@))
        } else {
            None
        },
        CallRequest::GetInteractionClassName { interaction_class: None } => Some(
            raised(HlaException::InvalidInteractionClassHandle, "missing handle"@),
        ),
        CallRequest::GetParameterHandle { interaction_class: None, parameter_name: _ } => Some(
            raised(HlaException::InvalidInteractionClassHandle, "missing handle"@),
        ),
        CallRequest::GetParameterName { interaction_class, parameter } => if interaction_class
            is None || parameter is None {
            Some(raised(HlaException::InvalidInteractionClassHandle, "missing handle(s)"@))
        } else {
            None
        },
        _ => None,
    }
}

fn find_early_fault(request: &CallRequest) -> (r: Option<ExceptionData>)
    ensures
        match r {
            Some(e) => early_fault(*request) == Some(e@),
            None => early_fault(*request) is None,
        },
{
    match request {
        CallRequest::GetFederateName { federate } => {
            if federate.is_none() {
                Some(bare_exception(HlaException::InvalidFederateHandle))
            } else {
                None
            }
        },
        CallRequest::GetObjectClassName { object_class } => {
            if object_class.is_none() {
                Some(exception_variant(HlaException::InvalidObjectClassHandle, "missing handle"))
            } else {
                None
            }
        },
        CallRequest::GetAttributeHandle { object_class, attribute_name: _ } => {
            if object_class.is_none() {
                Some(exception_variant(HlaException::InvalidObjectClassHandle, "missing handle"))
            } else {
                None
            }
        },
        CallRequest::GetAttributeName { object_class, attribute } => {
            if object_class.is_none() || attribute.is_none() {
                Some(
                    exception_variant(HlaException::InvalidObjectClassHandle, "missing handle(s)"),
                )
            } else {
                None
            }
        },
        CallRequest::GetInteractionClassName { interaction_class } => {
            if interaction_class.is_none() {
                Some(
                    exception_variant(
                        HlaException::InvalidInteractionClassHandle,
                        "missing handle",
                    ),
                )
            } else {
                None
            }
        },
        CallRequest::GetParameterHandle { interaction_class, parameter_name: _ } => {
            if interaction_class.is_none() {
                Some(
                    exception_variant(
                        HlaException::InvalidInteractionClassHandle,
                        "missing handle",
                    ),
                )
            } else {
                None
            }
        },
        CallRequest::GetParameterName { interaction_class, parameter } => {
            if interaction_class.is_none() || parameter.is_none() {
                Some(
                    exception_variant(
                        HlaException::InvalidInteractionClassHandle,
                        "missing handle(s)",
                    ),
                )
            } else {
                None
            }
        },
        _ => None,
    }
}

/// What the node reads for a request, beside its own state.
#[derive(Debug)]
pub struct Outside {
    /// The modules of the request.
    pub modules: ModuleLoad,
    /// The snapshot that the request asks for.
    pub snapshot: SnapshotLoad,
}

/// What a node-wide request does.
pub open spec fn node_outcome(
    node: NodeView,
    ctx: SessionContext,
    request: CallRequest,
    outside: Outside,
) -> Option<NodeOutcome> {
    match request {
        CallRequest::CreateFederationExecution {
            create_form,
            federation_name,
            fom_modules,
            mim_module,
        } => Some(
            create_outcome(
                node,
                ctx,
                create_form,
                federation_name@,
                all_modules(fom_modules@, mim_module),
                outside.modules,
            ),
        ),
        CallRequest::DestroyFederationExecution { federation_name } => Some(
            destroy_outcome(node, ctx, federation_name@),
        ),
        CallRequest::ListFederationExecutions => Some(list_outcome(node, ctx)),
        CallRequest::ListFederationExecutionMembers { federation_name } => Some(
            list_members_outcome(node, ctx, federation_name@),
        ),
        CallRequest::JoinFederationExecution { join_form, federation_name } => Some(
            join_outcome(node, ctx, join_form, federation_name@),
        ),
        CallRequest::ResignFederationExecution => Some(resign_outcome(node, ctx)),
        _ => None,
    }
}

/// Serves a node-wide request.
fn serve_node(
    node: &mut RtiNode,
    ctx: &mut SessionContext,
    out: &mut Outbox,
    request: &CallRequest,
    outside: &Outside,
) -> (r: Option<CallResponse>)
    requires
        old(node).wf(),
    ensures
        final(node).wf(),
        match node_outcome(old(node)@, *old(ctx), *request, *outside) {
            Some(o) => {
                &&& r is Some
                &&& r->0@ == o.reply
                &&& final(node)@ == o.node
                &&& *final(ctx) == (SessionContext { membership: o.membership, ..*old(ctx) })
                &&& final(out)@ == old(out)@ + o.sent
            },
            None => {
                &&& r is None
                &&& *final(node) == *old(node)
                &&& *final(ctx) == *old(ctx)
                &&& final(out)@ == old(out)@
            },
        },
{
    assert(old(out)@ + Seq::empty() =~= old(out)@);
    match request {
        CallRequest::CreateFederationExecution {
            create_form,
            federation_name,
            fom_modules,
            mim_module,
        } => Some(
            create_federation(
                node,
                ctx,
                *create_form,
                federation_name.as_str(),
                fom_modules,
                mim_module,
                &outside.modules,
            ),
        ),
        CallRequest::DestroyFederationExecution { federation_name } => Some(
            destroy_federation_execution(node, ctx, federation_name.as_str()),
        ),
        CallRequest::ListFederationExecutions => Some(list_federation_executions(node, ctx, out)),
        CallRequest::ListFederationExecutionMembers { federation_name } => Some(
            list_federation_execution_members(node, ctx, out, federation_name.as_str()),
        ),
        CallRequest::JoinFederationExecution { join_form, federation_name } => Some(
            join(node, ctx, join_form, federation_name.as_str()),
        ),
        CallRequest::ResignFederationExecution => Some(resign(node, ctx, out)),
        _ => None,
    }
}

/// What a request does: the node afterwards, the membership of the session, the
/// response, the callbacks that are sent, and the snapshot that is to be written.
#[verifier::ext_equal]
pub struct CallOutcome {
    pub node: NodeView,
    pub membership: Option<Membership>,
    pub reply: ResponseView,
    pub sent: Seq<OutboundView>,
    pub file: Option<SnapshotFileView>,
}

/// A request that is answered, and nothing else.
pub open spec fn only_answered(
    node: NodeView,
    ctx: SessionContext,
    reply: ResponseView,
) -> CallOutcome {
    CallOutcome { node, membership: ctx.membership, reply, sent: Seq::empty(), file: None }
}

/// The membership of a session, where its federation is still there.
pub open spec fn membership_in(node: NodeView, ctx: SessionContext) -> Option<Membership> {
    match ctx.membership {
        Some(m) if node.federations.contains_key(m.federation) => Some(m),
        _ => None,
    }
}

/// What a request does.
pub open spec fn call_outcome(
    node: NodeView,
    ctx: SessionContext,
    request: Option<CallRequest>,
    outside: Outside,
) -> CallOutcome {
    match request {
        None => only_answered(
            node,
            ctx,
            refused(
                raised(
                    HlaException::RtiInternalError,
                    "CallRequest envelope had no oneof variant set"@,
                ),
            ),
        ),
        Some(r) => match (open_reply(r), node_outcome(node, ctx, r, outside), early_fault(r)) {
            (Some(reply), _, _) => only_answered(node, ctx, reply),
            (None, Some(o), _) => CallOutcome {
                node: o.node,
                membership: o.membership,
                reply: o.reply,
                sent: o.sent,
                file: None,
            },
            (None, None, Some(e)) => only_answered(node, ctx, refused(e)),
            (None, None, None) => match membership_in(node, ctx) {
                None => only_answered(
                    node,
                    ctx,
                    refused(bare(HlaException::FederateNotExecutionMember)),
                ),
                Some(m) => {
                    let fed = node.federations[m.federation];
                    let o = member_outcome(
                        fed,
                        node.connections,
                        m.federate_handle,
                        r,
                        outside.snapshot@,
                    );
                    CallOutcome {
                        node: NodeView {
                            federations: node.federations.insert(m.federation, o.fed),
                            ..node
                        },
                        membership: ctx.membership,
                        reply: o.reply,
                        sent: o.sent,
                        file: member_file(fed, m.federate_handle, r),
                    }
                },
            },
        },
    }
}

/// What came of a request.
pub struct DispatchOutcome {
    pub response: CallResponse,
    pub callbacks: Outbox,
    /// A snapshot that is to be written.
    pub file: Option<SnapshotFile>,
}

/// Serves a request of a session.
pub fn dispatch_call(
    node: &mut RtiNode,
    ctx: &mut SessionContext,
    request: &Option<CallRequest>,
    outside: &Outside,
) -> (r: DispatchOutcome)
    requires
        old(node).wf(),
    ensures
        final(node).wf(),
        ({
            let o = call_outcome(old(node)@, *old(ctx), *request, *outside);
            &&& final(node)@ == o.node
            &&& *final(ctx) == (SessionContext { membership: o.membership, ..*old(ctx) })
            &&& r.response@ == o.reply
            &&& r.callbacks@ == o.sent
            &&& file_view(r.file) == o.file
        }),
{
    let mut callbacks = Outbox::new();
    assert(forall|q: Seq<OutboundView>| Seq::<OutboundView>::empty() + q =~= q);
    let request = match request {
        Some(r) => r,
        None => {
            return DispatchOutcome {
                response: refuse(
                    exception_variant(
                        HlaException::RtiInternalError,
                        "CallRequest envelope had no oneof variant set",
                    ),
                ),
                callbacks,
                file: None,
            };
        },
    };
    if let Some(response) = answer_openly(request) {
        return DispatchOutcome { response, callbacks, file: None };
    }
    if let Some(response) = serve_node(node, ctx, &mut callbacks, request, outside) {
        return DispatchOutcome { response, callbacks, file: None };
    }
    if let Some(e) = find_early_fault(request) {
        return DispatchOutcome { response: refuse(e), callbacks, file: None };
    }
    let (response, file) = match ctx.membership {
        None => (refuse_bare(HlaException::FederateNotExecutionMember), None),
        Some(m) => serve_in(node, m, &mut callbacks, request, &outside.snapshot),
    };
    DispatchOutcome { response, callbacks, file }
}

/// Serves the request of a member in its federation, where that is still there.
fn serve_in(
    node: &mut RtiNode,
    m: Membership,
    out: &mut Outbox,
    request: &CallRequest,
    load: &SnapshotLoad,
) -> (r: (CallResponse, Option<SnapshotFile>))
    requires
        old(node).wf(),
    ensures
        final(node).wf(),
        if old(node)@.federations.contains_key(m.federation) {
            let fed = old(node)@.federations[m.federation];
            let o = member_outcome(
                fed,
                old(node)@.connections,
                m.federate_handle,
                *request,
                load@,
            );
            &&& final(node)@ == (NodeView {
                federations: old(node)@.federations.insert(m.federation, o.fed),
                ..old(node)@
            })
            &&& r.0@ == o.reply
            &&& final(out)@ == old(out)@ + o.sent
            &&& file_view(r.1) == member_file(fed, m.federate_handle, *request)
        } else {
            &&& final(node)@ == old(node)@
            &&& r.0@ == refused(bare(HlaException::FederateNotExecutionMember))
            &&& final(out)@ == old(out)@
            &&& r.1 is None
        },
{
    broadcast use lemma_put_back;

    let ghost before = node@;
    let ghost held = node.federations.held();
    proof {
        node.federations.lemma_held();
    }
    match node.federations.remove(m.federation) {
        None => {
            proof {
                assert(node@.federations =~= before.federations);
                assert forall|k: u64| #[trigger]
                    node.federations.held().contains_key(k) implies node.federations.held()[k].wf() by {
                    assert(held.contains_key(k));
                }
            }
            (refuse_bare(HlaException::FederateNotExecutionMember), None)
        },
        Some(mut federation) => {
            assert(held.contains_key(m.federation));
            let ghost fed = federation@;
            let (response, file) = serve_member(
                &mut federation,
                &node.connections,
                out,
                m.federate_handle,
                request,
                load,
            );
            proof {
                assert(before.federations.contains_key(m.federation));
                requests_keep_order(
                    fed,
                    node@.connections,
                    m.federate_handle,
                    *request,
                    load@,
                );
                a_federation_keeps_its_name(
                    fed,
                    node@.connections,
                    m.federate_handle,
                    *request,
                    load@,
                );
            }
            node.federations.insert(m.federation, federation);
            proof {
                lemma_federation_back(before, node@, m.federation, federation@);
                assert forall|k: u64| #[trigger]
                    node.federations.held().contains_key(k) implies node.federations.held()[k].wf() by {
                    assert(held.contains_key(k));
                }
            }
            (response, file)
        },
    }
}

/// The file that has to be read before a request can be served.
pub open spec fn file_wanted(
    node: NodeView,
    ctx: SessionContext,
    request: CallRequest,
) -> Option<Seq<char>> {
    match (request, membership_in(node, ctx)) {
        (CallRequest::RequestFederationRestore { label }, Some(m)) => if label@.len() == 0 {
            None
        } else {
            Some(file_name_of(node.federations[m.federation].name, label@))
        },
        _ => None,
    }
}

/// The name of the file that has to be read before a request can be served: only
/// the restore of a snapshot wants one.
pub fn snapshot_wanted(
    node: &RtiNode,
    ctx: &SessionContext,
    request: &CallRequest,
) -> (r: Option<String>)
    ensures
        match r {
            Some(n) => file_wanted(node@, *ctx, *request) == Some(n@),
            None => file_wanted(node@, *ctx, *request) is None,
        },
{
    match request {
        CallRequest::RequestFederationRestore { label } => {
            if label.as_str().is_empty() {
                return None;
            }
            match ctx.membership {
                Some(m) => match node.federations.get(m.federation) {
                    Some(federation) => Some(
                        snapshot_path(federation.name.as_str(), label.as_str()),
                    ),
                    None => None,
                },
                None => None,
            }
        },
        _ => None,
    }
}

/// A request is never served in the name of another federation: whatever a
/// member asks for, the other federations stay as they are.
pub proof fn a_member_acts_on_its_own_federation(
    node: NodeView,
    ctx: SessionContext,
    request: CallRequest,
    outside: Outside,
    other: u64,
)
    requires
        node_outcome(node, ctx, request, outside) is None,
        ctx.membership is None || ctx.membership->0.federation != other,
        node.federations.contains_key(other),
    ensures
        ({
            let next = call_outcome(node, ctx, Some(request), outside).node;
            &&& next.federations.contains_key(other)
            &&& next.federations[other] == node.federations[other]
        }),
{
}

/// A session that is no member gets nothing done that needs a membership: it is
/// refused, and nothing changes.
pub proof fn outsiders_are_refused(
    node: NodeView,
    ctx: SessionContext,
    request: CallRequest,
    outside: Outside,
)
    requires
        ctx.membership is None,
        open_reply(request) is None,
        node_outcome(node, ctx, request, outside) is None,
    ensures
        ({
            let o = call_outcome(node, ctx, Some(request), outside);
            &&& o.reply is Exception
            &&& o.node == node
            &&& o.membership is None
            &&& o.sent.len() == 0
            &&& o.file is None
        }),
{
}

} // verus!

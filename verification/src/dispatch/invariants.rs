//! What requests keep true: of the federation of a member, and of all federations.

use crate::dispatch::calls::{
    call_outcome, coordination_outcome, exchange_outcome, member_outcome, membership_in,
    node_outcome, quiet_outcome, Outside,
};
use crate::dispatch::ddm_regions::{
    attribute_regions_in, region_pairs, subscribe_with_regions_outcome,
};
use crate::dispatch::declaration::{
    subscribe_attributes_outcome, subscribe_interaction_outcome, unsubscribe_attributes_outcome,
    unsubscribe_class_outcome, unsubscribe_interaction_outcome,
};
use crate::dispatch::federation_mgmt::{
    after_leaving, join_outcome, joining, lemma_federation_back, new_federate, node_refusal,
    requested_name, resign_outcome,
};
use crate::dispatch::handle_lookup::wire;
use crate::dispatch::helpers::{handles_in, listed};
use crate::dispatch::object_mgmt::registration;
use crate::dispatch::restore::{restoring, SnapshotLoadView};
use crate::dispatch::save::save_progress_outcome;
use crate::dispatch::time_mgmt::{
    lemma_time_services_keep, lemma_time_services_keep_members, lemma_time_services_settle,
    same_but_federates, same_member,
};
use crate::exception::{bare, HlaException};
use crate::federation::{FederateView, FederationView};
use crate::fom::FomView;
use crate::handles::{field32, field64};
use crate::logical_time::{not_after, INFINITY};
use crate::messages::{done, CallRequest, JoinForm, RegionPair, Service};
use crate::node::{federation_named, in_order, NodeView};
use crate::persistence::{handle_named, restored_instances, restored_next, SerInstanceView};
use crate::session::{Membership, SessionContext};
use crate::time::{
    after_all_grants, grantable_set, grants_change_federates_only, grants_do_not_lower_the_bound,
    grants_keep_the_members, horizon, lemma_same_times, lower_bound, lower_bound_is_least_horizon, nobody_is_left_to_grant,
    same_times, settled,
};
use vstd::prelude::*;

verus! {

/// Whether a federate keeps its time in another state, and knows no instance there
/// but those that it knew and those that were there.
pub open spec fn stays(fed: FederationView, a: FederateView, b: FederateView) -> bool {
    &&& a.time == b.time
    &&& forall|o: u64| #[trigger]
        b.pub_sub.discovered_instances.contains(o) ==> a.pub_sub.discovered_instances.contains(o)
            || fed.object_instances.contains_key(o)
}

/// Whether two states have the same federates, at the same times, and issue the
/// same numbers next, without a new instance in the second.
pub open spec fn undisturbed(fed: FederationView, next: FederationView) -> bool {
    &&& next.next_object_id == fed.next_object_id
    &&& next.next_federate_id == fed.next_federate_id
    &&& next.renumbered == fed.renumbered
    &&& forall|o: u64| #[trigger]
        next.object_instances.contains_key(o) ==> fed.object_instances.contains_key(o)
    &&& forall|f: u32| #[trigger]
        next.federates.contains_key(f) <==> fed.federates.contains_key(f)
    &&& forall|f: u32| #[trigger]
        next.federates.contains_key(f) ==> stays(fed, fed.federates[f], next.federates[f])
}

proof fn lemma_undisturbed(fed: FederationView, next: FederationView)
    requires
        undisturbed(fed, next),
    ensures
        same_times(fed, next),
        fed.fresh() ==> next.fresh(),
{
    assert(same_times(fed, next)) by {
        assert(fed.federates.dom() =~= next.federates.dom());
        assert forall|f: u32| #[trigger] fed.federates.contains_key(f) implies fed.federates[f].time
            == next.federates[f].time by {
            assert(next.federates.contains_key(f));
        }
    }
    if fed.fresh() {
        assert forall|f: u32| #[trigger] next.federates.contains_key(f) implies f
            < next.next_federate_id && next.federates[f].knows_below(next.next_object_id) by {
            assert(fed.federates.contains_key(f));
            assert(stays(fed, fed.federates[f], next.federates[f]));
        }
    }
}

#[verifier::spinoff_prover]
#[verifier::rlimit(60)]
proof fn lemma_quiet_undisturbed(fed: FederationView, me: u32, request: CallRequest)
    ensures
        quiet_outcome(fed, me, request) matches Some(o) ==> undisturbed(fed, o.fed),
{
    reveal(quiet_outcome);
    match request {
        CallRequest::SetSwitch { .. } => {},
        CallRequest::SetAutomaticResignDirective { .. } => {},
        CallRequest::LocalDeleteObjectInstance { .. } => {},
        CallRequest::PublishObjectClassAttributes { .. } => {},
        CallRequest::UnpublishObjectClass { .. } => {},
        CallRequest::UnpublishObjectClassAttributes { .. } => {},
        CallRequest::UnsubscribeObjectClass { .. } => {},
        CallRequest::PublishInteractionClass { .. } => {},
        CallRequest::UnpublishInteractionClass { .. } => {},
        CallRequest::CreateRegion { .. } => {},
        CallRequest::DeleteRegion { .. } => {},
        CallRequest::SetRangeBounds { .. } => {},
        CallRequest::CommitRegionModifications { .. } => {},
        CallRequest::UnsubscribeObjectClassAttributesWithRegions { .. } => {},
        CallRequest::PublishObjectClassDirectedInteractions { .. } => {},
        CallRequest::UnpublishObjectClassDirectedInteractions { .. } => {},
        CallRequest::UnpublishObjectClassDirectedInteractionsWithSet { .. } => {},
        CallRequest::SubscribeObjectClassDirectedInteractions { .. } => {},
        CallRequest::UnsubscribeObjectClassDirectedInteractions { .. } => {},
        CallRequest::UnsubscribeObjectClassDirectedInteractionsWithSet { .. } => {},
        _ => {},
    }
}

/// Whether a request registers an instance.
pub open spec fn registers(request: CallRequest) -> bool {
    ||| request is RegisterObjectInstance
    ||| request is RegisterObjectInstanceWithName
    ||| request is RegisterObjectInstanceWithRegions
    ||| request is RegisterObjectInstanceWithNameAndRegions
}

#[verifier::spinoff_prover]
#[verifier::rlimit(60)]
proof fn lemma_exchange_undisturbed(
    fed: FederationView,
    conns: Map<u64, u64>,
    me: u32,
    request: CallRequest,
)
    requires
        !registers(request),
    ensures
        exchange_outcome(fed, conns, me, request) matches Some(o) ==> undisturbed(fed, o.fed),
{
    reveal(exchange_outcome);
    match request {
        CallRequest::SubscribeObjectClassAttributes { .. } => {},
        CallRequest::UnsubscribeObjectClassAttributes { .. } => {},
        CallRequest::SubscribeInteractionClass { .. } => {},
        CallRequest::UnsubscribeInteractionClass { .. } => {},
        CallRequest::SubscribeObjectClassAttributesWithRegions { .. } => {},
        CallRequest::UpdateAttributeValues { .. } => {},
        CallRequest::UpdateAttributeValuesWithTime { .. } => {},
        CallRequest::SendInteraction { .. } => {},
        CallRequest::SendInteractionWithTime { .. } => {},
        CallRequest::DeleteObjectInstance { .. } => {},
        CallRequest::DeleteObjectInstanceWithTime { .. } => {},
        CallRequest::SendDirectedInteraction { .. } => {},
        _ => {},
    }
}

/// Whether a request is one of time management that can let federates advance.
pub open spec fn moves_time(request: CallRequest) -> bool {
    ||| request is EnableTimeRegulation
    ||| request is DisableTimeRegulation
    ||| request is EnableTimeConstrained
    ||| request is DisableTimeConstrained
    ||| request is ModifyLookahead
    ||| request is TimeAdvance
}

#[verifier::spinoff_prover]
#[verifier::rlimit(60)]
proof fn lemma_coordination_undisturbed(
    fed: FederationView,
    conns: Map<u64, u64>,
    me: u32,
    request: CallRequest,
    load: SnapshotLoadView,
)
    requires
        !moves_time(request),
        !(request is RequestFederationRestore),
    ensures
        coordination_outcome(fed, conns, me, request, load) matches Some(o) ==> undisturbed(
            fed,
            o.fed,
        ),
{
    reveal(coordination_outcome);
    match request {
        CallRequest::QueryAttributeOwnership { .. } => {},
        CallRequest::AttributeOwnershipDivestiture { .. } => {},
        CallRequest::AttributeOwnershipAcquisition { .. } => {},
        CallRequest::RequestFederationSave { .. } => {},
        CallRequest::FederateRestoreComplete => {},
        CallRequest::FederateRestoreNotComplete => {},
        CallRequest::RegisterFederationSynchronizationPoint { .. } => {},
        CallRequest::RegisterFederationSynchronizationPointWithSet { .. } => {},
        CallRequest::SynchronizationPointAchieved { .. } => {},
        _ => {},
    }
}

/// Whether a step keeps the numbers that are issued next fresh, unless they have
/// run out.
pub open spec fn keeps_numbers_fresh(fed: FederationView, next: FederationView) -> bool {
    &&& fed.renumbered ==> next.renumbered
    &&& fed.fresh() ==> next.renumbered || next.fresh()
}

proof fn lemma_registration(
    fed: FederationView,
    conns: Map<u64, u64>,
    me: u32,
    class: Option<u32>,
    name: Option<Seq<char>>,
)
    ensures
        same_times(fed, registration(fed, conns, me, class, name).fed),
        keeps_numbers_fresh(fed, registration(fed, conns, me, class, name).fed),
{
    let next = registration(fed, conns, me, class, name).fed;
    assert(fed.federates.dom() =~= next.federates.dom());
    if fed.fresh() && !next.renumbered {
        assert forall|f: u32| #[trigger] next.federates.contains_key(f) implies f
            < next.next_federate_id && next.federates[f].knows_below(next.next_object_id) by {
            assert(fed.federates.contains_key(f));
            assert(fed.federates[f].knows_below(fed.next_object_id));
        }
    }
}

#[verifier::spinoff_prover]
proof fn lemma_exchange_registers(
    fed: FederationView,
    conns: Map<u64, u64>,
    me: u32,
    request: CallRequest,
)
    requires
        registers(request),
    ensures
        exchange_outcome(fed, conns, me, request) matches Some(o) && same_times(fed, o.fed)
            && keeps_numbers_fresh(fed, o.fed),
{
    reveal(exchange_outcome);
    match request {
        CallRequest::RegisterObjectInstance { object_class } => {
            lemma_registration(fed, conns, me, field32(object_class), None);
        },
        CallRequest::RegisterObjectInstanceWithName { object_class, object_instance_name } => {
            lemma_registration(
                fed,
                conns,
                me,
                field32(object_class),
                Some(object_instance_name@),
            );
        },
        CallRequest::RegisterObjectInstanceWithRegions { object_class, .. } => {
            lemma_registration(fed, conns, me, field32(object_class), None);
        },
        CallRequest::RegisterObjectInstanceWithNameAndRegions {
            object_class,
            object_instance_name,
            ..
        } => {
            lemma_registration(
                fed,
                conns,
                me,
                field32(object_class),
                Some(object_instance_name@),
            );
        },
        _ => {},
    }
}

proof fn lemma_restored_numbers(
    federates: Map<u32, FederateView>,
    l: Seq<SerInstanceView>,
    next: u64,
)
    requires
        forall|i: int| 0 <= i < l.len() ==> (#[trigger] l[i]).handle < u64::MAX,
    ensures
        next <= restored_next(federates, l, next),
        forall|o: u64| #[trigger]
            restored_instances(federates, l).contains_key(o) ==> o < restored_next(
                federates,
                l,
                next,
            ),
    decreases l.len(),
{
    if l.len() > 0 {
        let rest = l.drop_last();
        assert forall|i: int| 0 <= i < rest.len() implies (#[trigger] rest[i]).handle < u64::MAX by {
            assert(rest[i] == l[i]);
        }
        lemma_restored_numbers(federates, rest, next);
        assert(l[l.len() - 1].handle < u64::MAX);
        assert forall|o: u64| #[trigger] restored_instances(federates, l).contains_key(o) implies o
            < restored_next(federates, l, next) by {
            if o != l.last().handle {
                assert(restored_instances(federates, rest).contains_key(o));
            } else if handle_named(federates, l.last().registrar_name) is None {
                assert(restored_instances(federates, rest).contains_key(o));
            }
        }
    }
}

proof fn lemma_restore(fed: FederationView, label: Seq<char>, load: SnapshotLoadView)
    ensures
        same_times(fed, restoring(fed, label, load)),
        keeps_numbers_fresh(fed, restoring(fed, label, load)),
{
    if fed.fresh() && !restoring(fed, label, load).renumbered {
        if let SnapshotLoadView::Found(snap) = load {
            lemma_restored_numbers(fed.federates, snap.instances, fed.next_object_id);
            let next = restoring(fed, label, load);
            assert forall|f: u32| #[trigger] next.federates.contains_key(f) implies f
                < next.next_federate_id && next.federates[f].knows_below(next.next_object_id) by {
                assert(fed.federates[f].knows_below(fed.next_object_id));
            }
        }
    }
}

#[verifier::spinoff_prover]
proof fn lemma_coordination_restores(
    fed: FederationView,
    conns: Map<u64, u64>,
    me: u32,
    request: CallRequest,
    load: SnapshotLoadView,
)
    requires
        request is RequestFederationRestore,
    ensures
        coordination_outcome(fed, conns, me, request, load) matches Some(o) && same_times(
            fed,
            o.fed,
        ) && keeps_numbers_fresh(fed, o.fed),
{
    reveal(coordination_outcome);
    if let CallRequest::RequestFederationRestore { label } = request {
        lemma_restore(fed, label@, load);
    }
}

proof fn lemma_members_kept(fed: FederationView, next: FederationView)
    requires
        same_but_federates(fed, next),
        forall|f: u32| #[trigger] same_member(fed, next, f),
        fed.fresh(),
    ensures
        next.fresh(),
{
    assert forall|f: u32| #[trigger] next.federates.contains_key(f) implies f
        < next.next_federate_id && next.federates[f].knows_below(next.next_object_id) by {
        assert(same_member(fed, next, f));
        assert(fed.federates[f].knows_below(fed.next_object_id));
    }
}

#[verifier::spinoff_prover]
proof fn lemma_coordination_moves_time(
    fed: FederationView,
    conns: Map<u64, u64>,
    me: u32,
    request: CallRequest,
    load: SnapshotLoadView,
)
    requires
        moves_time(request),
    ensures
        coordination_outcome(fed, conns, me, request, load) matches Some(o)
            && keeps_numbers_fresh(fed, o.fed) && (fed.wf() && settled(fed) ==> settled(o.fed)),
{
    reveal(coordination_outcome);
    let (field, lookahead) = match request {
        CallRequest::EnableTimeRegulation { lookahead } => (wire(lookahead), None),
        CallRequest::ModifyLookahead { lookahead } => (None, field64(lookahead)),
        CallRequest::TimeAdvance { time, .. } => (wire(time), None),
        _ => (None, None),
    };
    let next = coordination_outcome(fed, conns, me, request, load)->0.fed;
    lemma_time_services_keep(fed, conns, me, field, lookahead);
    if fed.fresh() {
        assert forall|f: u32| #[trigger] same_member(fed, next, f) by {
            lemma_time_services_keep_members(fed, conns, me, field, lookahead, f);
        }
        lemma_members_kept(fed, next);
    }
    if fed.wf() && settled(fed) {
        lemma_time_services_settle(fed, conns, me, field, lookahead);
    }
}

proof fn lemma_save_report_undisturbed(
    fed: FederationView,
    conns: Map<u64, u64>,
    me: u32,
    success: bool,
)
    ensures
        undisturbed(fed, save_progress_outcome(fed, conns, me, success).fed),
{
}

/// Until the numbers run out, no request of a member takes the freshness from those
/// that are issued next.
pub proof fn numbers_stay_fresh(
    fed: FederationView,
    conns: Map<u64, u64>,
    me: u32,
    request: CallRequest,
    load: SnapshotLoadView,
)
    ensures
        keeps_numbers_fresh(fed, member_outcome(fed, conns, me, request, load).fed),
{
    let next = member_outcome(fed, conns, me, request, load).fed;
    lemma_save_report_undisturbed(fed, conns, me, true);
    lemma_save_report_undisturbed(fed, conns, me, false);
    lemma_quiet_undisturbed(fed, me, request);
    if registers(request) {
        lemma_exchange_registers(fed, conns, me, request);
    } else {
        lemma_exchange_undisturbed(fed, conns, me, request);
    }
    if moves_time(request) {
        lemma_coordination_moves_time(fed, conns, me, request, load);
    } else if request is RequestFederationRestore {
        lemma_coordination_restores(fed, conns, me, request, load);
    } else {
        lemma_coordination_undisturbed(fed, conns, me, request, load);
    }
    if undisturbed(fed, next) {
        lemma_undisturbed(fed, next);
    }
}

/// Whoever asked to advance is granted it once it is safe: after no request of a
/// member does anybody wait who may advance.
pub proof fn nobody_waits_in_vain(
    fed: FederationView,
    conns: Map<u64, u64>,
    me: u32,
    request: CallRequest,
    load: SnapshotLoadView,
)
    requires
        fed.wf(),
        settled(fed),
    ensures
        settled(member_outcome(fed, conns, me, request, load).fed),
{
    let next = member_outcome(fed, conns, me, request, load).fed;
    lemma_save_report_undisturbed(fed, conns, me, true);
    lemma_save_report_undisturbed(fed, conns, me, false);
    lemma_quiet_undisturbed(fed, me, request);
    if registers(request) {
        lemma_exchange_registers(fed, conns, me, request);
    } else {
        lemma_exchange_undisturbed(fed, conns, me, request);
    }
    if moves_time(request) {
        lemma_coordination_moves_time(fed, conns, me, request, load);
    } else if request is RequestFederationRestore {
        lemma_coordination_restores(fed, conns, me, request, load);
    } else {
        lemma_coordination_undisturbed(fed, conns, me, request, load);
    }
    if undisturbed(fed, next) {
        lemma_undisturbed(fed, next);
    }
    if same_times(fed, next) {
        lemma_same_times(fed, next);
    }
}

/// No request of a member takes the order from its federation.
pub proof fn requests_keep_order(
    fed: FederationView,
    conns: Map<u64, u64>,
    me: u32,
    request: CallRequest,
    load: SnapshotLoadView,
)
    requires
        fed.wf(),
        in_order(fed),
    ensures
        in_order(member_outcome(fed, conns, me, request, load).fed),
{
    numbers_stay_fresh(fed, conns, me, request, load);
    if !fed.renumbered {
        nobody_waits_in_vain(fed, conns, me, request, load);
    }
}

/// A federation that nobody has joined is in order.
pub proof fn a_new_federation_is_in_order(name: Seq<char>, serial: u64, fom: FomView)
    ensures
        in_order(FederationView::new(name, serial, fom)),
{
    let fed = FederationView::new(name, serial, fom);
    assert(grantable_set(fed, lower_bound(fed)) =~= Set::empty());
}

/// To join takes the order from no federation.
pub proof fn joining_keeps_order(
    fed: FederationView,
    session_id: u64,
    requested: Option<Seq<char>>,
)
    requires
        fed.wf(),
        in_order(fed),
    ensures
        in_order(joining(fed, session_id, requested).0),
{
    let next = joining(fed, session_id, requested).0;
    if !next.renumbered {
        assert forall|f: u32| #[trigger] next.federates.contains_key(f) implies f
            < next.next_federate_id && next.federates[f].knows_below(next.next_object_id) by {
            if f != fed.next_federate_id {
                assert(fed.federates.contains_key(f));
            }
        }
        lemma_joining_settled(fed, session_id, requested);
    }
}

/// Who joins waits for nothing, and frees nobody.
proof fn lemma_joining_settled(fed: FederationView, session_id: u64, requested: Option<Seq<char>>)
    requires
        fed.wf(),
        settled(fed),
        !fed.federates.contains_key(fed.next_federate_id),
    ensures
        settled(joining(fed, session_id, requested).0),
{
    let next = joining(fed, session_id, requested).0;
    let h = fed.next_federate_id;
    if joining(fed, session_id, requested).1 is Ok {
        assert(new_federate(h, next.federates[h].name, session_id).wf());
        assert forall|f: u32| #[trigger]
            next.federates.contains_key(f) implies next.federates[f].handle == f
            && next.federates[f].wf() by {
            if f != h {
                assert(fed.federates.contains_key(f));
            }
        }
        assert(next.wf());
        lower_bound_is_least_horizon(fed);
        lower_bound_is_least_horizon(next);
        let was = lower_bound(fed);
        let is = lower_bound(next);
        assert forall|f: u32| !grantable_set(next, is).contains(f) by {
            if grantable_set(next, is).contains(f) {
                assert(f != h);
                assert(fed.federates.contains_key(f));
                assert(fed.federates[f].wf());
                if was != INFINITY {
                    let g = choose|g: u32| #[trigger]
                        fed.federates.contains_key(g) && fed.federates[g].time.is_regulating
                            && horizon(fed.federates[g]) == was;
                    assert(next.federates.contains_key(g));
                    assert(next.federates[g] == fed.federates[g]);
                    assert(not_after(is, was));
                }
                assert(grantable_set(fed, was).contains(f));
            }
        }
        assert(grantable_set(next, is) =~= Set::empty());
    } else {
        assert(same_times(fed, next));
        lemma_same_times(fed, next);
    }
}

/// A federation is in order after some have left and those who waited for them were
/// granted.
pub proof fn lemma_departed(fed: FederationView, gone: Set<u32>)
    requires
        fed.wf(),
    ensures
        ({
            let left = FederationView { federates: fed.federates.remove_keys(gone), ..fed };
            let next = after_all_grants(left);
            &&& left.wf()
            &&& next.wf()
            &&& next.name == fed.name
            &&& next.serial == fed.serial
            &&& in_order(fed) ==> in_order(next)
        }),
{
    let left = FederationView { federates: fed.federates.remove_keys(gone), ..fed };
    assert forall|f: u32| #[trigger] left.federates.contains_key(f) implies left.federates[f].handle
        == f && left.federates[f].wf() by {
        assert(fed.federates.contains_key(f));
    }
    assert(left.wf());
    nobody_is_left_to_grant(left);
    grants_do_not_lower_the_bound(left);
    grants_change_federates_only(left);
    if fed.fresh() {
        assert forall|f: u32| #[trigger] left.federates.contains_key(f) implies f
            < left.next_federate_id && left.federates[f].knows_below(left.next_object_id) by {
            assert(fed.federates.contains_key(f));
        }
        let next = after_all_grants(left);
        assert forall|f: u32| #[trigger] same_member(left, next, f) by {
            grants_keep_the_members(left, f);
        }
        lemma_members_kept(left, next);
    }
}

/// To leave for good takes the order from no federation.
pub proof fn leaving_keeps_order(node: NodeView, m: Membership)
    requires
        node.wf(),
    ensures
        after_leaving(node, m).wf(),
{
    if node.federations.contains_key(m.federation) {
        let fed = node.federations[m.federation];
        lemma_departed(fed, set![m.federate_handle]);
        assert(fed.federates.remove_keys(set![m.federate_handle]) =~= fed.federates.remove(
            m.federate_handle,
        ));
        let next = after_leaving(node, m);
        assert(next.federations =~= node.federations.insert(
            m.federation,
            next.federations[m.federation],
        ));
        lemma_federation_back(node, next, m.federation, next.federations[m.federation]);
    }
}

proof fn lemma_node_requests(
    node: NodeView,
    ctx: SessionContext,
    request: CallRequest,
    outside: Outside,
)
    requires
        node.wf(),
    ensures
        node_outcome(node, ctx, request, outside) matches Some(o) ==> o.node.wf(),
{
    if let Some(o) = node_outcome(node, ctx, request, outside) {
        let next = o.node;
        match request {
            CallRequest::CreateFederationExecution { federation_name, .. } => {
                let id = node.next_federation_id;
                if next != node {
                    a_new_federation_is_in_order(
                        federation_name@,
                        id,
                        next.federations[id].fom,
                    );
                    assert forall|k: u64| #[trigger]
                        next.federations.contains_key(k) implies next.federations[k].serial == k
                        && next.federations[k].wf() && in_order(next.federations[k]) by {
                        if k != id {
                            assert(node.federations.contains_key(k));
                        }
                    }
                    assert forall|a: u64, b: u64| #[trigger]
                        next.federations.contains_key(a) && #[trigger] next.federations.contains_key(
                            b,
                        ) && next.federations[a].name == next.federations[b].name implies a
                        == b by {
                        if a != id {
                            assert(node.federations.contains_key(a));
                        }
                        if b != id {
                            assert(node.federations.contains_key(b));
                        }
                    }
                }
            },
            CallRequest::DestroyFederationExecution { .. } => {
                assert forall|k: u64| #[trigger]
                    next.federations.contains_key(k) implies node.federations.contains_key(k)
                    && next.federations[k] == node.federations[k] by {}
            },
            CallRequest::JoinFederationExecution { join_form, federation_name } => {
                if let Some(id) = federation_named(node.federations, federation_name@) {
                    let fed = node.federations[id];
                    let joined = joining(fed, ctx.session_id, requested_name(join_form)).0;
                    assert(node.federations.contains_key(id));
                    joining_keeps_order(fed, ctx.session_id, requested_name(join_form));
                    assert forall|f: u32| #[trigger]
                        joined.federates.contains_key(f) implies joined.federates[f].handle == f
                        && joined.federates[f].wf() by {
                        if f != fed.next_federate_id {
                            assert(fed.federates.contains_key(f));
                        }
                    }
                    assert(joined.wf());
                    if next != node {
                        lemma_federation_back(node, next, id, joined);
                    }
                }
            },
            CallRequest::ResignFederationExecution => {
                if let Some(m) = ctx.membership {
                    leaving_keeps_order(node, m);
                }
            },
            _ => {},
        }
    }
}

/// After every request every federation is in order: as long as its numbers last,
/// it issues fresh ones, and nobody in it waits who may advance.
pub proof fn every_request_keeps_order(
    node: NodeView,
    ctx: SessionContext,
    request: Option<CallRequest>,
    outside: Outside,
    id: u64,
)
    requires
        node.wf(),
        call_outcome(node, ctx, request, outside).node.federations.contains_key(id),
    ensures
        in_order(call_outcome(node, ctx, request, outside).node.federations[id]),
{
    if let Some(r) = request {
        lemma_node_requests(node, ctx, r, outside);
        if let Some(m) = membership_in(node, ctx) {
            requests_keep_order(
                node.federations[m.federation],
                node.connections,
                m.federate_handle,
                r,
                outside.snapshot@,
            );
        }
    }
}

/// To resign undoes to join, but for the number that was given out: until the
/// numbers run out, the federation has the federates that it had before, and nobody
/// is told anything. Who has resigned cannot resign again, which changes nothing, but
/// can join again, as another federate.
pub proof fn to_resign_undoes_to_join(
    node: NodeView,
    ctx: SessionContext,
    form: JoinForm,
    name: Seq<char>,
    id: u64,
)
    requires
        node.wf(),
        federation_named(node.federations, name) == Some(id),
        !node.federations[id].renumbered,
        ctx.membership is None,
    ensures
        ({
            let joined = join_outcome(node, ctx, form, name);
            let member = SessionContext { membership: joined.membership, ..ctx };
            let resigned = resign_outcome(joined.node, member);
            let again = join_outcome(resigned.node, ctx, form, name);
            joined.membership matches Some(m) ==> {
                &&& resigned.reply == done(Service::ResignFederationExecution)
                &&& resigned.membership is None
                &&& resigned.node.federations[id].federates == node.federations[id].federates
                &&& resigned.sent.len() == 0
                &&& resign_outcome(resigned.node, ctx) == node_refusal(
                    resigned.node,
                    ctx,
                    bare(HlaException::FederateNotExecutionMember),
                )
                &&& again.membership matches Some(other) && other.federation == id
                    && other.federate_handle != m.federate_handle
            }
        }),
{
    assert(node.federations.contains_key(id));
    let joined = join_outcome(node, ctx, form, name);
    if joined.membership is Some {
        let was = node.federations[id];
        let h = was.next_federate_id;
        let fed = joined.node.federations[id];
        let left = FederationView { federates: fed.federates.remove(h), ..fed };
        assert(!was.federates.contains_key(h));
        assert(left.federates =~= was.federates);
        assert(same_times(was, left));
        lemma_same_times(was, left);
        assert(after_all_grants(left) == left);
        let member = SessionContext { membership: joined.membership, ..ctx };
        let resigned = resign_outcome(joined.node, member);
        assert(resigned.node.federations[id] == left);
        assert forall|k: u64| #[trigger]
            resigned.node.federations.contains_key(k) && resigned.node.federations[k].name
                == name implies k == id by {
            assert(node.federations.contains_key(k));
        }
        assert(resigned.node.federations.contains_key(id));
        assert(federation_named(resigned.node.federations, name) == Some(id));
    }
}

/// Whether a federate has declared that it subscribes to an attribute of a class.
pub open spec fn declares(fs: FederateView, class: u32, attr: u32) -> bool {
    fs.pub_sub.subscribed_attrs.contains_key(class) && fs.pub_sub.subscribed_attrs[class].contains(
        attr,
    )
}

/// Whether the subscriptions of a federation are for each of its federates those
/// that it has declared.
pub open spec fn subscriptions_agree(fed: FederationView) -> bool {
    &&& forall|c: u32, a: u32, f: u32|
        fed.federates.contains_key(f) ==> (#[trigger] fed.subscriptions.attributes.contains(
            (c, a, f),
        ) <==> declares(fed.federates[f], c, a))
    &&& forall|c: u32, f: u32|
        fed.federates.contains_key(f) ==> (#[trigger] fed.subscriptions.interactions.contains(
            (c, f),
        ) <==> fed.federates[f].pub_sub.subscribed_interactions.contains(c))
}

/// Whether a federation serves no federate with what it has not declared that it
/// subscribes to.
pub open spec fn subscriptions_declared(fed: FederationView) -> bool {
    &&& forall|c: u32, a: u32, f: u32|
        fed.federates.contains_key(f) && #[trigger] fed.subscriptions.attributes.contains(
            (c, a, f),
        ) ==> declares(fed.federates[f], c, a)
    &&& forall|c: u32, f: u32|
        fed.federates.contains_key(f) && #[trigger] fed.subscriptions.interactions.contains((c, f))
            ==> fed.federates[f].pub_sub.subscribed_interactions.contains(c)
}

/// Whether a step keeps the subscriptions of a federation within the declarations of
/// its federates, and equal to them.
spec fn keeps_to_declarations(fed: FederationView, next: FederationView) -> bool {
    &&& subscriptions_declared(fed) ==> subscriptions_declared(next)
    &&& subscriptions_agree(fed) ==> subscriptions_agree(next)
}

/// Whether a federate subscribes to the same in two states.
pub open spec fn same_interests(a: FederateView, b: FederateView) -> bool {
    &&& a.pub_sub.subscribed_attrs == b.pub_sub.subscribed_attrs
    &&& a.pub_sub.subscribed_interactions == b.pub_sub.subscribed_interactions
}

/// Whether every federate that is in the second of two states is in the first, and
/// all subscribe to the same in both.
pub open spec fn same_subscriptions(fed: FederationView, next: FederationView) -> bool {
    &&& next.subscriptions == fed.subscriptions
    &&& forall|f: u32| #[trigger]
        next.federates.contains_key(f) ==> fed.federates.contains_key(f) && same_interests(
            fed.federates[f],
            next.federates[f],
        )
}

proof fn lemma_same_subscriptions(fed: FederationView, next: FederationView)
    requires
        same_subscriptions(fed, next),
    ensures
        keeps_to_declarations(fed, next),
{
    assert forall|f: u32| #[trigger]
        next.federates.contains_key(f) implies fed.federates.contains_key(f) && same_interests(
        fed.federates[f],
        next.federates[f],
    ) by {}
    if subscriptions_agree(fed) {
        assert forall|c: u32, a: u32, f: u32| next.federates.contains_key(f) implies (
        #[trigger] next.subscriptions.attributes.contains((c, a, f)) <==> declares(
            next.federates[f],
            c,
            a,
        )) by {
            assert(fed.federates.contains_key(f));
        }
        assert forall|c: u32, f: u32| next.federates.contains_key(f) implies (
        #[trigger] next.subscriptions.interactions.contains((c, f))
            <==> next.federates[f].pub_sub.subscribed_interactions.contains(c)) by {
            assert(fed.federates.contains_key(f));
        }
    }
    if subscriptions_declared(fed) {
        assert forall|c: u32, a: u32, f: u32|
            next.federates.contains_key(f) && #[trigger] next.subscriptions.attributes.contains(
                (c, a, f),
            ) implies declares(next.federates[f], c, a) by {
            assert(fed.federates.contains_key(f));
            assert(declares(fed.federates[f], c, a));
        }
        assert forall|c: u32, f: u32|
            next.federates.contains_key(f) && #[trigger] next.subscriptions.interactions.contains(
                (c, f),
            ) implies next.federates[f].pub_sub.subscribed_interactions.contains(c) by {
            assert(fed.federates.contains_key(f));
        }
    }
}

/// Whether a request changes what a federate subscribes to.
pub open spec fn subscribes(request: CallRequest) -> bool {
    ||| request is SubscribeObjectClassAttributes
    ||| request is UnsubscribeObjectClassAttributes
    ||| request is SubscribeObjectClassAttributesWithRegions
    ||| request is SubscribeInteractionClass
    ||| request is UnsubscribeInteractionClass
}

#[verifier::spinoff_prover]
#[verifier::rlimit(60)]
proof fn lemma_quiet_subscriptions(fed: FederationView, me: u32, request: CallRequest)
    requires
        !subscribes(request),
        !(request is UnsubscribeObjectClass),
    ensures
        quiet_outcome(fed, me, request) matches Some(o) ==> same_subscriptions(fed, o.fed),
{
    reveal(quiet_outcome);
    match request {
        CallRequest::SetSwitch { .. } => {},
        CallRequest::SetAutomaticResignDirective { .. } => {},
        CallRequest::LocalDeleteObjectInstance { .. } => {},
        CallRequest::PublishObjectClassAttributes { .. } => {},
        CallRequest::UnpublishObjectClass { .. } => {},
        CallRequest::UnpublishObjectClassAttributes { .. } => {},
        CallRequest::PublishInteractionClass { .. } => {},
        CallRequest::UnpublishInteractionClass { .. } => {},
        CallRequest::CreateRegion { .. } => {},
        CallRequest::DeleteRegion { .. } => {},
        CallRequest::SetRangeBounds { .. } => {},
        CallRequest::CommitRegionModifications { .. } => {},
        CallRequest::UnsubscribeObjectClassAttributesWithRegions { .. } => {},
        CallRequest::PublishObjectClassDirectedInteractions { .. } => {},
        CallRequest::UnpublishObjectClassDirectedInteractions { .. } => {},
        CallRequest::UnpublishObjectClassDirectedInteractionsWithSet { .. } => {},
        CallRequest::SubscribeObjectClassDirectedInteractions { .. } => {},
        CallRequest::UnsubscribeObjectClassDirectedInteractions { .. } => {},
        CallRequest::UnsubscribeObjectClassDirectedInteractionsWithSet { .. } => {},
        _ => {},
    }
}

#[verifier::spinoff_prover]
#[verifier::rlimit(60)]
proof fn lemma_exchange_subscriptions(
    fed: FederationView,
    conns: Map<u64, u64>,
    me: u32,
    request: CallRequest,
)
    requires
        !subscribes(request),
    ensures
        exchange_outcome(fed, conns, me, request) matches Some(o) ==> same_subscriptions(
            fed,
            o.fed,
        ),
{
    reveal(exchange_outcome);
    match request {
        CallRequest::RegisterObjectInstance { .. } => {},
        CallRequest::RegisterObjectInstanceWithName { .. } => {},
        CallRequest::RegisterObjectInstanceWithRegions { .. } => {},
        CallRequest::RegisterObjectInstanceWithNameAndRegions { .. } => {},
        CallRequest::UpdateAttributeValues { .. } => {},
        CallRequest::UpdateAttributeValuesWithTime { .. } => {},
        CallRequest::SendInteraction { .. } => {},
        CallRequest::SendInteractionWithTime { .. } => {},
        CallRequest::DeleteObjectInstance { .. } => {},
        CallRequest::DeleteObjectInstanceWithTime { .. } => {},
        CallRequest::SendDirectedInteraction { .. } => {},
        _ => {},
    }
}

#[verifier::spinoff_prover]
#[verifier::rlimit(60)]
proof fn lemma_coordination_subscriptions(
    fed: FederationView,
    conns: Map<u64, u64>,
    me: u32,
    request: CallRequest,
    load: SnapshotLoadView,
)
    requires
        !moves_time(request),
    ensures
        coordination_outcome(fed, conns, me, request, load) matches Some(o) ==> same_subscriptions(
            fed,
            o.fed,
        ),
{
    reveal(coordination_outcome);
    match request {
        CallRequest::QueryAttributeOwnership { .. } => {},
        CallRequest::AttributeOwnershipDivestiture { .. } => {},
        CallRequest::AttributeOwnershipAcquisition { .. } => {},
        CallRequest::RequestFederationSave { .. } => {},
        CallRequest::RequestFederationRestore { .. } => {},
        CallRequest::FederateRestoreComplete => {},
        CallRequest::FederateRestoreNotComplete => {},
        CallRequest::RegisterFederationSynchronizationPoint { .. } => {},
        CallRequest::RegisterFederationSynchronizationPointWithSet { .. } => {},
        CallRequest::SynchronizationPointAchieved { .. } => {},
        _ => {},
    }
}

/// Whether one federate turns its subscriptions to some attributes of a class on or
/// off, in the matrix as in its own declarations, and nothing else changes.
spec fn turns_attributes(
    fed: FederationView,
    next: FederationView,
    me: u32,
    class: u32,
    attrs: Set<u32>,
    on: bool,
) -> bool {
    &&& next.federates.dom() == fed.federates.dom()
    &&& next.subscriptions.interactions == fed.subscriptions.interactions
    &&& forall|f: u32|
        f != me && #[trigger] next.federates.contains_key(f) ==> next.federates[f]
            == fed.federates[f]
    &&& forall|c: u32, a: u32, f: u32| #[trigger]
        next.subscriptions.attributes.contains((c, a, f)) <==> if c == class && attrs.contains(a)
            && f == me {
            on
        } else {
            fed.subscriptions.attributes.contains((c, a, f))
        }
    &&& next.federates.contains_key(me) ==> {
        &&& next.federates[me].pub_sub.subscribed_interactions
            == fed.federates[me].pub_sub.subscribed_interactions
        &&& forall|c: u32, a: u32| #[trigger]
            declares(next.federates[me], c, a) <==> if c == class && attrs.contains(a) {
                on
            } else {
                declares(fed.federates[me], c, a)
            }
    }
}

proof fn lemma_turned(
    fed: FederationView,
    next: FederationView,
    me: u32,
    class: u32,
    attrs: Set<u32>,
    on: bool,
)
    requires
        turns_attributes(fed, next, me, class, attrs, on),
    ensures
        keeps_to_declarations(fed, next),
{
    if subscriptions_agree(fed) {
        assert forall|c: u32, a: u32, f: u32| next.federates.contains_key(f) implies (
        #[trigger] next.subscriptions.attributes.contains((c, a, f)) <==> declares(
            next.federates[f],
            c,
            a,
        )) by {
            assert(fed.federates.contains_key(f));
            assert(fed.subscriptions.attributes.contains((c, a, f)) <==> declares(
                fed.federates[f],
                c,
                a,
            ));
        }
        assert forall|c: u32, f: u32| next.federates.contains_key(f) implies (
        #[trigger] next.subscriptions.interactions.contains((c, f))
            <==> next.federates[f].pub_sub.subscribed_interactions.contains(c)) by {
            assert(fed.federates.contains_key(f));
        }
    }
    if subscriptions_declared(fed) {
        assert forall|c: u32, a: u32, f: u32|
            next.federates.contains_key(f) && #[trigger] next.subscriptions.attributes.contains(
                (c, a, f),
            ) implies declares(next.federates[f], c, a) by {
            assert(fed.federates.contains_key(f));
            assert(fed.subscriptions.attributes.contains((c, a, f)) ==> declares(
                fed.federates[f],
                c,
                a,
            ));
        }
        assert forall|c: u32, f: u32|
            next.federates.contains_key(f) && #[trigger] next.subscriptions.interactions.contains(
                (c, f),
            ) implies next.federates[f].pub_sub.subscribed_interactions.contains(c) by {
            assert(fed.federates.contains_key(f));
        }
    }
}

proof fn lemma_subscribe_agrees(
    fed: FederationView,
    conns: Map<u64, u64>,
    me: u32,
    class: Option<u32>,
    attrs: Seq<Seq<u8>>,
)
    ensures
        keeps_to_declarations(fed, subscribe_attributes_outcome(fed, conns, me, class, attrs).fed),
{
    let next = subscribe_attributes_outcome(fed, conns, me, class, attrs).fed;
    if next != fed {
        assert(next.federates.dom() =~= fed.federates.dom());
        assert(turns_attributes(fed, next, me, class->0, handles_in(attrs), true));
        lemma_turned(fed, next, me, class->0, handles_in(attrs), true);
    }
}

proof fn lemma_unsubscribe_agrees(
    fed: FederationView,
    conns: Map<u64, u64>,
    me: u32,
    class: Option<u32>,
    attrs: Seq<Seq<u8>>,
)
    ensures
        keeps_to_declarations(fed, unsubscribe_attributes_outcome(fed, conns, me, class, attrs).fed),
{
    let next = unsubscribe_attributes_outcome(fed, conns, me, class, attrs).fed;
    if next != fed {
        let s = handles_in(attrs);
        let c = class->0;
        let m = fed.federates[me].pub_sub.subscribed_attrs;
        assert(next.federates.dom() =~= fed.federates.dom());
        assert forall|a: u32| m.contains_key(c) && m[c].contains(a) && !s.contains(a) implies m[c].difference(
            s,
        ) != Set::<u32>::empty() by {
            assert(m[c].difference(s).contains(a));
        }
        assert(turns_attributes(fed, next, me, c, s, false));
        lemma_turned(fed, next, me, c, s, false);
    }
}

proof fn lemma_unsubscribe_class_declared(fed: FederationView, me: u32, class: Option<u32>)
    requires
        subscriptions_declared(fed),
    ensures
        subscriptions_declared(unsubscribe_class_outcome(fed, me, class).fed),
{
    let next = unsubscribe_class_outcome(fed, me, class).fed;
    assert forall|c: u32, a: u32, f: u32|
        next.federates.contains_key(f) && #[trigger] next.subscriptions.attributes.contains(
            (c, a, f),
        ) implies declares(next.federates[f], c, a) by {
        assert(fed.federates.contains_key(f));
        assert(fed.subscriptions.attributes.contains((c, a, f)));
    }
}

proof fn lemma_subscribe_with_regions_agrees(
    fed: FederationView,
    conns: Map<u64, u64>,
    me: u32,
    class: Option<u32>,
    pairs: Seq<RegionPair>,
)
    ensures
        keeps_to_declarations(fed, subscribe_with_regions_outcome(fed, conns, me, class, pairs).fed),
{
    let next = subscribe_with_regions_outcome(fed, conns, me, class, pairs).fed;
    if next != fed {
        let s = attribute_regions_in(pairs).dom();
        assert(next.federates.dom() =~= fed.federates.dom());
        assert(turns_attributes(fed, next, me, class->0, s, true));
        lemma_turned(fed, next, me, class->0, s, true);
    }
}

/// Whether one federate turns its subscription to an interaction class on or off, in
/// the matrix as in its own declarations, and nothing else changes.
spec fn turns_interaction(
    fed: FederationView,
    next: FederationView,
    me: u32,
    class: u32,
    on: bool,
) -> bool {
    &&& next.federates.dom() == fed.federates.dom()
    &&& next.subscriptions.attributes == fed.subscriptions.attributes
    &&& forall|f: u32|
        f != me && #[trigger] next.federates.contains_key(f) ==> next.federates[f]
            == fed.federates[f]
    &&& forall|c: u32, f: u32| #[trigger]
        next.subscriptions.interactions.contains((c, f)) <==> if c == class && f == me {
            on
        } else {
            fed.subscriptions.interactions.contains((c, f))
        }
    &&& next.federates.contains_key(me) ==> {
        let was = fed.federates[me].pub_sub;
        let is = next.federates[me].pub_sub;
        &&& is.subscribed_attrs == was.subscribed_attrs
        &&& forall|c: u32| #[trigger]
            is.subscribed_interactions.contains(c) <==> if c == class {
                on
            } else {
                was.subscribed_interactions.contains(c)
            }
    }
}

proof fn lemma_interaction_turned(
    fed: FederationView,
    next: FederationView,
    me: u32,
    class: u32,
    on: bool,
)
    requires
        turns_interaction(fed, next, me, class, on),
    ensures
        keeps_to_declarations(fed, next),
{
    assert forall|c: u32, a: u32, f: u32| next.federates.contains_key(f) implies (declares(
        next.federates[f],
        c,
        a,
    ) <==> #[trigger] declares(fed.federates[f], c, a)) && fed.federates.contains_key(f) by {}
    if subscriptions_agree(fed) {
        assert forall|c: u32, a: u32, f: u32| next.federates.contains_key(f) implies (
        #[trigger] next.subscriptions.attributes.contains((c, a, f)) <==> declares(
            next.federates[f],
            c,
            a,
        )) by {
            assert(fed.federates.contains_key(f));
            assert(declares(fed.federates[f], c, a) <==> fed.subscriptions.attributes.contains(
                (c, a, f),
            ));
        }
        assert forall|c: u32, f: u32| next.federates.contains_key(f) implies (
        #[trigger] next.subscriptions.interactions.contains((c, f))
            <==> next.federates[f].pub_sub.subscribed_interactions.contains(c)) by {
            assert(fed.federates.contains_key(f));
            assert(fed.subscriptions.interactions.contains((c, f))
                <==> fed.federates[f].pub_sub.subscribed_interactions.contains(c));
        }
    }
    if subscriptions_declared(fed) {
        assert forall|c: u32, a: u32, f: u32|
            next.federates.contains_key(f) && #[trigger] next.subscriptions.attributes.contains(
                (c, a, f),
            ) implies declares(next.federates[f], c, a) by {
            assert(fed.federates.contains_key(f));
            assert(declares(fed.federates[f], c, a));
        }
        assert forall|c: u32, f: u32|
            next.federates.contains_key(f) && #[trigger] next.subscriptions.interactions.contains(
                (c, f),
            ) implies next.federates[f].pub_sub.subscribed_interactions.contains(c) by {
            assert(fed.federates.contains_key(f));
            assert(fed.subscriptions.interactions.contains((c, f))
                ==> fed.federates[f].pub_sub.subscribed_interactions.contains(c));
        }
    }
}

proof fn lemma_interactions_agree(
    fed: FederationView,
    conns: Map<u64, u64>,
    me: u32,
    class: Option<u32>,
)
    ensures
        keeps_to_declarations(fed, subscribe_interaction_outcome(fed, conns, me, class).fed),
        keeps_to_declarations(fed, unsubscribe_interaction_outcome(fed, conns, me, class).fed),
{
    let on = subscribe_interaction_outcome(fed, conns, me, class).fed;
    let off = unsubscribe_interaction_outcome(fed, conns, me, class).fed;
    if on != fed {
        assert(on.federates.dom() =~= fed.federates.dom());
        assert(turns_interaction(fed, on, me, class->0, true));
        lemma_interaction_turned(fed, on, me, class->0, true);
    }
    if off != fed {
        assert(off.federates.dom() =~= fed.federates.dom());
        assert(turns_interaction(fed, off, me, class->0, false));
        lemma_interaction_turned(fed, off, me, class->0, false);
    }
}

#[verifier::spinoff_prover]
proof fn lemma_declarations_agree(
    fed: FederationView,
    conns: Map<u64, u64>,
    me: u32,
    request: CallRequest,
)
    requires
        subscribes(request),
    ensures
        quiet_outcome(fed, me, request) is None,
        exchange_outcome(fed, conns, me, request) matches Some(o) ==> keeps_to_declarations(
            fed,
            o.fed,
        ),
{
    reveal(quiet_outcome);
    reveal(exchange_outcome);
    match request {
        CallRequest::SubscribeObjectClassAttributes { object_class, attributes, .. } => {
            lemma_subscribe_agrees(fed, conns, me, field32(object_class), listed(attributes));
        },
        CallRequest::UnsubscribeObjectClassAttributes { object_class, attributes } => {
            lemma_unsubscribe_agrees(fed, conns, me, field32(object_class), listed(attributes));
        },
        CallRequest::SubscribeObjectClassAttributesWithRegions {
            object_class,
            attributes_and_regions,
        } => {
            lemma_subscribe_with_regions_agrees(
                fed,
                conns,
                me,
                field32(object_class),
                region_pairs(attributes_and_regions),
            );
        },
        CallRequest::SubscribeInteractionClass { interaction_class, .. } => {
            lemma_interactions_agree(fed, conns, me, field32(interaction_class));
        },
        CallRequest::UnsubscribeInteractionClass { interaction_class } => {
            lemma_interactions_agree(fed, conns, me, field32(interaction_class));
        },
        _ => {},
    }
}

proof fn lemma_requests_keep_to_declarations(
    fed: FederationView,
    conns: Map<u64, u64>,
    me: u32,
    request: CallRequest,
    load: SnapshotLoadView,
)
    requires
        !(request is UnsubscribeObjectClass),
    ensures
        keeps_to_declarations(fed, member_outcome(fed, conns, me, request, load).fed),
{
    let next = member_outcome(fed, conns, me, request, load).fed;
    if subscribes(request) {
        lemma_declarations_agree(fed, conns, me, request);
    } else {
        lemma_quiet_subscriptions(fed, me, request);
        lemma_exchange_subscriptions(fed, conns, me, request);
    }
    if moves_time(request) {
        reveal(coordination_outcome);
        let (field, lookahead) = match request {
            CallRequest::EnableTimeRegulation { lookahead } => (wire(lookahead), None),
            CallRequest::ModifyLookahead { lookahead } => (None, field64(lookahead)),
            CallRequest::TimeAdvance { time, .. } => (wire(time), None),
            _ => (None, None),
        };
        lemma_time_services_keep(fed, conns, me, field, lookahead);
        assert forall|f: u32| #[trigger]
            next.federates.contains_key(f) implies fed.federates.contains_key(f) && same_interests(
            fed.federates[f],
            next.federates[f],
        ) by {
            lemma_time_services_keep_members(fed, conns, me, field, lookahead, f);
        }
    } else {
        lemma_coordination_subscriptions(fed, conns, me, request, load);
    }
    if same_subscriptions(fed, next) {
        lemma_same_subscriptions(fed, next);
    }
}

/// The subscriptions of a federation are for each of its federates those that it
/// has declared, as long as nobody unsubscribes from a whole class, which takes the
/// subscriptions to it from everybody.
pub proof fn subscriptions_stay_as_declared(
    fed: FederationView,
    conns: Map<u64, u64>,
    me: u32,
    request: CallRequest,
    load: SnapshotLoadView,
)
    requires
        subscriptions_agree(fed),
        !(request is UnsubscribeObjectClass),
    ensures
        subscriptions_agree(member_outcome(fed, conns, me, request, load).fed),
{
    lemma_requests_keep_to_declarations(fed, conns, me, request, load);
}

/// No federate has a subscription that it has not declared, whatever a member asks
/// for.
pub proof fn nobody_has_undeclared_subscriptions(
    fed: FederationView,
    conns: Map<u64, u64>,
    me: u32,
    request: CallRequest,
    load: SnapshotLoadView,
)
    requires
        subscriptions_declared(fed),
    ensures
        subscriptions_declared(member_outcome(fed, conns, me, request, load).fed),
{
    if let CallRequest::UnsubscribeObjectClass { object_class } = request {
        reveal(quiet_outcome);
        lemma_unsubscribe_class_declared(fed, me, field32(object_class));
    } else {
        lemma_requests_keep_to_declarations(fed, conns, me, request, load);
    }
}

} // verus!

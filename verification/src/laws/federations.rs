//! Federations: how they come and go, who joins them and who leaves them.

use crate::callbacks::{CallbackView, FederationInformationView, FederationMemberView};
use crate::dispatch::calls::{
    call_outcome, coordination_outcome, exchange_outcome, member_file, member_outcome, open_reply,
    quiet_outcome, CallOutcome, Outside,
};
use crate::dispatch::federation_mgmt::{
    fault_at, federation_names, first_fault, member_list, own_connection, ModuleLoad,
};
use crate::dispatch::handle_lookup::wire;
use crate::dispatch::restore::SnapshotLoadView;
use crate::dispatch::time_mgmt::{lemma_time_services_keep_members, same_member};
use crate::exception::HlaException;
use crate::federation::{
    FederateView, FederationView, PubSubView, ResignAction, Switches, TimeState,
};
use crate::handles::{bytes_of_u32, field64};
use crate::laws::restore::lemma_instances_finite;
use crate::laws::time::{goes_on, lemma_goes_on, nothing};
use crate::laws::{own_sessions, received, same_sessions, well_addressed};
use crate::messages::{
    CallRequest, CreateForm, FomModule, JoinForm, JoinService, PayloadView, ResponseView, Service,
};
use crate::node::{federation_named, NodeView};
use crate::persistence::namesakes;
use crate::routing::{copies, federation_list};
use crate::session::{Membership, SessionContext};
use crate::subscriptions::lemma_handles_finite;
use crate::tables::{ascending, lemma_ascending};
use crate::text::hex_of;
use vstd::prelude::*;
use vstd::utf8::valid_utf8;

verus! {

/// Whether a request is refused with an exception, and nothing comes of it.
pub open spec fn turns_down(
    o: CallOutcome,
    node: NodeView,
    ctx: SessionContext,
    kind: HlaException,
) -> bool {
    &&& o.reply matches ResponseView::Exception(e) && e.exception == kind
    &&& o.node == node
    &&& o.membership == ctx.membership
    &&& o.sent.len() == 0
    &&& o.file is None
}

/// Whether a request is served without an answer to give.
pub open spec fn carries_out(o: CallOutcome, service: Service) -> bool {
    &&& o.reply == (ResponseView::Reply { service, payload: PayloadView::Empty })
    &&& o.file is None
}

/// Whether there is a federation with a name.
pub open spec fn there_is(node: NodeView, name: Seq<char>) -> bool {
    exists|id: u64| #[trigger]
        node.federations.contains_key(id) && node.federations[id].name == name
}

/// Whether a module came with text in it that could be parsed.
pub open spec fn is_readable(m: FomModule, fault: Option<Seq<char>>) -> bool {
    m matches FomModule::File { name, content } && valid_utf8(content@) && fault is None
}

/// Whether all modules of a request could be read.
pub open spec fn are_readable(modules: Seq<FomModule>, load: ModuleLoad) -> bool {
    forall|i: int|
        0 <= i < modules.len() ==> is_readable(#[trigger] modules[i], fault_at(load.faults@, i))
}

/// The modules of a request, with the one for management where there is one.
pub open spec fn modules_given(modules: Seq<FomModule>, mim: Option<FomModule>) -> Seq<FomModule> {
    match mim {
        Some(m) => modules.push(m),
        None => modules,
    }
}

proof fn lemma_readable(modules: Seq<FomModule>, load: ModuleLoad, i: int)
    requires
        0 <= i <= modules.len(),
    ensures
        first_fault(modules, load.faults@, i) is None <==> (forall|j: int|
            i <= j < modules.len() ==> is_readable(
                #[trigger] modules[j],
                fault_at(load.faults@, j),
            )),
    decreases modules.len() - i,
{
    if i < modules.len() {
        lemma_readable(modules, load, i + 1);
        let good = is_readable(modules[i], fault_at(load.faults@, i));
        if good {
            assert forall|j: int|
                i <= j < modules.len() && (forall|k: int|
                    i + 1 <= k < modules.len() ==> is_readable(
                        #[trigger] modules[k],
                        fault_at(load.faults@, k),
                    )) implies is_readable(#[trigger] modules[j], fault_at(load.faults@, j)) by {
                if j > i {
                    assert(is_readable(modules[j], fault_at(load.faults@, j)));
                }
            }
        }
    }
}

/// Whether a federation is one that nobody has joined yet, with a name, a number and an
/// object model.
pub open spec fn is_new(fed: FederationView, name: Seq<char>, id: u64) -> bool {
    &&& fed.name == name
    &&& fed.serial == id
    &&& fed.federates.dom() == Set::<u32>::empty()
    &&& fed.object_instances.dom() == Set::<u64>::empty()
    &&& fed.subscriptions.attributes == Set::<(u32, u32, u32)>::empty()
    &&& fed.subscriptions.interactions == Set::<(u32, u32)>::empty()
    &&& fed.sync_points.order.len() == 0
    &&& fed.sync_points.values.dom() == Set::<Seq<char>>::empty()
    &&& fed.regions.dom() == Set::<u64>::empty()
    &&& fed.current_save is None
    &&& fed.current_restore is None
    &&& fed.last_save_label is None
    &&& fed.next_region_id == 1
    &&& fed.next_object_id == 1
    &&& fed.next_federate_id == 1
    &&& !fed.renumbered
}

/// A federation is created under a name that no other has, from modules that can all be read
/// and merged, or with the model of the node where there are none. Nobody has joined it yet,
/// and the other federations stay as they are.
pub proof fn a_federation_is_created_under_a_name_of_its_own(
    node: NodeView,
    ctx: SessionContext,
    create_form: CreateForm,
    federation_name: String,
    fom_modules: Vec<FomModule>,
    mim_module: Option<FomModule>,
    outside: Outside,
)
    requires
        node.next_federation_id < u64::MAX,
    ensures
        ({
            let request = CallRequest::CreateFederationExecution {
                create_form,
                federation_name,
                fom_modules,
                mim_module,
            };
            let o = call_outcome(node, ctx, Some(request), outside);
            let modules = modules_given(fom_modules@, mim_module);
            let id = node.next_federation_id;
            if federation_name@.len() == 0 {
                turns_down(o, node, ctx, HlaException::ErrorReadingFdd)
            } else if there_is(node, federation_name@) {
                turns_down(o, node, ctx, HlaException::FederationExecutionAlreadyExists)
            } else if !are_readable(modules, outside.modules) {
                turns_down(o, node, ctx, HlaException::CouldNotOpenFdd)
            } else if modules.len() > 0 && outside.modules.merged is Err {
                turns_down(o, node, ctx, HlaException::ErrorReadingFdd)
            } else {
                let fed = o.node.federations[id];
                &&& carries_out(o, Service::CreateFederationExecution(create_form))
                &&& o.node == (NodeView {
                    federations: node.federations.insert(id, fed),
                    next_federation_id: (id + 1) as u64,
                    ..node
                })
                &&& o.membership == ctx.membership
                &&& o.sent.len() == 0
                &&& is_new(fed, federation_name@, id)
                &&& fed.fom == (if modules.len() == 0 {
                    node.default_fom
                } else {
                    outside.modules.merged->Ok_0@
                })
            }
        }),
{
    let modules = modules_given(fom_modules@, mim_module);
    lemma_readable(modules, outside.modules, 0);
}

/// A federation is destroyed, by its name, where no federate is in it, and the others stay as
/// they are.
pub proof fn a_federation_is_destroyed_when_all_have_left(
    node: NodeView,
    ctx: SessionContext,
    federation_name: String,
    outside: Outside,
    id: u64,
)
    requires
        node.sound(),
        node.federations.contains_key(id) && node.federations[id].name == federation_name@
            || !there_is(node, federation_name@),
    ensures
        ({
            let request = CallRequest::DestroyFederationExecution { federation_name };
            let o = call_outcome(node, ctx, Some(request), outside);
            if !there_is(node, federation_name@) {
                turns_down(o, node, ctx, HlaException::FederationExecutionDoesNotExist)
            } else if exists|f: u32| #[trigger] node.federations[id].federates.contains_key(f) {
                turns_down(o, node, ctx, HlaException::FederatesCurrentlyJoined)
            } else {
                &&& carries_out(o, Service::DestroyFederationExecution)
                &&& o.node == (NodeView { federations: node.federations.remove(id), ..node })
                &&& o.membership == ctx.membership
                &&& o.sent.len() == 0
            }
        }),
{
    if there_is(node, federation_name@) {
        assert(node.federations.contains_key(id));
        assert(federation_named(node.federations, federation_name@) == Some(id));
        let members = node.federations[id].federates.dom();
        if members != Set::<u32>::empty() {
            assert(!(members =~= Set::<u32>::empty()));
            let f = choose|f: u32| members.contains(f);
            assert(node.federations[id].federates.contains_key(f));
        }
    }
}

/// Whether a federate is one that has just joined: under a handle and a name, for a session,
/// with nothing declared, at time zero and with the switches of a newcomer.
pub open spec fn is_newcomer(fs: FederateView, handle: u32, name: Seq<char>, session: u64) -> bool {
    &&& fs.handle == handle
    &&& fs.name == name
    &&& fs.federate_type == ""@
    &&& fs.session_id == session
    &&& fs.pub_sub == PubSubView::empty()
    &&& fs.tso_queue.len() == 0
    &&& fs.time == (TimeState {
        is_regulating: false,
        is_constrained: false,
        current_time: 0,
        lookahead: 0,
        pending_advance: None,
    })
    &&& fs.switches == (Switches {
        object_class_relevance_advisory: true,
        attribute_relevance_advisory: true,
        attribute_scope_advisory: true,
        interaction_relevance_advisory: true,
        convey_region_designator_sets: false,
        service_reporting: false,
        exception_reporting: false,
        send_service_reports_to_file: false,
        auto_provide: false,
        delay_subscription_evaluation: false,
        advisories_use_known_class: false,
        allow_relaxed_ddm: true,
        non_regulated_grant: false,
        automatic_resign_directive: ResignAction::NoAction,
    })
}

/// The name that a request to join asks for.
pub open spec fn name_asked_for(form: JoinForm) -> Option<Seq<char>> {
    match form {
        JoinForm::WithName(n) => Some(n@),
        JoinForm::WithNameAndModules(n) => Some(n@),
        _ => None,
    }
}

/// The form of the answer to a request to join.
pub open spec fn form_of_answer(form: JoinForm) -> JoinService {
    match form {
        JoinForm::Plain => JoinService::Plain,
        JoinForm::WithName(_) => JoinService::WithName,
        JoinForm::WithModules => JoinService::WithModules,
        JoinForm::WithNameAndModules(_) => JoinService::WithNameAndModules,
    }
}

/// Whether a federate of a federation has a name.
pub open spec fn is_taken(fed: FederationView, name: Seq<char>) -> bool {
    exists|f: u32| #[trigger] fed.federates.contains_key(f) && fed.federates[f].name == name
}

/// A session joins one federation at a time, by its name, as a newcomer with the next handle
/// and the name it asks for, which nobody else may have; without one it is named after its
/// handle. It is told its handle, and the other federates stay as they are.
pub proof fn a_session_joins_under_a_name_of_its_own(
    node: NodeView,
    ctx: SessionContext,
    join_form: JoinForm,
    federation_name: String,
    outside: Outside,
    id: u64,
)
    requires
        node.sound(),
        node.federations.contains_key(id) && node.federations[id].name == federation_name@
            || !there_is(node, federation_name@),
        there_is(node, federation_name@) ==> node.federations[id].next_federate_id < u32::MAX,
    ensures
        ({
            let request = CallRequest::JoinFederationExecution { join_form, federation_name };
            let o = call_outcome(node, ctx, Some(request), outside);
            let fed = node.federations[id];
            let h = fed.next_federate_id;
            let asked = name_asked_for(join_form);
            if ctx.membership is Some {
                turns_down(o, node, ctx, HlaException::FederateAlreadyExecutionMember)
            } else if !there_is(node, federation_name@) {
                turns_down(o, node, ctx, HlaException::FederationExecutionDoesNotExist)
            } else if asked is Some && is_taken(fed, asked->0) {
                &&& o.reply matches ResponseView::Exception(e) && e.exception
                    == HlaException::FederateNameAlreadyInUse
                &&& o.node == (NodeView {
                    federations: node.federations.insert(
                        id,
                        FederationView { next_federate_id: (h + 1) as u32, ..fed },
                    ),
                    ..node
                })
                &&& o.membership is None
                &&& o.sent.len() == 0
                &&& o.file is None
            } else {
                let fs = o.node.federations[id].federates[h];
                &&& o.reply == (ResponseView::Reply {
                    service: Service::JoinFederationExecution(form_of_answer(join_form)),
                    payload: PayloadView::Joined {
                        federate_handle: bytes_of_u32(h),
                        logical_time_implementation_name: "HLAfloat64Time"@,
                    },
                })
                &&& o.node == (NodeView {
                    federations: node.federations.insert(
                        id,
                        FederationView {
                            federates: fed.federates.insert(h, fs),
                            next_federate_id: (h + 1) as u32,
                            ..fed
                        },
                    ),
                    ..node
                })
                &&& o.membership == Some(Membership { federation: id, federate_handle: h })
                &&& o.sent.len() == 0
                &&& o.file is None
                &&& is_newcomer(
                    fs,
                    h,
                    match asked {
                        Some(n) => n,
                        None => "federate-"@ + hex_of(h as nat, 8),
                    },
                    ctx.session_id,
                )
            }
        }),
{
    if there_is(node, federation_name@) {
        assert(node.federations.contains_key(id));
        assert(federation_named(node.federations, federation_name@) == Some(id));
        let fed = node.federations[id];
        if let Some(n) = name_asked_for(join_form) {
            let same = namesakes(fed.federates, n);
            if same != Set::<u32>::empty() {
                assert(!(same =~= Set::<u32>::empty()));
                let f = choose|f: u32| same.contains(f);
                assert(fed.federates.contains_key(f));
            } else if is_taken(fed, n) {
                let f = choose|f: u32| #[trigger]
                    fed.federates.contains_key(f) && fed.federates[f].name == n;
                assert(same.contains(f));
            }
        }
    }
}

/// A session that resigns is a member no longer, and its federate is gone; nothing else of
/// the federation changes but for the time of those whom it held back.
pub proof fn a_federate_that_resigns_is_gone(
    node: NodeView,
    ctx: SessionContext,
    outside: Outside,
)
    requires
        node.sound(),
        ctx.membership matches Some(m) ==> node.federations.contains_key(m.federation)
            && own_sessions(node.federations[m.federation].federates),
    ensures
        ({
            let o = call_outcome(node, ctx, Some(CallRequest::ResignFederationExecution), outside);
            match ctx.membership {
                None => turns_down(o, node, ctx, HlaException::FederateNotExecutionMember),
                Some(m) => {
                    let fed = node.federations[m.federation];
                    let next = o.node.federations[m.federation];
                    &&& carries_out(o, Service::ResignFederationExecution)
                    &&& o.membership is None
                    &&& o.node == (NodeView {
                        federations: node.federations.insert(m.federation, next),
                        ..node
                    })
                    &&& goes_on(
                        FederationView {
                            federates: fed.federates.remove(m.federate_handle),
                            ..fed
                        },
                        next,
                        node.connections,
                        o.sent,
                        nothing(),
                    )
                },
            }
        }),
{
    if let Some(m) = ctx.membership {
        let fed = node.federations[m.federation];
        let left = FederationView { federates: fed.federates.remove(m.federate_handle), ..fed };
        assert(fed.wf());
        assert forall|f: u32| #[trigger] left.federates.contains_key(f) implies left.federates[f].handle
            == f && left.federates[f].wf() by {
            assert(fed.federates.contains_key(f));
        }
        assert forall|f: u32, g: u32| #[trigger]
            left.federates.contains_key(f) && #[trigger] left.federates.contains_key(g) && f
                != g implies left.federates[f].session_id != left.federates[g].session_id by {
            assert(fed.federates.contains_key(f) && fed.federates.contains_key(g));
        }
        lemma_goes_on(left, node.connections);
    }
}

/// Whether a session, and nobody else, is sent one callback, where it is connected.
pub open spec fn is_told(o: CallOutcome, node: NodeView, session: u64, call: CallbackView) -> bool {
    &&& well_addressed(o.sent, node.connections)
    &&& received(o.sent, session) == (if node.connections.contains_key(session) {
        seq![call]
    } else {
        Seq::empty()
    })
    &&& forall|s: u64|
        s != session ==> (#[trigger] received(o.sent, s)) == Seq::<CallbackView>::empty()
}

/// Whether a list names every federation of a node once.
pub open spec fn lists_federations(l: Seq<FederationInformationView>, node: NodeView) -> bool {
    &&& l.len() == node.federations.dom().len()
    &&& forall|i: int|
        0 <= i < l.len() ==> there_is(node, (#[trigger] l[i]).federation_execution_name)
            && l[i].logical_time_implementation_name == "HLAfloat64Time"@
    &&& forall|id: u64| #[trigger]
        node.federations.contains_key(id) ==> exists|i: int|
            0 <= i < l.len() && (#[trigger] l[i]).federation_execution_name
                == node.federations[id].name
}

/// Whether a list names every federate of a federation once.
pub open spec fn lists_members(l: Seq<FederationMemberView>, fed: FederationView) -> bool {
    &&& l.len() == fed.federates.dom().len()
    &&& forall|i: int| 0 <= i < l.len() ==> is_taken(fed, (#[trigger] l[i]).federate_name)
    &&& forall|f: u32| #[trigger]
        fed.federates.contains_key(f) ==> exists|i: int|
            0 <= i < l.len() && (#[trigger] l[i]) == (FederationMemberView {
                federate_name: fed.federates[f].name,
                federate_type: fed.federates[f].federate_type,
            })
}

/// Who asks, and nobody else, is told of every federation of the node, once each.
pub proof fn federations_are_reported_to_who_asks(
    node: NodeView,
    ctx: SessionContext,
    outside: Outside,
)
    ensures
        ({
            let o = call_outcome(node, ctx, Some(CallRequest::ListFederationExecutions), outside);
            &&& carries_out(o, Service::ListFederationExecutions)
            &&& o.node == node
            &&& o.membership == ctx.membership
            &&& exists|l: Seq<FederationInformationView>| #[trigger]
                lists_federations(l, node) && is_told(
                    o,
                    node,
                    ctx.session_id,
                    CallbackView::ReportFederationExecutions { federations: l },
                )
        }),
{
    let o = call_outcome(node, ctx, Some(CallRequest::ListFederationExecutions), outside);
    let all = node.federations.dom();
    let q = ascending(all);
    lemma_instances_finite(all);
    lemma_ascending(all);
    let l = federation_list(
        federation_names(node.federations, q),
    );
    assert(lists_federations(l, node)) by {
        assert forall|i: int| 0 <= i < l.len() implies there_is(
            node,
            (#[trigger] l[i]).federation_execution_name,
        ) && l[i].logical_time_implementation_name == "HLAfloat64Time"@ by {
            assert(q.contains(q[i]));
            assert(node.federations.contains_key(q[i]));
        }
        assert forall|id: u64| #[trigger] node.federations.contains_key(id) implies exists|i: int|
            0 <= i < l.len() && (#[trigger] l[i]).federation_execution_name
                == node.federations[id].name by {
            assert(q.contains(id));
            let i = q.index_of(id);
            assert(l[i].federation_execution_name == node.federations[id].name);
        }
    }
    lemma_told(o, node, ctx, CallbackView::ReportFederationExecutions { federations: l });
}

proof fn lemma_told(o: CallOutcome, node: NodeView, ctx: SessionContext, call: CallbackView)
    requires
        o.sent == copies(
            own_connection(node, ctx.session_id),
            call,
        ),
    ensures
        is_told(o, node, ctx.session_id, call),
{
    let s = ctx.session_id;
    if node.connections.contains_key(s) {
        assert(o.sent.len() == 1);
        assert(o.sent.drop_last() =~= Seq::empty());
        assert(o.sent.last().callback == call);
        reveal_with_fuel(received, 2);
        assert(received(o.sent, s) =~= seq![call]);
    } else {
        assert(o.sent =~= Seq::empty());
    }
}

/// Who asks, and nobody else, is told of every federate of a federation, once each, or that
/// there is no such federation.
pub proof fn members_are_reported_to_who_asks(
    node: NodeView,
    ctx: SessionContext,
    federation_name: String,
    outside: Outside,
    id: u64,
)
    requires
        node.sound(),
        node.federations.contains_key(id) && node.federations[id].name == federation_name@
            || !there_is(node, federation_name@),
    ensures
        ({
            let request = CallRequest::ListFederationExecutionMembers { federation_name };
            let o = call_outcome(node, ctx, Some(request), outside);
            &&& carries_out(o, Service::ListFederationExecutionMembers)
            &&& o.node == node
            &&& o.membership == ctx.membership
            &&& there_is(node, federation_name@) ==> exists|l: Seq<FederationMemberView>| #[trigger]
                lists_members(l, node.federations[id]) && is_told(
                    o,
                    node,
                    ctx.session_id,
                    CallbackView::ReportFederationExecutionMembers {
                        federation_name: federation_name@,
                        members: l,
                    },
                )
            &&& !there_is(node, federation_name@) ==> is_told(
                o,
                node,
                ctx.session_id,
                CallbackView::ReportFederationExecutionDoesNotExist {
                    federation_name: federation_name@,
                },
            )
        }),
{
    let request = CallRequest::ListFederationExecutionMembers { federation_name };
    let o = call_outcome(node, ctx, Some(request), outside);
    if there_is(node, federation_name@) {
        assert(node.federations.contains_key(id));
        assert(federation_named(node.federations, federation_name@) == Some(id));
        let fed = node.federations[id];
        let all = fed.federates.dom();
        let q = ascending(all);
        lemma_handles_finite(all);
        lemma_ascending(all);
        let l = member_list(fed.federates, q);
        assert(lists_members(l, fed)) by {
            assert forall|i: int| 0 <= i < l.len() implies is_taken(
                fed,
                (#[trigger] l[i]).federate_name,
            ) by {
                assert(q.contains(q[i]));
                assert(fed.federates.contains_key(q[i]));
            }
            assert forall|f: u32| #[trigger] fed.federates.contains_key(f) implies exists|i: int|
                0 <= i < l.len() && (#[trigger] l[i]) == (FederationMemberView {
                    federate_name: fed.federates[f].name,
                    federate_type: fed.federates[f].federate_type,
                }) by {
                assert(q.contains(f));
                let i = q.index_of(f);
                assert(l[i].federate_name == fed.federates[f].name);
            }
        }
        lemma_told(
            o,
            node,
            ctx,
            CallbackView::ReportFederationExecutionMembers {
                federation_name: federation_name@,
                members: l,
            },
        );
    } else {
        lemma_told(
            o,
            node,
            ctx,
            CallbackView::ReportFederationExecutionDoesNotExist {
                federation_name: federation_name@,
            },
        );
    }
}

/// Whether a request concerns the federation of who asks: it is no request to the node, none
/// that everybody is answered alike, and names what it has to.
pub open spec fn concerns_the_federation(request: CallRequest) -> bool {
    match request {
        CallRequest::CreateFederationExecution { .. } => false,
        CallRequest::DestroyFederationExecution { .. } => false,
        CallRequest::ListFederationExecutions => false,
        CallRequest::ListFederationExecutionMembers { .. } => false,
        CallRequest::JoinFederationExecution { .. } => false,
        CallRequest::ResignFederationExecution => false,
        CallRequest::Passive { .. } => false,
        CallRequest::GetDimensionName { .. } => false,
        CallRequest::GetDimensionUpperBound { .. } => false,
        CallRequest::GetAvailableDimensionsForObjectClass { .. } => false,
        CallRequest::GetAvailableDimensionsForInteractionClass { .. } => false,
        CallRequest::GetOrderType { .. } => false,
        CallRequest::GetOrderName { .. } => false,
        CallRequest::GetTransportationTypeHandle { .. } => false,
        CallRequest::GetTransportationTypeName { .. } => false,
        CallRequest::NormalizeServiceGroup { .. } => false,
        CallRequest::NormalizeFederateHandle { .. } => false,
        CallRequest::NormalizeObjectClassHandle { .. } => false,
        CallRequest::NormalizeInteractionClassHandle { .. } => false,
        CallRequest::NormalizeObjectInstanceHandle { .. } => false,
        CallRequest::GetUpdateRateValue => false,
        CallRequest::GetUpdateRateValueForAttribute => false,
        CallRequest::GetFederateName { federate } => federate is Some,
        CallRequest::GetObjectClassName { object_class } => object_class is Some,
        CallRequest::GetAttributeHandle { object_class, .. } => object_class is Some,
        CallRequest::GetAttributeName { object_class, attribute } => object_class is Some
            && attribute is Some,
        CallRequest::GetInteractionClassName { interaction_class } => interaction_class is Some,
        CallRequest::GetParameterHandle { interaction_class, .. } => interaction_class is Some,
        CallRequest::GetParameterName { interaction_class, parameter } => interaction_class is Some
            && parameter is Some,
        _ => true,
    }
}

/// A request that concerns the federation of who asks is served there, in the name of the
/// federate that the session has joined as, and nowhere else; who has joined none, or one
/// that is gone, is refused.
pub proof fn members_are_served_in_their_federation(
    node: NodeView,
    ctx: SessionContext,
    request: CallRequest,
    outside: Outside,
)
    requires
        concerns_the_federation(request),
    ensures
        ({
            let o = call_outcome(node, ctx, Some(request), outside);
            match ctx.membership {
                Some(m) if node.federations.contains_key(m.federation) => {
                    let fed = node.federations[m.federation];
                    let served = member_outcome(
                        fed,
                        node.connections,
                        m.federate_handle,
                        request,
                        outside.snapshot@,
                    );
                    &&& o.node == (NodeView {
                        federations: node.federations.insert(m.federation, served.fed),
                        ..node
                    })
                    &&& o.membership == ctx.membership
                    &&& o.reply == served.reply
                    &&& o.sent == served.sent
                    &&& o.file == member_file(fed, m.federate_handle, request)
                },
                _ => turns_down(o, node, ctx, HlaException::FederateNotExecutionMember),
            }
        }),
{
    assert(open_reply(request) is None);
}

/// Whether a federate is in both of two states, with the same session, or in none.
spec fn has_same_session(a: FederationView, b: FederationView, f: u32) -> bool {
    &&& a.federates.contains_key(f) <==> b.federates.contains_key(f)
    &&& a.federates.contains_key(f) ==> a.federates[f].session_id == b.federates[f].session_id
}

#[verifier::spinoff_prover]
#[verifier::rlimit(80)]
proof fn lemma_quiet_keeps_session(fed: FederationView, me: u32, request: CallRequest, f: u32)
    requires
        fed.federates.contains_key(me),
    ensures
        quiet_outcome(fed, me, request) is Some ==> has_same_session(
            fed,
            quiet_outcome(fed, me, request)->0.fed,
            f,
        ),
{
    reveal(quiet_outcome);
    let next = quiet_outcome(fed, me, request)->0.fed;
    match request {
        CallRequest::SetSwitch { .. } => {
            assert(has_same_session(fed, next, f));
        },
        CallRequest::SetAutomaticResignDirective { .. } => {
            assert(has_same_session(fed, next, f));
        },
        CallRequest::LocalDeleteObjectInstance { .. } => {
            assert(has_same_session(fed, next, f));
        },
        CallRequest::PublishObjectClassAttributes { .. } => {
            assert(has_same_session(fed, next, f));
        },
        CallRequest::UnpublishObjectClass { .. } => {
            assert(has_same_session(fed, next, f));
        },
        CallRequest::UnpublishObjectClassAttributes { .. } => {
            assert(has_same_session(fed, next, f));
        },
        CallRequest::UnsubscribeObjectClass { .. } => {
            assert(has_same_session(fed, next, f));
        },
        CallRequest::PublishInteractionClass { .. } => {
            assert(has_same_session(fed, next, f));
        },
        CallRequest::UnpublishInteractionClass { .. } => {
            assert(has_same_session(fed, next, f));
        },
        CallRequest::FederateSaveBegun => {
            assert(has_same_session(fed, next, f));
        },
        CallRequest::AbortFederationSave => {
            assert(has_same_session(fed, next, f));
        },
        CallRequest::AbortFederationRestore => {
            assert(has_same_session(fed, next, f));
        },
        CallRequest::CreateRegion { .. } => {
            assert(has_same_session(fed, next, f));
        },
        CallRequest::CommitRegionModifications { .. } => {
            assert(has_same_session(fed, next, f));
        },
        CallRequest::DeleteRegion { .. } => {
            assert(has_same_session(fed, next, f));
        },
        CallRequest::SetRangeBounds { .. } => {
            assert(has_same_session(fed, next, f));
        },
        CallRequest::UnsubscribeObjectClassAttributesWithRegions { .. } => {
            assert(has_same_session(fed, next, f));
        },
        CallRequest::PublishObjectClassDirectedInteractions { .. } => {
            assert(has_same_session(fed, next, f));
        },
        CallRequest::UnpublishObjectClassDirectedInteractions { .. } => {
            assert(has_same_session(fed, next, f));
        },
        CallRequest::UnpublishObjectClassDirectedInteractionsWithSet { .. } => {
            assert(has_same_session(fed, next, f));
        },
        CallRequest::SubscribeObjectClassDirectedInteractions { .. } => {
            assert(has_same_session(fed, next, f));
        },
        CallRequest::UnsubscribeObjectClassDirectedInteractions { .. } => {
            assert(has_same_session(fed, next, f));
        },
        CallRequest::UnsubscribeObjectClassDirectedInteractionsWithSet { .. } => {
            assert(has_same_session(fed, next, f));
        },
        _ => {},
    }
}

proof fn lemma_quiet_keeps_sessions(fed: FederationView, me: u32, request: CallRequest)
    requires
        fed.federates.contains_key(me),
    ensures
        quiet_outcome(fed, me, request) is Some ==> same_sessions(
            fed.federates,
            quiet_outcome(fed, me, request)->0.fed.federates,
        ),
{
    if quiet_outcome(fed, me, request) is Some {
        let next = quiet_outcome(fed, me, request)->0.fed;
        assert forall|f: u32| #[trigger] fed.federates.contains_key(f)
            <==> next.federates.contains_key(f) by {
            lemma_quiet_keeps_session(fed, me, request, f);
        }
        assert forall|f: u32| #[trigger]
            fed.federates.contains_key(f) implies fed.federates[f].session_id
            == next.federates[f].session_id by {
            lemma_quiet_keeps_session(fed, me, request, f);
        }
    }
}

#[verifier::spinoff_prover]
#[verifier::rlimit(60)]
proof fn lemma_exchange_keeps_sessions(
    fed: FederationView,
    conns: Map<u64, u64>,
    me: u32,
    request: CallRequest,
)
    requires
        fed.federates.contains_key(me),
    ensures
        exchange_outcome(fed, conns, me, request) is Some ==> same_sessions(
            fed.federates,
            exchange_outcome(fed, conns, me, request)->0.fed.federates,
        ),
{
    reveal(exchange_outcome);
}

#[verifier::spinoff_prover]
#[verifier::rlimit(60)]
proof fn lemma_coordination_keeps_sessions(
    fed: FederationView,
    conns: Map<u64, u64>,
    me: u32,
    request: CallRequest,
    load: SnapshotLoadView,
)
    requires
        fed.federates.contains_key(me),
    ensures
        coordination_outcome(fed, conns, me, request, load) is Some ==> same_sessions(
            fed.federates,
            coordination_outcome(fed, conns, me, request, load)->0.fed.federates,
        ),
{
    reveal(coordination_outcome);
    let (field, long) = match request {
        CallRequest::EnableTimeRegulation { lookahead } => (wire(lookahead), None),
        CallRequest::ModifyLookahead { lookahead } => (None, field64(lookahead)),
        CallRequest::TimeAdvance { time, .. } => (wire(time), None),
        _ => (None, None),
    };
    let next = coordination_outcome(fed, conns, me, request, load)->0.fed;
    match request {
        CallRequest::EnableTimeRegulation { .. }
        | CallRequest::ModifyLookahead { .. }
        | CallRequest::TimeAdvance { .. }
        | CallRequest::DisableTimeRegulation
        | CallRequest::EnableTimeConstrained
        | CallRequest::DisableTimeConstrained => {
            assert forall|f: u32| same_member(fed, next, f) by {
                lemma_time_services_keep_members(fed, conns, me, field, long, f);
            }
            assert forall|f: u32| #[trigger] fed.federates.contains_key(f)
                <==> next.federates.contains_key(f) by {
                assert(same_member(fed, next, f));
            }
            assert forall|f: u32| #[trigger] fed.federates.contains_key(
                f,
            ) implies fed.federates[f].session_id == next.federates[f].session_id by {
                assert(same_member(fed, next, f));
            }
        },
        _ => {},
    }
}

/// Whatever a member asks for, the same federates are in the federation afterwards, each with
/// the session it had.
pub proof fn requests_keep_the_sessions(
    fed: FederationView,
    conns: Map<u64, u64>,
    me: u32,
    request: CallRequest,
    load: SnapshotLoadView,
)
    requires
        fed.federates.contains_key(me),
    ensures
        same_sessions(
            fed.federates,
            member_outcome(fed, conns, me, request, load).fed.federates,
        ),
{
    lemma_quiet_keeps_sessions(fed, me, request);
    lemma_exchange_keeps_sessions(fed, conns, me, request);
    lemma_coordination_keeps_sessions(fed, conns, me, request, load);
}

} // verus!

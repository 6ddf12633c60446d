//! Creating, destroying, joining and leaving federations.

use crate::callbacks::{FederationMember, FederationMemberView};
use crate::dispatch::helpers::{refuse, refuse_bare};
use crate::dispatch::invariants::{
    a_new_federation_is_in_order, joining_keeps_order, leaving_keeps_order,
};
use crate::exception::{
    bare, exception_variant, raised, ExceptionData, ExceptionView, HlaException,
};
use crate::federation::{
    default_switches, initial_time, queue_view, share, FederateSession, FederateView, Federation,
    FederationView, PubSubState, PubSubView, Switches, TimeState,
};
use crate::fom::{FomView, MergedFom};
use crate::handles::{bytes_of_u32, encode_federate};
use crate::messages::{
    answered, done, refused, reply, reply_with, CallResponse, CreateForm, FomModule, JoinForm,
    JoinService, Payload, PayloadView, ResponseView, Service,
};
use crate::modules::{module_text, not_utf8, quoted_text, utf8_fault};
use crate::node::{federation_named, in_order, NodeView, RtiNode};
use crate::persistence::{find_namesakes, namesakes};
use crate::routing::{
    copies, fan_out, report_federation_execution_does_not_exist,
    report_federation_execution_does_not_exist_view, report_federation_execution_members,
    report_federation_execution_members_view, report_federation_executions,
    report_federation_executions_view, OutboundView, Outbox, TIME_IMPLEMENTATION,
};
use crate::session::{Membership, SessionContext};
use crate::connections::ConnectionHandle;
use crate::dispatch::object_mgmt::{following, next_number};
use crate::tables::{ascending, lemma_ascending};
use crate::text::{copy_text, decimal, decimal_of, hex, hex_of, joined};
use crate::time::{
    after_all_grants, grants_change_federates_only, sent_for_grants, try_grant_pending_advances,
};
use std::sync::Arc;
use vstd::prelude::*;
use vstd::utf8::valid_utf8;

verus! {

/// What came of parsing the modules of an object model: for each module why its text
/// cannot be parsed, if so, and the model that all together make, or why they make
/// none.
#[derive(Debug)]
pub struct ModuleLoad {
    pub faults: Vec<Option<String>>,
    pub merged: Result<Arc<MergedFom>, String>,
}

/// Why a module cannot be read. Only modules that come with their content can, and
/// only where the content is text; whether the text can be parsed is given.
pub open spec fn module_fault(m: FomModule, fault: Option<Seq<char>>) -> Option<Seq<char>> {
    match m {
        FomModule::File { name, content } => if !valid_utf8(content@) {
            Some(not_utf8(quoted_text(name@), utf8_fault(content@)))
        } else {
            fault
        },
        FomModule::CompressedModule(_) => Some("unsupported FOM module form"@),
        FomModule::Url(_) => Some("unsupported FOM module form"@),
        FomModule::Missing => Some("FomModule has no oneof variant set"@),
    }
}

/// The reading fault of the module with a number.
pub open spec fn fault_at(faults: Seq<Option<String>>, i: int) -> Option<Seq<char>> {
    if 0 <= i < faults.len() {
        match faults[i] {
            Some(s) => Some(s@),
            None => None,
        }
    } else {
        None
    }
}

/// The fault of the first module, from a number on, that cannot be read.
pub open spec fn first_fault(
    modules: Seq<FomModule>,
    faults: Seq<Option<String>>,
    i: int,
) -> Option<Seq<char>>
    decreases modules.len() - i,
{
    if i < 0 || i >= modules.len() {
        None
    } else {
        match module_fault(modules[i], fault_at(faults, i)) {
            Some(t) => Some(t),
            None => first_fault(modules, faults, i + 1),
        }
    }
}

/// All modules of a request.
pub open spec fn all_modules(modules: Seq<FomModule>, mim: Option<FomModule>) -> Seq<FomModule> {
    match mim {
        Some(m) => modules.push(m),
        None => modules,
    }
}

/// Why a module cannot be read.
fn decode_fom_module(m: &FomModule, faults: &Vec<Option<String>>, i: usize) -> (r: Option<String>)
    ensures
        match r {
            Some(t) => module_fault(*m, fault_at(faults@, i as int)) == Some(t@),
            None => module_fault(*m, fault_at(faults@, i as int)) is None,
        },
{
    match m {
        FomModule::File { name, content } => {
            if let Err(t) = module_text(name.as_str(), content.as_slice()) {
                return Some(t);
            }
            if i < faults.len() {
                match &faults[i] {
                    Some(t) => Some(copy_text(t.as_str())),
                    None => None,
                }
            } else {
                None
            }
        },
        FomModule::CompressedModule(_) => Some(copy_text("unsupported FOM module form")),
        FomModule::Url(_) => Some(copy_text("unsupported FOM module form")),
        FomModule::Missing => Some(copy_text("FomModule has no oneof variant set")),
    }
}

fn find_fault(
    modules: &Vec<FomModule>,
    mim: &Option<FomModule>,
    faults: &Vec<Option<String>>,
) -> (r: Option<String>)
    ensures
        ({
            let first = first_fault(all_modules(modules@, *mim), faults@, 0);
            match r {
                Some(t) => first == Some(t@),
                None => first is None,
            }
        }),
{
    let ghost all = all_modules(modules@, *mim);
    let mut i: usize = 0;
    while i < modules.len()
        invariant
            i <= modules@.len(),
            all == all_modules(modules@, *mim),
            first_fault(all, faults@, 0) == first_fault(all, faults@, i as int),
        decreases modules@.len() - i,
    {
        assert(all[i as int] == modules@[i as int]);
        if let Some(t) = decode_fom_module(&modules[i], faults, i) {
            return Some(t);
        }
        i = i + 1;
    }
    match mim {
        Some(m) => {
            assert(all[i as int] == *m);
            assert(first_fault(all, faults@, i + 1) is None);
            decode_fom_module(m, faults, i)
        },
        None => None,
    }
}

/// What a node-wide service does: the node afterwards, the membership of the
/// session, the response, and the callbacks that are sent.
#[verifier::ext_equal]
pub struct NodeOutcome {
    pub node: NodeView,
    pub membership: Option<Membership>,
    pub reply: ResponseView,
    pub sent: Seq<OutboundView>,
}

/// The outcome of a refused request: nothing changes and nothing is sent.
pub open spec fn node_refusal(
    node: NodeView,
    ctx: SessionContext,
    e: ExceptionView,
) -> NodeOutcome {
    NodeOutcome { node, membership: ctx.membership, reply: refused(e), sent: Seq::empty() }
}

/// The object model of a new federation, or why there is none.
pub open spec fn model_for(
    node: NodeView,
    modules: Seq<FomModule>,
    load: ModuleLoad,
) -> Result<FomView, ExceptionView> {
    match first_fault(modules, load.faults@, 0) {
        Some(t) => Err(raised(HlaException::CouldNotOpenFdd, t)),
        None => if modules.len() == 0 {
            Ok(node.default_fom)
        } else {
            match load.merged {
                Ok(fom) => Ok(fom@),
                Err(t) => Err(raised(HlaException::ErrorReadingFdd, t@)),
            }
        },
    }
}

/// What creating a federation does.
pub open spec fn create_outcome(
    node: NodeView,
    ctx: SessionContext,
    form: CreateForm,
    name: Seq<char>,
    modules: Seq<FomModule>,
    load: ModuleLoad,
) -> NodeOutcome {
    if name.len() == 0 {
        node_refusal(
            node,
            ctx,
            raised(HlaException::ErrorReadingFdd, "federationName must not be empty"@),
        )
    } else if federation_named(node.federations, name) is Some {
        node_refusal(node, ctx, raised(HlaException::FederationExecutionAlreadyExists, name))
    } else {
        match model_for(node, modules, load) {
            Err(e) => node_refusal(node, ctx, e),
            Ok(fom) => NodeOutcome {
                node: with_new_federation(node, name, fom),
                membership: ctx.membership,
                reply: done(Service::CreateFederationExecution(form)),
                sent: Seq::empty(),
            },
        }
    }
}

/// The node with a new federation.
pub open spec fn with_new_federation(node: NodeView, name: Seq<char>, fom: FomView) -> NodeView {
    let id = node.next_federation_id;
    NodeView {
        federations: node.federations.insert(id, FederationView::new(name, id, fom)),
        next_federation_id: next_number(id),
        ..node
    }
}

/// Creates a federation.
pub fn create_federation(
    node: &mut RtiNode,
    ctx: &SessionContext,
    form: CreateForm,
    name: &str,
    modules: &Vec<FomModule>,
    mim: &Option<FomModule>,
    load: &ModuleLoad,
) -> (r: CallResponse)
    requires
        old(node).wf(),
    ensures
        final(node).wf(),
        ({
            let o = create_outcome(
                old(node)@,
                *ctx,
                form,
                name@,
                all_modules(modules@, *mim),
                *load,
            );
            &&& final(node)@ == o.node
            &&& r@ == o.reply
        }),
{
    if name.is_empty() {
        return refuse(
            exception_variant(HlaException::ErrorReadingFdd, "federationName must not be empty"),
        );
    }
    if node.find_federation(name).is_some() {
        return refuse(exception_variant(HlaException::FederationExecutionAlreadyExists, name));
    }
    if let Some(t) = find_fault(modules, mim, &load.faults) {
        return refuse(exception_variant(HlaException::CouldNotOpenFdd, t.as_str()));
    }
    let fom = if modules.len() == 0 && mim.is_none() {
        share(&node.default_fom)
    } else {
        match &load.merged {
            Ok(fom) => share(fom),
            Err(t) => return refuse(exception_variant(HlaException::ErrorReadingFdd, t.as_str())),
        }
    };
    let id = node.next_federation_id;
    node.next_federation_id = following(id);
    let ghost before = node@;
    let ghost held = node.federations.held();
    proof {
        node.federations.lemma_held();
    }
    node.federations.insert(id, Federation::new(copy_text(name), id, fom));
    proof {
        assert forall|k: u64| #[trigger]
            node.federations.held().contains_key(k) implies node.federations.held()[k].wf() by {
            if k != id {
                assert(held.contains_key(k));
            }
        }
        assert forall|k: u64| #[trigger]
            node@.federations.contains_key(k) implies node@.federations[k].serial == k
            && node@.federations[k].wf() && in_order(node@.federations[k]) by {
            if k != id {
                assert(before.federations.contains_key(k));
            } else {
                a_new_federation_is_in_order(name@, id, fom@);
            }
        }
        assert forall|a: u64, b: u64| #[trigger]
            node@.federations.contains_key(a) && #[trigger] node@.federations.contains_key(b)
                && node@.federations[a].name == node@.federations[b].name implies a == b by {
            if a != id {
                assert(before.federations.contains_key(a));
            }
            if b != id {
                assert(before.federations.contains_key(b));
            }
        }
    }
    reply(Service::CreateFederationExecution(form))
}

/// What destroying a federation does: it must have no federate.
pub open spec fn destroy_outcome(
    node: NodeView,
    ctx: SessionContext,
    name: Seq<char>,
) -> NodeOutcome {
    match federation_named(node.federations, name) {
        None => node_refusal(
            node,
            ctx,
            raised(HlaException::FederationExecutionDoesNotExist, name),
        ),
        Some(id) => if node.federations[id].federates.dom() != Set::<u32>::empty() {
            node_refusal(node, ctx, raised(HlaException::FederatesCurrentlyJoined, name))
        } else {
            NodeOutcome {
                node: NodeView { federations: node.federations.remove(id), ..node },
                membership: ctx.membership,
                reply: done(Service::DestroyFederationExecution),
                sent: Seq::empty(),
            }
        },
    }
}

/// Destroys a federation.
pub fn destroy_federation_execution(
    node: &mut RtiNode,
    ctx: &SessionContext,
    name: &str,
) -> (r: CallResponse)
    requires
        old(node).wf(),
    ensures
        final(node).wf(),
        final(node)@ == destroy_outcome(old(node)@, *ctx, name@).node,
        r@ == destroy_outcome(old(node)@, *ctx, name@).reply,
{
    let id = match node.find_federation(name) {
        Some(id) => id,
        None => {
            return refuse(
                exception_variant(HlaException::FederationExecutionDoesNotExist, name),
            );
        },
    };
    if let Some(federation) = node.federations.get(id) {
        if !federation.federates.is_empty() {
            return refuse(exception_variant(HlaException::FederatesCurrentlyJoined, name));
        }
    }
    let ghost before = node@;
    let ghost held = node.federations.held();
    node.federations.remove(id);
    proof {
        assert forall|k: u64| #[trigger]
            node.federations.held().contains_key(k) implies node.federations.held()[k].wf() by {
            assert(held.contains_key(k));
        }
        assert forall|k: u64| #[trigger]
            node@.federations.contains_key(k) implies node@.federations[k].serial == k
            && node@.federations[k].wf() && in_order(node@.federations[k]) by {
            assert(before.federations.contains_key(k));
        }
        assert forall|a: u64, b: u64| #[trigger]
            node@.federations.contains_key(a) && #[trigger] node@.federations.contains_key(b)
                && node@.federations[a].name == node@.federations[b].name implies a == b by {
            assert(before.federations.contains_key(a));
            assert(before.federations.contains_key(b));
        }
    }
    reply(Service::DestroyFederationExecution)
}

/// A federate that has just joined.
pub open spec fn new_federate(handle: u32, name: Seq<char>, session_id: u64) -> FederateView {
    FederateView {
        handle,
        name,
        federate_type: ""@,
        session_id,
        pub_sub: PubSubView::empty(),
        time: initial_time(),
        switches: default_switches(),
        tso_queue: Seq::empty(),
    }
}

/// The number after `n`; the last one is followed by zero.
pub open spec fn next_handle(n: u32) -> u32 {
    if n == u32::MAX {
        0
    } else {
        (n + 1) as u32
    }
}

/// The name of a federate that has asked for none.
pub open spec fn default_name(handle: u32) -> Seq<char> {
    "federate-"@ + hex_of(handle as nat, 8)
}

/// What joining does to a federation: the federation afterwards, and the handle
/// or the exception. A number that was given out is not given out again, also
/// where the name is refused.
pub open spec fn joining(
    fed: FederationView,
    session_id: u64,
    requested: Option<Seq<char>>,
) -> (FederationView, Result<u32, ExceptionView>) {
    let handle = fed.next_federate_id;
    let numbered = FederationView {
        next_federate_id: next_handle(handle),
        renumbered: fed.renumbered || handle == u32::MAX,
        ..fed
    };
    match requested {
        Some(n) if namesakes(fed.federates, n) != Set::<u32>::empty() => (
            numbered,
            Err(raised(HlaException::FederateNameAlreadyInUse, n)),
        ),
        _ => {
            let name = match requested {
                Some(n) => n,
                None => default_name(handle),
            };
            (numbered.with_federate(handle, new_federate(handle, name, session_id)), Ok(handle))
        },
    }
}

fn join_federation(
    federation: &mut Federation,
    session_id: u64,
    requested: Option<String>,
) -> (r: Result<u32, ExceptionData>)
    requires
        old(federation).wf(),
    ensures
        final(federation).wf(),
        ({
            let o = joining(
                old(federation)@,
                session_id,
                match requested {
                    Some(n) => Some(n@),
                    None => None,
                },
            );
            &&& final(federation)@ == o.0
            &&& match r {
                Ok(h) => o.1 == Ok::<u32, ExceptionView>(h),
                Err(e) => o.1 == Err::<u32, ExceptionView>(e@),
            }
        }),
{
    let ghost fed = federation@;
    let handle = federation.next_federate_id;
    federation.next_federate_id = if handle == u32::MAX {
        0
    } else {
        handle + 1
    };
    let ghost renumbered = federation.renumbered@ || handle == u32::MAX;
    federation.renumbered = Ghost(renumbered);
    let name = match requested {
        Some(n) => {
            let same = find_namesakes(&federation.federates, n.as_str());
            proof {
                lemma_ascending(namesakes(fed.federates, n@));
            }
            if same.len() > 0 {
                proof {
                    assert(same@.contains(same@[0]));
                    assert(namesakes(fed.federates, n@).contains(same@[0]));
                }
                return Err(exception_variant(HlaException::FederateNameAlreadyInUse, n.as_str()));
            }
            assert(namesakes(fed.federates, n@) =~= Set::<u32>::empty()) by {
                assert forall|f: u32| !namesakes(fed.federates, n@).contains(f) by {
                    if namesakes(fed.federates, n@).contains(f) {
                        assert(same@.contains(f));
                    }
                }
            }
            n
        },
        None => joined("federate-", hex(handle, 8).as_str()),
    };
    let session = FederateSession {
        handle,
        name,
        federate_type: copy_text(""),
        session_id,
        pub_sub: PubSubState::new(),
        time: TimeState::default(),
        switches: Switches::default(),
        tso_queue: Vec::new(),
    };
    proof {
        assert(queue_view(session.tso_queue@) =~= Seq::empty());
        assert(session@ == new_federate(handle, session.name@, session_id));
        assert(session@.wf());
    }
    federation.federates.insert(handle, session);
    Ok(handle)
}

/// The name that a form of joining asks for.
pub open spec fn requested_name(form: JoinForm) -> Option<Seq<char>> {
    match form {
        JoinForm::Plain => None,
        JoinForm::WithName(n) => Some(n@),
        JoinForm::WithModules => None,
        JoinForm::WithNameAndModules(n) => Some(n@),
    }
}

/// The service that a form of joining is.
pub open spec fn join_service(form: JoinForm) -> JoinService {
    match form {
        JoinForm::Plain => JoinService::Plain,
        JoinForm::WithName(_) => JoinService::WithName,
        JoinForm::WithModules => JoinService::WithModules,
        JoinForm::WithNameAndModules(_) => JoinService::WithNameAndModules,
    }
}

/// What joining a federation does.
pub open spec fn join_outcome(
    node: NodeView,
    ctx: SessionContext,
    form: JoinForm,
    name: Seq<char>,
) -> NodeOutcome {
    if ctx.membership is Some {
        node_refusal(
            node,
            ctx,
            raised(
                HlaException::FederateAlreadyExecutionMember,
                "session "@ + decimal_of(ctx.session_id as nat),
            ),
        )
    } else {
        match federation_named(node.federations, name) {
            None => node_refusal(
                node,
                ctx,
                raised(HlaException::FederationExecutionDoesNotExist, name),
            ),
            Some(id) => {
                let (fed, result) = joining(
                    node.federations[id],
                    ctx.session_id,
                    requested_name(form),
                );
                let next = NodeView { federations: node.federations.insert(id, fed), ..node };
                match result {
                    Err(e) => NodeOutcome {
                        node: next,
                        membership: None,
                        reply: refused(e),
                        sent: Seq::empty(),
                    },
                    Ok(h) => NodeOutcome {
                        node: next,
                        membership: Some(Membership { federation: id, federate_handle: h }),
                        reply: answered(
                            Service::JoinFederationExecution(join_service(form)),
                            PayloadView::Joined {
                                federate_handle: bytes_of_u32(h),
                                logical_time_implementation_name: TIME_IMPLEMENTATION@,
                            },
                        ),
                        sent: Seq::empty(),
                    },
                }
            },
        }
    }
}

/// Keeps the node well formed when a federation comes back changed.
pub proof fn lemma_federation_back(before: NodeView, after: NodeView, id: u64, fed: FederationView)
    requires
        before.sound(),
        before.federations.contains_key(id),
        fed.wf(),
        fed.serial == id,
        fed.name == before.federations[id].name,
        after.federations == before.federations.insert(id, fed),
    ensures
        after.sound(),
        before.wf() && in_order(fed) ==> after.wf(),
{
    assert forall|k: u64| #[trigger]
        after.federations.contains_key(k) implies after.federations[k].serial == k
        && after.federations[k].wf() by {
        assert(before.federations.contains_key(k));
    }
    assert forall|a: u64, b: u64| #[trigger]
        after.federations.contains_key(a) && #[trigger] after.federations.contains_key(b)
            && after.federations[a].name == after.federations[b].name implies a == b by {
        assert(before.federations.contains_key(a));
        assert(before.federations.contains_key(b));
    }
    if before.wf() && in_order(fed) {
        assert forall|k: u64| #[trigger] after.federations.contains_key(k) implies in_order(
            after.federations[k],
        ) by {
            assert(before.federations.contains_key(k));
        }
    }
}

/// Lets a session join a federation.
pub fn join(
    node: &mut RtiNode,
    ctx: &mut SessionContext,
    form: &JoinForm,
    name: &str,
) -> (r: CallResponse)
    requires
        old(node).wf(),
    ensures
        final(node).wf(),
        ({
            let o = join_outcome(old(node)@, *old(ctx), *form, name@);
            &&& final(node)@ == o.node
            &&& *final(ctx) == (SessionContext { membership: o.membership, ..*old(ctx) })
            &&& r@ == o.reply
        }),
{
    broadcast use crate::federation::lemma_put_back;

    if ctx.is_joined() {
        return refuse(
            exception_variant(
                HlaException::FederateAlreadyExecutionMember,
                joined("session ", decimal(ctx.session_id).as_str()).as_str(),
            ),
        );
    }
    let id = match node.find_federation(name) {
        Some(id) => id,
        None => {
            return refuse(
                exception_variant(HlaException::FederationExecutionDoesNotExist, name),
            );
        },
    };
    let (service, requested) = match form {
        JoinForm::Plain => (JoinService::Plain, None),
        JoinForm::WithName(n) => (JoinService::WithName, Some(copy_text(n.as_str()))),
        JoinForm::WithModules => (JoinService::WithModules, None),
        JoinForm::WithNameAndModules(n) => (
            JoinService::WithNameAndModules,
            Some(copy_text(n.as_str())),
        ),
    };
    let ghost before = node@;
    let ghost held = node.federations.held();
    proof {
        node.federations.lemma_held();
    }
    match node.federations.remove(id) {
        None => refuse(exception_variant(HlaException::FederationExecutionDoesNotExist, name)),
        Some(mut federation) => {
            assert(held.contains_key(id));
            let ghost fed = federation@;
            let result = join_federation(&mut federation, ctx.session_id, requested);
            proof {
                assert(before.federations.contains_key(id));
                joining_keeps_order(fed, ctx.session_id, requested_name(*form));
            }
            node.federations.insert(id, federation);
            proof {
                lemma_federation_back(before, node@, id, federation@);
                assert forall|k: u64| #[trigger]
                    node.federations.held().contains_key(k) implies node.federations.held()[k].wf() by {
                    assert(held.contains_key(k));
                }
            }
            match result {
                Err(e) => refuse(e),
                Ok(h) => {
                    ctx.membership = Some(Membership { federation: id, federate_handle: h });
                    reply_with(
                        Service::JoinFederationExecution(service),
                        Payload::Joined {
                            federate_handle: encode_federate(h),
                            logical_time_implementation_name: copy_text(TIME_IMPLEMENTATION),
                        },
                    )
                },
            }
        },
    }
}

/// The node after a member has left its federation.
pub open spec fn without_member(node: NodeView, m: Membership) -> NodeView {
    if node.federations.contains_key(m.federation) {
        let fed = node.federations[m.federation];
        NodeView {
            federations: node.federations.insert(
                m.federation,
                FederationView { federates: fed.federates.remove(m.federate_handle), ..fed },
            ),
            ..node
        }
    } else {
        node
    }
}

/// Takes a member out of its federation.
pub fn remove_member(node: &mut RtiNode, m: Membership)
    requires
        old(node).sound(),
    ensures
        final(node).sound(),
        final(node)@ == without_member(old(node)@, m),
{
    broadcast use crate::federation::lemma_put_back;

    let ghost before = node@;
    let ghost held = node.federations.held();
    proof {
        node.federations.lemma_held();
    }
    if let Some(mut federation) = node.federations.remove(m.federation) {
        assert(held.contains_key(m.federation));
        let ghost fed = federation@;
        federation.federates.remove(m.federate_handle);
        proof {
            assert forall|f: u32| #[trigger]
                federation@.federates.contains_key(f) implies federation@.federates[f].handle == f
                && federation@.federates[f].wf() by {
                assert(fed.federates.contains_key(f));
            }
        }
        node.federations.insert(m.federation, federation);
        proof {
            lemma_federation_back(before, node@, m.federation, federation@);
            assert forall|k: u64| #[trigger]
                node.federations.held().contains_key(k) implies node.federations.held()[k].wf() by {
                assert(held.contains_key(k));
            }
        }
    }
}

/// The node after the pending advances in a federation were looked at again.
pub open spec fn with_grants(node: NodeView, id: u64) -> NodeView {
    if node.federations.contains_key(id) {
        NodeView {
            federations: node.federations.insert(id, after_all_grants(node.federations[id])),
            ..node
        }
    } else {
        node
    }
}

/// What is sent when the pending advances in a federation are looked at again.
pub open spec fn sent_with_grants(node: NodeView, id: u64) -> Seq<OutboundView> {
    if node.federations.contains_key(id) {
        sent_for_grants(node.federations[id], node.connections)
    } else {
        Seq::empty()
    }
}

/// Looks again at the pending advances in a federation.
pub fn grant_in(node: &mut RtiNode, out: &mut Outbox, id: u64)
    requires
        old(node).sound(),
    ensures
        final(node).sound(),
        final(node)@ == with_grants(old(node)@, id),
        final(out)@ == old(out)@ + sent_with_grants(old(node)@, id),
{
    broadcast use crate::federation::lemma_put_back;

    assert(old(out)@ + Seq::empty() =~= old(out)@);
    let ghost before = node@;
    let ghost held = node.federations.held();
    proof {
        node.federations.lemma_held();
    }
    match node.federations.remove(id) {
        None => {
            proof {
                assert(node@.federations =~= before.federations);
                assert forall|k: u64| #[trigger]
                    node.federations.held().contains_key(k) implies node.federations.held()[k].wf() by {
                    assert(held.contains_key(k));
                }
            }
        },
        Some(mut federation) => {
            assert(held.contains_key(id));
            let ghost fed = federation@;
            try_grant_pending_advances(&mut federation, &node.connections, out);
            proof {
                grants_change_federates_only(fed);
            }
            node.federations.insert(id, federation);
            proof {
                lemma_federation_back(before, node@, id, federation@);
                assert forall|k: u64| #[trigger]
                    node.federations.held().contains_key(k) implies node.federations.held()[k].wf() by {
                    assert(held.contains_key(k));
                }
            }
        },
    }
}

/// The node after a member has left its federation for good. Who waited for it
/// may advance.
pub open spec fn after_leaving(node: NodeView, m: Membership) -> NodeView {
    with_grants(without_member(node, m), m.federation)
}

/// What is sent when a member leaves its federation for good.
pub open spec fn sent_on_leaving(node: NodeView, m: Membership) -> Seq<OutboundView> {
    sent_with_grants(without_member(node, m), m.federation)
}

/// Lets a member leave its federation for good.
pub fn leave(node: &mut RtiNode, out: &mut Outbox, m: Membership)
    requires
        old(node).wf(),
    ensures
        final(node).wf(),
        final(node)@ == after_leaving(old(node)@, m),
        final(out)@ == old(out)@ + sent_on_leaving(old(node)@, m),
{
    proof {
        leaving_keeps_order(node@, m);
    }
    remove_member(node, m);
    grant_in(node, out, m.federation);
}

/// What resigning does. Pending advances are looked at again.
pub open spec fn resign_outcome(node: NodeView, ctx: SessionContext) -> NodeOutcome {
    match ctx.membership {
        None => node_refusal(node, ctx, bare(HlaException::FederateNotExecutionMember)),
        Some(m) => NodeOutcome {
            node: after_leaving(node, m),
            membership: None,
            reply: done(Service::ResignFederationExecution),
            sent: sent_on_leaving(node, m),
        },
    }
}

/// Lets a session leave its federation.
pub fn resign(node: &mut RtiNode, ctx: &mut SessionContext, out: &mut Outbox) -> (r: CallResponse)
    requires
        old(node).wf(),
    ensures
        final(node).wf(),
        ({
            let o = resign_outcome(old(node)@, *old(ctx));
            &&& final(node)@ == o.node
            &&& *final(ctx) == (SessionContext { membership: o.membership, ..*old(ctx) })
            &&& r@ == o.reply
            &&& final(out)@ == old(out)@ + o.sent
        }),
{
    assert(old(out)@ + Seq::empty() =~= old(out)@);
    match ctx.membership {
        None => refuse_bare(HlaException::FederateNotExecutionMember),
        Some(m) => {
            ctx.membership = None;
            leave(node, out, m);
            reply(Service::ResignFederationExecution)
        },
    }
}

/// The connection of a session, where it has one.
pub open spec fn own_connection(node: NodeView, session_id: u64) -> Seq<ConnectionHandle> {
    if node.connections.contains_key(session_id) {
        seq![ConnectionHandle { session_id, connection: node.connections[session_id] }]
    } else {
        Seq::empty()
    }
}

fn find_own_connection(node: &RtiNode, session_id: u64) -> (r: Vec<ConnectionHandle>)
    ensures
        r@ == own_connection(node@, session_id),
{
    let mut r: Vec<ConnectionHandle> = Vec::new();
    if let Some(c) = node.connections.get(session_id) {
        r.push(c);
    }
    assert(r@ =~= own_connection(node@, session_id));
    r
}

/// The names of federations.
pub open spec fn federation_names(
    federations: Map<u64, FederationView>,
    q: Seq<u64>,
) -> Seq<Seq<char>> {
    q.map_values(|id: u64| federations[id].name)
}

/// What the request for a list of the federations does: the list follows as a
/// callback.
pub open spec fn list_outcome(node: NodeView, ctx: SessionContext) -> NodeOutcome {
    NodeOutcome {
        node,
        membership: ctx.membership,
        reply: done(Service::ListFederationExecutions),
        sent: copies(
            own_connection(node, ctx.session_id),
            report_federation_executions_view(
                federation_names(node.federations, ascending(node.federations.dom())),
            ),
        ),
    }
}

/// Lists the federations.
pub fn list_federation_executions(
    node: &RtiNode,
    ctx: &SessionContext,
    out: &mut Outbox,
) -> (r: CallResponse)
    requires
        node.wf(),
    ensures
        r@ == list_outcome(node@, *ctx).reply,
        final(out)@ == old(out)@ + list_outcome(node@, *ctx).sent,
{
    let ghost federations = node@.federations;
    let keys = node.federations.keys();
    proof {
        lemma_ascending(federations.dom());
    }
    let mut names: Vec<String> = Vec::new();
    let mut i: usize = 0;
    while i < keys.len()
        invariant
            i <= keys@.len(),
            federations == node@.federations,
            forall|id: u64| #[trigger] keys@.contains(id) <==> federations.contains_key(id),
            names@.map_values(|s: String| s@) == federation_names(
                federations,
                keys@.take(i as int),
            ),
        decreases keys@.len() - i,
    {
        let ghost seen = names@;
        assert(keys@.contains(keys@[i as int]));
        if let Some(federation) = node.federations.get(keys[i]) {
            names.push(copy_text(federation.name.as_str()));
        }
        proof {
            let name = federations[keys@[i as int]].name;
            assert(names@.map_values(|s: String| s@) =~= seen.map_values(|s: String| s@).push(name));
            assert(federation_names(federations, keys@.take(i + 1)) =~= federation_names(
                federations,
                keys@.take(i as int),
            ).push(name));
        }
        i = i + 1;
    }
    assert(keys@.take(i as int) =~= keys@);
    let targets = find_own_connection(node, ctx.session_id);
    fan_out(out, &targets, report_federation_executions(&names));
    reply(Service::ListFederationExecutions)
}

/// The members of a federation, as a report names them.
pub open spec fn member_list(
    federates: Map<u32, FederateView>,
    q: Seq<u32>,
) -> Seq<FederationMemberView> {
    q.map_values(
        |f: u32|
            FederationMemberView {
                federate_name: federates[f].name,
                federate_type: federates[f].federate_type,
            },
    )
}

/// What the request for a list of the members of a federation does: the list
/// follows as a callback, or the word that there is no such federation.
pub open spec fn list_members_outcome(
    node: NodeView,
    ctx: SessionContext,
    name: Seq<char>,
) -> NodeOutcome {
    NodeOutcome {
        node,
        membership: ctx.membership,
        reply: done(Service::ListFederationExecutionMembers),
        sent: copies(
            own_connection(node, ctx.session_id),
            match federation_named(node.federations, name) {
                Some(id) => {
                    let federates = node.federations[id].federates;
                    report_federation_execution_members_view(
                        name,
                        member_list(federates, ascending(federates.dom())),
                    )
                },
                None => report_federation_execution_does_not_exist_view(name),
            },
        ),
    }
}

fn list_members(federation: &Federation) -> (r: Vec<FederationMember>)
    ensures
        r@.map_values(|m: FederationMember| m@) == member_list(
            federation@.federates,
            ascending(federation@.federates.dom()),
        ),
{
    let ghost federates = federation@.federates;
    let keys = federation.federates.keys();
    proof {
        lemma_ascending(federates.dom());
    }
    let mut members: Vec<FederationMember> = Vec::new();
    let mut i: usize = 0;
    while i < keys.len()
        invariant
            i <= keys@.len(),
            federates == federation@.federates,
            forall|f: u32| #[trigger] keys@.contains(f) <==> federates.contains_key(f),
            members@.map_values(|m: FederationMember| m@) == member_list(
                federates,
                keys@.take(i as int),
            ),
        decreases keys@.len() - i,
    {
        let ghost seen = members@;
        assert(keys@.contains(keys@[i as int]));
        if let Some(fs) = federation.federates.get(keys[i]) {
            members.push(
                FederationMember {
                    federate_name: copy_text(fs.name.as_str()),
                    federate_type: copy_text(fs.federate_type.as_str()),
                },
            );
        }
        proof {
            let fs = federates[keys@[i as int]];
            let next = FederationMemberView {
                federate_name: fs.name,
                federate_type: fs.federate_type,
            };
            assert(members@.map_values(|m: FederationMember| m@) =~= seen.map_values(
                |m: FederationMember| m@,
            ).push(next));
            assert(member_list(federates, keys@.take(i + 1)) =~= member_list(
                federates,
                keys@.take(i as int),
            ).push(next));
        }
        i = i + 1;
    }
    assert(keys@.take(i as int) =~= keys@);
    members
}

/// Lists the members of a federation.
pub fn list_federation_execution_members(
    node: &RtiNode,
    ctx: &SessionContext,
    out: &mut Outbox,
    name: &str,
) -> (r: CallResponse)
    requires
        node.wf(),
    ensures
        r@ == list_members_outcome(node@, *ctx, name@).reply,
        final(out)@ == old(out)@ + list_members_outcome(node@, *ctx, name@).sent,
{
    let callback = match node.find_federation(name) {
        Some(id) => match node.federations.get(id) {
            Some(federation) => report_federation_execution_members(
                name,
                list_members(federation),
            ),
            None => report_federation_execution_does_not_exist(name),
        },
        None => report_federation_execution_does_not_exist(name),
    };
    let targets = find_own_connection(node, ctx.session_id);
    fan_out(out, &targets, callback);
    reply(Service::ListFederationExecutionMembers)
}

/// A federation that was created is there under its name until it is destroyed,
/// and cannot be created again meanwhile.
pub proof fn a_created_federation_exists(
    node: NodeView,
    ctx: SessionContext,
    form: CreateForm,
    name: Seq<char>,
    modules: Seq<FomModule>,
    load: ModuleLoad,
)
    requires
        node.wf(),
        create_outcome(node, ctx, form, name, modules, load).reply == done(
            Service::CreateFederationExecution(form),
        ),
    ensures
        ({
            let next = create_outcome(node, ctx, form, name, modules, load).node;
            &&& federation_named(next.federations, name) == Some(node.next_federation_id)
            &&& create_outcome(next, ctx, form, name, modules, load) == node_refusal(
                next,
                ctx,
                raised(HlaException::FederationExecutionAlreadyExists, name),
            )
            &&& federation_named(
                destroy_outcome(next, ctx, name).node.federations,
                name,
            ) is None
        }),
{
    let next = create_outcome(node, ctx, form, name, modules, load).node;
    let id = node.next_federation_id;
    assert(next.federations.contains_key(id) && next.federations[id].name == name);
    assert forall|k: u64| #[trigger]
        next.federations.contains_key(k) && next.federations[k].name == name implies k == id by {
        if k != id {
            assert(node.federations.contains_key(k));
        }
    }
    let gone = destroy_outcome(next, ctx, name).node;
    assert(next.federations[id].federates.dom() =~= Set::<u32>::empty());
    assert forall|k: u64| #[trigger] gone.federations.contains_key(k) implies gone.federations[k].name
        != name by {
        assert(next.federations.contains_key(k));
    }
}

/// A federation is destroyed only when nobody is joined.
pub proof fn no_federation_with_members_is_destroyed(
    node: NodeView,
    ctx: SessionContext,
    name: Seq<char>,
    id: u64,
    f: u32,
)
    requires
        node.wf(),
        node.federations.contains_key(id),
        node.federations[id].federates.contains_key(f),
    ensures
        destroy_outcome(node, ctx, name).node.federations.contains_key(id),
        destroy_outcome(node, ctx, name).node.federations[id] == node.federations[id],
{
    assert(node.federations[id].federates.dom().contains(f));
}

/// Until the numbers run out, every join to a federation gets a greater handle than
/// those before it, also where one in between was refused.
pub proof fn federate_handles_grow(
    fed: FederationView,
    session_id: u64,
    requested: Option<Seq<char>>,
)
    requires
        fed.next_federate_id < u32::MAX,
    ensures
        ({
            let (next, result) = joining(fed, session_id, requested);
            &&& next.next_federate_id > fed.next_federate_id
            &&& result is Ok ==> result->Ok_0 == fed.next_federate_id
                && next.federates.contains_key(result->Ok_0)
                && next.federates[result->Ok_0].session_id == session_id
        }),
{
}

/// A name that a federate asked for belongs to it alone.
pub proof fn requested_names_are_unique(
    fed: FederationView,
    session_id: u64,
    name: Seq<char>,
    f: u32,
)
    requires
        joining(fed, session_id, Some(name)).1 is Ok,
        joining(fed, session_id, Some(name)).0.federates.contains_key(f),
        joining(fed, session_id, Some(name)).0.federates[f].name == name,
    ensures
        f == joining(fed, session_id, Some(name)).1->Ok_0,
{
    if f != fed.next_federate_id {
        assert(namesakes(fed.federates, name).contains(f));
    }
}

} // verus!

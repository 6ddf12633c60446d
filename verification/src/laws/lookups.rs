//! What federates can ask for: switches, names and handles, and numbers that everybody is
//! answered alike.

use crate::dispatch::calls::{
    call_outcome, lookup_reply, member_outcome, quiet_outcome, CallOutcome, Outside,
};
use crate::dispatch::helpers::Outcome;
use crate::dispatch::instance_lookup::instances_named;
use crate::dispatch::restore::SnapshotLoadView;
use crate::dispatch::switches::{position, set_switch_outcome, switch_reply, with_position};
use crate::exception::HlaException;
use crate::federation::{FederateView, FederationView, Switches};
use crate::handles::{bytes_of_u32, bytes_of_u64, field32, field64};
use crate::laws::federations::turns_down;
use crate::laws::models::answers;
use crate::laws::restore::lemma_instances_finite;
use crate::laws::{refuses, serves};
use crate::messages::{
    CallRequest, PassiveService, PayloadView, ResponseView, Service, SettableSwitch, Switch,
};
use crate::node::NodeView;
use crate::persistence::namesakes;
use crate::session::SessionContext;
use crate::subscriptions::lemma_handles_finite;
use crate::tables::{ascending, lemma_ascending, Key};
use crate::text::decimal_of;
use vstd::prelude::*;

verus! {

/// Whether a switch that can be set is the one that is asked for.
pub open spec fn is_same_switch(settable: SettableSwitch, switch: Switch) -> bool {
    match settable {
        SettableSwitch::ObjectClassRelevanceAdvisory => switch
            == Switch::ObjectClassRelevanceAdvisory,
        SettableSwitch::AttributeRelevanceAdvisory => switch == Switch::AttributeRelevanceAdvisory,
        SettableSwitch::AttributeScopeAdvisory => switch == Switch::AttributeScopeAdvisory,
        SettableSwitch::InteractionRelevanceAdvisory => switch
            == Switch::InteractionRelevanceAdvisory,
        SettableSwitch::ConveyRegionDesignatorSets => switch == Switch::ConveyRegionDesignatorSets,
        SettableSwitch::ServiceReporting => switch == Switch::ServiceReporting,
        SettableSwitch::ExceptionReporting => switch == Switch::ExceptionReporting,
        SettableSwitch::SendServiceReportsToFile => switch == Switch::SendServiceReportsToFile,
    }
}

/// Whether two states differ in the switches of one federate at most.
pub open spec fn only_switches_differ(a: FederationView, b: FederationView, me: u32) -> bool {
    b == (FederationView {
        federates: a.federates.insert(
            me,
            FederateView { switches: b.federates[me].switches, ..a.federates[me] },
        ),
        ..a
    })
}

proof fn lemma_switch_is_set(
    fed: FederationView,
    conns: Map<u64, u64>,
    me: u32,
    settable: SettableSwitch,
    on: bool,
    load: SnapshotLoadView,
)
    ensures
        member_outcome(fed, conns, me, CallRequest::SetSwitch { settable, on }, load)
            == set_switch_outcome(fed, me, settable, on),
{
    reveal(lookup_reply);
    reveal(quiet_outcome);
}

proof fn lemma_switch_is_asked_for(
    fed: FederationView,
    conns: Map<u64, u64>,
    me: u32,
    switch: Switch,
    load: SnapshotLoadView,
)
    ensures
        ({
            let o = member_outcome(fed, conns, me, CallRequest::GetSwitch { switch }, load);
            &&& o.reply == switch_reply(fed, me, switch)
            &&& o.fed == fed
            &&& o.sent.len() == 0
        }),
{
    reveal(lookup_reply);
}

/// To set a switch is to change that one, of that federate, and nothing else.
pub proof fn to_set_a_switch_changes_only_that(
    fed: FederationView,
    conns: Map<u64, u64>,
    me: u32,
    settable: SettableSwitch,
    on: bool,
    load: SnapshotLoadView,
)
    requires
        fed.federates.contains_key(me),
    ensures
        ({
            let o = member_outcome(fed, conns, me, CallRequest::SetSwitch { settable, on }, load);
            let was = fed.federates[me].switches;
            let is = o.fed.federates[me].switches;
            &&& serves(o, Service::SetSwitch(settable))
            &&& o.sent.len() == 0
            &&& only_switches_differ(fed, o.fed, me)
            &&& is.automatic_resign_directive == was.automatic_resign_directive
            &&& is.object_class_relevance_advisory == (if settable
                == SettableSwitch::ObjectClassRelevanceAdvisory {
                on
            } else {
                was.object_class_relevance_advisory
            })
            &&& is.interaction_relevance_advisory == (if settable
                == SettableSwitch::InteractionRelevanceAdvisory {
                on
            } else {
                was.interaction_relevance_advisory
            })
        }),
{
    lemma_switch_is_set(fed, conns, me, settable, on, load);
}

#[verifier::spinoff_prover]
#[verifier::rlimit(60)]
proof fn lemma_one_switch(s: Switches, settable: SettableSwitch, on: bool, switch: Switch)
    ensures
        position(with_position(s, settable, on), switch) == (if is_same_switch(settable, switch) {
            on
        } else {
            position(s, switch)
        }),
{
    let is = with_position(s, settable, on);
    match settable {
        SettableSwitch::ObjectClassRelevanceAdvisory => {
            assert(switch == Switch::ObjectClassRelevanceAdvisory ==> position(is, switch) == on);
            assert(switch != Switch::ObjectClassRelevanceAdvisory ==> position(is, switch) == position(
                s,
                switch,
            ));
        },
        SettableSwitch::AttributeRelevanceAdvisory => {
            assert(switch == Switch::AttributeRelevanceAdvisory ==> position(is, switch) == on);
            assert(switch != Switch::AttributeRelevanceAdvisory ==> position(is, switch) == position(
                s,
                switch,
            ));
        },
        SettableSwitch::AttributeScopeAdvisory => {
            assert(switch == Switch::AttributeScopeAdvisory ==> position(is, switch) == on);
            assert(switch != Switch::AttributeScopeAdvisory ==> position(is, switch) == position(
                s,
                switch,
            ));
        },
        SettableSwitch::InteractionRelevanceAdvisory => {
            assert(switch == Switch::InteractionRelevanceAdvisory ==> position(is, switch) == on);
            assert(switch != Switch::InteractionRelevanceAdvisory ==> position(is, switch) == position(
                s,
                switch,
            ));
        },
        SettableSwitch::ConveyRegionDesignatorSets => {
            assert(switch == Switch::ConveyRegionDesignatorSets ==> position(is, switch) == on);
            assert(switch != Switch::ConveyRegionDesignatorSets ==> position(is, switch) == position(
                s,
                switch,
            ));
        },
        SettableSwitch::ServiceReporting => {
            assert(switch == Switch::ServiceReporting ==> position(is, switch) == on);
            assert(switch != Switch::ServiceReporting ==> position(is, switch) == position(
                s,
                switch,
            ));
        },
        SettableSwitch::ExceptionReporting => {
            assert(switch == Switch::ExceptionReporting ==> position(is, switch) == on);
            assert(switch != Switch::ExceptionReporting ==> position(is, switch) == position(
                s,
                switch,
            ));
        },
        SettableSwitch::SendServiceReportsToFile => {
            assert(switch == Switch::SendServiceReportsToFile ==> position(is, switch) == on);
            assert(switch != Switch::SendServiceReportsToFile ==> position(is, switch) == position(
                s,
                switch,
            ));
        },
    }
}

/// A switch is on or off as its federate set it last: to set one changes the answer for that
/// one, and for no other.
pub proof fn a_switch_is_as_it_was_set(
    fed: FederationView,
    conns: Map<u64, u64>,
    me: u32,
    settable: SettableSwitch,
    on: bool,
    switch: Switch,
    load: SnapshotLoadView,
    o: Outcome,
    before: bool,
)
    requires
        fed.federates.contains_key(me),
        o == member_outcome(fed, conns, me, CallRequest::SetSwitch { settable, on }, load),
        answers(
            member_outcome(fed, conns, me, CallRequest::GetSwitch { switch }, load),
            fed,
            Service::GetSwitch(switch),
            PayloadView::Flag(before),
        ),
    ensures
        answers(
            member_outcome(o.fed, conns, me, CallRequest::GetSwitch { switch }, load),
            o.fed,
            Service::GetSwitch(switch),
            PayloadView::Flag(
                if is_same_switch(settable, switch) {
                    on
                } else {
                    before
                },
            ),
        ),
{
    lemma_switch_is_set(fed, conns, me, settable, on, load);
    lemma_switch_is_asked_for(fed, conns, me, switch, load);
    lemma_switch_is_asked_for(o.fed, conns, me, switch, load);
    lemma_one_switch(fed.federates[me].switches, settable, on, switch);
}

/// The switches of a newcomer are answered so: the advisories and the relaxed matching of
/// regions are on, and everything else is off.
pub proof fn newcomers_have_their_advisories_on(
    fed: FederationView,
    conns: Map<u64, u64>,
    me: u32,
    switch: Switch,
    load: SnapshotLoadView,
)
    requires
        fed.federates.contains_key(me),
        ({
            let s = fed.federates[me].switches;
            &&& s.object_class_relevance_advisory && s.attribute_relevance_advisory
            &&& s.attribute_scope_advisory && s.interaction_relevance_advisory
            &&& s.allow_relaxed_ddm
            &&& !s.convey_region_designator_sets && !s.service_reporting && !s.exception_reporting
            &&& !s.send_service_reports_to_file && !s.auto_provide
            &&& !s.delay_subscription_evaluation && !s.advisories_use_known_class
            &&& !s.non_regulated_grant
        }),
    ensures
        answers(
            member_outcome(fed, conns, me, CallRequest::GetSwitch { switch }, load),
            fed,
            Service::GetSwitch(switch),
            PayloadView::Flag(
                switch == Switch::ObjectClassRelevanceAdvisory || switch
                    == Switch::AttributeRelevanceAdvisory || switch
                    == Switch::AttributeScopeAdvisory || switch
                    == Switch::InteractionRelevanceAdvisory || switch == Switch::AllowRelaxedDdm,
            ),
        ),
{
    reveal(lookup_reply);
}

/// What a federate has said is to be done when it is lost is answered with the number that it
/// said it with; other numbers than those of the six ways are refused.
pub proof fn a_resign_directive_is_as_it_was_set(
    fed: FederationView,
    conns: Map<u64, u64>,
    me: u32,
    value: i32,
    load: SnapshotLoadView,
)
    requires
        fed.federates.contains_key(me),
    ensures
        ({
            let request = CallRequest::SetAutomaticResignDirective { value };
            let o = member_outcome(fed, conns, me, request, load);
            let after = member_outcome(
                o.fed,
                conns,
                me,
                CallRequest::GetAutomaticResignDirective,
                load,
            );
            if 0 <= value <= 5 {
                &&& serves(o, Service::SetAutomaticResignDirective)
                &&& o.sent.len() == 0
                &&& only_switches_differ(fed, o.fed, me)
                &&& o.fed.federates[me].switches == (Switches {
                    automatic_resign_directive: o.fed.federates[me].switches.automatic_resign_directive,
                    ..fed.federates[me].switches
                })
                &&& answers(
                    after,
                    o.fed,
                    Service::GetAutomaticResignDirective,
                    PayloadView::Code(value),
                )
            } else {
                refuses(o, fed, HlaException::InvalidResignAction)
            }
        }),
{
    reveal(lookup_reply);
    reveal(quiet_outcome);
}

/// Whether an instance has a name, and none with a smaller handle has it too.
pub open spec fn is_first_named(fed: FederationView, h: u64, name: Seq<char>) -> bool {
    &&& fed.object_instances.contains_key(h)
    &&& fed.object_instances[h].name == name
    &&& forall|g: u64| #[trigger]
        fed.object_instances.contains_key(g) && fed.object_instances[g].name == name ==> h <= g
}

/// An instance is found by its name: of several with one name, that which was registered
/// first. Its name and its class are answered for its handle.
pub proof fn instances_are_found_by_name(
    fed: FederationView,
    conns: Map<u64, u64>,
    me: u32,
    object_instance_name: String,
    object_instance: Option<Vec<u8>>,
    load: SnapshotLoadView,
)
    ensures
        ({
            let name = object_instance_name@;
            let o = member_outcome(
                fed,
                conns,
                me,
                CallRequest::GetObjectInstanceHandle { object_instance_name },
                load,
            );
            if exists|h: u64| #[trigger]
                fed.object_instances.contains_key(h) && fed.object_instances[h].name == name {
                exists|h: u64| #[trigger]
                    is_first_named(fed, h, name) && answers(
                        o,
                        fed,
                        Service::GetObjectInstanceHandle,
                        PayloadView::Handle(bytes_of_u64(h)),
                    )
            } else {
                refuses(o, fed, HlaException::ObjectInstanceNotKnown)
            }
        }),
        ({
            let named = member_outcome(
                fed,
                conns,
                me,
                CallRequest::GetObjectInstanceName { object_instance },
                load,
            );
            let of_class = member_outcome(
                fed,
                conns,
                me,
                CallRequest::GetKnownObjectClassHandle { object_instance },
                load,
            );
            match field64(object_instance) {
                Some(h) if fed.object_instances.contains_key(h) => {
                    &&& answers(
                        named,
                        fed,
                        Service::GetObjectInstanceName,
                        PayloadView::Text(fed.object_instances[h].name),
                    )
                    &&& answers(
                        of_class,
                        fed,
                        Service::GetKnownObjectClassHandle,
                        PayloadView::Handle(bytes_of_u32(fed.object_instances[h].class)),
                    )
                },
                _ => {
                    &&& refuses(named, fed, HlaException::ObjectInstanceNotKnown)
                    &&& refuses(of_class, fed, HlaException::ObjectInstanceNotKnown)
                },
            }
        }),
{
    reveal(lookup_reply);
    let name = object_instance_name@;
    let set = instances_named(fed, name);
    let q = ascending(set);
    lemma_instances_finite(set);
    lemma_ascending(set);
    if exists|h: u64| #[trigger]
        fed.object_instances.contains_key(h) && fed.object_instances[h].name == name {
        let h = choose|h: u64| #[trigger]
            fed.object_instances.contains_key(h) && fed.object_instances[h].name == name;
        assert(set.contains(h));
        assert(q.contains(h));
        assert(q.contains(q[0]));
        assert forall|g: u64| #[trigger]
            fed.object_instances.contains_key(g) && fed.object_instances[g].name
                == name implies q[0] <= g by {
            assert(set.contains(g));
            assert(q.contains(g));
            let i = q.index_of(g);
            if i > 0 {
                assert(q[0].number() < q[i].number());
            }
        }
        assert(is_first_named(fed, q[0], name));
    } else if q.len() > 0 {
        assert(q.contains(q[0]));
        assert(fed.object_instances.contains_key(q[0]));
    }
}

/// Whether a federate has a name, and none with a smaller handle has it too.
pub open spec fn is_first_federate(fed: FederationView, f: u32, name: Seq<char>) -> bool {
    &&& fed.federates.contains_key(f)
    &&& fed.federates[f].name == name
    &&& forall|g: u32| #[trigger]
        fed.federates.contains_key(g) && fed.federates[g].name == name ==> f <= g
}

/// A federate is found by its name: of several with one name, that which joined first. Its
/// name is answered for its handle.
pub proof fn federates_are_found_by_name(
    fed: FederationView,
    conns: Map<u64, u64>,
    me: u32,
    federate_name: String,
    federate: Option<Vec<u8>>,
    load: SnapshotLoadView,
)
    ensures
        ({
            let name = federate_name@;
            let o = member_outcome(
                fed,
                conns,
                me,
                CallRequest::GetFederateHandle { federate_name },
                load,
            );
            if exists|f: u32| #[trigger]
                fed.federates.contains_key(f) && fed.federates[f].name == name {
                exists|f: u32| #[trigger]
                    is_first_federate(fed, f, name) && answers(
                        o,
                        fed,
                        Service::GetFederateHandle,
                        PayloadView::Handle(bytes_of_u32(f)),
                    )
            } else {
                refuses(o, fed, HlaException::NameNotFound)
            }
        }),
        ({
            let o = member_outcome(
                fed,
                conns,
                me,
                CallRequest::GetFederateName { federate },
                load,
            );
            match field32(federate) {
                Some(f) if fed.federates.contains_key(f) => answers(
                    o,
                    fed,
                    Service::GetFederateName,
                    PayloadView::Text(fed.federates[f].name),
                ),
                _ => refuses(o, fed, HlaException::InvalidFederateHandle),
            }
        }),
{
    reveal(lookup_reply);
    let name = federate_name@;
    let set = namesakes(fed.federates, name);
    let q = ascending(set);
    lemma_handles_finite(set);
    lemma_ascending(set);
    if exists|f: u32| #[trigger] fed.federates.contains_key(f) && fed.federates[f].name == name {
        let f = choose|f: u32| #[trigger]
            fed.federates.contains_key(f) && fed.federates[f].name == name;
        assert(set.contains(f));
        assert(q.contains(f));
        assert(q.contains(q[0]));
        assert forall|g: u32| #[trigger]
            fed.federates.contains_key(g) && fed.federates[g].name == name implies q[0] <= g by {
            assert(set.contains(g));
            assert(q.contains(g));
            let i = q.index_of(g);
            if i > 0 {
                assert(q[0].number() < q[i].number());
            }
        }
        assert(is_first_federate(fed, q[0], name));
    } else if q.len() > 0 {
        assert(q.contains(q[0]));
        assert(fed.federates.contains_key(q[0]));
    }
}

/// Whether a session gets an answer, and nothing else comes of its request.
pub open spec fn tells_only(
    o: CallOutcome,
    node: NodeView,
    ctx: SessionContext,
    service: Service,
    payload: PayloadView,
) -> bool {
    &&& o.reply == (ResponseView::Reply { service, payload })
    &&& o.node == node
    &&& o.membership == ctx.membership
    &&& o.sent.len() == 0
    &&& o.file is None
}

/// The number that a handle is normalized to is its own, or zero where there is none; of the
/// handle of an instance it is the lower half.
pub proof fn handles_are_normalized_to_their_numbers(
    node: NodeView,
    ctx: SessionContext,
    outside: Outside,
    field: Option<Vec<u8>>,
)
    ensures
        ({
            let n = match field32(field) {
                Some(h) => h,
                None => 0,
            };
            &&& tells_only(
                call_outcome(
                    node,
                    ctx,
                    Some(CallRequest::NormalizeFederateHandle { federate: field }),
                    outside,
                ),
                node,
                ctx,
                Service::NormalizeFederateHandle,
                PayloadView::Number(n),
            )
            &&& tells_only(
                call_outcome(
                    node,
                    ctx,
                    Some(CallRequest::NormalizeObjectClassHandle { object_class: field }),
                    outside,
                ),
                node,
                ctx,
                Service::NormalizeObjectClassHandle,
                PayloadView::Number(n),
            )
            &&& tells_only(
                call_outcome(
                    node,
                    ctx,
                    Some(CallRequest::NormalizeInteractionClassHandle { interaction_class: field }),
                    outside,
                ),
                node,
                ctx,
                Service::NormalizeInteractionClassHandle,
                PayloadView::Number(n),
            )
        }),
        ({
            let o = call_outcome(
                node,
                ctx,
                Some(CallRequest::NormalizeObjectInstanceHandle { object_instance: field }),
                outside,
            );
            exists|n: u32| #[trigger]
                tells_only(
                    o,
                    node,
                    ctx,
                    Service::NormalizeObjectInstanceHandle,
                    PayloadView::Number(n),
                ) && match field64(field) {
                    Some(h) => exists|high: int| h == #[trigger] (high * 0x1_0000_0000) + n,
                    None => n == 0,
                }
        }),
{
    let request = CallRequest::NormalizeObjectInstanceHandle { object_instance: field };
    let o = call_outcome(node, ctx, Some(request), outside);
    let n = match field64(field) {
        Some(h) => (h % 0x1_0000_0000) as u32,
        None => 0,
    };
    assert(tells_only(
        o,
        node,
        ctx,
        Service::NormalizeObjectInstanceHandle,
        PayloadView::Number(n),
    ));
    if let Some(h) = field64(field) {
        let high = h as int / 0x1_0000_0000;
        assert(h == (high * 0x1_0000_0000) + n);
    }
}

/// The number of an order is answered for its name, and its name for the number; so it is
/// with the ways of transportation. Other names and numbers are refused.
pub proof fn names_of_orders_and_transportations_lead_back(
    node: NodeView,
    ctx: SessionContext,
    outside: Outside,
    order_type_name: String,
    transportation_type_name: String,
    transportation_type: Option<Vec<u8>>,
    order_type: i32,
)
    ensures
        ({
            let o = call_outcome(
                node,
                ctx,
                Some(CallRequest::GetOrderType { order_type_name }),
                outside,
            );
            let name = order_type_name@;
            let receive = name == "Receive"@;
            let stamped = name == "TimeStamp"@ || name == "TimestampOrder"@;
            &&& receive ==> tells_only(o, node, ctx, Service::GetOrderType, PayloadView::Code(0))
            &&& !receive && stamped ==> tells_only(
                o,
                node,
                ctx,
                Service::GetOrderType,
                PayloadView::Code(1),
            )
            &&& !receive && !stamped ==> turns_down(o, node, ctx, HlaException::InvalidOrderName)
        }),
        ({
            let o = call_outcome(
                node,
                ctx,
                Some(CallRequest::GetOrderName { order_type }),
                outside,
            );
            if order_type == 0 || order_type == 1 {
                tells_only(
                    o,
                    node,
                    ctx,
                    Service::GetOrderName,
                    PayloadView::Text(
                        if order_type == 0 {
                            "Receive"@
                        } else {
                            "TimeStamp"@
                        },
                    ),
                )
            } else {
                turns_down(o, node, ctx, HlaException::InvalidOrderType)
            }
        }),
        ({
            let o = call_outcome(
                node,
                ctx,
                Some(CallRequest::GetTransportationTypeHandle { transportation_type_name }),
                outside,
            );
            let name = transportation_type_name@;
            if name == "HLAreliable"@ || name == "HLAbestEffort"@ {
                tells_only(
                    o,
                    node,
                    ctx,
                    Service::GetTransportationTypeHandle,
                    PayloadView::Handle(
                        bytes_of_u32(
                            if name == "HLAreliable"@ {
                                1
                            } else {
                                2
                            },
                        ),
                    ),
                )
            } else {
                turns_down(o, node, ctx, HlaException::InvalidTransportationName)
            }
        }),
        ({
            let o = call_outcome(
                node,
                ctx,
                Some(CallRequest::GetTransportationTypeName { transportation_type }),
                outside,
            );
            match field32(transportation_type) {
                Some(h) if h == 1 || h == 2 => tells_only(
                    o,
                    node,
                    ctx,
                    Service::GetTransportationTypeName,
                    PayloadView::Text(
                        if h == 1 {
                            "HLAreliable"@
                        } else {
                            "HLAbestEffort"@
                        },
                    ),
                ),
                _ => turns_down(o, node, ctx, HlaException::InvalidTransportationTypeHandle),
            }
        }),
{
}

/// Some requests have the same answer for everybody, at any time: those that are only taken
/// note of, those for the name and the bound of a dimension, for the dimensions of a class,
/// of which there are none, and for rates, which are zero. A number below zero that is
/// normalized stands for what is left of a whole turn.
pub proof fn everybody_is_answered_alike(
    node: NodeView,
    ctx: SessionContext,
    outside: Outside,
    service: PassiveService,
    field: Option<Vec<u8>>,
    service_group: i32,
)
    ensures
        tells_only(
            call_outcome(node, ctx, Some(CallRequest::Passive { service }), outside),
            node,
            ctx,
            Service::Passive(service),
            PayloadView::Empty,
        ),
        ({
            let o = call_outcome(
                node,
                ctx,
                Some(CallRequest::GetDimensionName { dimension: field }),
                outside,
            );
            match field32(field) {
                Some(d) => tells_only(
                    o,
                    node,
                    ctx,
                    Service::GetDimensionName,
                    PayloadView::Text("Dim"@ + decimal_of(d as nat)),
                ),
                None => turns_down(o, node, ctx, HlaException::InvalidDimensionHandle),
            }
        }),
        tells_only(
            call_outcome(
                node,
                ctx,
                Some(CallRequest::GetDimensionUpperBound { dimension: field }),
                outside,
            ),
            node,
            ctx,
            Service::GetDimensionUpperBound,
            PayloadView::Number(0xffff_ffff),
        ),
        tells_only(
            call_outcome(
                node,
                ctx,
                Some(CallRequest::GetAvailableDimensionsForObjectClass { object_class: field }),
                outside,
            ),
            node,
            ctx,
            Service::GetAvailableDimensionsForObjectClass,
            PayloadView::Handles(seq![]),
        ),
        tells_only(
            call_outcome(
                node,
                ctx,
                Some(
                    CallRequest::GetAvailableDimensionsForInteractionClass {
                        interaction_class: field,
                    },
                ),
                outside,
            ),
            node,
            ctx,
            Service::GetAvailableDimensionsForInteractionClass,
            PayloadView::Handles(seq![]),
        ),
        tells_only(
            call_outcome(node, ctx, Some(CallRequest::GetUpdateRateValue), outside),
            node,
            ctx,
            Service::GetUpdateRateValue,
            PayloadView::Rate(0),
        ),
        tells_only(
            call_outcome(node, ctx, Some(CallRequest::GetUpdateRateValueForAttribute), outside),
            node,
            ctx,
            Service::GetUpdateRateValueForAttribute,
            PayloadView::Rate(0),
        ),
        ({
            let o = call_outcome(
                node,
                ctx,
                Some(CallRequest::NormalizeServiceGroup { service_group }),
                outside,
            );
            exists|n: u32| #[trigger]
                tells_only(
                    o,
                    node,
                    ctx,
                    Service::NormalizeServiceGroup,
                    PayloadView::Number(n),
                ) && (n == service_group || n == service_group + 0x1_0000_0000)
        }),
{
    let n: u32 = if service_group >= 0 {
        service_group as u32
    } else {
        (service_group + 0x1_0000_0000) as u32
    };
    let request = CallRequest::NormalizeServiceGroup { service_group };
    assert(tells_only(
        call_outcome(node, ctx, Some(request), outside),
        node,
        ctx,
        Service::NormalizeServiceGroup,
        PayloadView::Number(n),
    ));
}

} // verus!

//! The switches of a federate.

use crate::dispatch::helpers::{refusal, refuse, refuse_bare, silent, Outcome};
use crate::exception::{bare, exception_variant, raised, HlaException};
use crate::federation::{
    lemma_put_back, FederateView, Federation, FederationView, ResignAction, Switches,
};
use crate::handles::FederateHandle;
use crate::messages::{
    answered, refused, reply, reply_with, CallResponse, Payload, PayloadView, ResponseView,
    Service, SettableSwitch, Switch,
};
use crate::text::{signed_decimal, signed_decimal_of};
use vstd::prelude::*;

verus! {

/// The position of a switch.
pub open spec fn position(s: Switches, switch: Switch) -> bool {
    match switch {
        Switch::ObjectClassRelevanceAdvisory => s.object_class_relevance_advisory,
        Switch::AttributeRelevanceAdvisory => s.attribute_relevance_advisory,
        Switch::AttributeScopeAdvisory => s.attribute_scope_advisory,
        Switch::InteractionRelevanceAdvisory => s.interaction_relevance_advisory,
        Switch::ConveyRegionDesignatorSets => s.convey_region_designator_sets,
        Switch::ServiceReporting => s.service_reporting,
        Switch::ExceptionReporting => s.exception_reporting,
        Switch::SendServiceReportsToFile => s.send_service_reports_to_file,
        Switch::AutoProvide => s.auto_provide,
        Switch::DelaySubscriptionEvaluation => s.delay_subscription_evaluation,
        Switch::AdvisoriesUseKnownClass => s.advisories_use_known_class,
        Switch::AllowRelaxedDdm => s.allow_relaxed_ddm,
        Switch::NonRegulatedGrant => s.non_regulated_grant,
    }
}

/// The switches with another position of one of them.
pub open spec fn with_position(s: Switches, switch: SettableSwitch, on: bool) -> Switches {
    match switch {
        SettableSwitch::ObjectClassRelevanceAdvisory => Switches {
            object_class_relevance_advisory: on,
            ..s
        },
        SettableSwitch::AttributeRelevanceAdvisory => Switches {
            attribute_relevance_advisory: on,
            ..s
        },
        SettableSwitch::AttributeScopeAdvisory => Switches { attribute_scope_advisory: on, ..s },
        SettableSwitch::InteractionRelevanceAdvisory => Switches {
            interaction_relevance_advisory: on,
            ..s
        },
        SettableSwitch::ConveyRegionDesignatorSets => Switches {
            convey_region_designator_sets: on,
            ..s
        },
        SettableSwitch::ServiceReporting => Switches { service_reporting: on, ..s },
        SettableSwitch::ExceptionReporting => Switches { exception_reporting: on, ..s },
        SettableSwitch::SendServiceReportsToFile => Switches {
            send_service_reports_to_file: on,
            ..s
        },
    }
}

fn read_switch(s: &Switches, switch: Switch) -> (r: bool)
    ensures
        r == position(*s, switch),
{
    match switch {
        Switch::ObjectClassRelevanceAdvisory => s.object_class_relevance_advisory,
        Switch::AttributeRelevanceAdvisory => s.attribute_relevance_advisory,
        Switch::AttributeScopeAdvisory => s.attribute_scope_advisory,
        Switch::InteractionRelevanceAdvisory => s.interaction_relevance_advisory,
        Switch::ConveyRegionDesignatorSets => s.convey_region_designator_sets,
        Switch::ServiceReporting => s.service_reporting,
        Switch::ExceptionReporting => s.exception_reporting,
        Switch::SendServiceReportsToFile => s.send_service_reports_to_file,
        Switch::AutoProvide => s.auto_provide,
        Switch::DelaySubscriptionEvaluation => s.delay_subscription_evaluation,
        Switch::AdvisoriesUseKnownClass => s.advisories_use_known_class,
        Switch::AllowRelaxedDdm => s.allow_relaxed_ddm,
        Switch::NonRegulatedGrant => s.non_regulated_grant,
    }
}

fn write_switch(s: Switches, switch: SettableSwitch, on: bool) -> (r: Switches)
    ensures
        r == with_position(s, switch, on),
{
    match switch {
        SettableSwitch::ObjectClassRelevanceAdvisory => Switches {
            object_class_relevance_advisory: on,
            ..s
        },
        SettableSwitch::AttributeRelevanceAdvisory => Switches {
            attribute_relevance_advisory: on,
            ..s
        },
        SettableSwitch::AttributeScopeAdvisory => Switches { attribute_scope_advisory: on, ..s },
        SettableSwitch::InteractionRelevanceAdvisory => Switches {
            interaction_relevance_advisory: on,
            ..s
        },
        SettableSwitch::ConveyRegionDesignatorSets => Switches {
            convey_region_designator_sets: on,
            ..s
        },
        SettableSwitch::ServiceReporting => Switches { service_reporting: on, ..s },
        SettableSwitch::ExceptionReporting => Switches { exception_reporting: on, ..s },
        SettableSwitch::SendServiceReportsToFile => Switches {
            send_service_reports_to_file: on,
            ..s
        },
    }
}

/// The response to a query for a switch.
pub open spec fn switch_reply(fed: FederationView, me: u32, switch: Switch) -> ResponseView {
    if fed.federates.contains_key(me) {
        answered(
            Service::GetSwitch(switch),
            PayloadView::Flag(position(fed.federates[me].switches, switch)),
        )
    } else {
        refused(bare(HlaException::FederateNotExecutionMember))
    }
}

/// The position of a switch of a federate.
pub fn get_switch_bool(
    federation: &Federation,
    me: FederateHandle,
    switch: Switch,
) -> (r: CallResponse)
    ensures
        r@ == switch_reply(federation@, me, switch),
{
    match federation.federates.get(me) {
        Some(fs) => reply_with(
            Service::GetSwitch(switch),
            Payload::Flag(read_switch(&fs.switches, switch)),
        ),
        None => refuse_bare(HlaException::FederateNotExecutionMember),
    }
}

/// The federation with other switches of a federate.
pub open spec fn with_switches(fed: FederationView, me: u32, s: Switches) -> FederationView {
    fed.with_federate(me, FederateView { switches: s, ..fed.federates[me] })
}

/// What setting a switch does.
pub open spec fn set_switch_outcome(
    fed: FederationView,
    me: u32,
    switch: SettableSwitch,
    on: bool,
) -> Outcome {
    if fed.federates.contains_key(me) {
        silent(
            with_switches(fed, me, with_position(fed.federates[me].switches, switch, on)),
            Service::SetSwitch(switch),
        )
    } else {
        refusal(fed, bare(HlaException::FederateNotExecutionMember))
    }
}

/// Sets a switch of a federate.
pub fn set_switch_bool(
    federation: &mut Federation,
    me: FederateHandle,
    switch: SettableSwitch,
    on: bool,
) -> (r: CallResponse)
    requires
        old(federation).wf(),
    ensures
        final(federation).wf(),
        final(federation)@ == set_switch_outcome(old(federation)@, me, switch, on).fed,
        r@ == set_switch_outcome(old(federation)@, me, switch, on).reply,
{
    broadcast use lemma_put_back;

    match federation.federates.remove(me) {
        Some(mut fs) => {
            fs.switches = write_switch(fs.switches, switch, on);
            federation.federates.insert(me, fs);
            reply(Service::SetSwitch(switch))
        },
        None => refuse_bare(HlaException::FederateNotExecutionMember),
    }
}

/// The number of a resign action.
pub open spec fn resign_action_code(a: ResignAction) -> i32 {
    match a {
        ResignAction::UnconditionallyDivestAttributes => 0,
        ResignAction::DeleteObjects => 1,
        ResignAction::CancelPendingOwnershipAcquisitions => 2,
        ResignAction::DeleteObjectsThenDivest => 3,
        ResignAction::CancelThenDeleteThenDivest => 4,
        ResignAction::NoAction => 5,
    }
}

/// The resign action with a number.
pub open spec fn resign_action_of(code: i32) -> Option<ResignAction> {
    if code == 0 {
        Some(ResignAction::UnconditionallyDivestAttributes)
    } else if code == 1 {
        Some(ResignAction::DeleteObjects)
    } else if code == 2 {
        Some(ResignAction::CancelPendingOwnershipAcquisitions)
    } else if code == 3 {
        Some(ResignAction::DeleteObjectsThenDivest)
    } else if code == 4 {
        Some(ResignAction::CancelThenDeleteThenDivest)
    } else if code == 5 {
        Some(ResignAction::NoAction)
    } else {
        None
    }
}

/// Every resign action is found again by its number, and no other number finds
/// one.
pub proof fn resign_actions_have_numbers(a: ResignAction, code: i32)
    ensures
        resign_action_of(resign_action_code(a)) == Some(a),
        resign_action_of(code) is Some <==> 0 <= code <= 5,
        resign_action_of(code) is Some ==> resign_action_code(resign_action_of(code)->0) == code,
{
}

fn encode_resign_action(a: ResignAction) -> (r: i32)
    ensures
        r == resign_action_code(a),
{
    match a {
        ResignAction::UnconditionallyDivestAttributes => 0,
        ResignAction::DeleteObjects => 1,
        ResignAction::CancelPendingOwnershipAcquisitions => 2,
        ResignAction::DeleteObjectsThenDivest => 3,
        ResignAction::CancelThenDeleteThenDivest => 4,
        ResignAction::NoAction => 5,
    }
}

fn decode_resign_action(code: i32) -> (r: Option<ResignAction>)
    ensures
        r == resign_action_of(code),
{
    match code {
        0 => Some(ResignAction::UnconditionallyDivestAttributes),
        1 => Some(ResignAction::DeleteObjects),
        2 => Some(ResignAction::CancelPendingOwnershipAcquisitions),
        3 => Some(ResignAction::DeleteObjectsThenDivest),
        4 => Some(ResignAction::CancelThenDeleteThenDivest),
        5 => Some(ResignAction::NoAction),
        _ => None,
    }
}

/// The response to a query for the resign directive.
pub open spec fn resign_directive_reply(fed: FederationView, me: u32) -> ResponseView {
    if fed.federates.contains_key(me) {
        answered(
            Service::GetAutomaticResignDirective,
            PayloadView::Code(
                resign_action_code(fed.federates[me].switches.automatic_resign_directive),
            ),
        )
    } else {
        refused(bare(HlaException::FederateNotExecutionMember))
    }
}

/// The resign directive of a federate.
pub fn get_automatic_resign_directive(
    federation: &Federation,
    me: FederateHandle,
) -> (r: CallResponse)
    ensures
        r@ == resign_directive_reply(federation@, me),
{
    match federation.federates.get(me) {
        Some(fs) => reply_with(
            Service::GetAutomaticResignDirective,
            Payload::Code(encode_resign_action(fs.switches.automatic_resign_directive)),
        ),
        None => refuse_bare(HlaException::FederateNotExecutionMember),
    }
}

/// What setting the resign directive does.
pub open spec fn set_resign_directive_outcome(
    fed: FederationView,
    me: u32,
    value: i32,
) -> Outcome {
    match resign_action_of(value) {
        None => refusal(
            fed,
            raised(HlaException::InvalidResignAction, signed_decimal_of(value as int)),
        ),
        Some(a) => if fed.federates.contains_key(me) {
            silent(
                with_switches(
                    fed,
                    me,
                    Switches { automatic_resign_directive: a, ..fed.federates[me].switches },
                ),
                Service::SetAutomaticResignDirective,
            )
        } else {
            refusal(fed, bare(HlaException::FederateNotExecutionMember))
        },
    }
}

/// Sets the resign directive of a federate.
pub fn set_automatic_resign_directive(
    federation: &mut Federation,
    me: FederateHandle,
    value: i32,
) -> (r: CallResponse)
    requires
        old(federation).wf(),
    ensures
        final(federation).wf(),
        final(federation)@ == set_resign_directive_outcome(old(federation)@, me, value).fed,
        r@ == set_resign_directive_outcome(old(federation)@, me, value).reply,
{
    broadcast use lemma_put_back;

    let action = match decode_resign_action(value) {
        Some(a) => a,
        None => {
            return refuse(
                exception_variant(
                    HlaException::InvalidResignAction,
                    signed_decimal(value).as_str(),
                ),
            );
        },
    };
    match federation.federates.remove(me) {
        Some(mut fs) => {
            fs.switches = Switches { automatic_resign_directive: action, ..fs.switches };
            federation.federates.insert(me, fs);
            reply(Service::SetAutomaticResignDirective)
        },
        None => refuse_bare(HlaException::FederateNotExecutionMember),
    }
}

} // verus!

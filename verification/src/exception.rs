//! Exceptions that a service raises.

use crate::text::copy_text;
use vstd::prelude::*;

verus! {

/// The kind of an exception. Its name travels to the federate, which matches on
/// it.
#[derive(Copy, Clone, Debug, PartialEq, Eq, Structural, Hash)]
#[non_exhaustive]
pub enum HlaException {
    AttributeNotDefined,
    AttributeNotOwned,
    CouldNotOpenFdd,
    DeletePrivilegeNotHeld,
    ErrorReadingFdd,
    FederateAlreadyExecutionMember,
    FederateNameAlreadyInUse,
    FederateNotExecutionMember,
    FederateNotInSaveInitiated,
    FederateNotInSaveSet,
    FederateNotInSynchronizationGroup,
    FederatesCurrentlyJoined,
    FederationExecutionAlreadyExists,
    FederationExecutionDoesNotExist,
    InteractionClassNotDefined,
    InteractionClassNotPublished,
    InteractionParameterNotDefined,
    InTimeAdvancingState,
    InvalidAttributeHandle,
    InvalidDimension,
    InvalidDimensionHandle,
    InvalidFederateHandle,
    InvalidInteractionClassHandle,
    InvalidLogicalTime,
    InvalidLookahead,
    InvalidObjectClassHandle,
    InvalidObjectInstanceHandle,
    InvalidOrderName,
    InvalidOrderType,
    InvalidParameterHandle,
    InvalidRangeBound,
    InvalidRegion,
    InvalidResignAction,
    InvalidRestoreLabel,
    InvalidSaveLabel,
    InvalidSynchronizationPointLabel,
    InvalidTransportationName,
    InvalidTransportationTypeHandle,
    LogicalTimeAlreadyPassed,
    NameNotFound,
    ObjectClassNotDefined,
    ObjectClassNotPublished,
    ObjectInstanceNameInUse,
    ObjectInstanceNotKnown,
    RegionNotCreatedByThisFederate,
    RestoreInProgress,
    RestoreNotInProgress,
    RtiInternalError,
    SaveInProgress,
    SaveNotInProgress,
    SynchronizationPointLabelNotAnnounced,
    TimeConstrainedAlreadyEnabled,
    TimeConstrainedIsNotEnabled,
    TimeRegulationAlreadyEnabled,
    TimeRegulationIsNotEnabled,
}

impl HlaException {
    /// The name of the exception on the wire.
    pub open spec fn wire_name(self) -> Seq<char> {
        match self {
            HlaException::AttributeNotDefined => "AttributeNotDefined"@,
            HlaException::AttributeNotOwned => "AttributeNotOwned"@,
            HlaException::CouldNotOpenFdd => "CouldNotOpenFDD"@,
            HlaException::DeletePrivilegeNotHeld => "DeletePrivilegeNotHeld"@,
            HlaException::ErrorReadingFdd => "ErrorReadingFDD"@,
            HlaException::FederateAlreadyExecutionMember => "FederateAlreadyExecutionMember"@,
            HlaException::FederateNameAlreadyInUse => "FederateNameAlreadyInUse"@,
            HlaException::FederateNotExecutionMember => "FederateNotExecutionMember"@,
            HlaException::FederateNotInSaveInitiated => "FederateNotInSaveInitiated"@,
            HlaException::FederateNotInSaveSet => "FederateNotInSaveSet"@,
            HlaException::FederateNotInSynchronizationGroup => "FederateNotInSynchronizationGroup"@,
            HlaException::FederatesCurrentlyJoined => "FederatesCurrentlyJoined"@,
            HlaException::FederationExecutionAlreadyExists => "FederationExecutionAlreadyExists"@,
            HlaException::FederationExecutionDoesNotExist => "FederationExecutionDoesNotExist"@,
            HlaException::InteractionClassNotDefined => "InteractionClassNotDefined"@,
            HlaException::InteractionClassNotPublished => "InteractionClassNotPublished"@,
            HlaException::InteractionParameterNotDefined => "InteractionParameterNotDefined"@,
            HlaException::InTimeAdvancingState => "InTimeAdvancingState"@,
            HlaException::InvalidAttributeHandle => "InvalidAttributeHandle"@,
            HlaException::InvalidDimension => "InvalidDimension"@,
            HlaException::InvalidDimensionHandle => "InvalidDimensionHandle"@,
            HlaException::InvalidFederateHandle => "InvalidFederateHandle"@,
            HlaException::InvalidInteractionClassHandle => "InvalidInteractionClassHandle"@,
            HlaException::InvalidLogicalTime => "InvalidLogicalTime"@,
            HlaException::InvalidLookahead => "InvalidLookahead"@,
            HlaException::InvalidObjectClassHandle => "InvalidObjectClassHandle"@,
            HlaException::InvalidObjectInstanceHandle => "InvalidObjectInstanceHandle"@,
            HlaException::InvalidOrderName => "InvalidOrderName"@,
            HlaException::InvalidOrderType => "InvalidOrderType"@,
            HlaException::InvalidParameterHandle => "InvalidParameterHandle"@,
            HlaException::InvalidRangeBound => "InvalidRangeBound"@,
            HlaException::InvalidRegion => "InvalidRegion"@,
            HlaException::InvalidResignAction => "InvalidResignAction"@,
            HlaException::InvalidRestoreLabel => "InvalidRestoreLabel"@,
            HlaException::InvalidSaveLabel => "InvalidSaveLabel"@,
            HlaException::InvalidSynchronizationPointLabel => "InvalidSynchronizationPointLabel"@,
            HlaException::InvalidTransportationName => "InvalidTransportationName"@,
            HlaException::InvalidTransportationTypeHandle => "InvalidTransportationTypeHandle"@,
            HlaException::LogicalTimeAlreadyPassed => "LogicalTimeAlreadyPassed"@,
            HlaException::NameNotFound => "NameNotFound"@,
            HlaException::ObjectClassNotDefined => "ObjectClassNotDefined"@,
            HlaException::ObjectClassNotPublished => "ObjectClassNotPublished"@,
            HlaException::ObjectInstanceNameInUse => "ObjectInstanceNameInUse"@,
            HlaException::ObjectInstanceNotKnown => "ObjectInstanceNotKnown"@,
            HlaException::RegionNotCreatedByThisFederate => "RegionNotCreatedByThisFederate"@,
            HlaException::RestoreInProgress => "RestoreInProgress"@,
            HlaException::RestoreNotInProgress => "RestoreNotInProgress"@,
            HlaException::RtiInternalError => "RTIinternalError"@,
            HlaException::SaveInProgress => "SaveInProgress"@,
            HlaException::SaveNotInProgress => "SaveNotInProgress"@,
            HlaException::SynchronizationPointLabelNotAnnounced => "SynchronizationPointLabelNotAnnounced"@,
            HlaException::TimeConstrainedAlreadyEnabled => "TimeConstrainedAlreadyEnabled"@,
            HlaException::TimeConstrainedIsNotEnabled => "TimeConstrainedIsNotEnabled"@,
            HlaException::TimeRegulationAlreadyEnabled => "TimeRegulationAlreadyEnabled"@,
            HlaException::TimeRegulationIsNotEnabled => "TimeRegulationIsNotEnabled"@,
        }
    }

    /// The name of the exception on the wire.
    pub fn name(self) -> (r: &'static str)
        ensures
            r@ == self.wire_name(),
    {
        match self {
            HlaException::AttributeNotDefined => "AttributeNotDefined",
            HlaException::AttributeNotOwned => "AttributeNotOwned",
            HlaException::CouldNotOpenFdd => "CouldNotOpenFDD",
            HlaException::DeletePrivilegeNotHeld => "DeletePrivilegeNotHeld",
            HlaException::ErrorReadingFdd => "ErrorReadingFDD",
            HlaException::FederateAlreadyExecutionMember => "FederateAlreadyExecutionMember",
            HlaException::FederateNameAlreadyInUse => "FederateNameAlreadyInUse",
            HlaException::FederateNotExecutionMember => "FederateNotExecutionMember",
            HlaException::FederateNotInSaveInitiated => "FederateNotInSaveInitiated",
            HlaException::FederateNotInSaveSet => "FederateNotInSaveSet",
            HlaException::FederateNotInSynchronizationGroup => "FederateNotInSynchronizationGroup",
            HlaException::FederatesCurrentlyJoined => "FederatesCurrentlyJoined",
            HlaException::FederationExecutionAlreadyExists => "FederationExecutionAlreadyExists",
            HlaException::FederationExecutionDoesNotExist => "FederationExecutionDoesNotExist",
            HlaException::InteractionClassNotDefined => "InteractionClassNotDefined",
            HlaException::InteractionClassNotPublished => "InteractionClassNotPublished",
            HlaException::InteractionParameterNotDefined => "InteractionParameterNotDefined",
            HlaException::InTimeAdvancingState => "InTimeAdvancingState",
            HlaException::InvalidAttributeHandle => "InvalidAttributeHandle",
            HlaException::InvalidDimension => "InvalidDimension",
            HlaException::InvalidDimensionHandle => "InvalidDimensionHandle",
            HlaException::InvalidFederateHandle => "InvalidFederateHandle",
            HlaException::InvalidInteractionClassHandle => "InvalidInteractionClassHandle",
            HlaException::InvalidLogicalTime => "InvalidLogicalTime",
            HlaException::InvalidLookahead => "InvalidLookahead",
            HlaException::InvalidObjectClassHandle => "InvalidObjectClassHandle",
            HlaException::InvalidObjectInstanceHandle => "InvalidObjectInstanceHandle",
            HlaException::InvalidOrderName => "InvalidOrderName",
            HlaException::InvalidOrderType => "InvalidOrderType",
            HlaException::InvalidParameterHandle => "InvalidParameterHandle",
            HlaException::InvalidRangeBound => "InvalidRangeBound",
            HlaException::InvalidRegion => "InvalidRegion",
            HlaException::InvalidResignAction => "InvalidResignAction",
            HlaException::InvalidRestoreLabel => "InvalidRestoreLabel",
            HlaException::InvalidSaveLabel => "InvalidSaveLabel",
            HlaException::InvalidSynchronizationPointLabel => "InvalidSynchronizationPointLabel",
            HlaException::InvalidTransportationName => "InvalidTransportationName",
            HlaException::InvalidTransportationTypeHandle => "InvalidTransportationTypeHandle",
            HlaException::LogicalTimeAlreadyPassed => "LogicalTimeAlreadyPassed",
            HlaException::NameNotFound => "NameNotFound",
            HlaException::ObjectClassNotDefined => "ObjectClassNotDefined",
            HlaException::ObjectClassNotPublished => "ObjectClassNotPublished",
            HlaException::ObjectInstanceNameInUse => "ObjectInstanceNameInUse",
            HlaException::ObjectInstanceNotKnown => "ObjectInstanceNotKnown",
            HlaException::RegionNotCreatedByThisFederate => "RegionNotCreatedByThisFederate",
            HlaException::RestoreInProgress => "RestoreInProgress",
            HlaException::RestoreNotInProgress => "RestoreNotInProgress",
            HlaException::RtiInternalError => "RTIinternalError",
            HlaException::SaveInProgress => "SaveInProgress",
            HlaException::SaveNotInProgress => "SaveNotInProgress",
            HlaException::SynchronizationPointLabelNotAnnounced => "SynchronizationPointLabelNotAnnounced",
            HlaException::TimeConstrainedAlreadyEnabled => "TimeConstrainedAlreadyEnabled",
            HlaException::TimeConstrainedIsNotEnabled => "TimeConstrainedIsNotEnabled",
            HlaException::TimeRegulationAlreadyEnabled => "TimeRegulationAlreadyEnabled",
            HlaException::TimeRegulationIsNotEnabled => "TimeRegulationIsNotEnabled",
        }
    }
}

/// The length of a name and two of its letters, which tell the names of the
/// exceptions apart.
spec fn name_mark(s: Seq<char>) -> (nat, char, char) {
    (s.len(), s[s.len() - 12], s[s.len() - 3])
}

/// The exceptions are told apart by their names: two with the same name are the
/// same.
pub proof fn names_tell_exceptions_apart(a: HlaException, b: HlaException)
    ensures
        a.wire_name() == b.wire_name() <==> a == b,
{
    reveal_strlit("AttributeNotDefined");
    assert(name_mark("AttributeNotDefined"@) == (19nat, 't', 'n'));
    reveal_strlit("AttributeNotOwned");
    assert(name_mark("AttributeNotOwned"@) == (17nat, 'b', 'n'));
    reveal_strlit("CouldNotOpenFDD");
    assert(name_mark("CouldNotOpenFDD"@) == (15nat, 'l', 'F'));
    reveal_strlit("DeletePrivilegeNotHeld");
    assert(name_mark("DeletePrivilegeNotHeld"@) == (22nat, 'i', 'e'));
    reveal_strlit("ErrorReadingFDD");
    assert(name_mark("ErrorReadingFDD"@) == (15nat, 'o', 'F'));
    reveal_strlit("FederateAlreadyExecutionMember");
    assert(name_mark("FederateAlreadyExecutionMember"@) == (30nat, 'c', 'b'));
    reveal_strlit("FederateNameAlreadyInUse");
    assert(name_mark("FederateNameAlreadyInUse"@) == (24nat, 'A', 'U'));
    reveal_strlit("FederateNotExecutionMember");
    assert(name_mark("FederateNotExecutionMember"@) == (26nat, 'c', 'b'));
    reveal_strlit("FederateNotInSaveInitiated");
    assert(name_mark("FederateNotInSaveInitiated"@) == (26nat, 'a', 't'));
    reveal_strlit("FederateNotInSaveSet");
    assert(name_mark("FederateNotInSaveSet"@) == (20nat, 'N', 'S'));
    reveal_strlit("FederateNotInSynchronizationGroup");
    assert(name_mark("FederateNotInSynchronizationGroup"@) == (33nat, 'i', 'o'));
    reveal_strlit("FederatesCurrentlyJoined");
    assert(name_mark("FederatesCurrentlyJoined"@) == (24nat, 'r', 'n'));
    reveal_strlit("FederationExecutionAlreadyExists");
    assert(name_mark("FederationExecutionAlreadyExists"@) == (32nat, 'l', 's'));
    reveal_strlit("FederationExecutionDoesNotExist");
    assert(name_mark("FederationExecutionDoesNotExist"@) == (31nat, 'D', 'i'));
    reveal_strlit("InteractionClassNotDefined");
    assert(name_mark("InteractionClassNotDefined"@) == (26nat, 's', 'n'));
    reveal_strlit("InteractionClassNotPublished");
    assert(name_mark("InteractionClassNotPublished"@) == (28nat, 'N', 'h'));
    reveal_strlit("InteractionParameterNotDefined");
    assert(name_mark("InteractionParameterNotDefined"@) == (30nat, 'e', 'n'));
    reveal_strlit("InTimeAdvancingState");
    assert(name_mark("InTimeAdvancingState"@) == (20nat, 'v', 'a'));
    reveal_strlit("InvalidAttributeHandle");
    assert(name_mark("InvalidAttributeHandle"@) == (22nat, 'r', 'd'));
    reveal_strlit("InvalidDimension");
    assert(name_mark("InvalidDimension"@) == (16nat, 'l', 'i'));
    reveal_strlit("InvalidDimensionHandle");
    assert(name_mark("InvalidDimensionHandle"@) == (22nat, 'e', 'd'));
    reveal_strlit("InvalidFederateHandle");
    assert(name_mark("InvalidFederateHandle"@) == (21nat, 'd', 'd'));
    reveal_strlit("InvalidInteractionClassHandle");
    assert(name_mark("InvalidInteractionClassHandle"@) == (29nat, 'n', 'd'));
    reveal_strlit("InvalidLogicalTime");
    assert(name_mark("InvalidLogicalTime"@) == (18nat, 'd', 'i'));
    reveal_strlit("InvalidLookahead");
    assert(name_mark("InvalidLookahead"@) == (16nat, 'l', 'e'));
    reveal_strlit("InvalidObjectClassHandle");
    assert(name_mark("InvalidObjectClassHandle"@) == (24nat, 't', 'd'));
    reveal_strlit("InvalidObjectInstanceHandle");
    assert(name_mark("InvalidObjectInstanceHandle"@) == (27nat, 's', 'd'));
    reveal_strlit("InvalidOrderName");
    assert(name_mark("InvalidOrderName"@) == (16nat, 'l', 'a'));
    reveal_strlit("InvalidOrderType");
    assert(name_mark("InvalidOrderType"@) == (16nat, 'l', 'y'));
    reveal_strlit("InvalidParameterHandle");
    assert(name_mark("InvalidParameterHandle"@) == (22nat, 'a', 'd'));
    reveal_strlit("InvalidRangeBound");
    assert(name_mark("InvalidRangeBound"@) == (17nat, 'i', 'u'));
    reveal_strlit("InvalidRegion");
    assert(name_mark("InvalidRegion"@) == (13nat, 'n', 'i'));
    reveal_strlit("InvalidResignAction");
    assert(name_mark("InvalidResignAction"@) == (19nat, 'R', 'i'));
    reveal_strlit("InvalidRestoreLabel");
    assert(name_mark("InvalidRestoreLabel"@) == (19nat, 'R', 'b'));
    reveal_strlit("InvalidSaveLabel");
    assert(name_mark("InvalidSaveLabel"@) == (16nat, 'l', 'b'));
    reveal_strlit("InvalidSynchronizationPointLabel");
    assert(name_mark("InvalidSynchronizationPointLabel"@) == (32nat, 'o', 'b'));
    reveal_strlit("InvalidTransportationName");
    assert(name_mark("InvalidTransportationName"@) == (25nat, 'o', 'a'));
    reveal_strlit("InvalidTransportationTypeHandle");
    assert(name_mark("InvalidTransportationTypeHandle"@) == (31nat, 'o', 'd'));
    reveal_strlit("LogicalTimeAlreadyPassed");
    assert(name_mark("LogicalTimeAlreadyPassed"@) == (24nat, 'l', 's'));
    reveal_strlit("NameNotFound");
    assert(name_mark("NameNotFound"@) == (12nat, 'N', 'u'));
    reveal_strlit("ObjectClassNotDefined");
    assert(name_mark("ObjectClassNotDefined"@) == (21nat, 's', 'n'));
    reveal_strlit("ObjectClassNotPublished");
    assert(name_mark("ObjectClassNotPublished"@) == (23nat, 'N', 'h'));
    reveal_strlit("ObjectInstanceNameInUse");
    assert(name_mark("ObjectInstanceNameInUse"@) == (23nat, 'n', 'U'));
    reveal_strlit("ObjectInstanceNotKnown");
    assert(name_mark("ObjectInstanceNotKnown"@) == (22nat, 'a', 'o'));
    reveal_strlit("RegionNotCreatedByThisFederate");
    assert(name_mark("RegionNotCreatedByThisFederate"@) == (30nat, 'T', 'a'));
    reveal_strlit("RestoreInProgress");
    assert(name_mark("RestoreInProgress"@) == (17nat, 'r', 'e'));
    reveal_strlit("RestoreNotInProgress");
    assert(name_mark("RestoreNotInProgress"@) == (20nat, 'o', 'e'));
    reveal_strlit("RTIinternalError");
    assert(name_mark("RTIinternalError"@) == (16nat, 'n', 'r'));
    reveal_strlit("SaveInProgress");
    assert(name_mark("SaveInProgress"@) == (14nat, 'v', 'e'));
    reveal_strlit("SaveNotInProgress");
    assert(name_mark("SaveNotInProgress"@) == (17nat, 'o', 'e'));
    reveal_strlit("SynchronizationPointLabelNotAnnounced");
    assert(name_mark("SynchronizationPointLabelNotAnnounced"@) == (37nat, 'N', 'c'));
    reveal_strlit("TimeConstrainedAlreadyEnabled");
    assert(name_mark("TimeConstrainedAlreadyEnabled"@) == (29nat, 'r', 'l'));
    reveal_strlit("TimeConstrainedIsNotEnabled");
    assert(name_mark("TimeConstrainedIsNotEnabled"@) == (27nat, 'I', 'l'));
    reveal_strlit("TimeRegulationAlreadyEnabled");
    assert(name_mark("TimeRegulationAlreadyEnabled"@) == (28nat, 'r', 'l'));
    reveal_strlit("TimeRegulationIsNotEnabled");
    assert(name_mark("TimeRegulationIsNotEnabled"@) == (26nat, 'I', 'l'));
    assert(a.wire_name() == b.wire_name() ==> name_mark(a.wire_name()) == name_mark(b.wire_name()));
}

/// What an exception says beyond its kind.
#[derive(Debug)]
pub enum Details {
    /// A text.
    Text(String),
    /// The time stamp that was refused.
    Stamp(u64),
    /// The time stamp that was refused, and the earliest one allowed.
    StampBelow { time: u64, bound: u64 },
}

/// The mathematical content of [`Details`].
#[verifier::ext_equal]
pub enum DetailsView {
    Text(Seq<char>),
    Stamp(u64),
    StampBelow { time: u64, bound: u64 },
}

impl View for Details {
    type V = DetailsView;

    open spec fn view(&self) -> DetailsView {
        match self {
            Details::Text(s) => DetailsView::Text(s@),
            Details::Stamp(t) => DetailsView::Stamp(*t),
            Details::StampBelow { time, bound } => DetailsView::StampBelow {
                time: *time,
                bound: *bound,
            },
        }
    }
}

/// An exception that answers a request.
#[derive(Debug)]
pub struct ExceptionData {
    pub exception: HlaException,
    pub details: Details,
}

/// The mathematical content of [`ExceptionData`].
#[verifier::ext_equal]
pub struct ExceptionView {
    pub exception: HlaException,
    pub details: DetailsView,
}

impl View for ExceptionData {
    type V = ExceptionView;

    open spec fn view(&self) -> ExceptionView {
        ExceptionView { exception: self.exception, details: self.details@ }
    }
}

impl ExceptionData {
    /// The name of the exception on the wire.
    pub fn exception_name(&self) -> (r: &'static str)
        ensures
            r@ == self@.exception.wire_name(),
    {
        self.exception.name()
    }
}

/// The exception of a kind with a text.
pub open spec fn raised(kind: HlaException, text: Seq<char>) -> ExceptionView {
    ExceptionView { exception: kind, details: DetailsView::Text(text) }
}

/// The exception of a kind without further details.
pub open spec fn bare(kind: HlaException) -> ExceptionView {
    raised(kind, ""@)
}

/// The exception of a kind with a text.
pub fn exception_variant(kind: HlaException, details: &str) -> (r: ExceptionData)
    ensures
        r@ == raised(kind, details@),
{
    ExceptionData { exception: kind, details: Details::Text(copy_text(details)) }
}

/// The exception of a kind without further details.
pub fn bare_exception(kind: HlaException) -> (r: ExceptionData)
    ensures
        r@ == bare(kind),
{
    exception_variant(kind, "")
}

} // verus!

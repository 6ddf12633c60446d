//! Requests of federates and the responses to them.

use crate::exception::{ExceptionData, ExceptionView};
use crate::callbacks::byte_lists;
use vstd::prelude::*;

verus! {

/// A service that the node accepts without acting on it.
#[derive(Copy, Clone, Debug, PartialEq, Eq, Structural)]
pub enum PassiveService {
    Connect,
    ConnectWithCredentials,
    ConnectWithConfiguration,
    ConnectWithConfigurationAndCredentials,
    Disconnect,
    AttributeOwnershipReleaseDenied,
    CancelNegotiatedAttributeOwnershipDivestiture,
    CancelAttributeOwnershipAcquisition,
    ConfirmDivestiture,
    QueryFederationSaveStatus,
    QueryFederationRestoreStatus,
    SubscribeInteractionClassWithRegions,
    UnsubscribeInteractionClassWithRegions,
    Retract,
    ChangeAttributeOrderType,
    ChangeDefaultAttributeOrderType,
    ChangeInteractionOrderType,
    RequestAttributeTransportationTypeChange,
    QueryAttributeTransportationType,
    RequestInteractionTransportationTypeChange,
    QueryInteractionTransportationType,
    RequestAttributeValueUpdateWithRegions,
    SubscribeObjectClassAttributesWithRegionsAndRate,
    AssociateRegionsForUpdates,
    UnassociateRegionsForUpdates,
    ReserveObjectInstanceName,
    ReserveMultipleObjectInstanceNames,
    ReleaseObjectInstanceName,
    ReleaseMultipleObjectInstanceNames,
    RequestClassAttributeValueUpdate,
    RequestInstanceAttributeValueUpdate,
    EnableAsynchronousDelivery,
    DisableAsynchronousDelivery,
    SendDirectedInteractionWithTime,
    ChangeDefaultAttributeTransportationType,
}

/// A switch of a federate.
#[derive(Copy, Clone, Debug, PartialEq, Eq, Structural)]
pub enum Switch {
    ObjectClassRelevanceAdvisory,
    AttributeRelevanceAdvisory,
    AttributeScopeAdvisory,
    InteractionRelevanceAdvisory,
    ConveyRegionDesignatorSets,
    ServiceReporting,
    ExceptionReporting,
    SendServiceReportsToFile,
    AutoProvide,
    DelaySubscriptionEvaluation,
    AdvisoriesUseKnownClass,
    AllowRelaxedDdm,
    NonRegulatedGrant,
}

/// A switch that a federate can set.
#[derive(Copy, Clone, Debug, PartialEq, Eq, Structural)]
pub enum SettableSwitch {
    ObjectClassRelevanceAdvisory,
    AttributeRelevanceAdvisory,
    AttributeScopeAdvisory,
    InteractionRelevanceAdvisory,
    ConveyRegionDesignatorSets,
    ServiceReporting,
    ExceptionReporting,
    SendServiceReportsToFile,
}

/// The forms of creating a federation.
#[derive(Copy, Clone, Debug, PartialEq, Eq, Structural)]
pub enum CreateForm {
    Plain,
    WithTime,
    WithModules,
    WithModulesAndTime,
    WithMim,
    WithMimAndTime,
}

/// The forms of joining a federation, as the response tells them apart.
#[derive(Copy, Clone, Debug, PartialEq, Eq, Structural)]
pub enum JoinService {
    Plain,
    WithName,
    WithModules,
    WithNameAndModules,
}

/// The forms of subscribing to attributes.
#[derive(Copy, Clone, Debug, PartialEq, Eq, Structural)]
pub enum SubscribeForm {
    Plain,
    WithRate,
    Passively,
    PassivelyWithRate,
}

/// The forms of giving attributes away.
#[derive(Copy, Clone, Debug, PartialEq, Eq, Structural)]
pub enum DivestForm {
    Unconditional,
    Negotiated,
    IfWanted,
}

/// The forms of asking to advance in time.
#[derive(Copy, Clone, Debug, PartialEq, Eq, Structural)]
pub enum AdvanceForm {
    TimeAdvanceRequest,
    TimeAdvanceRequestAvailable,
    NextMessageRequest,
    NextMessageRequestAvailable,
    FlushQueueRequest,
}

/// The forms of joining a federation.
#[derive(Debug)]
pub enum JoinForm {
    Plain,
    WithName(String),
    WithModules,
    WithNameAndModules(String),
}

/// A module of an object model, as a request hands it over.
#[derive(Debug)]
pub enum FomModule {
    /// A file with its name and its content.
    File { name: String, content: Vec<u8> },
    /// A compressed module.
    CompressedModule(Vec<u8>),
    /// The place where a module lies.
    Url(String),
    /// No module at all.
    Missing,
}

/// A handle with a value, as a request hands it over.
#[derive(Debug)]
pub struct HandleValueField {
    pub handle: Option<Vec<u8>>,
    pub value: Vec<u8>,
}

/// Attributes with the regions that they go with, as a request hands them over.
#[derive(Debug)]
pub struct RegionPair {
    pub attribute_set: Option<Vec<Vec<u8>>>,
    pub region_set: Option<Vec<Vec<u8>>>,
}

/// A range of a dimension.
#[derive(Copy, Clone, Debug, PartialEq, Eq, Structural)]
pub struct RangeBounds {
    pub lower: u32,
    pub upper: u32,
}

/// A request of a federate. Handles, sets of handles and time stamps stand in
/// their wire form, and a field that the request may lack is an `Option`.
#[derive(Debug)]
pub enum CallRequest {
    /// A service that the node accepts without acting on it.
    Passive { service: PassiveService },
    CreateFederationExecution {
        create_form: CreateForm,
        federation_name: String,
        fom_modules: Vec<FomModule>,
        mim_module: Option<FomModule>,
    },
    DestroyFederationExecution { federation_name: String },
    ListFederationExecutions,
    ListFederationExecutionMembers { federation_name: String },
    JoinFederationExecution { join_form: JoinForm, federation_name: String },
    ResignFederationExecution,
    GetSwitch { switch: Switch },
    SetSwitch { settable: SettableSwitch, on: bool },
    GetAutomaticResignDirective,
    SetAutomaticResignDirective { value: i32 },
    GetObjectInstanceHandle { object_instance_name: String },
    GetObjectInstanceName { object_instance: Option<Vec<u8>> },
    GetKnownObjectClassHandle { object_instance: Option<Vec<u8>> },
    LocalDeleteObjectInstance { object_instance: Option<Vec<u8>> },
    GetDimensionHandle { dimension_name: String },
    GetDimensionName { dimension: Option<Vec<u8>> },
    GetDimensionUpperBound { dimension: Option<Vec<u8>> },
    GetDimensionHandleSet { region: Option<Vec<u8>> },
    GetAvailableDimensionsForObjectClass { object_class: Option<Vec<u8>> },
    GetAvailableDimensionsForInteractionClass { interaction_class: Option<Vec<u8>> },
    GetFederateHandle { federate_name: String },
    GetFederateName { federate: Option<Vec<u8>> },
    GetOrderType { order_type_name: String },
    GetOrderName { order_type: i32 },
    GetTransportationTypeHandle { transportation_type_name: String },
    GetTransportationTypeName { transportation_type: Option<Vec<u8>> },
    GetObjectClassHandle { object_class_name: String },
    GetObjectClassName { object_class: Option<Vec<u8>> },
    GetAttributeHandle { object_class: Option<Vec<u8>>, attribute_name: String },
    GetAttributeName { object_class: Option<Vec<u8>>, attribute: Option<Vec<u8>> },
    GetInteractionClassHandle { interaction_class_name: String },
    GetInteractionClassName { interaction_class: Option<Vec<u8>> },
    GetParameterHandle { interaction_class: Option<Vec<u8>>, parameter_name: String },
    GetParameterName { interaction_class: Option<Vec<u8>>, parameter: Option<Vec<u8>> },
    PublishObjectClassAttributes {
        object_class: Option<Vec<u8>>,
        attributes: Option<Vec<Vec<u8>>>,
    },
    UnpublishObjectClass { object_class: Option<Vec<u8>> },
    UnpublishObjectClassAttributes {
        object_class: Option<Vec<u8>>,
        attributes: Option<Vec<Vec<u8>>>,
    },
    SubscribeObjectClassAttributes {
        subscribe_form: SubscribeForm,
        object_class: Option<Vec<u8>>,
        attributes: Option<Vec<Vec<u8>>>,
    },
    UnsubscribeObjectClass { object_class: Option<Vec<u8>> },
    UnsubscribeObjectClassAttributes {
        object_class: Option<Vec<u8>>,
        attributes: Option<Vec<Vec<u8>>>,
    },
    PublishInteractionClass { interaction_class: Option<Vec<u8>> },
    UnpublishInteractionClass { interaction_class: Option<Vec<u8>> },
    SubscribeInteractionClass { passively: bool, interaction_class: Option<Vec<u8>> },
    UnsubscribeInteractionClass { interaction_class: Option<Vec<u8>> },
    RegisterObjectInstance { object_class: Option<Vec<u8>> },
    RegisterObjectInstanceWithName { object_class: Option<Vec<u8>>, object_instance_name: String },
    RegisterObjectInstanceWithRegions {
        object_class: Option<Vec<u8>>,
        attributes_and_regions: Option<Vec<RegionPair>>,
    },
    RegisterObjectInstanceWithNameAndRegions {
        object_class: Option<Vec<u8>>,
        object_instance_name: String,
        attributes_and_regions: Option<Vec<RegionPair>>,
    },
    UpdateAttributeValues {
        object_instance: Option<Vec<u8>>,
        attribute_values: Option<Vec<HandleValueField>>,
        user_supplied_tag: Vec<u8>,
    },
    UpdateAttributeValuesWithTime {
        object_instance: Option<Vec<u8>>,
        attribute_values: Option<Vec<HandleValueField>>,
        user_supplied_tag: Vec<u8>,
        time: Option<Vec<u8>>,
    },
    SendInteraction {
        with_regions: bool,
        interaction_class: Option<Vec<u8>>,
        parameter_values: Option<Vec<HandleValueField>>,
        user_supplied_tag: Vec<u8>,
    },
    SendInteractionWithTime {
        with_regions: bool,
        interaction_class: Option<Vec<u8>>,
        parameter_values: Option<Vec<HandleValueField>>,
        user_supplied_tag: Vec<u8>,
        time: Option<Vec<u8>>,
    },
    DeleteObjectInstance { object_instance: Option<Vec<u8>>, user_supplied_tag: Vec<u8> },
    DeleteObjectInstanceWithTime {
        object_instance: Option<Vec<u8>>,
        user_supplied_tag: Vec<u8>,
        time: Option<Vec<u8>>,
    },
    IsAttributeOwnedByFederate { object_instance: Option<Vec<u8>>, attribute: Option<Vec<u8>> },
    QueryAttributeOwnership { object_instance: Option<Vec<u8>>, attributes: Option<Vec<Vec<u8>>> },
    AttributeOwnershipDivestiture {
        divest_form: DivestForm,
        object_instance: Option<Vec<u8>>,
        attributes: Option<Vec<Vec<u8>>>,
        user_supplied_tag: Vec<u8>,
    },
    AttributeOwnershipAcquisition {
        if_available: bool,
        object_instance: Option<Vec<u8>>,
        desired_attributes: Option<Vec<Vec<u8>>>,
        user_supplied_tag: Vec<u8>,
    },
    RequestFederationSave { with_time: bool, label: String },
    FederateSaveBegun,
    FederateSaveComplete,
    FederateSaveNotComplete,
    AbortFederationSave,
    RequestFederationRestore { label: String },
    FederateRestoreComplete,
    FederateRestoreNotComplete,
    AbortFederationRestore,
    RegisterFederationSynchronizationPoint {
        synchronization_point_label: String,
        user_supplied_tag: Vec<u8>,
    },
    RegisterFederationSynchronizationPointWithSet {
        synchronization_point_label: String,
        user_supplied_tag: Vec<u8>,
        synchronization_set: Option<Vec<Vec<u8>>>,
    },
    SynchronizationPointAchieved { synchronization_point_label: String, successfully: bool },
    CreateRegion { dimensions: Option<Vec<Vec<u8>>> },
    CommitRegionModifications { regions: Option<Vec<Vec<u8>>> },
    DeleteRegion { region: Option<Vec<u8>> },
    GetRangeBounds { region: Option<Vec<u8>>, dimension: Option<Vec<u8>> },
    SetRangeBounds {
        region: Option<Vec<u8>>,
        dimension: Option<Vec<u8>>,
        range_bounds: Option<RangeBounds>,
    },
    SubscribeObjectClassAttributesWithRegions {
        object_class: Option<Vec<u8>>,
        attributes_and_regions: Option<Vec<RegionPair>>,
    },
    UnsubscribeObjectClassAttributesWithRegions {
        object_class: Option<Vec<u8>>,
        attributes_and_regions: Option<Vec<RegionPair>>,
    },
    EnableTimeRegulation { lookahead: Option<Vec<u8>> },
    DisableTimeRegulation,
    EnableTimeConstrained,
    DisableTimeConstrained,
    TimeAdvance { advance_form: AdvanceForm, time: Option<Vec<u8>> },
    QueryLogicalTime,
    QueryLookahead,
    ModifyLookahead { lookahead: Option<Vec<u8>> },
    QueryLits,
    QueryGalt,
    NormalizeServiceGroup { service_group: i32 },
    NormalizeFederateHandle { federate: Option<Vec<u8>> },
    NormalizeObjectClassHandle { object_class: Option<Vec<u8>> },
    NormalizeInteractionClassHandle { interaction_class: Option<Vec<u8>> },
    NormalizeObjectInstanceHandle { object_instance: Option<Vec<u8>> },
    GetUpdateRateValue,
    GetUpdateRateValueForAttribute,
    PublishObjectClassDirectedInteractions {
        object_class: Option<Vec<u8>>,
        interaction_classes: Option<Vec<Vec<u8>>>,
    },
    UnpublishObjectClassDirectedInteractions { object_class: Option<Vec<u8>> },
    UnpublishObjectClassDirectedInteractionsWithSet {
        object_class: Option<Vec<u8>>,
        interaction_classes: Option<Vec<Vec<u8>>>,
    },
    SubscribeObjectClassDirectedInteractions {
        universally: bool,
        object_class: Option<Vec<u8>>,
        interaction_classes: Option<Vec<Vec<u8>>>,
    },
    UnsubscribeObjectClassDirectedInteractions { object_class: Option<Vec<u8>> },
    UnsubscribeObjectClassDirectedInteractionsWithSet {
        object_class: Option<Vec<u8>>,
        interaction_classes: Option<Vec<Vec<u8>>>,
    },
    SendDirectedInteraction {
        interaction_class: Option<Vec<u8>>,
        object_instance: Option<Vec<u8>>,
        parameter_values: Option<Vec<HandleValueField>>,
        user_supplied_tag: Vec<u8>,
    },
}

/// The service that a response answers for.
#[derive(Copy, Clone, Debug, PartialEq, Eq, Structural)]
pub enum Service {
    Passive(PassiveService),
    CreateFederationExecution(CreateForm),
    JoinFederationExecution(JoinService),
    GetSwitch(Switch),
    SetSwitch(SettableSwitch),
    DestroyFederationExecution,
    ListFederationExecutions,
    ListFederationExecutionMembers,
    ResignFederationExecution,
    GetAutomaticResignDirective,
    SetAutomaticResignDirective,
    GetObjectInstanceHandle,
    GetObjectInstanceName,
    GetKnownObjectClassHandle,
    LocalDeleteObjectInstance,
    GetDimensionHandle,
    GetDimensionName,
    GetDimensionUpperBound,
    GetDimensionHandleSet,
    GetAvailableDimensionsForObjectClass,
    GetAvailableDimensionsForInteractionClass,
    GetFederateHandle,
    GetFederateName,
    GetOrderType,
    GetOrderName,
    GetTransportationTypeHandle,
    GetTransportationTypeName,
    GetObjectClassHandle,
    GetObjectClassName,
    GetAttributeHandle,
    GetAttributeName,
    GetInteractionClassHandle,
    GetInteractionClassName,
    GetParameterHandle,
    GetParameterName,
    PublishObjectClassAttributes,
    UnpublishObjectClass,
    UnpublishObjectClassAttributes,
    SubscribeObjectClassAttributes,
    UnsubscribeObjectClass,
    UnsubscribeObjectClassAttributes,
    PublishInteractionClass,
    UnpublishInteractionClass,
    SubscribeInteractionClass,
    UnsubscribeInteractionClass,
    RegisterObjectInstance,
    RegisterObjectInstanceWithName,
    RegisterObjectInstanceWithRegions,
    RegisterObjectInstanceWithNameAndRegions,
    UpdateAttributeValues,
    UpdateAttributeValuesWithTime,
    SendInteraction,
    SendInteractionWithTime,
    DeleteObjectInstance,
    DeleteObjectInstanceWithTime,
    IsAttributeOwnedByFederate,
    QueryAttributeOwnership,
    UnconditionalAttributeOwnershipDivestiture,
    AttributeOwnershipAcquisitionIfAvailable,
    RequestFederationSave,
    FederateSaveBegun,
    FederateSaveComplete,
    FederateSaveNotComplete,
    AbortFederationSave,
    RequestFederationRestore,
    FederateRestoreComplete,
    FederateRestoreNotComplete,
    AbortFederationRestore,
    RegisterFederationSynchronizationPoint,
    SynchronizationPointAchieved,
    CreateRegion,
    CommitRegionModifications,
    DeleteRegion,
    GetRangeBounds,
    SetRangeBounds,
    SubscribeObjectClassAttributesWithRegions,
    UnsubscribeObjectClassAttributesWithRegions,
    EnableTimeRegulation,
    DisableTimeRegulation,
    EnableTimeConstrained,
    DisableTimeConstrained,
    TimeAdvanceRequest,
    QueryLogicalTime,
    QueryLookahead,
    ModifyLookahead,
    QueryLits,
    QueryGalt,
    NormalizeServiceGroup,
    NormalizeFederateHandle,
    NormalizeObjectClassHandle,
    NormalizeInteractionClassHandle,
    NormalizeObjectInstanceHandle,
    GetUpdateRateValue,
    GetUpdateRateValueForAttribute,
    PublishObjectClassDirectedInteractions,
    UnpublishObjectClassDirectedInteractions,
    SubscribeObjectClassDirectedInteractions,
    UnsubscribeObjectClassDirectedInteractions,
    SendDirectedInteraction,
}

/// What a response carries.
#[derive(Debug)]
pub enum Payload {
    Empty,
    Flag(bool),
    Number(u32),
    Code(i32),
    /// The bits of a double.
    Rate(u64),
    Text(String),
    Handle(Vec<u8>),
    Handles(Vec<Vec<u8>>),
    Time(Vec<u8>),
    TimeQuery { logical_time_is_valid: bool, logical_time: Vec<u8> },
    Range(RangeBounds),
    Joined { federate_handle: Vec<u8>, logical_time_implementation_name: String },
}

/// The mathematical content of [`Payload`].
#[verifier::ext_equal]
pub enum PayloadView {
    Empty,
    Flag(bool),
    Number(u32),
    Code(i32),
    Rate(u64),
    Text(Seq<char>),
    Handle(Seq<u8>),
    Handles(Seq<Seq<u8>>),
    Time(Seq<u8>),
    TimeQuery { logical_time_is_valid: bool, logical_time: Seq<u8> },
    Range(RangeBounds),
    Joined { federate_handle: Seq<u8>, logical_time_implementation_name: Seq<char> },
}

impl View for Payload {
    type V = PayloadView;

    open spec fn view(&self) -> PayloadView {
        match self {
            Payload::Empty => PayloadView::Empty,
            Payload::Flag(b) => PayloadView::Flag(*b),
            Payload::Number(n) => PayloadView::Number(*n),
            Payload::Code(n) => PayloadView::Code(*n),
            Payload::Rate(n) => PayloadView::Rate(*n),
            Payload::Text(s) => PayloadView::Text(s@),
            Payload::Handle(h) => PayloadView::Handle(h@),
            Payload::Handles(l) => PayloadView::Handles(byte_lists(l@)),
            Payload::Time(t) => PayloadView::Time(t@),
            Payload::TimeQuery { logical_time_is_valid, logical_time } => PayloadView::TimeQuery {
                logical_time_is_valid: *logical_time_is_valid,
                logical_time: logical_time@,
            },
            Payload::Range(b) => PayloadView::Range(*b),
            Payload::Joined {
                federate_handle,
                logical_time_implementation_name,
            } => PayloadView::Joined {
                federate_handle: federate_handle@,
                logical_time_implementation_name: logical_time_implementation_name@,
            },
        }
    }
}

/// A response to a request.
#[derive(Debug)]
pub enum CallResponse {
    Exception(ExceptionData),
    Reply { service: Service, payload: Payload },
}

/// The mathematical content of [`CallResponse`].
#[verifier::ext_equal]
pub enum ResponseView {
    Exception(ExceptionView),
    Reply { service: Service, payload: PayloadView },
}

impl View for CallResponse {
    type V = ResponseView;

    open spec fn view(&self) -> ResponseView {
        match self {
            CallResponse::Exception(e) => ResponseView::Exception(e@),
            CallResponse::Reply { service, payload } => ResponseView::Reply {
                service: *service,
                payload: payload@,
            },
        }
    }
}

/// The response of a service that returns nothing.
pub open spec fn done(service: Service) -> ResponseView {
    ResponseView::Reply { service, payload: PayloadView::Empty }
}

/// The response of a service with a payload.
pub open spec fn answered(service: Service, payload: PayloadView) -> ResponseView {
    ResponseView::Reply { service, payload }
}

/// The response that refuses a request.
pub open spec fn refused(e: ExceptionView) -> ResponseView {
    ResponseView::Exception(e)
}

/// The response of a service that returns nothing.
pub fn reply(service: Service) -> (r: CallResponse)
    ensures
        r@ == done(service),
{
    CallResponse::Reply { service, payload: Payload::Empty }
}

/// The response of a service with a payload.
pub fn reply_with(service: Service, payload: Payload) -> (r: CallResponse)
    ensures
        r@ == answered(service, payload@),
{
    CallResponse::Reply { service, payload }
}

} // verus!

//! Callbacks that the node sends to federates.

use vstd::prelude::*;

verus! {

/// A handle with a value.
#[derive(Debug)]
pub struct HandleValue {
    pub handle: Vec<u8>,
    pub value: Vec<u8>,
}

/// The mathematical content of [`HandleValue`].
#[verifier::ext_equal]
pub struct HandleValueView {
    pub handle: Seq<u8>,
    pub value: Seq<u8>,
}

impl View for HandleValue {
    type V = HandleValueView;

    open spec fn view(&self) -> HandleValueView {
        HandleValueView { handle: self.handle@, value: self.value@ }
    }
}

/// A federate in a report.
#[derive(Debug)]
pub struct FederationMember {
    pub federate_name: String,
    pub federate_type: String,
}

/// The mathematical content of [`FederationMember`].
#[verifier::ext_equal]
pub struct FederationMemberView {
    pub federate_name: Seq<char>,
    pub federate_type: Seq<char>,
}

impl View for FederationMember {
    type V = FederationMemberView;

    open spec fn view(&self) -> FederationMemberView {
        FederationMemberView {
            federate_name: self.federate_name@,
            federate_type: self.federate_type@,
        }
    }
}

/// A federation in a report.
#[derive(Debug)]
pub struct FederationInformation {
    pub federation_execution_name: String,
    pub logical_time_implementation_name: String,
}

/// The mathematical content of [`FederationInformation`].
#[verifier::ext_equal]
pub struct FederationInformationView {
    pub federation_execution_name: Seq<char>,
    pub logical_time_implementation_name: Seq<char>,
}

impl View for FederationInformation {
    type V = FederationInformationView;

    open spec fn view(&self) -> FederationInformationView {
        FederationInformationView {
            federation_execution_name: self.federation_execution_name@,
            logical_time_implementation_name: self.logical_time_implementation_name@,
        }
    }
}

/// The contents of byte strings.
pub open spec fn byte_lists(l: Seq<Vec<u8>>) -> Seq<Seq<u8>> {
    l.map_values(|b: Vec<u8>| b@)
}

/// The contents of handles with values.
pub open spec fn handle_values(l: Seq<HandleValue>) -> Seq<HandleValueView> {
    l.map_values(|v: HandleValue| v@)
}

/// A callback to a federate. Handles and time stamps stand in their wire form.
#[derive(Debug)]
pub enum CallbackRequest {
    /// An object instance became known.
    DiscoverObjectInstance {
        object_instance: Vec<u8>,
        object_class: Vec<u8>,
        object_instance_name: String,
        producing_federate: Vec<u8>,
    },
    /// Attributes of an instance have new values.
    ReflectAttributeValues {
        object_instance: Vec<u8>,
        attribute_values: Vec<HandleValue>,
        user_supplied_tag: Vec<u8>,
        producing_federate: Vec<u8>,
    },
    /// Attributes of an instance have new values at a time.
    ReflectAttributeValuesWithTime {
        object_instance: Vec<u8>,
        attribute_values: Vec<HandleValue>,
        user_supplied_tag: Vec<u8>,
        producing_federate: Vec<u8>,
        time: Vec<u8>,
        sent_order_type: i32,
        received_order_type: i32,
    },
    /// An interaction was sent.
    ReceiveInteraction {
        interaction_class: Vec<u8>,
        parameter_values: Vec<HandleValue>,
        user_supplied_tag: Vec<u8>,
        producing_federate: Vec<u8>,
    },
    /// An interaction was sent at a time.
    ReceiveInteractionWithTime {
        interaction_class: Vec<u8>,
        parameter_values: Vec<HandleValue>,
        user_supplied_tag: Vec<u8>,
        producing_federate: Vec<u8>,
        time: Vec<u8>,
        sent_order_type: i32,
        received_order_type: i32,
    },
    /// An interaction was directed at an instance.
    ReceiveDirectedInteraction {
        interaction_class: Vec<u8>,
        object_instance: Vec<u8>,
        parameter_values: Vec<HandleValue>,
        user_supplied_tag: Vec<u8>,
        producing_federate: Vec<u8>,
    },
    /// An object instance was deleted.
    RemoveObjectInstance {
        object_instance: Vec<u8>,
        user_supplied_tag: Vec<u8>,
        producing_federate: Vec<u8>,
    },
    /// An object instance was deleted at a time.
    RemoveObjectInstanceWithTime {
        object_instance: Vec<u8>,
        user_supplied_tag: Vec<u8>,
        producing_federate: Vec<u8>,
        time: Vec<u8>,
        sent_order_type: i32,
        received_order_type: i32,
    },
    /// The federates of a federation.
    ReportFederationExecutionMembers {
        federation_name: String,
        members: Vec<FederationMember>,
    },
    /// The federation asked for does not exist.
    ReportFederationExecutionDoesNotExist {
        federation_name: String,
    },
    /// The federations of the node.
    ReportFederationExecutions {
        federations: Vec<FederationInformation>,
    },
    /// Attributes were acquired.
    AttributeOwnershipAcquisitionNotification {
        object_instance: Vec<u8>,
        secured_attributes: Vec<Vec<u8>>,
        user_supplied_tag: Vec<u8>,
    },
    /// Attributes have another owner.
    AttributeOwnershipUnavailable {
        object_instance: Vec<u8>,
        attributes: Vec<Vec<u8>>,
        user_supplied_tag: Vec<u8>,
    },
    /// A restore was accepted.
    RequestFederationRestoreSucceeded {
        label: String,
    },
    /// A restore was refused.
    RequestFederationRestoreFailed {
        label: String,
    },
    /// A restore began.
    FederationRestoreBegun,
    /// The federate is to restore its own state.
    InitiateFederateRestore {
        label: String,
        federate_name: String,
        post_restore_federate_handle: Vec<u8>,
    },
    /// Every federate restored its state.
    FederationRestored,
    /// Some federate did not restore its state.
    FederationNotRestored {
        reason: i32,
    },
    /// The federate is to save its own state.
    InitiateFederateSave {
        label: String,
    },
    /// Every federate saved its state.
    FederationSaved,
    /// Some federate did not save its state.
    FederationNotSaved {
        reason: i32,
    },
    /// Who owns attributes.
    InformAttributeOwnership {
        object_instance: Vec<u8>,
        attributes: Vec<Vec<u8>>,
        federate: Vec<u8>,
    },
    /// Nobody owns attributes.
    AttributeIsNotOwned {
        object_instance: Vec<u8>,
        attributes: Vec<Vec<u8>>,
    },
    /// A synchronization point was registered.
    SynchronizationPointRegistrationSucceeded {
        synchronization_point_label: String,
    },
    /// A synchronization point was refused.
    SynchronizationPointRegistrationFailed {
        synchronization_point_label: String,
        reason: i32,
    },
    /// A synchronization point is announced.
    AnnounceSynchronizationPoint {
        synchronization_point_label: String,
        user_supplied_tag: Vec<u8>,
    },
    /// Every participant achieved a synchronization point.
    FederationSynchronized {
        synchronization_point_label: String,
        failed_to_sync_set: Vec<Vec<u8>>,
    },
    /// Somebody began to subscribe to a class.
    StartRegistrationForObjectClass {
        object_class: Vec<u8>,
    },
    /// Nobody subscribes to a class any more.
    StopRegistrationForObjectClass {
        object_class: Vec<u8>,
    },
    /// Somebody began to subscribe to an interaction class.
    TurnInteractionsOn {
        interaction_class: Vec<u8>,
    },
    /// Nobody subscribes to an interaction class any more.
    TurnInteractionsOff {
        interaction_class: Vec<u8>,
    },
    /// The federate regulates time.
    TimeRegulationEnabled {
        time: Vec<u8>,
    },
    /// The federate is time constrained.
    TimeConstrainedEnabled {
        time: Vec<u8>,
    },
    /// The federate advanced to a time.
    TimeAdvanceGrant {
        time: Vec<u8>,
    },
}

/// The mathematical content of [`CallbackRequest`].
#[verifier::ext_equal]
pub enum CallbackView {
    DiscoverObjectInstance {
        object_instance: Seq<u8>,
        object_class: Seq<u8>,
        object_instance_name: Seq<char>,
        producing_federate: Seq<u8>,
    },
    ReflectAttributeValues {
        object_instance: Seq<u8>,
        attribute_values: Seq<HandleValueView>,
        user_supplied_tag: Seq<u8>,
        producing_federate: Seq<u8>,
    },
    ReflectAttributeValuesWithTime {
        object_instance: Seq<u8>,
        attribute_values: Seq<HandleValueView>,
        user_supplied_tag: Seq<u8>,
        producing_federate: Seq<u8>,
        time: Seq<u8>,
        sent_order_type: i32,
        received_order_type: i32,
    },
    ReceiveInteraction {
        interaction_class: Seq<u8>,
        parameter_values: Seq<HandleValueView>,
        user_supplied_tag: Seq<u8>,
        producing_federate: Seq<u8>,
    },
    ReceiveInteractionWithTime {
        interaction_class: Seq<u8>,
        parameter_values: Seq<HandleValueView>,
        user_supplied_tag: Seq<u8>,
        producing_federate: Seq<u8>,
        time: Seq<u8>,
        sent_order_type: i32,
        received_order_type: i32,
    },
    ReceiveDirectedInteraction {
        interaction_class: Seq<u8>,
        object_instance: Seq<u8>,
        parameter_values: Seq<HandleValueView>,
        user_supplied_tag: Seq<u8>,
        producing_federate: Seq<u8>,
    },
    RemoveObjectInstance {
        object_instance: Seq<u8>,
        user_supplied_tag: Seq<u8>,
        producing_federate: Seq<u8>,
    },
    RemoveObjectInstanceWithTime {
        object_instance: Seq<u8>,
        user_supplied_tag: Seq<u8>,
        producing_federate: Seq<u8>,
        time: Seq<u8>,
        sent_order_type: i32,
        received_order_type: i32,
    },
    ReportFederationExecutionMembers {
        federation_name: Seq<char>,
        members: Seq<FederationMemberView>,
    },
    ReportFederationExecutionDoesNotExist {
        federation_name: Seq<char>,
    },
    ReportFederationExecutions {
        federations: Seq<FederationInformationView>,
    },
    AttributeOwnershipAcquisitionNotification {
        object_instance: Seq<u8>,
        secured_attributes: Seq<Seq<u8>>,
        user_supplied_tag: Seq<u8>,
    },
    AttributeOwnershipUnavailable {
        object_instance: Seq<u8>,
        attributes: Seq<Seq<u8>>,
        user_supplied_tag: Seq<u8>,
    },
    RequestFederationRestoreSucceeded {
        label: Seq<char>,
    },
    RequestFederationRestoreFailed {
        label: Seq<char>,
    },
    FederationRestoreBegun,
    InitiateFederateRestore {
        label: Seq<char>,
        federate_name: Seq<char>,
        post_restore_federate_handle: Seq<u8>,
    },
    FederationRestored,
    FederationNotRestored {
        reason: i32,
    },
    InitiateFederateSave {
        label: Seq<char>,
    },
    FederationSaved,
    FederationNotSaved {
        reason: i32,
    },
    InformAttributeOwnership {
        object_instance: Seq<u8>,
        attributes: Seq<Seq<u8>>,
        federate: Seq<u8>,
    },
    AttributeIsNotOwned {
        object_instance: Seq<u8>,
        attributes: Seq<Seq<u8>>,
    },
    SynchronizationPointRegistrationSucceeded {
        synchronization_point_label: Seq<char>,
    },
    SynchronizationPointRegistrationFailed {
        synchronization_point_label: Seq<char>,
        reason: i32,
    },
    AnnounceSynchronizationPoint {
        synchronization_point_label: Seq<char>,
        user_supplied_tag: Seq<u8>,
    },
    FederationSynchronized {
        synchronization_point_label: Seq<char>,
        failed_to_sync_set: Seq<Seq<u8>>,
    },
    StartRegistrationForObjectClass {
        object_class: Seq<u8>,
    },
    StopRegistrationForObjectClass {
        object_class: Seq<u8>,
    },
    TurnInteractionsOn {
        interaction_class: Seq<u8>,
    },
    TurnInteractionsOff {
        interaction_class: Seq<u8>,
    },
    TimeRegulationEnabled {
        time: Seq<u8>,
    },
    TimeConstrainedEnabled {
        time: Seq<u8>,
    },
    TimeAdvanceGrant {
        time: Seq<u8>,
    },
}

impl View for CallbackRequest {
    type V = CallbackView;

    open spec fn view(&self) -> CallbackView {
        match self {
            CallbackRequest::DiscoverObjectInstance {
                object_instance,
                object_class,
                object_instance_name,
                producing_federate,
            } => CallbackView::DiscoverObjectInstance {
                object_instance: object_instance@,
                object_class: object_class@,
                object_instance_name: object_instance_name@,
                producing_federate: producing_federate@,
            },
            CallbackRequest::ReflectAttributeValues {
                object_instance,
                attribute_values,
                user_supplied_tag,
                producing_federate,
            } => CallbackView::ReflectAttributeValues {
                object_instance: object_instance@,
                attribute_values: handle_values(attribute_values@),
                user_supplied_tag: user_supplied_tag@,
                producing_federate: producing_federate@,
            },
            CallbackRequest::ReflectAttributeValuesWithTime {
                object_instance,
                attribute_values,
                user_supplied_tag,
                producing_federate,
                time,
                sent_order_type,
                received_order_type,
            } => CallbackView::ReflectAttributeValuesWithTime {
                object_instance: object_instance@,
                attribute_values: handle_values(attribute_values@),
                user_supplied_tag: user_supplied_tag@,
                producing_federate: producing_federate@,
                time: time@,
                sent_order_type: *sent_order_type,
                received_order_type: *received_order_type,
            },
            CallbackRequest::ReceiveInteraction {
                interaction_class,
                parameter_values,
                user_supplied_tag,
                producing_federate,
            } => CallbackView::ReceiveInteraction {
                interaction_class: interaction_class@,
                parameter_values: handle_values(parameter_values@),
                user_supplied_tag: user_supplied_tag@,
                producing_federate: producing_federate@,
            },
            CallbackRequest::ReceiveInteractionWithTime {
                interaction_class,
                parameter_values,
                user_supplied_tag,
                producing_federate,
                time,
                sent_order_type,
                received_order_type,
            } => CallbackView::ReceiveInteractionWithTime {
                interaction_class: interaction_class@,
                parameter_values: handle_values(parameter_values@),
                user_supplied_tag: user_supplied_tag@,
                producing_federate: producing_federate@,
                time: time@,
                sent_order_type: *sent_order_type,
                received_order_type: *received_order_type,
            },
            CallbackRequest::ReceiveDirectedInteraction {
                interaction_class,
                object_instance,
                parameter_values,
                user_supplied_tag,
                producing_federate,
            } => CallbackView::ReceiveDirectedInteraction {
                interaction_class: interaction_class@,
                object_instance: object_instance@,
                parameter_values: handle_values(parameter_values@),
                user_supplied_tag: user_supplied_tag@,
                producing_federate: producing_federate@,
            },
            CallbackRequest::RemoveObjectInstance {
                object_instance,
                user_supplied_tag,
                producing_federate,
            } => CallbackView::RemoveObjectInstance {
                object_instance: object_instance@,
                user_supplied_tag: user_supplied_tag@,
                producing_federate: producing_federate@,
            },
            CallbackRequest::RemoveObjectInstanceWithTime {
                object_instance,
                user_supplied_tag,
                producing_federate,
                time,
                sent_order_type,
                received_order_type,
            } => CallbackView::RemoveObjectInstanceWithTime {
                object_instance: object_instance@,
                user_supplied_tag: user_supplied_tag@,
                producing_federate: producing_federate@,
                time: time@,
                sent_order_type: *sent_order_type,
                received_order_type: *received_order_type,
            },
            CallbackRequest::ReportFederationExecutionMembers {
                federation_name,
                members,
            } => CallbackView::ReportFederationExecutionMembers {
                federation_name: federation_name@,
                members: members@.map_values(|m: FederationMember| m@),
            },
            CallbackRequest::ReportFederationExecutionDoesNotExist {
                federation_name,
            } => CallbackView::ReportFederationExecutionDoesNotExist {
                federation_name: federation_name@,
            },
            CallbackRequest::ReportFederationExecutions {
                federations,
            } => CallbackView::ReportFederationExecutions {
                federations: federations@.map_values(|m: FederationInformation| m@),
            },
            CallbackRequest::AttributeOwnershipAcquisitionNotification {
                object_instance,
                secured_attributes,
                user_supplied_tag,
            } => CallbackView::AttributeOwnershipAcquisitionNotification {
                object_instance: object_instance@,
                secured_attributes: byte_lists(secured_attributes@),
                user_supplied_tag: user_supplied_tag@,
            },
            CallbackRequest::AttributeOwnershipUnavailable {
                object_instance,
                attributes,
                user_supplied_tag,
            } => CallbackView::AttributeOwnershipUnavailable {
                object_instance: object_instance@,
                attributes: byte_lists(attributes@),
                user_supplied_tag: user_supplied_tag@,
            },
            CallbackRequest::RequestFederationRestoreSucceeded {
                label,
            } => CallbackView::RequestFederationRestoreSucceeded {
                label: label@,
            },
            CallbackRequest::RequestFederationRestoreFailed {
                label,
            } => CallbackView::RequestFederationRestoreFailed {
                label: label@,
            },
            CallbackRequest::FederationRestoreBegun => CallbackView::FederationRestoreBegun,
            CallbackRequest::InitiateFederateRestore {
                label,
                federate_name,
                post_restore_federate_handle,
            } => CallbackView::InitiateFederateRestore {
                label: label@,
                federate_name: federate_name@,
                post_restore_federate_handle: post_restore_federate_handle@,
            },
            CallbackRequest::FederationRestored => CallbackView::FederationRestored,
            CallbackRequest::FederationNotRestored {
                reason,
            } => CallbackView::FederationNotRestored {
                reason: *reason,
            },
            CallbackRequest::InitiateFederateSave { label } => CallbackView::InitiateFederateSave {
                label: label@,
            },
            CallbackRequest::FederationSaved => CallbackView::FederationSaved,
            CallbackRequest::FederationNotSaved { reason } => CallbackView::FederationNotSaved {
                reason: *reason,
            },
            CallbackRequest::InformAttributeOwnership {
                object_instance,
                attributes,
                federate,
            } => CallbackView::InformAttributeOwnership {
                object_instance: object_instance@,
                attributes: byte_lists(attributes@),
                federate: federate@,
            },
            CallbackRequest::AttributeIsNotOwned {
                object_instance,
                attributes,
            } => CallbackView::AttributeIsNotOwned {
                object_instance: object_instance@,
                attributes: byte_lists(attributes@),
            },
            CallbackRequest::SynchronizationPointRegistrationSucceeded {
                synchronization_point_label,
            } => CallbackView::SynchronizationPointRegistrationSucceeded {
                synchronization_point_label: synchronization_point_label@,
            },
            CallbackRequest::SynchronizationPointRegistrationFailed {
                synchronization_point_label,
                reason,
            } => CallbackView::SynchronizationPointRegistrationFailed {
                synchronization_point_label: synchronization_point_label@,
                reason: *reason,
            },
            CallbackRequest::AnnounceSynchronizationPoint {
                synchronization_point_label,
                user_supplied_tag,
            } => CallbackView::AnnounceSynchronizationPoint {
                synchronization_point_label: synchronization_point_label@,
                user_supplied_tag: user_supplied_tag@,
            },
            CallbackRequest::FederationSynchronized {
                synchronization_point_label,
                failed_to_sync_set,
            } => CallbackView::FederationSynchronized {
                synchronization_point_label: synchronization_point_label@,
                failed_to_sync_set: byte_lists(failed_to_sync_set@),
            },
            CallbackRequest::StartRegistrationForObjectClass {
                object_class,
            } => CallbackView::StartRegistrationForObjectClass {
                object_class: object_class@,
            },
            CallbackRequest::StopRegistrationForObjectClass {
                object_class,
            } => CallbackView::StopRegistrationForObjectClass {
                object_class: object_class@,
            },
            CallbackRequest::TurnInteractionsOn {
                interaction_class,
            } => CallbackView::TurnInteractionsOn {
                interaction_class: interaction_class@,
            },
            CallbackRequest::TurnInteractionsOff {
                interaction_class,
            } => CallbackView::TurnInteractionsOff {
                interaction_class: interaction_class@,
            },
            CallbackRequest::TimeRegulationEnabled { time } => CallbackView::TimeRegulationEnabled {
                time: time@,
            },
            CallbackRequest::TimeConstrainedEnabled {
                time,
            } => CallbackView::TimeConstrainedEnabled {
                time: time@,
            },
            CallbackRequest::TimeAdvanceGrant { time } => CallbackView::TimeAdvanceGrant {
                time: time@,
            },
        }
    }
}

} // verus!

//! Handles and names of the object model.

use crate::dispatch::helpers::{refuse, refuse_bare};
use crate::exception::{bare, exception_variant, raised, ExceptionView, HlaException};
use crate::federation::{Federation, FederationView};
use crate::fom::{
    class_with_handle, handle_of_class, handle_of_dimension, handle_of_member, member_named,
};
use crate::handles::{
    bytes_of_u32, decode_attribute, decode_interaction_class, decode_object_class,
    decode_parameter, encode_attribute, encode_interaction_class, encode_object_class,
    encode_parameter, handle32,
};
use crate::messages::{
    answered, refused, reply_with, CallResponse, Payload, PayloadView, ResponseView, Service,
};
use crate::text::{copy_text, decimal, decimal_of, joined};
use vstd::prelude::*;

verus! {

/// The bytes of an optional field.
pub open spec fn wire(field: Option<Vec<u8>>) -> Option<Seq<u8>> {
    match field {
        Some(b) => Some(b@),
        None => None,
    }
}

/// A handle with the name of its kind.
pub open spec fn handle_text(kind: Seq<char>, h: u32) -> Seq<char> {
    kind + "("@ + decimal_of(h as nat) + ")"@
}

fn name_handle(kind: &str, h: u32) -> (r: String)
    ensures
        r@ == handle_text(kind@, h),
{
    let mut r = joined(kind, "(");
    r.append(decimal(h as u64).as_str());
    r.append(")");
    r
}

/// The exception that names the object class which was refused.
pub open spec fn refused_class(h: u32) -> ExceptionView {
    raised(HlaException::InvalidObjectClassHandle, handle_text("ObjectClassHandle"@, h))
}

fn refuse_class(h: u32) -> (r: CallResponse)
    ensures
        r@ == refused(refused_class(h)),
{
    refuse(
        exception_variant(
            HlaException::InvalidObjectClassHandle,
            name_handle("ObjectClassHandle", h).as_str(),
        ),
    )
}

/// The exception that names the attribute which was refused.
pub open spec fn refused_attribute(h: u32) -> ExceptionView {
    raised(HlaException::AttributeNotDefined, handle_text("AttributeHandle"@, h))
}

fn refuse_attribute(h: u32) -> (r: CallResponse)
    ensures
        r@ == refused(refused_attribute(h)),
{
    refuse(
        exception_variant(
            HlaException::AttributeNotDefined,
            name_handle("AttributeHandle", h).as_str(),
        ),
    )
}

/// The response to a query for the handle of an object class.
pub open spec fn object_class_handle_reply(fed: FederationView, name: Seq<char>) -> ResponseView {
    match handle_of_class(fed.fom.object_classes, name) {
        Some(h) => answered(
            Service::GetObjectClassHandle,
            PayloadView::Handle(bytes_of_u32(h)),
        ),
        None => refused(raised(HlaException::NameNotFound, name)),
    }
}

/// The handle of an object class.
pub fn get_object_class_handle(federation: &Federation, name: &str) -> (r: CallResponse)
    ensures
        r@ == object_class_handle_reply(federation@, name@),
{
    match federation.fom.object_class_handle(name) {
        Some(h) => reply_with(
            Service::GetObjectClassHandle,
            Payload::Handle(encode_object_class(h)),
        ),
        None => refuse(exception_variant(HlaException::NameNotFound, name)),
    }
}

/// The response to a query for the name of an object class.
pub open spec fn object_class_name_reply(
    fed: FederationView,
    field: Option<Seq<u8>>,
) -> ResponseView {
    match field {
        None => refused(raised(HlaException::InvalidObjectClassHandle, "missing handle"@)),
        Some(b) => match handle32(b) {
            None => refused(bare(HlaException::InvalidObjectClassHandle)),
            Some(h) => match class_with_handle(fed.fom.object_classes, h) {
                Some(c) => answered(Service::GetObjectClassName, PayloadView::Text(c.name)),
                None => refused(refused_class(h)),
            },
        },
    }
}

/// The name of an object class.
pub fn get_object_class_name(federation: &Federation, field: &Option<Vec<u8>>) -> (r: CallResponse)
    ensures
        r@ == object_class_name_reply(federation@, wire(*field)),
{
    let bytes = match field {
        Some(b) => b,
        None => return refuse(
            exception_variant(HlaException::InvalidObjectClassHandle, "missing handle"),
        ),
    };
    let handle = match decode_object_class(bytes.as_slice()) {
        Ok(h) => h,
        Err(_) => return refuse_bare(HlaException::InvalidObjectClassHandle),
    };
    match federation.fom.object_class_def(handle) {
        Some(c) => reply_with(
            Service::GetObjectClassName,
            Payload::Text(copy_text(c.name.as_str())),
        ),
        None => refuse_class(handle),
    }
}

/// The response to a query for the handle of an attribute as seen from a class.
pub open spec fn attribute_handle_reply(
    fed: FederationView,
    class: Option<Seq<u8>>,
    name: Seq<char>,
) -> ResponseView {
    match class {
        None => refused(raised(HlaException::InvalidObjectClassHandle, "missing handle"@)),
        Some(b) => match handle32(b) {
            None => refused(bare(HlaException::InvalidObjectClassHandle)),
            Some(c) => if class_with_handle(fed.fom.object_classes, c) is None {
                refused(refused_class(c))
            } else {
                match handle_of_member(fed.fom.attributes, c, name) {
                    Some(h) => answered(
                        Service::GetAttributeHandle,
                        PayloadView::Handle(bytes_of_u32(h)),
                    ),
                    None => refused(raised(HlaException::NameNotFound, name)),
                }
            },
        },
    }
}

/// The handle of an attribute as seen from a class.
pub fn get_attribute_handle(
    federation: &Federation,
    class: &Option<Vec<u8>>,
    name: &str,
) -> (r: CallResponse)
    ensures
        r@ == attribute_handle_reply(federation@, wire(*class), name@),
{
    let bytes = match class {
        Some(b) => b,
        None => return refuse(
            exception_variant(HlaException::InvalidObjectClassHandle, "missing handle"),
        ),
    };
    let handle = match decode_object_class(bytes.as_slice()) {
        Ok(h) => h,
        Err(_) => return refuse_bare(HlaException::InvalidObjectClassHandle),
    };
    if federation.fom.object_class_def(handle).is_none() {
        return refuse_class(handle);
    }
    match federation.fom.attribute_handle(handle, name) {
        Some(h) => reply_with(Service::GetAttributeHandle, Payload::Handle(encode_attribute(h))),
        None => refuse(exception_variant(HlaException::NameNotFound, name)),
    }
}

/// The response to a query for the name of an attribute that a class declares.
pub open spec fn attribute_name_reply(
    fed: FederationView,
    class: Option<Seq<u8>>,
    member: Option<Seq<u8>>,
) -> ResponseView {
    match (class, member) {
        (Some(b), Some(m)) => match (handle32(b), handle32(m)) {
            (None, _) => refused(bare(HlaException::InvalidObjectClassHandle)),
            (Some(_), None) => refused(bare(HlaException::InvalidAttributeHandle)),
            (Some(c), Some(h)) => match class_with_handle(fed.fom.object_classes, c) {
                None => refused(bare(HlaException::InvalidObjectClassHandle)),
                Some(def) => match member_named(def.members, fed.fom.attributes, def.handle, h) {
                    Some(n) => answered(Service::GetAttributeName, PayloadView::Text(n)),
                    None => refused(refused_attribute(h)),
                },
            },
        },
        _ => refused(raised(HlaException::InvalidObjectClassHandle, "missing handle(s)"@)),
    }
}

/// The name of an attribute that a class declares.
pub fn get_attribute_name(
    federation: &Federation,
    class: &Option<Vec<u8>>,
    member: &Option<Vec<u8>>,
) -> (r: CallResponse)
    ensures
        r@ == attribute_name_reply(federation@, wire(*class), wire(*member)),
{
    let (class_bytes, member_bytes) = match (class, member) {
        (Some(c), Some(m)) => (c, m),
        _ => return refuse(
            exception_variant(HlaException::InvalidObjectClassHandle, "missing handle(s)"),
        ),
    };
    let class_handle = match decode_object_class(class_bytes.as_slice()) {
        Ok(h) => h,
        Err(_) => return refuse_bare(HlaException::InvalidObjectClassHandle),
    };
    let handle = match decode_attribute(member_bytes.as_slice()) {
        Ok(h) => h,
        Err(_) => return refuse_bare(HlaException::InvalidAttributeHandle),
    };
    let def = match federation.fom.object_class_def(class_handle) {
        Some(d) => d,
        None => return refuse_bare(HlaException::InvalidObjectClassHandle),
    };
    match federation.fom.attribute_name(def, handle) {
        Some(n) => reply_with(Service::GetAttributeName, Payload::Text(copy_text(n.as_str()))),
        None => refuse_attribute(handle),
    }
}

/// The response to a query for the handle of an interaction class.
pub open spec fn interaction_class_handle_reply(
    fed: FederationView,
    name: Seq<char>,
) -> ResponseView {
    match handle_of_class(fed.fom.interaction_classes, name) {
        Some(h) => answered(
            Service::GetInteractionClassHandle,
            PayloadView::Handle(bytes_of_u32(h)),
        ),
        None => refused(raised(HlaException::NameNotFound, name)),
    }
}

/// The handle of an interaction class.
pub fn get_interaction_class_handle(federation: &Federation, name: &str) -> (r: CallResponse)
    ensures
        r@ == interaction_class_handle_reply(federation@, name@),
{
    match federation.fom.interaction_class_handle(name) {
        Some(h) => reply_with(
            Service::GetInteractionClassHandle,
            Payload::Handle(encode_interaction_class(h)),
        ),
        None => refuse(exception_variant(HlaException::NameNotFound, name)),
    }
}

/// The response to a query for the name of an interaction class.
pub open spec fn interaction_class_name_reply(
    fed: FederationView,
    field: Option<Seq<u8>>,
) -> ResponseView {
    match field {
        None => refused(raised(HlaException::InvalidInteractionClassHandle, "missing handle"@)),
        Some(b) => match handle32(b) {
            None => refused(bare(HlaException::InvalidInteractionClassHandle)),
            Some(h) => match class_with_handle(fed.fom.interaction_classes, h) {
                Some(c) => answered(Service::GetInteractionClassName, PayloadView::Text(c.name)),
                None => refused(bare(HlaException::InvalidInteractionClassHandle)),
            },
        },
    }
}

/// The name of an interaction class.
pub fn get_interaction_class_name(
    federation: &Federation,
    field: &Option<Vec<u8>>,
) -> (r: CallResponse)
    ensures
        r@ == interaction_class_name_reply(federation@, wire(*field)),
{
    let bytes = match field {
        Some(b) => b,
        None => return refuse(
            exception_variant(HlaException::InvalidInteractionClassHandle, "missing handle"),
        ),
    };
    let handle = match decode_interaction_class(bytes.as_slice()) {
        Ok(h) => h,
        Err(_) => return refuse_bare(HlaException::InvalidInteractionClassHandle),
    };
    match federation.fom.interaction_class_def(handle) {
        Some(c) => reply_with(
            Service::GetInteractionClassName,
            Payload::Text(copy_text(c.name.as_str())),
        ),
        None => refuse_bare(HlaException::InvalidInteractionClassHandle),
    }
}

/// The response to a query for the handle of a parameter as seen from a class.
pub open spec fn parameter_handle_reply(
    fed: FederationView,
    class: Option<Seq<u8>>,
    name: Seq<char>,
) -> ResponseView {
    match class {
        None => refused(raised(HlaException::InvalidInteractionClassHandle, "missing handle"@)),
        Some(b) => match handle32(b) {
            None => refused(bare(HlaException::InvalidInteractionClassHandle)),
            Some(c) => if class_with_handle(fed.fom.interaction_classes, c) is None {
                refused(bare(HlaException::InvalidInteractionClassHandle))
            } else {
                match handle_of_member(fed.fom.parameters, c, name) {
                    Some(h) => answered(
                        Service::GetParameterHandle,
                        PayloadView::Handle(bytes_of_u32(h)),
                    ),
                    None => refused(raised(HlaException::NameNotFound, name)),
                }
            },
        },
    }
}

/// The handle of a parameter as seen from a class.
pub fn get_parameter_handle(
    federation: &Federation,
    class: &Option<Vec<u8>>,
    name: &str,
) -> (r: CallResponse)
    ensures
        r@ == parameter_handle_reply(federation@, wire(*class), name@),
{
    let bytes = match class {
        Some(b) => b,
        None => return refuse(
            exception_variant(HlaException::InvalidInteractionClassHandle, "missing handle"),
        ),
    };
    let handle = match decode_interaction_class(bytes.as_slice()) {
        Ok(h) => h,
        Err(_) => return refuse_bare(HlaException::InvalidInteractionClassHandle),
    };
    if federation.fom.interaction_class_def(handle).is_none() {
        return refuse_bare(HlaException::InvalidInteractionClassHandle);
    }
    match federation.fom.parameter_handle(handle, name) {
        Some(h) => reply_with(Service::GetParameterHandle, Payload::Handle(encode_parameter(h))),
        None => refuse(exception_variant(HlaException::NameNotFound, name)),
    }
}

/// The response to a query for the name of a parameter that a class declares.
pub open spec fn parameter_name_reply(
    fed: FederationView,
    class: Option<Seq<u8>>,
    member: Option<Seq<u8>>,
) -> ResponseView {
    match (class, member) {
        (Some(b), Some(m)) => match (handle32(b), handle32(m)) {
            (None, _) => refused(bare(HlaException::InvalidInteractionClassHandle)),
            (Some(_), None) => refused(bare(HlaException::InvalidParameterHandle)),
            (Some(c), Some(h)) => match class_with_handle(fed.fom.interaction_classes, c) {
                None => refused(bare(HlaException::InvalidInteractionClassHandle)),
                Some(def) => match member_named(def.members, fed.fom.parameters, def.handle, h) {
                    Some(n) => answered(Service::GetParameterName, PayloadView::Text(n)),
                    None => refused(bare(HlaException::InteractionParameterNotDefined)),
                },
            },
        },
        _ => refused(raised(HlaException::InvalidInteractionClassHandle, "missing handle(s)"@)),
    }
}

/// The name of a parameter that a class declares.
pub fn get_parameter_name(
    federation: &Federation,
    class: &Option<Vec<u8>>,
    member: &Option<Vec<u8>>,
) -> (r: CallResponse)
    ensures
        r@ == parameter_name_reply(federation@, wire(*class), wire(*member)),
{
    let (class_bytes, member_bytes) = match (class, member) {
        (Some(c), Some(m)) => (c, m),
        _ => return refuse(
            exception_variant(HlaException::InvalidInteractionClassHandle, "missing handle(s)"),
        ),
    };
    let class_handle = match decode_interaction_class(class_bytes.as_slice()) {
        Ok(h) => h,
        Err(_) => return refuse_bare(HlaException::InvalidInteractionClassHandle),
    };
    let handle = match decode_parameter(member_bytes.as_slice()) {
        Ok(h) => h,
        Err(_) => return refuse_bare(HlaException::InvalidParameterHandle),
    };
    let def = match federation.fom.interaction_class_def(class_handle) {
        Some(d) => d,
        None => return refuse_bare(HlaException::InvalidInteractionClassHandle),
    };
    match federation.fom.parameter_name(def, handle) {
        Some(n) => reply_with(Service::GetParameterName, Payload::Text(copy_text(n.as_str()))),
        None => refuse_bare(HlaException::InteractionParameterNotDefined),
    }
}

/// The response to a query for the handle of a dimension.
pub open spec fn dimension_handle_reply(fed: FederationView, name: Seq<char>) -> ResponseView {
    match handle_of_dimension(fed.fom.dimensions, name) {
        Some(h) => answered(Service::GetDimensionHandle, PayloadView::Handle(bytes_of_u32(h))),
        None => refused(raised(HlaException::NameNotFound, name)),
    }
}

/// The handle of a dimension.
pub fn get_dimension_handle(federation: &Federation, name: &str) -> (r: CallResponse)
    ensures
        r@ == dimension_handle_reply(federation@, name@),
{
    match federation.fom.dimension_handle(name) {
        Some(h) => reply_with(
            Service::GetDimensionHandle,
            Payload::Handle(crate::handles::encode_u32(h)),
        ),
        None => refuse(exception_variant(HlaException::NameNotFound, name)),
    }
}

} // verus!

//! Federates, and the names and numbers that are the same everywhere.


use crate::dispatch::helpers::{refuse, refuse_bare};
use crate::exception::{bare, exception_variant, raised, HlaException};
use crate::federation::{Federation, FederationView};
use crate::handles::{
    bytes_of_u32, encode_federate, encode_u32, field32, field64, read_field32, read_field64,
};
use crate::messages::{
    answered, refused, reply_with, CallResponse, Payload, PayloadView, ResponseView, Service,
};
use crate::persistence::{find_namesakes, namesakes};
use crate::tables::ascending;
use crate::text::{
    copy_text, decimal, decimal_of, same_text, signed_decimal, signed_decimal_of,
};
use vstd::prelude::*;

verus! {

/// The response to a query for the handle of a federate. Where several have the
/// name, it is the first of them.
pub open spec fn federate_handle_reply(fed: FederationView, name: Seq<char>) -> ResponseView {
    let all = ascending(namesakes(fed.federates, name));
    if all.len() == 0 {
        refused(raised(HlaException::NameNotFound, name))
    } else {
        answered(Service::GetFederateHandle, PayloadView::Handle(bytes_of_u32(all[0])))
    }
}

/// The handle of a federate.
pub fn get_federate_handle(federation: &Federation, name: &str) -> (r: CallResponse)
    ensures
        r@ == federate_handle_reply(federation@, name@),
{
    let all = find_namesakes(&federation.federates, name);
    if all.len() == 0 {
        refuse(exception_variant(HlaException::NameNotFound, name))
    } else {
        reply_with(Service::GetFederateHandle, Payload::Handle(encode_federate(all[0])))
    }
}

/// The response to a query for the name of a federate.
pub open spec fn federate_name_reply(fed: FederationView, federate: Option<u32>) -> ResponseView {
    match federate {
        Some(f) if fed.federates.contains_key(f) => answered(
            Service::GetFederateName,
            PayloadView::Text(fed.federates[f].name),
        ),
        _ => refused(bare(HlaException::InvalidFederateHandle)),
    }
}

/// The name of a federate.
pub fn get_federate_name(federation: &Federation, federate: &Option<Vec<u8>>) -> (r: CallResponse)
    ensures
        r@ == federate_name_reply(federation@, field32(*federate)),
{
    let handle = match read_field32(federate) {
        Some(h) => h,
        None => return refuse_bare(HlaException::InvalidFederateHandle),
    };
    match federation.federates.get(handle) {
        Some(fs) => reply_with(
            Service::GetFederateName,
            Payload::Text(copy_text(fs.name.as_str())),
        ),
        None => refuse_bare(HlaException::InvalidFederateHandle),
    }
}

/// The number of an order type.
pub open spec fn order_type_of(name: Seq<char>) -> Option<i32> {
    if name == "Receive"@ {
        Some(0)
    } else if name == "TimeStamp"@ || name == "TimestampOrder"@ {
        Some(1)
    } else {
        None
    }
}

/// The response to a query for an order type.
pub open spec fn order_type_reply(name: Seq<char>) -> ResponseView {
    match order_type_of(name) {
        Some(n) => answered(Service::GetOrderType, PayloadView::Code(n)),
        None => refused(raised(HlaException::InvalidOrderName, name)),
    }
}

/// The order type with a name: receive order or time stamp order.
pub fn get_order_type(name: &str) -> (r: CallResponse)
    ensures
        r@ == order_type_reply(name@),
{
    let code: i32 = if same_text(name, "Receive") {
        0
    } else if same_text(name, "TimeStamp") || same_text(name, "TimestampOrder") {
        1
    } else {
        return refuse(exception_variant(HlaException::InvalidOrderName, name));
    };
    reply_with(Service::GetOrderType, Payload::Code(code))
}

/// The response to a query for the name of an order type.
pub open spec fn order_name_reply(order_type: i32) -> ResponseView {
    if order_type == 0 {
        answered(Service::GetOrderName, PayloadView::Text("Receive"@))
    } else if order_type == 1 {
        answered(Service::GetOrderName, PayloadView::Text("TimeStamp"@))
    } else {
        refused(raised(HlaException::InvalidOrderType, signed_decimal_of(order_type as int)))
    }
}

/// The name of an order type.
pub fn get_order_name(order_type: i32) -> (r: CallResponse)
    ensures
        r@ == order_name_reply(order_type),
{
    let name = match order_type {
        0 => "Receive",
        1 => "TimeStamp",
        _ => {
            return refuse(
                exception_variant(
                    HlaException::InvalidOrderType,
                    signed_decimal(order_type).as_str(),
                ),
            );
        },
    };
    reply_with(Service::GetOrderName, Payload::Text(copy_text(name)))
}

/// The name of an order type leads back to the order type.
pub proof fn order_names_lead_back(order_type: i32)
    requires
        0 <= order_type <= 1,
    ensures
        order_name_reply(order_type) matches ResponseView::Reply {
            payload: PayloadView::Text(name),
            ..
        } && order_type_of(name) == Some(order_type),
{
    reveal_strlit("Receive");
    reveal_strlit("TimeStamp");
    assert("Receive"@[0] != "TimeStamp"@[0]);
}

/// The handle of a transportation type.
pub open spec fn transportation_of(name: Seq<char>) -> Option<u32> {
    if name == "HLAreliable"@ {
        Some(1)
    } else if name == "HLAbestEffort"@ {
        Some(2)
    } else {
        None
    }
}

/// The response to a query for a transportation type.
pub open spec fn transportation_handle_reply(name: Seq<char>) -> ResponseView {
    match transportation_of(name) {
        Some(n) => answered(
            Service::GetTransportationTypeHandle,
            PayloadView::Handle(bytes_of_u32(n)),
        ),
        None => refused(raised(HlaException::InvalidTransportationName, name)),
    }
}

/// The transportation type with a name.
pub fn get_transportation_type_handle(name: &str) -> (r: CallResponse)
    ensures
        r@ == transportation_handle_reply(name@),
{
    let raw: u32 = if same_text(name, "HLAreliable") {
        1
    } else if same_text(name, "HLAbestEffort") {
        2
    } else {
        return refuse(exception_variant(HlaException::InvalidTransportationName, name));
    };
    reply_with(Service::GetTransportationTypeHandle, Payload::Handle(encode_u32(raw)))
}

/// The response to a query for the name of a transportation type.
pub open spec fn transportation_name_reply(handle: Option<u32>) -> ResponseView {
    match handle {
        None => refused(bare(HlaException::InvalidTransportationTypeHandle)),
        Some(n) => if n == 1 {
            answered(Service::GetTransportationTypeName, PayloadView::Text("HLAreliable"@))
        } else if n == 2 {
            answered(Service::GetTransportationTypeName, PayloadView::Text("HLAbestEffort"@))
        } else {
            refused(
                raised(HlaException::InvalidTransportationTypeHandle, decimal_of(n as nat)),
            )
        },
    }
}

/// The name of a transportation type.
pub fn get_transportation_type_name(handle: &Option<Vec<u8>>) -> (r: CallResponse)
    ensures
        r@ == transportation_name_reply(field32(*handle)),
{
    let raw = match read_field32(handle) {
        Some(n) => n,
        None => return refuse_bare(HlaException::InvalidTransportationTypeHandle),
    };
    let name = match raw {
        1 => "HLAreliable",
        2 => "HLAbestEffort",
        _ => {
            return refuse(
                exception_variant(
                    HlaException::InvalidTransportationTypeHandle,
                    decimal(raw as u64).as_str(),
                ),
            );
        },
    };
    reply_with(Service::GetTransportationTypeName, Payload::Text(copy_text(name)))
}

/// The name of a transportation type leads back to the transportation type.
pub proof fn transportation_names_lead_back(handle: u32)
    requires
        1 <= handle <= 2,
    ensures
        transportation_name_reply(Some(handle)) matches ResponseView::Reply {
            payload: PayloadView::Text(name),
            ..
        } && transportation_of(name) == Some(handle),
{
    reveal_strlit("HLAreliable");
    reveal_strlit("HLAbestEffort");
    assert("HLAreliable"@[3] != "HLAbestEffort"@[3]);
}

/// The number of a service group modulo two to the power of 32.
pub open spec fn unsigned(n: i32) -> u32 {
    if n >= 0 {
        n as u32
    } else {
        (n + 0x1_0000_0000) as u32
    }
}

/// The normalized number of a service group.
pub fn normalize_service_group(service_group: i32) -> (r: CallResponse)
    ensures
        r@ == answered(
            Service::NormalizeServiceGroup,
            PayloadView::Number(unsigned(service_group)),
        ),
{
    let n: u32 = if service_group >= 0 {
        service_group as u32
    } else {
        (service_group as i64 + 0x1_0000_0000) as u32
    };
    reply_with(Service::NormalizeServiceGroup, Payload::Number(n))
}

/// The number of a handle; zero where there is none.
pub open spec fn normalized(handle: Option<u32>) -> u32 {
    match handle {
        Some(n) => n,
        None => 0,
    }
}

/// The normalized number of a handle, in the response of a service.
pub fn normalize_handle(service: Service, handle: &Option<Vec<u8>>) -> (r: CallResponse)
    ensures
        r@ == answered(service, PayloadView::Number(normalized(field32(*handle)))),
{
    let n: u32 = match read_field32(handle) {
        Some(n) => n,
        None => 0,
    };
    reply_with(service, Payload::Number(n))
}

/// The number of an instance modulo two to the power of 32; zero where there is
/// none.
pub open spec fn normalized_instance(handle: Option<u64>) -> u32 {
    match handle {
        Some(n) => (n % 0x1_0000_0000) as u32,
        None => 0,
    }
}

/// The normalized number of an object instance.
pub fn normalize_object_instance(handle: &Option<Vec<u8>>) -> (r: CallResponse)
    ensures
        r@ == answered(
            Service::NormalizeObjectInstanceHandle,
            PayloadView::Number(normalized_instance(field64(*handle))),
        ),
{
    let n: u32 = match read_field64(handle) {
        Some(n) => (n % 0x1_0000_0000) as u32,
        None => 0,
    };
    reply_with(Service::NormalizeObjectInstanceHandle, Payload::Number(n))
}

} // verus!

//! Handles and their wire form.
//!
//! On the wire every handle is a string of bytes: four bytes for most handles,
//! eight for object instances and regions, the most significant byte first.

use crate::exception::HlaException;
use vstd::prelude::*;

verus! {

/// Identifies a joined federate.
pub type FederateHandle = u32;

/// Identifies an object class.
pub type ObjectClassHandle = u32;

/// Identifies an attribute.
pub type AttributeHandle = u32;

/// Identifies an interaction class.
pub type InteractionClassHandle = u32;

/// Identifies a parameter of an interaction class.
pub type ParameterHandle = u32;

/// Identifies a dimension of the routing space.
pub type DimensionHandle = u32;

/// Identifies a registered object instance.
pub type ObjectInstanceHandle = u64;

/// Identifies a region of the routing space.
pub type RegionHandle = u64;

/// Why bytes are not a handle.
#[derive(Debug, Clone, Copy, PartialEq, Eq, Structural)]
pub enum HandleError {
    /// The exception to raise.
    Invalid(HlaException),
}

/// The four bytes of a number.
pub open spec fn bytes_of_u32(n: u32) -> Seq<u8> {
    seq![
        (n / 0x100_0000) as u8,
        (n / 0x1_0000 % 0x100) as u8,
        (n / 0x100 % 0x100) as u8,
        (n % 0x100) as u8,
    ]
}

/// The number that four bytes stand for.
pub open spec fn u32_of_bytes(b: Seq<u8>) -> u32 {
    (b[0] * 0x100_0000 + b[1] * 0x1_0000 + b[2] * 0x100 + b[3]) as u32
}

/// The eight bytes of a number.
pub open spec fn bytes_of_u64(n: u64) -> Seq<u8> {
    bytes_of_u32((n / 0x1_0000_0000) as u32) + bytes_of_u32((n % 0x1_0000_0000) as u32)
}

/// The number that eight bytes stand for.
pub open spec fn u64_of_bytes(b: Seq<u8>) -> u64 {
    (u32_of_bytes(b.take(4)) * 0x1_0000_0000 + u32_of_bytes(b.skip(4))) as u64
}

/// The number that the bytes stand for, where there are four of them.
pub open spec fn handle32(b: Seq<u8>) -> Option<u32> {
    if b.len() == 4 {
        Some(u32_of_bytes(b))
    } else {
        None
    }
}

/// The number that the bytes stand for, where there are eight of them.
pub open spec fn handle64(b: Seq<u8>) -> Option<u64> {
    if b.len() == 8 {
        Some(u64_of_bytes(b))
    } else {
        None
    }
}

/// The handle in a field that may be missing.
pub open spec fn field32(b: Option<Vec<u8>>) -> Option<u32> {
    match b {
        Some(v) => handle32(v@),
        None => None,
    }
}

/// The eight-byte handle in a field that may be missing.
pub open spec fn field64(b: Option<Vec<u8>>) -> Option<u64> {
    match b {
        Some(v) => handle64(v@),
        None => None,
    }
}

/// Decoding the four bytes of a number gives the number back.
pub proof fn decode_encode_u32(n: u32)
    ensures
        bytes_of_u32(n).len() == 4,
        handle32(bytes_of_u32(n)) == Some(n),
{
}

/// Encoding the number that four bytes stand for gives the bytes back.
pub proof fn encode_decode_u32(b: Seq<u8>)
    requires
        b.len() == 4,
    ensures
        bytes_of_u32(u32_of_bytes(b)) == b,
{
    let n = u32_of_bytes(b);
    let (b0, b1, b2, b3) = (b[0] as int, b[1] as int, b[2] as int, b[3] as int);
    assert(n == b0 * 0x100_0000 + b1 * 0x1_0000 + b2 * 0x100 + b3);
    assert(n / 0x100_0000 == b0);
    assert(n / 0x1_0000 == b0 * 0x100 + b1);
    assert((b0 * 0x100 + b1) % 0x100 == b1);
    assert(n / 0x100 == b0 * 0x1_0000 + b1 * 0x100 + b2);
    assert((b0 * 0x1_0000 + b1 * 0x100 + b2) % 0x100 == b2);
    assert(n % 0x100 == b3);
    let c = bytes_of_u32(n);
    assert(c[0] == b[0] && c[1] == b[1] && c[2] == b[2] && c[3] == b[3]);
    assert(c =~= b);
}

/// Decoding the eight bytes of a number gives the number back.
pub proof fn decode_encode_u64(n: u64)
    ensures
        bytes_of_u64(n).len() == 8,
        handle64(bytes_of_u64(n)) == Some(n),
{
    let hi = (n / 0x1_0000_0000) as u32;
    let lo = (n % 0x1_0000_0000) as u32;
    let b = bytes_of_u64(n);
    assert(b.take(4) =~= bytes_of_u32(hi));
    assert(b.skip(4) =~= bytes_of_u32(lo));
    decode_encode_u32(hi);
    decode_encode_u32(lo);
}

/// Encoding the number that eight bytes stand for gives the bytes back.
pub proof fn encode_decode_u64(b: Seq<u8>)
    requires
        b.len() == 8,
    ensures
        bytes_of_u64(u64_of_bytes(b)) == b,
{
    let n = u64_of_bytes(b);
    let hi = u32_of_bytes(b.take(4));
    let lo = u32_of_bytes(b.skip(4));
    assert(n / 0x1_0000_0000 == hi);
    assert(n % 0x1_0000_0000 == lo);
    encode_decode_u32(b.take(4));
    encode_decode_u32(b.skip(4));
    assert(b.take(4) + b.skip(4) =~= b);
}

/// The four bytes of a number.
pub fn encode_u32(raw: u32) -> (r: Vec<u8>)
    ensures
        r@ == bytes_of_u32(raw),
{
    let mut r: Vec<u8> = Vec::new();
    r.push((raw / 0x100_0000) as u8);
    r.push((raw / 0x1_0000 % 0x100) as u8);
    r.push((raw / 0x100 % 0x100) as u8);
    r.push((raw % 0x100) as u8);
    assert(r@ =~= bytes_of_u32(raw));
    r
}

/// The eight bytes of a number.
pub fn encode_u64(raw: u64) -> (r: Vec<u8>)
    ensures
        r@ == bytes_of_u64(raw),
{
    let mut r = encode_u32((raw / 0x1_0000_0000) as u32);
    let mut low = encode_u32((raw % 0x1_0000_0000) as u32);
    r.append(&mut low);
    r
}

fn number_of_four(b: &[u8], from: usize) -> (r: u32)
    requires
        from + 4 <= b@.len(),
    ensures
        r == u32_of_bytes(b@.subrange(from as int, from + 4)),
{
    b[from] as u32 * 0x100_0000 + b[from + 1] as u32 * 0x1_0000 + b[from + 2] as u32 * 0x100 + b[from
        + 3] as u32
}

/// The number that four bytes stand for; the given exception where there are
/// not four.
pub fn decode_u32(bytes: &[u8], exception: HlaException) -> (r: Result<u32, HandleError>)
    ensures
        r == (match handle32(bytes@) {
            Some(n) => Ok::<u32, HandleError>(n),
            None => Err(HandleError::Invalid(exception)),
        }),
{
    if bytes.len() != 4 {
        return Err(HandleError::Invalid(exception));
    }
    assert(bytes@.subrange(0, 4) =~= bytes@);
    Ok(number_of_four(bytes, 0))
}

/// The number that eight bytes stand for; the given exception where there are
/// not eight.
pub fn decode_u64(bytes: &[u8], exception: HlaException) -> (r: Result<u64, HandleError>)
    ensures
        r == (match handle64(bytes@) {
            Some(n) => Ok::<u64, HandleError>(n),
            None => Err(HandleError::Invalid(exception)),
        }),
{
    if bytes.len() != 8 {
        return Err(HandleError::Invalid(exception));
    }
    assert(bytes@.subrange(0, 4) =~= bytes@.take(4));
    assert(bytes@.subrange(4, 8) =~= bytes@.skip(4));
    Ok(number_of_four(bytes, 0) as u64 * 0x1_0000_0000 + number_of_four(bytes, 4) as u64)
}

/// The wire form of an object class handle.
pub fn encode_object_class(h: ObjectClassHandle) -> (r: Vec<u8>)
    ensures
        r@ == bytes_of_u32(h),
{
    encode_u32(h)
}

/// The wire form of an attribute handle.
pub fn encode_attribute(h: AttributeHandle) -> (r: Vec<u8>)
    ensures
        r@ == bytes_of_u32(h),
{
    encode_u32(h)
}

/// The wire form of an interaction class handle.
pub fn encode_interaction_class(h: InteractionClassHandle) -> (r: Vec<u8>)
    ensures
        r@ == bytes_of_u32(h),
{
    encode_u32(h)
}

/// The wire form of a parameter handle.
pub fn encode_parameter(h: ParameterHandle) -> (r: Vec<u8>)
    ensures
        r@ == bytes_of_u32(h),
{
    encode_u32(h)
}

/// The wire form of an object instance handle.
pub fn encode_object_instance(h: ObjectInstanceHandle) -> (r: Vec<u8>)
    ensures
        r@ == bytes_of_u64(h),
{
    encode_u64(h)
}

/// The wire form of a federate handle.
pub fn encode_federate(h: FederateHandle) -> (r: Vec<u8>)
    ensures
        r@ == bytes_of_u32(h),
{
    encode_u32(h)
}

/// The object class handle in bytes.
pub fn decode_object_class(p: &[u8]) -> (r: Result<ObjectClassHandle, HandleError>)
    ensures
        r == (match handle32(p@) {
            Some(n) => Ok::<u32, HandleError>(n),
            None => Err(HandleError::Invalid(HlaException::InvalidObjectClassHandle)),
        }),
{
    decode_u32(p, HlaException::InvalidObjectClassHandle)
}

/// The attribute handle in bytes.
pub fn decode_attribute(p: &[u8]) -> (r: Result<AttributeHandle, HandleError>)
    ensures
        r == (match handle32(p@) {
            Some(n) => Ok::<u32, HandleError>(n),
            None => Err(HandleError::Invalid(HlaException::InvalidAttributeHandle)),
        }),
{
    decode_u32(p, HlaException::InvalidAttributeHandle)
}

/// The interaction class handle in bytes.
pub fn decode_interaction_class(p: &[u8]) -> (r: Result<InteractionClassHandle, HandleError>)
    ensures
        r == (match handle32(p@) {
            Some(n) => Ok::<u32, HandleError>(n),
            None => Err(HandleError::Invalid(HlaException::InvalidInteractionClassHandle)),
        }),
{
    decode_u32(p, HlaException::InvalidInteractionClassHandle)
}

/// The parameter handle in bytes.
pub fn decode_parameter(p: &[u8]) -> (r: Result<ParameterHandle, HandleError>)
    ensures
        r == (match handle32(p@) {
            Some(n) => Ok::<u32, HandleError>(n),
            None => Err(HandleError::Invalid(HlaException::InvalidParameterHandle)),
        }),
{
    decode_u32(p, HlaException::InvalidParameterHandle)
}

/// The object instance handle in bytes.
pub fn decode_object_instance(p: &[u8]) -> (r: Result<ObjectInstanceHandle, HandleError>)
    ensures
        r == (match handle64(p@) {
            Some(n) => Ok::<u64, HandleError>(n),
            None => Err(HandleError::Invalid(HlaException::InvalidObjectInstanceHandle)),
        }),
{
    decode_u64(p, HlaException::InvalidObjectInstanceHandle)
}

/// The handle in a field that may be missing.
pub fn read_field32(b: &Option<Vec<u8>>) -> (r: Option<u32>)
    ensures
        r == field32(*b),
{
    match b {
        Some(v) => match decode_u32(v.as_slice(), HlaException::RtiInternalError) {
            Ok(n) => Some(n),
            Err(_) => None,
        },
        None => None,
    }
}

/// The eight-byte handle in a field that may be missing.
pub fn read_field64(b: &Option<Vec<u8>>) -> (r: Option<u64>)
    ensures
        r == field64(*b),
{
    match b {
        Some(v) => match decode_u64(v.as_slice(), HlaException::RtiInternalError) {
            Ok(n) => Some(n),
            Err(_) => None,
        },
        None => None,
    }
}

} // verus!

//! What the services share: outcomes, and the decoding of request fields.

use crate::callbacks::byte_lists;
use crate::exception::{
    bare, bare_exception, exception_variant, raised, ExceptionData, ExceptionView, HlaException,
};
use crate::federation::{FederateView, FederationView, PubSubView};
use crate::handles::{decode_u32, decode_u64, field32, handle32, handle64};
use crate::messages::{
    done, refused, CallResponse, HandleValueField, ResponseView, Service,
};
use crate::routing::OutboundView;
use crate::tables::{KeySet, Table};
use crate::text::copy_bytes;
use vstd::prelude::*;

verus! {

/// What a service does: the federation afterwards, the response, and the
/// callbacks that are sent.
#[verifier::ext_equal]
pub struct Outcome {
    pub fed: FederationView,
    pub reply: ResponseView,
    pub sent: Seq<OutboundView>,
}

/// The outcome of a refused request: nothing changes and nothing is sent.
pub open spec fn refusal(fed: FederationView, e: ExceptionView) -> Outcome {
    Outcome { fed, reply: refused(e), sent: Seq::empty() }
}

/// The outcome of a service that sends nothing and returns nothing.
pub open spec fn silent(fed: FederationView, service: Service) -> Outcome {
    Outcome { fed, reply: done(service), sent: Seq::empty() }
}

/// The federation with another declaration state for a federate, where that
/// federate is joined.
pub open spec fn with_pub_sub(fed: FederationView, me: u32, ps: PubSubView) -> FederationView {
    if fed.federates.contains_key(me) {
        fed.with_federate(me, FederateView { pub_sub: ps, ..fed.federates[me] })
    } else {
        fed
    }
}

/// The response that refuses a request.
pub fn refuse(e: ExceptionData) -> (r: CallResponse)
    ensures
        r@ == refused(e@),
{
    CallResponse::Exception(e)
}

/// The response that refuses a request without further details.
pub fn refuse_bare(kind: HlaException) -> (r: CallResponse)
    ensures
        r@ == refused(bare(kind)),
{
    CallResponse::Exception(bare_exception(kind))
}

/// The byte strings in a field; none where the field is missing.
pub open spec fn listed(field: Option<Vec<Vec<u8>>>) -> Seq<Seq<u8>> {
    match field {
        Some(l) => byte_lists(l@),
        None => Seq::empty(),
    }
}

/// Whether every byte string is a four-byte handle.
pub open spec fn all_handles(l: Seq<Seq<u8>>) -> bool {
    forall|i: int| 0 <= i < l.len() ==> (#[trigger] l[i]).len() == 4
}

/// The four-byte handles among byte strings.
pub open spec fn handles_in(l: Seq<Seq<u8>>) -> Set<u32> {
    Set::new(|h: u32| exists|i: int| 0 <= i < l.len() && handle32(#[trigger] l[i]) == Some(h))
}

/// The eight-byte handles among byte strings.
pub open spec fn long_handles_in(l: Seq<Seq<u8>>) -> Set<u64> {
    Set::new(|h: u64| exists|i: int| 0 <= i < l.len() && handle64(#[trigger] l[i]) == Some(h))
}

/// The four-byte handles in a field. What is not one is passed over.
pub fn read_handles(field: &Option<Vec<Vec<u8>>>) -> (r: KeySet<u32>)
    ensures
        r@ == handles_in(listed(*field)),
{
    let mut out: KeySet<u32> = KeySet::new();
    let ghost l = listed(*field);
    if let Some(list) = field {
        let mut i: usize = 0;
        assert(handles_in(l.take(0)) =~= Set::empty());
        while i < list.len()
            invariant
                i <= list@.len(),
                l == byte_lists(list@),
                out@ == handles_in(l.take(i as int)),
            decreases list@.len() - i,
        {
            proof {
                lemma_handles_push(l, i as int);
            }
            if let Ok(h) = decode_u32(list[i].as_slice(), HlaException::RtiInternalError) {
                out.insert(h);
            }
            i = i + 1;
        }
        assert(l.take(i as int) =~= l);
    } else {
        assert(handles_in(l) =~= Set::empty());
    }
    out
}

/// The handles among one more byte string.
proof fn lemma_handles_push(l: Seq<Seq<u8>>, i: int)
    requires
        0 <= i < l.len(),
    ensures
        handles_in(l.take(i + 1)) == (match handle32(l[i]) {
            Some(h) => handles_in(l.take(i)).insert(h),
            None => handles_in(l.take(i)),
        }),
        long_handles_in(l.take(i + 1)) == (match handle64(l[i]) {
            Some(h) => long_handles_in(l.take(i)).insert(h),
            None => long_handles_in(l.take(i)),
        }),
{
    let a = l.take(i);
    let b = l.take(i + 1);
    assert(b[i] == l[i]);
    assert forall|h: u32| #[trigger]
        handles_in(b).contains(h) <==> handles_in(a).contains(h) || handle32(l[i]) == Some(h) by {
        if handles_in(b).contains(h) {
            let k = choose|k: int| 0 <= k < b.len() && handle32(#[trigger] b[k]) == Some(h);
            if k < i {
                assert(a[k] == b[k]);
            }
        }
        if handles_in(a).contains(h) {
            let k = choose|k: int| 0 <= k < a.len() && handle32(#[trigger] a[k]) == Some(h);
            assert(b[k] == a[k]);
        }
    }
    assert forall|h: u64| #[trigger]
        long_handles_in(b).contains(h) <==> long_handles_in(a).contains(h) || handle64(l[i])
            == Some(h) by {
        if long_handles_in(b).contains(h) {
            let k = choose|k: int| 0 <= k < b.len() && handle64(#[trigger] b[k]) == Some(h);
            if k < i {
                assert(a[k] == b[k]);
            }
        }
        if long_handles_in(a).contains(h) {
            let k = choose|k: int| 0 <= k < a.len() && handle64(#[trigger] a[k]) == Some(h);
            assert(b[k] == a[k]);
        }
    }
    match handle32(l[i]) {
        Some(h) => {
            assert(handles_in(b) =~= handles_in(a).insert(h));
        },
        None => {
            assert(handles_in(b) =~= handles_in(a));
        },
    }
    match handle64(l[i]) {
        Some(h) => {
            assert(long_handles_in(b) =~= long_handles_in(a).insert(h));
        },
        None => {
            assert(long_handles_in(b) =~= long_handles_in(a));
        },
    }
}

/// The eight-byte handles in a field. What is not one is passed over.
pub fn read_long_handles(field: &Option<Vec<Vec<u8>>>) -> (r: KeySet<u64>)
    ensures
        r@ == long_handles_in(listed(*field)),
{
    let mut out: KeySet<u64> = KeySet::new();
    let ghost l = listed(*field);
    if let Some(list) = field {
        let mut i: usize = 0;
        assert(long_handles_in(l.take(0)) =~= Set::empty());
        while i < list.len()
            invariant
                i <= list@.len(),
                l == byte_lists(list@),
                out@ == long_handles_in(l.take(i as int)),
            decreases list@.len() - i,
        {
            proof {
                lemma_handles_push(l, i as int);
            }
            if let Ok(h) = decode_u64(list[i].as_slice(), HlaException::RtiInternalError) {
                out.insert(h);
            }
            i = i + 1;
        }
        assert(l.take(i as int) =~= l);
    } else {
        assert(long_handles_in(l) =~= Set::empty());
    }
    out
}

/// The attribute handles in a field; an exception where something else stands
/// there.
pub fn decode_handle_set(field: &Option<Vec<Vec<u8>>>) -> (r: Result<KeySet<u32>, ExceptionData>)
    ensures
        match r {
            Ok(s) => all_handles(listed(*field)) && s@ == handles_in(listed(*field)),
            Err(e) => !all_handles(listed(*field)) && e@ == bare(
                HlaException::InvalidAttributeHandle,
            ),
        },
{
    let ghost l = listed(*field);
    if let Some(list) = field {
        let mut i: usize = 0;
        while i < list.len()
            invariant
                i <= list@.len(),
                l == byte_lists(list@),
                l == listed(*field),
                forall|k: int| 0 <= k < i ==> (#[trigger] l[k]).len() == 4,
            decreases list@.len() - i,
        {
            if list[i].len() != 4 {
                assert(l[i as int].len() != 4);
                return Err(bare_exception(HlaException::InvalidAttributeHandle));
            }
            i = i + 1;
        }
    }
    Ok(read_handles(field))
}

/// Why a field of values under handles is refused: the first entry without a
/// handle, or with one that is none.
pub open spec fn value_fault(
    l: Seq<HandleValueField>,
    invalid: HlaException,
) -> Option<ExceptionView>
    decreases l.len(),
{
    if l.len() == 0 {
        None
    } else {
        match l[0].handle {
            None => Some(raised(invalid, "missing handle"@)),
            Some(h) => if h@.len() != 4 {
                Some(bare(invalid))
            } else {
                value_fault(l.skip(1), invalid)
            },
        }
    }
}

/// The values under handles in a field; of two values under one handle the
/// later one counts.
pub open spec fn values_in(l: Seq<HandleValueField>) -> Map<u32, Seq<u8>>
    decreases l.len(),
{
    if l.len() == 0 {
        Map::empty()
    } else {
        let rest = values_in(l.drop_last());
        match field32(l.last().handle) {
            Some(h) => rest.insert(h, l.last().value@),
            None => rest,
        }
    }
}

/// The values in a field; none where the field is missing.
pub open spec fn value_fields(field: Option<Vec<HandleValueField>>) -> Seq<HandleValueField> {
    match field {
        Some(l) => l@,
        None => Seq::empty(),
    }
}

fn decode_value_map(
    field: &Option<Vec<HandleValueField>>,
    invalid: HlaException,
) -> (r: Result<Table<u32, Vec<u8>>, ExceptionData>)
    ensures
        match r {
            Ok(t) => value_fault(value_fields(*field), invalid) is None && t@ == values_in(
                value_fields(*field),
            ),
            Err(e) => value_fault(value_fields(*field), invalid) == Some(e@),
        },
{
    let mut out: Table<u32, Vec<u8>> = Table::new();
    let ghost l = value_fields(*field);
    if let Some(list) = field {
        let mut i: usize = 0;
        proof {
            assert(l.skip(0) =~= l);
            assert(l.take(0) =~= Seq::empty());
        }
        while i < list.len()
            invariant
                i <= list@.len(),
                l == list@,
                l == value_fields(*field),
                value_fault(l, invalid) == value_fault(l.skip(i as int), invalid),
                out@ == values_in(l.take(i as int)),
            decreases list@.len() - i,
        {
            let entry = &list[i];
            proof {
                assert(l.skip(i as int).skip(1) =~= l.skip(i + 1));
                assert(l.skip(i as int)[0] == *entry);
                assert(l.take(i + 1).drop_last() =~= l.take(i as int));
                assert(l.take(i + 1).last() == *entry);
            }
            match &entry.handle {
                None => {
                    return Err(
                        exception_variant(invalid, "missing handle"),
                    );
                },
                Some(h) => {
                    match decode_u32(h.as_slice(), invalid) {
                        Ok(n) => {
                            out.insert(n, copy_bytes(entry.value.as_slice()));
                        },
                        Err(_) => {
                            return Err(bare_exception(invalid));
                        },
                    }
                },
            }
            i = i + 1;
        }
        proof {
            assert(l.skip(i as int) =~= Seq::empty());
            assert(l.take(i as int) =~= l);
        }
    }
    Ok(out)
}

/// The attribute values in a field.
pub fn decode_attribute_value_map(field: &Option<Vec<HandleValueField>>) -> (r: Result<
    Table<u32, Vec<u8>>,
    ExceptionData,
>)
    ensures
        match r {
            Ok(t) => value_fault(
                value_fields(*field),
                HlaException::InvalidAttributeHandle,
            ) is None && t@ == values_in(value_fields(*field)),
            Err(e) => value_fault(value_fields(*field), HlaException::InvalidAttributeHandle)
                == Some(e@),
        },
{
    decode_value_map(field, HlaException::InvalidAttributeHandle)
}

/// The parameter values in a field.
pub fn decode_parameter_value_map(field: &Option<Vec<HandleValueField>>) -> (r: Result<
    Table<u32, Vec<u8>>,
    ExceptionData,
>)
    ensures
        match r {
            Ok(t) => value_fault(
                value_fields(*field),
                HlaException::InvalidParameterHandle,
            ) is None && t@ == values_in(value_fields(*field)),
            Err(e) => value_fault(value_fields(*field), HlaException::InvalidParameterHandle)
                == Some(e@),
        },
{
    decode_value_map(field, HlaException::InvalidParameterHandle)
}

} // verus!

//! Values in requests and on the wire.

use crate::callbacks::HandleValueView;
use crate::dispatch::ddm_regions::{
    attribute_regions_in, pair_attributes, pair_regions, region_pairs,
};
use crate::dispatch::helpers::{listed, long_handles_in, value_fault, value_fields, values_in};
use crate::exception::HlaException;
use crate::handles::{
    bytes_of_u32, bytes_of_u64, decode_encode_u32, decode_encode_u64, encode_decode_u32,
    encode_decode_u64, field32, handle64, u64_of_bytes,
};
use crate::laws::{lemma_names, names};
use crate::messages::{HandleValueField, RegionPair};
use crate::routing::value_list;
use crate::subscriptions::lemma_handles_finite;
use crate::tables::{ascending, lemma_ascending};
use vstd::prelude::*;

verus! {

/// Whether every value in a request comes with a handle.
pub open spec fn values_are_valid(field: Option<Vec<HandleValueField>>) -> bool {
    field matches Some(l) ==> forall|i: int|
        0 <= i < l@.len() ==> ((#[trigger] l@[i]).handle matches Some(b) && b@.len() == 4)
}

/// Whether a request gives a value for a handle.
pub open spec fn gives_value(field: Option<Vec<HandleValueField>>, h: u32) -> bool {
    field matches Some(l) && exists|i: int| gives_at(l@, i, h)
}

/// Whether an entry of a list gives a value for a handle.
pub open spec fn gives_at(l: Seq<HandleValueField>, i: int, h: u32) -> bool {
    0 <= i < l.len() && (l[i].handle matches Some(b) && b@ == bytes_of_u32(h))
}

/// Whether a value is the last one that a request gives for a handle.
pub open spec fn last_value(
    field: Option<Vec<HandleValueField>>,
    h: u32,
    value: Seq<u8>,
) -> bool {
    field matches Some(l) && exists|i: int| #[trigger]
        gives_at(l@, i, h) && l@[i].value@ == value && (forall|j: int|
            i < j < l@.len() ==> !(#[trigger] gives_at(l@, j, h)))
}

/// Whether an entry on the wire is the last value that a request gives for its handle.
pub open spec fn is_last_value(
    entry: HandleValueView,
    field: Option<Vec<HandleValueField>>,
) -> bool {
    exists|h: u32|
        entry.handle == #[trigger] bytes_of_u32(h) && last_value(field, h, entry.value)
}

/// Whether a list of values on the wire is what a request gives: for each handle once,
/// with the last value that the request gives for it.
pub open spec fn carries(
    list: Seq<HandleValueView>,
    field: Option<Vec<HandleValueField>>,
) -> bool {
    &&& forall|i: int| 0 <= i < list.len() ==> is_last_value(#[trigger] list[i], field)
    &&& forall|h: u32| #[trigger]
        gives_value(field, h) ==> exists|i: int|
            0 <= i < list.len() && (#[trigger] list[i]).handle == bytes_of_u32(h)
    &&& forall|i: int, j: int|
        0 <= i < list.len() && 0 <= j < list.len() && (#[trigger] list[i]).handle == (
        #[trigger] list[j]).handle ==> i == j
}

spec fn valid_list(l: Seq<HandleValueField>) -> bool {
    forall|i: int|
        0 <= i < l.len() ==> ((#[trigger] l[i]).handle matches Some(b) && b@.len() == 4)
}

proof fn lemma_fault(l: Seq<HandleValueField>, invalid: HlaException)
    ensures
        value_fault(l, invalid) is None <==> valid_list(l),
        value_fault(l, invalid) matches Some(e) ==> e.exception == invalid,
    decreases l.len(),
{
    if l.len() > 0 {
        let rest = l.skip(1);
        lemma_fault(rest, invalid);
        if valid_list(l) {
            assert forall|i: int| 0 <= i < rest.len() implies ((#[trigger] rest[i]).handle matches Some(
                b,
            ) && b@.len() == 4) by {
                assert(rest[i] == l[i + 1]);
            }
        }
        if l[0].handle is Some && l[0].handle->0@.len() == 4 && valid_list(rest) {
            assert forall|i: int| 0 <= i < l.len() implies ((#[trigger] l[i]).handle matches Some(b)
                && b@.len() == 4) by {
                if i > 0 {
                    assert(rest[i - 1] == l[i]);
                }
            }
        }
    }
}

/// A value without a handle spoils a request.
pub(crate) proof fn lemma_values_are_valid(
    field: Option<Vec<HandleValueField>>,
    invalid: HlaException,
)
    ensures
        value_fault(value_fields(field), invalid) is None <==> values_are_valid(field),
        value_fault(value_fields(field), invalid) matches Some(e) ==> e.exception == invalid,
{
    lemma_fault(value_fields(field), invalid);
}

proof fn lemma_values_list(l: Seq<HandleValueField>, h: u32)
    requires
        valid_list(l),
    ensures
        values_in(l).contains_key(h) <==> (exists|i: int| gives_at(l, i, h)),
        values_in(l).contains_key(h) ==> (exists|i: int| #[trigger]
            gives_at(l, i, h) && l[i].value@ == values_in(l)[h] && (forall|j: int|
                i < j < l.len() ==> !(#[trigger] gives_at(l, j, h)))),
    decreases l.len(),
{
    if l.len() > 0 {
        let rest = l.drop_last();
        let n = l.len() - 1;
        assert forall|i: int| 0 <= i < rest.len() implies ((#[trigger] rest[i]).handle matches Some(
            b,
        ) && b@.len() == 4) by {
            assert(rest[i] == l[i]);
        }
        lemma_values_list(rest, h);
        assert forall|i: int| gives_at(rest, i, h) <==> gives_at(l, i, h) && i < n by {}
        assert(l[n].handle is Some);
        let b = l[n].handle->0@;
        encode_decode_u32(b);
        decode_encode_u32(h);
        assert(field32(l.last().handle) == Some(h) <==> gives_at(l, n, h));
        if gives_at(l, n, h) {
        } else if values_in(rest).contains_key(h) {
            let i = choose|i: int| #[trigger]
                gives_at(rest, i, h) && rest[i].value@ == values_in(rest)[h] && (forall|j: int|
                    i < j < rest.len() ==> !(#[trigger] gives_at(rest, j, h)));
            assert(gives_at(l, i, h));
            assert forall|j: int| i < j < l.len() implies !(#[trigger] gives_at(l, j, h)) by {
                if j < n {
                    assert(!gives_at(rest, j, h));
                }
            }
        } else {
            assert forall|i: int| !gives_at(l, i, h) by {
                assert(!gives_at(rest, i, h));
            }
        }
    }
}

/// The values that a request gives.
pub(crate) proof fn lemma_values(field: Option<Vec<HandleValueField>>, h: u32)
    requires
        values_are_valid(field),
    ensures
        values_in(value_fields(field)).contains_key(h) <==> gives_value(field, h),
        values_in(value_fields(field)).contains_key(h) ==> last_value(
            field,
            h,
            values_in(value_fields(field))[h],
        ),
{
    lemma_values_list(value_fields(field), h);
}

/// Values go on the wire as the request gives them.
pub proof fn values_are_passed_on(field: Option<Vec<HandleValueField>>)
    requires
        values_are_valid(field),
    ensures
        carries(value_list(values_in(value_fields(field))), field),
{
    let m = values_in(value_fields(field));
    let q = ascending(m.dom());
    let list = value_list(m);
    lemma_handles_finite(m.dom());
    lemma_ascending(m.dom());
    assert forall|i: int| 0 <= i < list.len() implies is_last_value(
        #[trigger] list[i],
        field,
    ) by {
        let h = q[i];
        assert(q.contains(h));
        lemma_values(field, h);
        assert(list[i].handle == bytes_of_u32(h));
    }
    assert forall|h: u32| #[trigger] gives_value(field, h) implies exists|i: int|
        0 <= i < list.len() && (#[trigger] list[i]).handle == bytes_of_u32(h) by {
        lemma_values(field, h);
        assert(q.contains(h));
        let i = q.index_of(h);
        assert(list[i].handle == bytes_of_u32(h));
    }
    assert forall|i: int, j: int|
        0 <= i < list.len() && 0 <= j < list.len() && (#[trigger] list[i]).handle == (
        #[trigger] list[j]).handle implies i == j by {
        decode_encode_u32(q[i]);
        decode_encode_u32(q[j]);
        assert(q[i] == q[j]);
    }
}

/// Whether a list of handles of regions in a request names one.
pub open spec fn names_region(field: Option<Vec<Vec<u8>>>, r: u64) -> bool {
    field matches Some(l) && exists|i: int|
        0 <= i < l@.len() && (#[trigger] l@[i])@ == bytes_of_u64(r)
}

/// Whether a request pairs an attribute with regions.
pub open spec fn pairs_attribute(field: Option<Vec<RegionPair>>, a: u32) -> bool {
    field matches Some(l) && exists|i: int|
        0 <= i < l@.len() && names((#[trigger] l@[i]).attribute_set, a)
}

/// Whether a request pairs an attribute with a region.
pub open spec fn pairs_with(field: Option<Vec<RegionPair>>, a: u32, r: u64) -> bool {
    field matches Some(l) && exists|i: int|
        0 <= i < l@.len() && names((#[trigger] l@[i]).attribute_set, a) && names_region(
            l@[i].region_set,
            r,
        )
}

proof fn lemma_names_region(field: Option<Vec<Vec<u8>>>, r: u64)
    ensures
        long_handles_in(listed(field)).contains(r) <==> names_region(field, r),
{
    let l = listed(field);
    decode_encode_u64(r);
    if long_handles_in(l).contains(r) {
        let i = choose|i: int| 0 <= i < l.len() && handle64(#[trigger] l[i]) == Some(r);
        encode_decode_u64(l[i]);
        assert(u64_of_bytes(l[i]) == r);
        assert(field->0@[i]@ == bytes_of_u64(r));
    }
    if names_region(field, r) {
        let i = choose|i: int|
            0 <= i < field->0@.len() && (#[trigger] field->0@[i])@ == bytes_of_u64(r);
        assert(l[i] == bytes_of_u64(r));
    }
}

/// The regions that a request pairs with attributes.
pub(crate) proof fn lemma_pairs(field: Option<Vec<RegionPair>>, a: u32)
    ensures
        attribute_regions_in(region_pairs(field)).contains_key(a) <==> pairs_attribute(field, a),
        attribute_regions_in(region_pairs(field)).contains_key(a) ==> forall|r: u64| #[trigger]
            attribute_regions_in(region_pairs(field))[a].contains(r) <==> pairs_with(field, a, r),
{
    let l = region_pairs(field);
    let m = attribute_regions_in(l);
    assert forall|i: int| 0 <= i < l.len() implies (pair_attributes(#[trigger] l[i]).contains(a)
        <==> names(l[i].attribute_set, a)) by {
        lemma_names(l[i].attribute_set, a);
    }
    assert forall|i: int, r: u64| 0 <= i < l.len() implies (pair_regions(
        #[trigger] l[i],
    ).contains(r) <==> #[trigger] names_region(l[i].region_set, r)) by {
        lemma_names_region(l[i].region_set, r);
    }
    if m.contains_key(a) {
        let i = choose|i: int| 0 <= i < l.len() && pair_attributes(#[trigger] l[i]).contains(a);
        assert(names(field->0@[i].attribute_set, a));
    }
    if pairs_attribute(field, a) {
        let i = choose|i: int|
            0 <= i < field->0@.len() && names((#[trigger] field->0@[i]).attribute_set, a);
        assert(pair_attributes(l[i]).contains(a));
    }
    if m.contains_key(a) {
        assert forall|r: u64| #[trigger] m[a].contains(r) <==> pairs_with(field, a, r) by {
            if m[a].contains(r) {
                let i = choose|i: int|
                    0 <= i < l.len() && pair_attributes(#[trigger] l[i]).contains(a)
                        && pair_regions(l[i]).contains(r);
                assert(names(field->0@[i].attribute_set, a));
                assert(names_region(field->0@[i].region_set, r));
            }
            if pairs_with(field, a, r) {
                let i = choose|i: int|
                    0 <= i < field->0@.len() && names((#[trigger] field->0@[i]).attribute_set, a)
                        && names_region(field->0@[i].region_set, r);
                assert(names_region(l[i].region_set, r));
                assert(pair_attributes(l[i]).contains(a) && pair_regions(l[i]).contains(r));
            }
        }
    }
}

} // verus!

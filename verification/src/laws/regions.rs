//! Regions: their bounds, and the subscriptions that they restrict.

use crate::callbacks::CallbackView;
use crate::dispatch::advisories::class_publishers;
use crate::dispatch::calls::{exchange_outcome, lookup_reply, member_outcome, quiet_outcome};
use crate::dispatch::ddm_lifecycle::{after_commits, committed, names_foreign_region};
use crate::dispatch::ddm_regions::{
    attribute_regions_in, key_among, region_pairs, with_regions, without_regions,
};
use crate::dispatch::helpers::{handles_in, listed};
use crate::dispatch::restore::SnapshotLoadView;
use crate::exception::HlaException;
use crate::federation::{FederationView, PubSubView, RegionView};
use crate::handles::{
    bytes_of_u32, bytes_of_u64, decode_encode_u64, encode_decode_u64, field32, field64, handle64,
};
use crate::laws::declaration::{in_use, only_declarations_differ, to_be_advised};
use crate::laws::models::{answers, defines, lemma_defines};
use crate::laws::values::{lemma_pairs, names_region, pairs_attribute, pairs_with};
use crate::laws::{
    handles_are_listed_once, lemma_names, lemma_tells_set, lists, names, only_if, own_sessions,
    refuses, serves, tells,
};
use crate::messages::{CallRequest, PayloadView, RangeBounds, RegionPair, ResponseView, Service};
use crate::routing::{handle_list, OutboundView};
use crate::subscriptions::{lemma_pair_key, pair_key};
use crate::tables::ascending;
use vstd::prelude::*;

verus! {

/// A new region has the next number, belongs to who made it, and covers exactly the named
/// dimensions, each wholly. Nothing else changes.
pub proof fn a_new_region_covers_its_dimensions(
    fed: FederationView,
    conns: Map<u64, u64>,
    me: u32,
    dimensions: Option<Vec<Vec<u8>>>,
    load: SnapshotLoadView,
)
    requires
        fed.next_region_id < u64::MAX,
    ensures
        ({
            let request = CallRequest::CreateRegion { dimensions };
            let o = member_outcome(fed, conns, me, request, load);
            let h = fed.next_region_id;
            let region = o.fed.regions[h];
            &&& o.reply == (ResponseView::Reply {
                service: Service::CreateRegion,
                payload: PayloadView::Handle(bytes_of_u64(h)),
            })
            &&& o.sent.len() == 0
            &&& o.fed == (FederationView {
                regions: fed.regions.insert(h, region),
                next_region_id: (h + 1) as u64,
                ..fed
            })
            &&& region.handle == h
            &&& region.owner == me
            &&& region.staged == region.committed
            &&& forall|d: u32| #[trigger]
                region.committed.contains_key(d) <==> names(dimensions, d)
            &&& forall|d: u32| #[trigger]
                region.committed.contains_key(d) ==> region.committed[d] == (0u32, u32::MAX)
        }),
{
    reveal(lookup_reply);
    reveal(quiet_outcome);
    let s = handles_in(listed(dimensions));
    assert forall|d: u32| s.contains(d) <==> names(dimensions, d) by {
        lemma_names(dimensions, d);
    }
}

/// New bounds are set for the dimension of a region that is named, by its owner alone;
/// they are not in force until they are committed.
pub proof fn new_bounds_are_staged(
    fed: FederationView,
    conns: Map<u64, u64>,
    me: u32,
    region: Option<Vec<u8>>,
    dimension: Option<Vec<u8>>,
    range_bounds: Option<RangeBounds>,
    load: SnapshotLoadView,
)
    ensures
        ({
            let request = CallRequest::SetRangeBounds { region, dimension, range_bounds };
            let o = member_outcome(fed, conns, me, request, load);
            match (field64(region), field32(dimension), range_bounds) {
                (None, _, _) => refuses(o, fed, HlaException::InvalidRegion),
                (Some(_), None, _) => refuses(o, fed, HlaException::InvalidDimension),
                (Some(_), Some(_), None) => refuses(o, fed, HlaException::InvalidRangeBound),
                (Some(h), Some(d), Some(b)) => if b.upper < b.lower {
                    refuses(o, fed, HlaException::InvalidRangeBound)
                } else if !fed.regions.contains_key(h) {
                    refuses(o, fed, HlaException::InvalidRegion)
                } else if fed.regions[h].owner != me {
                    refuses(o, fed, HlaException::RegionNotCreatedByThisFederate)
                } else {
                    let next = o.fed.regions[h];
                    &&& serves(o, Service::SetRangeBounds)
                    &&& o.sent.len() == 0
                    &&& o.fed == (FederationView { regions: fed.regions.insert(h, next), ..fed })
                    &&& next.handle == fed.regions[h].handle
                    &&& next.owner == me
                    &&& next.committed == fed.regions[h].committed
                    &&& next.staged == fed.regions[h].staged.insert(d, (b.lower, b.upper))
                },
            }
        }),
{
    reveal(lookup_reply);
    reveal(quiet_outcome);
}

/// The bounds of a region that are answered are those in force; a dimension that it does
/// not have is unbounded.
pub proof fn bounds_in_force_are_answered(
    fed: FederationView,
    conns: Map<u64, u64>,
    me: u32,
    region: Option<Vec<u8>>,
    dimension: Option<Vec<u8>>,
    load: SnapshotLoadView,
)
    ensures
        ({
            let request = CallRequest::GetRangeBounds { region, dimension };
            let o = member_outcome(fed, conns, me, request, load);
            match (field64(region), field32(dimension)) {
                (None, _) => refuses(o, fed, HlaException::InvalidRegion),
                (Some(_), None) => refuses(o, fed, HlaException::InvalidDimension),
                (Some(h), Some(d)) => if !fed.regions.contains_key(h) {
                    refuses(o, fed, HlaException::InvalidRegion)
                } else {
                    let bounds = fed.regions[h].committed;
                    answers(
                        o,
                        fed,
                        Service::GetRangeBounds,
                        PayloadView::Range(
                            if bounds.contains_key(d) {
                                RangeBounds { lower: bounds[d].0, upper: bounds[d].1 }
                            } else {
                                RangeBounds { lower: 0, upper: u32::MAX }
                            },
                        ),
                    )
                },
            }
        }),
{
    reveal(lookup_reply);
}

/// The dimensions of a region that are answered are those in force, each once.
pub proof fn dimensions_in_force_are_answered(
    fed: FederationView,
    conns: Map<u64, u64>,
    me: u32,
    region: Option<Vec<u8>>,
    load: SnapshotLoadView,
)
    ensures
        ({
            let request = CallRequest::GetDimensionHandleSet { region };
            let o = member_outcome(fed, conns, me, request, load);
            match field64(region) {
                Some(h) if fed.regions.contains_key(h) => {
                    let list = handle_list(ascending(fed.regions[h].committed.dom()));
                    &&& lists(list, fed.regions[h].committed.dom())
                    &&& answers(
                        o,
                        fed,
                        Service::GetDimensionHandleSet,
                        PayloadView::Handles(list),
                    )
                },
                _ => refuses(o, fed, HlaException::InvalidRegion),
            }
        }),
{
    reveal(lookup_reply);
    if let Some(h) = field64(region) {
        handles_are_listed_once(fed.regions[h].committed.dom());
    }
}

/// A region is deleted by its owner alone, and nothing else goes with it.
pub proof fn a_region_is_deleted_by_its_owner(
    fed: FederationView,
    conns: Map<u64, u64>,
    me: u32,
    region: Option<Vec<u8>>,
    load: SnapshotLoadView,
)
    ensures
        ({
            let request = CallRequest::DeleteRegion { region };
            let o = member_outcome(fed, conns, me, request, load);
            match field64(region) {
                Some(h) if fed.regions.contains_key(h) => if fed.regions[h].owner == me {
                    &&& serves(o, Service::DeleteRegion)
                    &&& o.sent.len() == 0
                    &&& o.fed == (FederationView { regions: fed.regions.remove(h), ..fed })
                } else {
                    refuses(o, fed, HlaException::RegionNotCreatedByThisFederate)
                },
                _ => refuses(o, fed, HlaException::InvalidRegion),
            }
        }),
{
    reveal(lookup_reply);
    reveal(quiet_outcome);
}

/// Whether an entry of a list is the handle of a region that belongs to another
/// federate.
pub open spec fn is_foreign(
    regions: Map<u64, RegionView>,
    me: u32,
    l: Seq<Seq<u8>>,
    i: int,
) -> bool {
    exists|h: u64|
        #![trigger regions.contains_key(h)]
        0 <= i < l.len() && l[i] == bytes_of_u64(h) && regions.contains_key(h) && regions[h].owner
            != me
}

/// Whether a list names a region, with no region of another federate before it.
pub open spec fn named_in_time(
    regions: Map<u64, RegionView>,
    me: u32,
    l: Seq<Seq<u8>>,
    h: u64,
) -> bool {
    exists|i: int|
        0 <= i < l.len() && #[trigger] l[i] == bytes_of_u64(h) && (forall|j: int|
            0 <= j <= i ==> !#[trigger] is_foreign(regions, me, l, j))
}

proof fn lemma_commits(regions: Map<u64, RegionView>, me: u32, l: Seq<Seq<u8>>, h: u64)
    ensures
        ({
            let next = after_commits(regions, me, l);
            &&& next.contains_key(h) <==> regions.contains_key(h)
            &&& regions.contains_key(h) ==> next[h] == (if named_in_time(regions, me, l, h) {
                RegionView { committed: regions[h].staged, ..regions[h] }
            } else {
                regions[h]
            })
        }),
    decreases l.len(),
{
    if l.len() > 0 {
        let rest = l.drop_first();
        let first = handle64(l[0]);
        if first is Some {
            encode_decode_u64(l[0]);
        }
        assert forall|x: u64| l[0] == #[trigger] bytes_of_u64(x) implies first == Some(x) by {
            decode_encode_u64(x);
        }
        let stops = first is Some && regions.contains_key(first->0) && regions[first->0].owner != me;
        assert(is_foreign(regions, me, l, 0) <==> stops) by {
            if stops {
                assert(regions.contains_key(first->0));
            }
        }
        if stops {
            assert(!named_in_time(regions, me, l, h));
        } else {
            let takes = first is Some && regions.contains_key(first->0);
            let mid = if takes {
                regions.insert(first->0, committed(regions[first->0]))
            } else {
                regions
            };
            lemma_commits(mid, me, rest, h);
            assert forall|j: int| #[trigger] is_foreign(mid, me, rest, j) <==> is_foreign(
                regions,
                me,
                l,
                j + 1,
            ) && j >= 0 by {
                if is_foreign(mid, me, rest, j) {
                    let x = choose|x: u64|
                        #![trigger mid.contains_key(x)]
                        0 <= j < rest.len() && rest[j] == bytes_of_u64(x) && mid.contains_key(x)
                            && mid[x].owner != me;
                    assert(regions.contains_key(x));
                    assert(l[j + 1] == rest[j]);
                }
                if j >= 0 && is_foreign(regions, me, l, j + 1) {
                    let x = choose|x: u64|
                        #![trigger regions.contains_key(x)]
                        0 <= j + 1 < l.len() && l[j + 1] == bytes_of_u64(x)
                            && regions.contains_key(x) && regions[x].owner != me;
                    assert(mid.contains_key(x));
                    assert(l[j + 1] == rest[j]);
                }
            }
            if named_in_time(mid, me, rest, h) {
                let i = choose|i: int|
                    0 <= i < rest.len() && #[trigger] rest[i] == bytes_of_u64(h) && (forall|j: int|
                        0 <= j <= i ==> !#[trigger] is_foreign(mid, me, rest, j));
                assert forall|j: int| 0 <= j <= i + 1 implies !#[trigger] is_foreign(
                    regions,
                    me,
                    l,
                    j,
                ) by {
                    if j > 0 {
                        assert(!is_foreign(mid, me, rest, j - 1));
                    }
                }
                assert(l[i + 1] == bytes_of_u64(h));
            }
            if named_in_time(regions, me, l, h) {
                let i = choose|i: int|
                    0 <= i < l.len() && #[trigger] l[i] == bytes_of_u64(h) && (forall|j: int|
                        0 <= j <= i ==> !#[trigger] is_foreign(regions, me, l, j));
                if i > 0 {
                    assert forall|j: int| 0 <= j <= i - 1 implies !#[trigger] is_foreign(
                        mid,
                        me,
                        rest,
                        j,
                    ) by {
                        assert(!is_foreign(regions, me, l, j + 1));
                    }
                    assert(rest[i - 1] == bytes_of_u64(h));
                    assert(named_in_time(mid, me, rest, h));
                } else {
                    assert(first == Some(h));
                }
            }
            if takes && first == Some(h) {
                assert(l[0] == bytes_of_u64(h));
                assert(named_in_time(regions, me, l, h));
            }
        }
    }
}

/// To commit regions puts the bounds that were set for them in force, in the order of the
/// list, up to the first region that belongs to another federate; for that one the
/// request is refused. No other region is touched.
pub proof fn committed_bounds_are_in_force(
    fed: FederationView,
    conns: Map<u64, u64>,
    me: u32,
    regions: Option<Vec<Vec<u8>>>,
    load: SnapshotLoadView,
    h: u64,
)
    ensures
        ({
            let request = CallRequest::CommitRegionModifications { regions };
            let o = member_outcome(fed, conns, me, request, load);
            let l = listed(regions);
            &&& o.sent.len() == 0
            &&& o.fed == (FederationView { regions: o.fed.regions, ..fed })
            &&& o.fed.regions.contains_key(h) <==> fed.regions.contains_key(h)
            &&& fed.regions.contains_key(h) ==> o.fed.regions[h] == (if named_in_time(
                fed.regions,
                me,
                l,
                h,
            ) {
                RegionView { committed: fed.regions[h].staged, ..fed.regions[h] }
            } else {
                fed.regions[h]
            })
            &&& if exists|i: int| is_foreign(fed.regions, me, l, i) {
                o.reply matches ResponseView::Exception(e) && e.exception
                    == HlaException::RegionNotCreatedByThisFederate
            } else {
                serves(o, Service::CommitRegionModifications)
            }
        }),
{
    reveal(lookup_reply);
    reveal(quiet_outcome);
    let l = listed(regions);
    lemma_commits(fed.regions, me, l, h);
    if names_foreign_region(fed.regions, me, l) {
        let i = choose|i: int|
            0 <= i < l.len() && {
                let h = handle64(#[trigger] l[i]);
                h is Some && fed.regions.contains_key(h->0) && fed.regions[h->0].owner != me
            };
        encode_decode_u64(l[i]);
        assert(fed.regions.contains_key(handle64(l[i])->0));
        assert(is_foreign(fed.regions, me, l, i));
    }
    if exists|i: int| is_foreign(fed.regions, me, l, i) {
        let i = choose|i: int| is_foreign(fed.regions, me, l, i);
        let x = choose|x: u64|
            #![trigger fed.regions.contains_key(x)]
            0 <= i < l.len() && l[i] == bytes_of_u64(x) && fed.regions.contains_key(x)
                && fed.regions[x].owner != me;
        decode_encode_u64(x);
        assert(handle64(l[i]) == Some(x));
    }
}

/// Whether regions are added to those that restrict subscriptions to attributes of a
/// class, as a request pairs them, and all other restrictions are as they were.
pub open spec fn restricts_more(
    a: Map<u64, Set<u64>>,
    b: Map<u64, Set<u64>>,
    class: u32,
    pairs: Option<Vec<RegionPair>>,
) -> bool {
    &&& forall|c: u32, x: u32| #[trigger]
        b.contains_key(pair_key(c, x)) <==> a.contains_key(pair_key(c, x)) || (c == class
            && pairs_attribute(pairs, x))
    &&& forall|c: u32, x: u32, r: u64|
        b.contains_key(pair_key(c, x)) ==> (#[trigger] b[pair_key(c, x)].contains(r) <==> (
        a.contains_key(pair_key(c, x)) && a[pair_key(c, x)].contains(r)) || (c == class
            && pairs_with(pairs, x, r)))
}

/// Whether regions are taken from those that restrict subscriptions to attributes of a
/// class, as a request pairs them, and all other restrictions are as they were. A
/// restriction whose last region is taken goes.
pub open spec fn restricts_less(
    a: Map<u64, Set<u64>>,
    b: Map<u64, Set<u64>>,
    class: u32,
    pairs: Option<Vec<RegionPair>>,
) -> bool {
    &&& forall|c: u32, x: u32| #[trigger]
        b.contains_key(pair_key(c, x)) <==> a.contains_key(pair_key(c, x)) && (c == class
            && pairs_attribute(pairs, x) ==> exists|r: u64| #[trigger]
            a[pair_key(c, x)].contains(r) && !pairs_with(pairs, x, r))
    &&& forall|c: u32, x: u32, r: u64|
        b.contains_key(pair_key(c, x)) ==> (#[trigger] b[pair_key(c, x)].contains(r)
            <==> a[pair_key(c, x)].contains(r) && !(c == class && pairs_attribute(pairs, x)
            && pairs_with(pairs, x, r)))
}

proof fn lemma_restricts_more(a: Map<u64, Set<u64>>, class: u32, pairs: Option<Vec<RegionPair>>)
    ensures
        restricts_more(
            a,
            with_regions(
                a,
                class,
                attribute_regions_in(region_pairs(pairs)),
            ),
            class,
            pairs,
        ),
{
    broadcast use lemma_pair_key;

    let more = attribute_regions_in(region_pairs(pairs));
    let b = with_regions(a, class, more);
    assert forall|x: u32| #[trigger] more.contains_key(x) <==> pairs_attribute(pairs, x) by {
        lemma_pairs(pairs, x);
    }
    assert forall|c: u32, x: u32| #[trigger]
        key_among(pair_key(c, x), class, more.dom()) <==> c == class && pairs_attribute(
        pairs,
        x,
    ) by {
        assert(more.dom().contains(x) <==> more.contains_key(x));
    }
    assert forall|c: u32, x: u32| #[trigger]
        b.contains_key(pair_key(c, x)) <==> a.contains_key(pair_key(c, x)) || (c == class
        && pairs_attribute(pairs, x)) by {
        assert(key_among(pair_key(c, x), class, more.dom()) <==> c == class && pairs_attribute(
            pairs,
            x,
        ));
    }
    assert forall|c: u32, x: u32, r: u64| b.contains_key(pair_key(c, x)) implies (
    #[trigger] b[pair_key(c, x)].contains(r) <==> (a.contains_key(pair_key(c, x))
        && a[pair_key(c, x)].contains(r)) || (c == class && pairs_with(pairs, x, r))) by {
        lemma_pairs(pairs, x);
        assert(key_among(pair_key(c, x), class, more.dom()) <==> c == class && pairs_attribute(
            pairs,
            x,
        ));
        if pairs_with(pairs, x, r) {
            assert(pairs_attribute(pairs, x)) by {
                let i = choose|i: int|
                    0 <= i < pairs->0@.len() && names((#[trigger] pairs->0@[i]).attribute_set, x)
                        && names_region(pairs->0@[i].region_set, r);
                assert(names(pairs->0@[i].attribute_set, x));
            }
        }
    }
}

proof fn lemma_restricts_less(a: Map<u64, Set<u64>>, class: u32, pairs: Option<Vec<RegionPair>>)
    ensures
        restricts_less(
            a,
            without_regions(
                a,
                class,
                attribute_regions_in(region_pairs(pairs)),
            ),
            class,
            pairs,
        ),
{
    broadcast use lemma_pair_key;

    let less = attribute_regions_in(region_pairs(pairs));
    let b = without_regions(a, class, less);
    assert forall|x: u32| #[trigger] less.contains_key(x) <==> pairs_attribute(pairs, x) by {
        lemma_pairs(pairs, x);
    }
    assert forall|c: u32, x: u32| #[trigger]
        key_among(pair_key(c, x), class, less.dom()) <==> c == class && pairs_attribute(
        pairs,
        x,
    ) by {
        assert(less.dom().contains(x) <==> less.contains_key(x));
    }
    assert forall|c: u32, x: u32| #[trigger]
        b.contains_key(pair_key(c, x)) <==> a.contains_key(pair_key(c, x)) && (c == class
        && pairs_attribute(pairs, x) ==> exists|r: u64| #[trigger]
        a[pair_key(c, x)].contains(r) && !pairs_with(pairs, x, r)) by {
        let k = pair_key(c, x);
        lemma_pairs(pairs, x);
        assert(key_among(k, class, less.dom()) <==> c == class && pairs_attribute(pairs, x));
        if a.contains_key(k) && c == class && pairs_attribute(pairs, x) {
            let left = a[k].difference(less[x]);
            assert((k % 0x1_0000_0000) as u32 == x);
            if exists|r: u64| #[trigger] a[k].contains(r) && !pairs_with(pairs, x, r) {
                let r = choose|r: u64| #[trigger] a[k].contains(r) && !pairs_with(pairs, x, r);
                assert(left.contains(r));
            } else {
                assert(left =~= Set::empty());
            }
        }
    }
    assert forall|c: u32, x: u32, r: u64| b.contains_key(pair_key(c, x)) implies (
    #[trigger] b[pair_key(c, x)].contains(r) <==> a[pair_key(c, x)].contains(r) && !(c == class
        && pairs_attribute(pairs, x) && pairs_with(pairs, x, r))) by {
        let k = pair_key(c, x);
        lemma_pairs(pairs, x);
        assert((k % 0x1_0000_0000) as u32 == x);
        assert(key_among(k, class, less.dom()) <==> c == class && pairs_attribute(pairs, x));
    }
}

/// To subscribe to attributes with regions subscribes to the attributes that are paired,
/// and adds the regions to those that restrict the subscription to each. Where nobody
/// subscribed to the class before, and now somebody does, exactly the other federates
/// that publish the class, and want to know, are told to register instances of it.
pub proof fn to_subscribe_with_regions_restricts(
    fed: FederationView,
    conns: Map<u64, u64>,
    me: u32,
    object_class: Option<Vec<u8>>,
    attributes_and_regions: Option<Vec<RegionPair>>,
    load: SnapshotLoadView,
    class: u32,
)
    requires
        own_sessions(fed.federates),
        fed.federates.contains_key(me),
        field32(object_class) == Some(class),
    ensures
        ({
            let request = CallRequest::SubscribeObjectClassAttributesWithRegions {
                object_class,
                attributes_and_regions,
            };
            let o = member_outcome(fed, conns, me, request, load);
            let was = fed.federates[me].pub_sub;
            let is = o.fed.federates[me].pub_sub;
            let known = defines(fed.fom.object_classes, class);
            &&& !known ==> refuses(o, fed, HlaException::ObjectClassNotDefined)
            &&& known ==> {
                &&& serves(o, Service::SubscribeObjectClassAttributesWithRegions)
                &&& only_declarations_differ(fed, o.fed, me)
                &&& is == (PubSubView {
                    subscribed_attrs: is.subscribed_attrs,
                    subscribed_attrs_regions: is.subscribed_attrs_regions,
                    ..was
                })
                &&& forall|c: u32| #[trigger]
                    is.subscribed_attrs.contains_key(c) <==> was.subscribed_attrs.contains_key(c)
                        || (c == class && exists|x: u32| pairs_attribute(attributes_and_regions, x))
                &&& forall|c: u32|
                    c != class && #[trigger] was.subscribed_attrs.contains_key(c)
                        ==> is.subscribed_attrs[c] == was.subscribed_attrs[c]
                &&& forall|x: u32|
                    is.subscribed_attrs.contains_key(class) ==> (
                    #[trigger] is.subscribed_attrs[class].contains(x) <==> (
                    was.subscribed_attrs.contains_key(class)
                        && was.subscribed_attrs[class].contains(x)) || pairs_attribute(
                        attributes_and_regions,
                        x,
                    ))
                &&& restricts_more(
                    was.subscribed_attrs_regions,
                    is.subscribed_attrs_regions,
                    class,
                    attributes_and_regions,
                )
                &&& o.fed.subscriptions.interactions == fed.subscriptions.interactions
                &&& forall|c: u32, x: u32, f: u32| #[trigger]
                    o.fed.subscriptions.attributes.contains((c, x, f))
                        <==> fed.subscriptions.attributes.contains((c, x, f)) || (c == class
                        && pairs_attribute(attributes_and_regions, x) && f == me)
                &&& tells(
                    o.sent,
                    conns,
                    fed.federates,
                    |f: u32|
                        only_if(
                            !in_use(fed.subscriptions, class) && in_use(
                                o.fed.subscriptions,
                                class,
                            ) && f != me && to_be_advised(fed.federates[f], class),
                            CallbackView::StartRegistrationForObjectClass {
                                object_class: bytes_of_u32(class),
                            },
                        ),
                )
            }
        }),
{
    reveal(lookup_reply);
    reveal(quiet_outcome);
    reveal(exchange_outcome);
    let request = CallRequest::SubscribeObjectClassAttributesWithRegions {
        object_class,
        attributes_and_regions,
    };
    let o = member_outcome(fed, conns, me, request, load);
    let was = fed.federates[me].pub_sub;
    let is = o.fed.federates[me].pub_sub;
    lemma_defines(fed.fom.object_classes, class);
    if defines(fed.fom.object_classes, class) {
        let more = attribute_regions_in(region_pairs(attributes_and_regions));
        assert forall|x: u32| #[trigger]
            more.dom().contains(x) <==> pairs_attribute(attributes_and_regions, x) by {
            lemma_pairs(attributes_and_regions, x);
        }
        if exists|x: u32| pairs_attribute(attributes_and_regions, x) {
            let x = choose|x: u32| pairs_attribute(attributes_and_regions, x);
            assert(more.dom().contains(x));
        } else {
            assert(more.dom() =~= Set::empty());
        }
        lemma_restricts_more(was.subscribed_attrs_regions, class, attributes_and_regions);
        let start = CallbackView::StartRegistrationForObjectClass {
            object_class: bytes_of_u32(class),
        };
        let what = |f: u32|
            only_if(
                !in_use(fed.subscriptions, class) && in_use(o.fed.subscriptions, class) && f != me
                    && to_be_advised(fed.federates[f], class),
                start,
            );
        if !in_use(fed.subscriptions, class) && in_use(o.fed.subscriptions, class) {
            assert(o.fed.subscriptions.class_in_use(class));
            assert(!fed.subscriptions.class_in_use(class));
            lemma_tells_set(
                conns,
                fed.federates,
                o.fed,
                class_publishers(o.fed, class, Some(me)),
                start,
                what,
            );
        } else {
            assert(o.sent == Seq::<OutboundView>::empty());
            assert(tells(o.sent, conns, fed.federates, what));
        }
    }
}

/// To unsubscribe with regions takes the regions from those that restrict the subscription
/// to each attribute that is paired, and nothing else; nobody is told.
pub proof fn to_unsubscribe_with_regions_restricts_less(
    fed: FederationView,
    conns: Map<u64, u64>,
    me: u32,
    object_class: Option<Vec<u8>>,
    attributes_and_regions: Option<Vec<RegionPair>>,
    load: SnapshotLoadView,
    class: u32,
)
    requires
        fed.federates.contains_key(me),
        field32(object_class) == Some(class),
    ensures
        ({
            let request = CallRequest::UnsubscribeObjectClassAttributesWithRegions {
                object_class,
                attributes_and_regions,
            };
            let o = member_outcome(fed, conns, me, request, load);
            let was = fed.federates[me].pub_sub;
            let is = o.fed.federates[me].pub_sub;
            &&& serves(o, Service::UnsubscribeObjectClassAttributesWithRegions)
            &&& o.sent.len() == 0
            &&& only_declarations_differ(fed, o.fed, me)
            &&& o.fed.subscriptions == fed.subscriptions
            &&& is == (PubSubView { subscribed_attrs_regions: is.subscribed_attrs_regions, ..was })
            &&& restricts_less(
                was.subscribed_attrs_regions,
                is.subscribed_attrs_regions,
                class,
                attributes_and_regions,
            )
        }),
{
    reveal(lookup_reply);
    reveal(quiet_outcome);
    lemma_restricts_less(
        fed.federates[me].pub_sub.subscribed_attrs_regions,
        class,
        attributes_and_regions,
    );
}

} // verus!

//! Subscriptions and registrations with regions.

use crate::connections::Connections;
use crate::dispatch::advisories::{
    class_has_subscribers, class_publishers, emit_start_registration,
};
use crate::dispatch::declaration::{subscribe_all, with_subscriptions};
use crate::dispatch::helpers::{
    handles_in, listed, long_handles_in, read_handles, read_long_handles, refusal, refuse_bare,
    silent, with_pub_sub, Outcome,
};
use crate::dispatch::object_mgmt::{register_object_instance, registration, Registration};
use crate::exception::{bare, ExceptionData, ExceptionView, HlaException};
use crate::federation::{
    lemma_put_back, Federation, FederationView, InstanceView, PubSubState, PubSubView,
};
use crate::handles::{field32, read_field32, FederateHandle, ObjectInstanceHandle};
use crate::messages::{done, reply, CallResponse, RegionPair, Service};
use crate::routing::{deliveries, start_registration_for_object_class_view, Outbox};
use crate::subscriptions::{lemma_pair_key, pair, pair_key};
use crate::tables::{extend_entry, extended, lemma_ascending, reduce_entry, reduced, KeySet, Table};
use vstd::prelude::*;

verus! {

/// The pairs of attributes and regions in a field.
pub open spec fn region_pairs(field: Option<Vec<RegionPair>>) -> Seq<RegionPair> {
    match field {
        Some(l) => l@,
        None => Seq::empty(),
    }
}

/// The attributes of a pair.
pub open spec fn pair_attributes(p: RegionPair) -> Set<u32> {
    handles_in(listed(p.attribute_set))
}

/// The regions of a pair.
pub open spec fn pair_regions(p: RegionPair) -> Set<u64> {
    long_handles_in(listed(p.region_set))
}

/// The attributes in pairs, each with the regions that it stands beside.
pub open spec fn attribute_regions_in(l: Seq<RegionPair>) -> Map<u32, Set<u64>> {
    Map::new(
        |a: u32| exists|i: int| 0 <= i < l.len() && pair_attributes(#[trigger] l[i]).contains(a),
        |a: u32|
            Set::new(
                |r: u64|
                    exists|i: int|
                        0 <= i < l.len() && pair_attributes(#[trigger] l[i]).contains(a)
                            && pair_regions(l[i]).contains(r),
            ),
    )
}

/// The sets under attributes after more members have come to those of some.
spec fn widened(m: Map<u32, Set<u64>>, attrs: Set<u32>, more: Set<u64>) -> Map<u32, Set<u64>> {
    Map::new(
        |a: u32| m.contains_key(a) || attrs.contains(a),
        |a: u32|
            if !attrs.contains(a) {
                m[a]
            } else if m.contains_key(a) {
                m[a].union(more)
            } else {
                more
            },
    )
}

proof fn lemma_next_pair(l: Seq<RegionPair>, i: int)
    requires
        0 <= i < l.len(),
    ensures
        attribute_regions_in(l.take(i + 1)) == widened(
            attribute_regions_in(l.take(i)),
            pair_attributes(l[i]),
            pair_regions(l[i]),
        ),
{
    let m0 = attribute_regions_in(l.take(i));
    let m1 = attribute_regions_in(l.take(i + 1));
    let w = widened(m0, pair_attributes(l[i]), pair_regions(l[i]));
    assert forall|a: u32| m1.contains_key(a) <==> w.contains_key(a) by {
        if m1.contains_key(a) {
            let k = choose|k: int|
                0 <= k < i + 1 && pair_attributes(#[trigger] l.take(i + 1)[k]).contains(a);
            if k < i {
                assert(pair_attributes(l.take(i)[k]).contains(a));
            }
        }
        if m0.contains_key(a) {
            let k = choose|k: int|
                0 <= k < i && pair_attributes(#[trigger] l.take(i)[k]).contains(a);
            assert(pair_attributes(l.take(i + 1)[k]).contains(a));
        }
        if pair_attributes(l[i]).contains(a) {
            assert(pair_attributes(l.take(i + 1)[i]).contains(a));
        }
    }
    assert forall|a: u32| #[trigger] m1.contains_key(a) implies m1[a] =~= w[a] by {
        assert(w.contains_key(a));
        assert forall|r: u64| m1[a].contains(r) <==> w[a].contains(r) by {
            if m1[a].contains(r) {
                let k = choose|k: int|
                    0 <= k < i + 1 && pair_attributes(#[trigger] l.take(i + 1)[k]).contains(a)
                        && pair_regions(l.take(i + 1)[k]).contains(r);
                if k < i {
                    assert(pair_attributes(l.take(i)[k]).contains(a) && pair_regions(
                        l.take(i)[k],
                    ).contains(r));
                    assert(m0.contains_key(a));
                    assert(m0[a].contains(r));
                }
            }
            if w[a].contains(r) {
                if m0.contains_key(a) && m0[a].contains(r) {
                    let k = choose|k: int|
                        0 <= k < i && pair_attributes(#[trigger] l.take(i)[k]).contains(a)
                            && pair_regions(l.take(i)[k]).contains(r);
                    assert(pair_attributes(l.take(i + 1)[k]).contains(a) && pair_regions(
                        l.take(i + 1)[k],
                    ).contains(r));
                } else {
                    assert(pair_attributes(l.take(i + 1)[i]).contains(a) && pair_regions(
                        l.take(i + 1)[i],
                    ).contains(r));
                }
            }
        }
    }
    assert(m1 =~= w);
}

fn widen(table: &mut Table<u32, KeySet<u64>>, attrs: &KeySet<u32>, more: &KeySet<u64>)
    ensures
        final(table)@ == widened(old(table)@, attrs@, more@),
{
    let members = attrs.members();
    proof {
        lemma_ascending(attrs@);
        assert(widened(table@, members@.take(0).to_set(), more@) =~= table@);
    }
    let mut i: usize = 0;
    while i < members.len()
        invariant
            i <= members@.len(),
            members@.no_duplicates(),
            table@ == widened(old(table)@, members@.take(i as int).to_set(), more@),
        decreases members@.len() - i,
    {
        let ghost seen = members@.take(i as int);
        let ghost a = members@[i as int];
        proof {
            assert(members@.take(i + 1) =~= seen.push(a));
            assert(!seen.contains(a)) by {
                if seen.contains(a) {
                    let k = seen.index_of(a);
                    assert(members@[k] == members@[i as int]);
                }
            }
            assert forall|x: u32| members@.take(i + 1).to_set().contains(x)
                <==> seen.to_set().contains(x) || x == a by {
                broadcast use vstd::seq_lib::group_seq_properties;
            }
        }
        extend_entry(table, members[i], more);
        assert(table@ =~= widened(old(table)@, members@.take(i + 1).to_set(), more@));
        i = i + 1;
    }
    assert(members@.take(i as int) =~= members@);
}

/// The attributes in a field, each with the regions that it stands beside.
pub fn decode_attr_region_pairs(field: &Option<Vec<RegionPair>>) -> (r: Table<u32, KeySet<u64>>)
    ensures
        r@ == attribute_regions_in(region_pairs(*field)),
{
    let mut out: Table<u32, KeySet<u64>> = Table::new();
    let ghost l = region_pairs(*field);
    if let Some(list) = field {
        assert(attribute_regions_in(l.take(0)) =~= Map::empty());
        let mut i: usize = 0;
        while i < list.len()
            invariant
                i <= list@.len(),
                l == list@,
                out@ == attribute_regions_in(l.take(i as int)),
            decreases list@.len() - i,
        {
            let attrs = read_handles(&list[i].attribute_set);
            let regions = read_long_handles(&list[i].region_set);
            proof {
                lemma_next_pair(l, i as int);
            }
            widen(&mut out, &attrs, &regions);
            i = i + 1;
        }
        assert(l.take(i as int) =~= l);
    } else {
        assert(attribute_regions_in(l) =~= Map::empty());
    }
    out
}

/// Whether a key joins this class with one of these attributes.
pub open spec fn key_among(k: u64, class: u32, attrs: Set<u32>) -> bool {
    k / 0x1_0000_0000 == class && attrs.contains((k % 0x1_0000_0000) as u32)
}

/// The regions of subscriptions after more have come to those of some attributes
/// of a class.
pub open spec fn with_regions(
    m: Map<u64, Set<u64>>,
    class: u32,
    more: Map<u32, Set<u64>>,
) -> Map<u64, Set<u64>> {
    Map::new(
        |k: u64| m.contains_key(k) || key_among(k, class, more.dom()),
        |k: u64|
            if !key_among(k, class, more.dom()) {
                m[k]
            } else if m.contains_key(k) {
                m[k].union(more[(k % 0x1_0000_0000) as u32])
            } else {
                more[(k % 0x1_0000_0000) as u32]
            },
    )
}

/// The regions of subscriptions after some have gone from those of some
/// attributes of a class. A subscription that has no region left is not
/// restricted any more.
pub open spec fn without_regions(
    m: Map<u64, Set<u64>>,
    class: u32,
    less: Map<u32, Set<u64>>,
) -> Map<u64, Set<u64>> {
    Map::new(
        |k: u64|
            m.contains_key(k) && (key_among(k, class, less.dom()) ==> m[k].difference(
                less[(k % 0x1_0000_0000) as u32],
            ) != Set::<u64>::empty()),
        |k: u64|
            if key_among(k, class, less.dom()) {
                m[k].difference(less[(k % 0x1_0000_0000) as u32])
            } else {
                m[k]
            },
    )
}

fn add_regions(
    table: &mut Table<u64, KeySet<u64>>,
    class: u32,
    more: &Table<u32, KeySet<u64>>,
)
    ensures
        final(table)@ == with_regions(old(table)@, class, more@),
{
    broadcast use lemma_pair_key;

    let attrs = more.keys();
    let ghost m0 = old(table)@;
    let ghost d = more@;
    proof {
        lemma_ascending(d.dom());
        assert(with_regions(m0, class, d.restrict(attrs@.take(0).to_set())) =~= m0);
    }
    let mut i: usize = 0;
    while i < attrs.len()
        invariant
            i <= attrs@.len(),
            attrs@.no_duplicates(),
            d == more@,
            forall|a: u32| #[trigger] attrs@.contains(a) <==> d.contains_key(a),
            table@ == with_regions(m0, class, d.restrict(attrs@.take(i as int).to_set())),
        decreases attrs@.len() - i,
    {
        let a = attrs[i];
        let ghost seen = attrs@.take(i as int);
        let ghost next = attrs@.take(i + 1);
        proof {
            assert(attrs@.contains(attrs@[i as int]));
            assert(next =~= seen.push(a));
            assert(!seen.contains(a)) by {
                if seen.contains(a) {
                    let k = seen.index_of(a);
                    assert(attrs@[k] == attrs@[i as int]);
                }
            }
            assert forall|x: u32| next.to_set().contains(x) <==> seen.to_set().contains(x) || x
                == a by {
                broadcast use vstd::seq_lib::group_seq_properties;
            }
        }
        let ghost before = table@;
        if let Some(regions) = more.get(a) {
            extend_entry(table, pair(class, a), regions);
            proof {
                let d1 = d.restrict(next.to_set());
                let d0 = d.restrict(seen.to_set());
                let w = with_regions(m0, class, d1);
                let key = pair_key(class, a);
                assert(table@ == extended(before, key, d[a]));
                assert forall|k: u64| table@.contains_key(k) <==> w.contains_key(k) by {
                    if key_among(k, class, d1.dom()) && !key_among(k, class, d0.dom()) {
                        assert((k % 0x1_0000_0000) as u32 == a);
                        assert(k == key);
                    }
                }
                assert forall|k: u64| #[trigger] w.contains_key(k) implies table@[k] =~= w[k] by {
                    if key_among(k, class, d1.dom()) && !key_among(k, class, d0.dom()) {
                        assert((k % 0x1_0000_0000) as u32 == a);
                        assert(k == key);
                    }
                    if k == key {
                        assert(!key_among(k, class, d0.dom()));
                        assert(key_among(k, class, d1.dom()));
                    }
                }
                assert(table@ =~= w);
            }
        }
        i = i + 1;
    }
    assert(d.restrict(attrs@.take(i as int).to_set()) =~= d) by {
        assert(attrs@.take(i as int) =~= attrs@);
        assert forall|a: u32| d.contains_key(a) implies attrs@.to_set().contains(a) by {
            assert(attrs@.contains(a));
        }
    }
}

fn drop_regions(
    table: &mut Table<u64, KeySet<u64>>,
    class: u32,
    less: &Table<u32, KeySet<u64>>,
)
    ensures
        final(table)@ == without_regions(old(table)@, class, less@),
{
    broadcast use lemma_pair_key;

    let attrs = less.keys();
    let ghost m0 = old(table)@;
    let ghost d = less@;
    proof {
        lemma_ascending(d.dom());
        assert(without_regions(m0, class, d.restrict(attrs@.take(0).to_set())) =~= m0);
    }
    let mut i: usize = 0;
    while i < attrs.len()
        invariant
            i <= attrs@.len(),
            attrs@.no_duplicates(),
            d == less@,
            forall|a: u32| #[trigger] attrs@.contains(a) <==> d.contains_key(a),
            table@ == without_regions(m0, class, d.restrict(attrs@.take(i as int).to_set())),
        decreases attrs@.len() - i,
    {
        let a = attrs[i];
        let ghost seen = attrs@.take(i as int);
        let ghost next = attrs@.take(i + 1);
        proof {
            assert(attrs@.contains(attrs@[i as int]));
            assert(next =~= seen.push(a));
            assert(!seen.contains(a)) by {
                if seen.contains(a) {
                    let k = seen.index_of(a);
                    assert(attrs@[k] == attrs@[i as int]);
                }
            }
            assert forall|x: u32| next.to_set().contains(x) <==> seen.to_set().contains(x) || x
                == a by {
                broadcast use vstd::seq_lib::group_seq_properties;
            }
        }
        let ghost before = table@;
        if let Some(regions) = less.get(a) {
            reduce_entry(table, pair(class, a), regions);
            proof {
                let d1 = d.restrict(next.to_set());
                let d0 = d.restrict(seen.to_set());
                let w = without_regions(m0, class, d1);
                let key = pair_key(class, a);
                assert(table@ == reduced(before, key, d[a]));
                assert(!key_among(key, class, d0.dom()));
                assert(key_among(key, class, d1.dom()));
                assert(before.contains_key(key) <==> m0.contains_key(key));
                assert(before.contains_key(key) ==> before[key] == m0[key]);
                assert forall|k: u64| k != key implies (key_among(k, class, d1.dom())
                    <==> key_among(k, class, d0.dom())) by {
                    if key_among(k, class, d1.dom()) {
                        assert((k % 0x1_0000_0000) as u32 != a);
                    }
                }
                assert(table@ =~= w);
            }
        }
        i = i + 1;
    }
    assert(d.restrict(attrs@.take(i as int).to_set()) =~= d) by {
        assert(attrs@.take(i as int) =~= attrs@);
        assert forall|a: u32| d.contains_key(a) implies attrs@.to_set().contains(a) by {
            assert(attrs@.contains(a));
        }
    }
}

/// The declarations of a federate after it has subscribed to attributes of a
/// class with regions.
pub open spec fn subscribed_with_regions(
    ps: PubSubView,
    class: u32,
    wanted: Map<u32, Set<u64>>,
) -> PubSubView {
    PubSubView {
        subscribed_attrs: if wanted.dom() == Set::<u32>::empty() {
            ps.subscribed_attrs
        } else {
            extended(ps.subscribed_attrs, class, wanted.dom())
        },
        subscribed_attrs_regions: with_regions(ps.subscribed_attrs_regions, class, wanted),
        ..ps
    }
}

fn subscribe_in(
    ps: &mut PubSubState,
    class: u32,
    attrs: &KeySet<u32>,
    wanted: &Table<u32, KeySet<u64>>,
)
    requires
        attrs@ == wanted@.dom(),
    ensures
        final(ps)@ == subscribed_with_regions(old(ps)@, class, wanted@),
{
    if !attrs.is_empty() {
        extend_entry(&mut ps.subscribed_attrs, class, attrs);
    }
    add_regions(&mut ps.subscribed_attrs_regions, class, wanted);
}

fn declare_with_regions(
    federation: &mut Federation,
    me: FederateHandle,
    class: u32,
    attrs: &KeySet<u32>,
    wanted: &Table<u32, KeySet<u64>>,
)
    requires
        old(federation).wf(),
        attrs@ == wanted@.dom(),
    ensures
        final(federation).wf(),
        final(federation)@ == with_pub_sub(
            old(federation)@,
            me,
            subscribed_with_regions(old(federation)@.federates[me].pub_sub, class, wanted@),
        ),
{
    broadcast use lemma_put_back;

    if let Some(mut fs) = federation.federates.remove(me) {
        subscribe_in(&mut fs.pub_sub, class, attrs, wanted);
        federation.federates.insert(me, fs);
    }
}

/// What subscribing to attributes of a class with regions does.
pub open spec fn subscribe_with_regions_outcome(
    fed: FederationView,
    conns: Map<u64, u64>,
    me: u32,
    class: Option<u32>,
    pairs: Seq<RegionPair>,
) -> Outcome {
    match class {
        None => refusal(fed, bare(HlaException::InvalidObjectClassHandle)),
        Some(c) => if !fed.fom.defines_object_class(c) {
            refusal(fed, bare(HlaException::ObjectClassNotDefined))
        } else {
            let wanted = attribute_regions_in(pairs);
            let next = FederationView {
                subscriptions: with_subscriptions(fed.subscriptions, c, wanted.dom(), me),
                ..with_pub_sub(
                    fed,
                    me,
                    subscribed_with_regions(fed.federates[me].pub_sub, c, wanted),
                )
            };
            Outcome {
                fed: next,
                reply: done(Service::SubscribeObjectClassAttributesWithRegions),
                sent: if !fed.subscriptions.class_in_use(c) && next.subscriptions.class_in_use(c) {
                    deliveries(
                        conns,
                        next,
                        class_publishers(next, c, Some(me)),
                        start_registration_for_object_class_view(c),
                    )
                } else {
                    Seq::empty()
                },
            }
        },
    }
}

/// Subscribes to attributes of a class with regions.
pub fn subscribe_object_class_attributes_with_regions(
    federation: &mut Federation,
    conns: &Connections,
    out: &mut Outbox,
    me: FederateHandle,
    object_class: &Option<Vec<u8>>,
    attributes_and_regions: &Option<Vec<RegionPair>>,
) -> (r: CallResponse)
    requires
        old(federation).wf(),
    ensures
        final(federation).wf(),
        ({
            let o = subscribe_with_regions_outcome(
                old(federation)@,
                conns@,
                me,
                field32(*object_class),
                region_pairs(*attributes_and_regions),
            );
            &&& final(federation)@ == o.fed
            &&& r@ == o.reply
            &&& final(out)@ == old(out)@ + o.sent
        }),
{
    assert(old(out)@ + Seq::empty() =~= old(out)@);
    let class = match read_field32(object_class) {
        Some(c) => c,
        None => return refuse_bare(HlaException::InvalidObjectClassHandle),
    };
    if federation.fom.object_class_def(class).is_none() {
        return refuse_bare(HlaException::ObjectClassNotDefined);
    }
    let wanted = decode_attr_region_pairs(attributes_and_regions);
    let attrs = wanted.key_set();
    let was_subscribed = class_has_subscribers(federation, class);
    declare_with_regions(federation, me, class, &attrs, &wanted);
    subscribe_all(&mut federation.subscriptions, class, &attrs, me);
    if !was_subscribed && class_has_subscribers(federation, class) {
        emit_start_registration(federation, conns, out, class, me);
    }
    reply(Service::SubscribeObjectClassAttributesWithRegions)
}

/// What taking regions from the subscriptions to attributes of a class does. The
/// subscriptions themselves stay.
pub open spec fn unsubscribe_with_regions_outcome(
    fed: FederationView,
    me: u32,
    class: Option<u32>,
    pairs: Seq<RegionPair>,
) -> Outcome {
    match class {
        None => refusal(fed, bare(HlaException::InvalidObjectClassHandle)),
        Some(c) => {
            let ps = fed.federates[me].pub_sub;
            silent(
                with_pub_sub(
                    fed,
                    me,
                    PubSubView {
                        subscribed_attrs_regions: without_regions(
                            ps.subscribed_attrs_regions,
                            c,
                            attribute_regions_in(pairs),
                        ),
                        ..ps
                    },
                ),
                Service::UnsubscribeObjectClassAttributesWithRegions,
            )
        },
    }
}

/// Takes regions from the subscriptions to attributes of a class.
pub fn unsubscribe_object_class_attributes_with_regions(
    federation: &mut Federation,
    me: FederateHandle,
    object_class: &Option<Vec<u8>>,
    attributes_and_regions: &Option<Vec<RegionPair>>,
) -> (r: CallResponse)
    requires
        old(federation).wf(),
    ensures
        final(federation).wf(),
        ({
            let o = unsubscribe_with_regions_outcome(
                old(federation)@,
                me,
                field32(*object_class),
                region_pairs(*attributes_and_regions),
            );
            &&& final(federation)@ == o.fed
            &&& r@ == o.reply
        }),
{
    broadcast use lemma_put_back;

    let class = match read_field32(object_class) {
        Some(c) => c,
        None => return refuse_bare(HlaException::InvalidObjectClassHandle),
    };
    let unwanted = decode_attr_region_pairs(attributes_and_regions);
    if let Some(mut fs) = federation.federates.remove(me) {
        drop_regions(&mut fs.pub_sub.subscribed_attrs_regions, class, &unwanted);
        federation.federates.insert(me, fs);
    }
    reply(Service::UnsubscribeObjectClassAttributesWithRegions)
}

/// What registering an instance with regions does: a registration, after which
/// the attributes have their regions.
pub open spec fn registration_with_regions(
    fed: FederationView,
    conns: Map<u64, u64>,
    me: u32,
    class: Option<u32>,
    requested_name: Option<Seq<char>>,
    pairs: Seq<RegionPair>,
) -> Registration {
    let plain = registration(fed, conns, me, class, requested_name);
    match plain.result {
        Err(_) => plain,
        Ok(h) => Registration {
            fed: FederationView {
                object_instances: plain.fed.object_instances.insert(
                    h,
                    InstanceView {
                        attribute_regions: attribute_regions_in(pairs),
                        ..plain.fed.object_instances[h]
                    },
                ),
                ..plain.fed
            },
            ..plain
        },
    }
}

/// Registers an instance of a class with regions.
pub fn register_object_instance_with_regions(
    federation: &mut Federation,
    conns: &Connections,
    out: &mut Outbox,
    me: FederateHandle,
    object_class: &Option<Vec<u8>>,
    requested_name: Option<String>,
    attributes_and_regions: &Option<Vec<RegionPair>>,
) -> (r: Result<ObjectInstanceHandle, ExceptionData>)
    requires
        old(federation).wf(),
    ensures
        final(federation).wf(),
        ({
            let o = registration_with_regions(
                old(federation)@,
                conns@,
                me,
                field32(*object_class),
                match requested_name {
                    Some(n) => Some(n@),
                    None => None,
                },
                region_pairs(*attributes_and_regions),
            );
            &&& final(federation)@ == o.fed
            &&& final(out)@ == old(out)@ + o.sent
            &&& match r {
                Ok(h) => o.result == Ok::<u64, ExceptionView>(h),
                Err(e) => o.result == Err::<u64, ExceptionView>(e@),
            }
        }),
{
    broadcast use lemma_put_back;

    let regions = decode_attr_region_pairs(attributes_and_regions);
    let handle = match register_object_instance(
        federation,
        conns,
        out,
        me,
        object_class,
        requested_name,
    ) {
        Ok(h) => h,
        Err(e) => return Err(e),
    };
    if let Some(mut inst) = federation.object_instances.remove(handle) {
        inst.attribute_regions = regions;
        federation.object_instances.insert(handle, inst);
    }
    Ok(handle)
}

} // verus!

//! Instances, their values, and interactions.

use crate::callbacks::CallbackView;
use crate::dispatch::calls::{exchange_outcome, lookup_reply, member_outcome, quiet_outcome};
use crate::dispatch::data_flow::{immediate, knowers, owns_all, update_audience, without_instance};
use crate::dispatch::ddm_matching::{concerns, overlap};
use crate::dispatch::directed::directed_audience;
use crate::dispatch::helpers::{value_fields, values_in};
use crate::dispatch::object_mgmt::{
    discoveries, instance_name_taken, registration, registration_audience, unaware, with_awareness,
};
use crate::dispatch::restore::SnapshotLoadView;
use crate::exception::HlaException;
use crate::federation::{
    in_time_order, FederateView, FederationView, InstanceView, PubSubView, RegionView, TsoView,
};
use crate::fom::chain;
use crate::handles::{bytes_of_u32, bytes_of_u64, field32, field64};
use crate::laws::models::{defines, lemma_defines};
use crate::laws::values::{
    carries, gives_value, lemma_pairs, lemma_values, lemma_values_are_valid, pairs_attribute,
    pairs_with, values_are_passed_on, values_are_valid,
};
use crate::laws::{
    hears_of, lemma_tells_set, lemma_tells_two, listens_to, only_if, own_sessions, refuses, serves,
    tells,
};
use crate::logical_time::{before, not_after, plus};
use crate::messages::{
    CallRequest, HandleValueField, PayloadView, RegionPair, ResponseView, Service,
};
use crate::routing::{attribute_audience, deliveries, interaction_audience, value_list};
use crate::subscriptions::{lemma_handles_finite, pair_key};
use crate::tables::{ascending, lemma_ascending};
use crate::text::decimal_of;
use crate::time::{due, due_messages_come_first};
use vstd::prelude::*;

verus! {

/// Whether of the federates of two states some have learnt of an instance, and nothing
/// else about them has changed.
pub open spec fn only_learnt(
    a: FederationView,
    b: FederationView,
    instance: u64,
    who: spec_fn(u32) -> bool,
) -> bool {
    &&& forall|f: u32| #[trigger] b.federates.contains_key(f) <==> a.federates.contains_key(f)
    &&& forall|f: u32| #[trigger]
        a.federates.contains_key(f) ==> b.federates[f] == (FederateView {
            pub_sub: PubSubView {
                discovered_instances: if who(f) {
                    a.federates[f].pub_sub.discovered_instances.insert(instance)
                } else {
                    a.federates[f].pub_sub.discovered_instances
                },
                ..a.federates[f].pub_sub
            },
            ..a.federates[f]
        })
}

/// Whether a federate knows an instance.
pub open spec fn knows(fed: FederationView, f: u32, instance: u64) -> bool {
    fed.federates[f].pub_sub.discovered_instances.contains(instance)
}

/// The word that an instance is there.
pub open spec fn discovery(instance: u64, class: u32, name: Seq<char>, producer: u32) -> CallbackView {
    CallbackView::DiscoverObjectInstance {
        object_instance: bytes_of_u64(instance),
        object_class: bytes_of_u32(class),
        object_instance_name: name,
        producing_federate: bytes_of_u32(producer),
    }
}

proof fn lemma_discoveries(
    conns: Map<u64, u64>,
    fed: FederationView,
    candidates: Set<u32>,
    instance: u64,
    class: u32,
    name: Seq<char>,
    producer: u32,
)
    requires
        own_sessions(fed.federates),
    ensures
        tells(
            discoveries(fed, conns, candidates, instance, class, name, producer),
            conns,
            fed.federates,
            |f: u32|
                only_if(
                    candidates.contains(f) && !knows(fed, f, instance),
                    discovery(instance, class, name, producer),
                ),
        ),
{
    lemma_tells_set(
        conns,
        fed.federates,
        with_awareness(fed, candidates, instance),
        unaware(fed, candidates, instance),
        discovery(instance, class, name, producer),
        |f: u32|
            only_if(
                candidates.contains(f) && !knows(fed, f, instance),
                discovery(instance, class, name, producer),
            ),
    );
}

/// Whether a request asks to register an instance of a class, under a name or not, and
/// with regions or not.
pub open spec fn asks_to_register(
    request: CallRequest,
    service: Service,
    class: Option<u32>,
    name: Option<Seq<char>>,
    regions: Option<Vec<RegionPair>>,
) -> bool {
    match request {
        CallRequest::RegisterObjectInstance { object_class } => {
            &&& service == Service::RegisterObjectInstance
            &&& class == field32(object_class)
            &&& name is None
            &&& regions is None
        },
        CallRequest::RegisterObjectInstanceWithName { object_class, object_instance_name } => {
            &&& service == Service::RegisterObjectInstanceWithName
            &&& class == field32(object_class)
            &&& name == Some(object_instance_name@)
            &&& regions is None
        },
        CallRequest::RegisterObjectInstanceWithRegions { object_class, attributes_and_regions } => {
            &&& service == Service::RegisterObjectInstanceWithRegions
            &&& class == field32(object_class)
            &&& name is None
            &&& regions == attributes_and_regions
        },
        CallRequest::RegisterObjectInstanceWithNameAndRegions {
            object_class,
            object_instance_name,
            attributes_and_regions,
        } => {
            &&& service == Service::RegisterObjectInstanceWithNameAndRegions
            &&& class == field32(object_class)
            &&& name == Some(object_instance_name@)
            &&& regions == attributes_and_regions
        },
        _ => false,
    }
}

/// Whether a federate subscribes to some attribute of a class or of one that it derives
/// from.
pub open spec fn awaits_instances_of(fed: FederationView, f: u32, class: u32) -> bool {
    exists|a: u32| #[trigger] hears_of(fed, f, class, a)
}

proof fn lemma_registration_audience(fed: FederationView, class: u32, me: u32, f: u32)
    ensures
        registration_audience(fed, class, me).contains(f) <==> f != me && awaits_instances_of(
            fed,
            f,
            class,
        ),
{
    let classes = chain(fed.fom.object_classes, class);
    if registration_audience(fed, class, me).contains(f) {
        let c = choose|c: u32|
            classes.contains(c) && #[trigger] fed.subscriptions.subscribes_to_class(c, f);
        let a = choose|a: u32| fed.subscriptions.attributes.contains((c, a, f));
        assert(hears_of(fed, f, class, a));
    }
    if awaits_instances_of(fed, f, class) {
        let a = choose|a: u32| #[trigger] hears_of(fed, f, class, a);
        let c = choose|c: u32|
            classes.contains(c) && #[trigger] fed.subscriptions.attributes.contains((c, a, f));
        assert(fed.subscriptions.subscribes_to_class(c, f));
    }
}

/// A federate that publishes a class can register an instance of it. The instance has
/// the next number, the name that was asked for or one made of the number, and belongs
/// to who registered it: it owns exactly the attributes that it publishes. The regions
/// are those that the request pairs with the attributes. Exactly the other federates
/// that subscribe to an attribute of the class, or of one that it derives from, learn of
/// the instance, and are told where they did not know it. Nothing else changes.
pub proof fn a_registered_instance_is_made_known(
    fed: FederationView,
    conns: Map<u64, u64>,
    me: u32,
    request: CallRequest,
    load: SnapshotLoadView,
    service: Service,
    class: u32,
    name: Option<Seq<char>>,
    regions: Option<Vec<RegionPair>>,
)
    requires
        own_sessions(fed.federates),
        asks_to_register(request, service, Some(class), name, regions),
        defines(fed.fom.object_classes, class),
        fed.federates.contains_key(me),
        fed.federates[me].pub_sub.published_attrs.contains_key(class),
        fed.next_object_id < u64::MAX,
        name matches Some(n) ==> forall|o: u64| #[trigger]
            fed.object_instances.contains_key(o) ==> fed.object_instances[o].name != n,
    ensures
        ({
            let o = member_outcome(fed, conns, me, request, load);
            let h = fed.next_object_id;
            let inst = o.fed.object_instances[h];
            let published = fed.federates[me].pub_sub.published_attrs[class];
            &&& o.reply == (ResponseView::Reply {
                service,
                payload: PayloadView::Handle(bytes_of_u64(h)),
            })
            &&& o.fed == (FederationView {
                object_instances: o.fed.object_instances,
                federates: o.fed.federates,
                next_object_id: (h + 1) as u64,
                ..fed
            })
            &&& forall|x: u64|
                x != h ==> ((#[trigger] o.fed.object_instances.contains_key(x))
                    <==> fed.object_instances.contains_key(x))
            &&& forall|x: u64|
                x != h && #[trigger] fed.object_instances.contains_key(x)
                    ==> o.fed.object_instances[x] == fed.object_instances[x]
            &&& o.fed.object_instances.contains_key(h)
            &&& inst.handle == h
            &&& inst.class == class
            &&& inst.registrar == me
            &&& inst.name == (match name {
                Some(n) => n,
                None => "HLA"@ + decimal_of(h as nat),
            })
            &&& forall|a: u32| #[trigger]
                inst.attribute_owners.contains_key(a) <==> published.contains(a)
            &&& forall|a: u32| #[trigger]
                inst.attribute_owners.contains_key(a) ==> inst.attribute_owners[a] == me
            &&& forall|a: u32| #[trigger]
                inst.attribute_regions.contains_key(a) <==> pairs_attribute(regions, a)
            &&& forall|a: u32, r: u64|
                inst.attribute_regions.contains_key(a) ==> (#[trigger] inst.attribute_regions[a].contains(
                    r,
                ) <==> pairs_with(regions, a, r))
            &&& only_learnt(
                fed,
                o.fed,
                h,
                |f: u32| f != me && awaits_instances_of(fed, f, class),
            )
            &&& tells(
                o.sent,
                conns,
                fed.federates,
                |f: u32|
                    only_if(
                        f != me && awaits_instances_of(fed, f, class) && !knows(fed, f, h),
                        discovery(h, class, inst.name, me),
                    ),
            )
        }),
{
    reveal(lookup_reply);
    reveal(quiet_outcome);
    reveal(exchange_outcome);
    let o = member_outcome(fed, conns, me, request, load);
    let h = fed.next_object_id;
    let inst = o.fed.object_instances[h];
    lemma_defines(fed.fom.object_classes, class);
    if name is Some {
        assert(!instance_name_taken(fed, name->0));
    }
    let plain = registration(fed, conns, me, Some(class), name);
    let audience = registration_audience(fed, class, me);
    assert forall|f: u32| audience.contains(f) <==> f != me && awaits_instances_of(fed, f, class) by {
        lemma_registration_audience(fed, class, me, f);
    }
    assert forall|a: u32| #[trigger]
        inst.attribute_regions.contains_key(a) <==> pairs_attribute(regions, a) by {
        lemma_pairs(regions, a);
    }
    assert forall|a: u32, r: u64| inst.attribute_regions.contains_key(a) implies (
    #[trigger] inst.attribute_regions[a].contains(r) <==> pairs_with(regions, a, r)) by {
        lemma_pairs(regions, a);
    }
    let there = FederationView {
        object_instances: plain.fed.object_instances,
        next_object_id: plain.fed.next_object_id,
        ..fed
    };
    assert(o.sent == discoveries(there, conns, audience, h, class, inst.name, me));
    lemma_tells_set(
        conns,
        fed.federates,
        with_awareness(there, audience, h),
        unaware(there, audience, h),
        discovery(h, class, inst.name, me),
        |f: u32|
            only_if(
                f != me && awaits_instances_of(fed, f, class) && !knows(fed, f, h),
                discovery(h, class, inst.name, me),
            ),
    );
}

/// To register an instance takes a class that the model defines and the federate
/// publishes, and a name that no instance has. A name that is taken uses a number up;
/// nothing else comes of a refusal.
pub proof fn only_publishers_register(
    fed: FederationView,
    conns: Map<u64, u64>,
    me: u32,
    request: CallRequest,
    load: SnapshotLoadView,
    service: Service,
    class: Option<u32>,
    name: Option<Seq<char>>,
    regions: Option<Vec<RegionPair>>,
)
    requires
        asks_to_register(request, service, class, name, regions),
    ensures
        ({
            let o = member_outcome(fed, conns, me, request, load);
            match class {
                None => refuses(o, fed, HlaException::InvalidObjectClassHandle),
                Some(c) => {
                    let known = defines(fed.fom.object_classes, c);
                    let joined = fed.federates.contains_key(me);
                    let published = fed.federates[me].pub_sub.published_attrs.contains_key(c);
                    &&& !known ==> refuses(o, fed, HlaException::ObjectClassNotDefined)
                    &&& known && !joined ==> refuses(
                        o,
                        fed,
                        HlaException::FederateNotExecutionMember,
                    )
                    &&& known && joined && !published ==> refuses(
                        o,
                        fed,
                        HlaException::ObjectClassNotPublished,
                    )
                    &&& known && joined && published && (name matches Some(n) && exists|x: u64|
                        #[trigger] fed.object_instances.contains_key(x)
                            && fed.object_instances[x].name == n) ==> {
                        &&& o.reply matches ResponseView::Exception(e) && e.exception
                            == HlaException::ObjectInstanceNameInUse
                        &&& o.sent.len() == 0
                        &&& o.fed == (FederationView {
                            next_object_id: o.fed.next_object_id,
                            renumbered: o.fed.renumbered,
                            ..fed
                        })
                        &&& fed.next_object_id < u64::MAX ==> o.fed.next_object_id
                            == fed.next_object_id + 1
                    }
                },
            }
        }),
{
    reveal(lookup_reply);
    reveal(quiet_outcome);
    reveal(exchange_outcome);
    if let Some(c) = class {
        lemma_defines(fed.fom.object_classes, c);
    }
}

/// Whether two regions meet: in every dimension that both have, their ranges do.
pub open spec fn meet(a: RegionView, b: RegionView) -> bool {
    forall|d: u32| #[trigger]
        a.committed.contains_key(d) && b.committed.contains_key(d) ==> a.committed[d].0
            <= b.committed[d].1 && b.committed[d].0 <= a.committed[d].1
}

/// Whether no regions keep an attribute of an instance from a federate: the attribute
/// has none, the federate has restricted its subscription to none, or one of the
/// attribute's meets one of the federate's.
pub open spec fn in_scope(fed: FederationView, f: u32, inst: InstanceView, attr: u32) -> bool {
    let own = inst.attribute_regions;
    let wanted = fed.federates[f].pub_sub.subscribed_attrs_regions;
    let key = pair_key(inst.class, attr);
    ||| !own.contains_key(attr)
    ||| own[attr] == Set::<u64>::empty()
    ||| fed.federates.contains_key(f) && (!wanted.contains_key(key) || wanted[key] == Set::<
        u64,
    >::empty())
    ||| fed.federates.contains_key(f) && exists|p: u64, s: u64| #[trigger]
        own[attr].contains(p) && #[trigger] wanted[key].contains(s) && fed.regions.contains_key(p)
            && fed.regions.contains_key(s) && meet(fed.regions[p], fed.regions[s])
}

proof fn lemma_in_scope(fed: FederationView, f: u32, inst: InstanceView, attr: u32)
    ensures
        concerns(fed, f, inst, attr) <==> in_scope(fed, f, inst, attr),
{
    let own = inst.attribute_regions;
    let wanted = fed.federates[f].pub_sub.subscribed_attrs_regions;
    let key = pair_key(inst.class, attr);
    assert forall|p: u64, s: u64| overlap(
        fed.regions[p],
        fed.regions[s],
    ) <==> #[trigger] meet(fed.regions[p], fed.regions[s]) by {}
    if own.contains_key(attr) && wanted.contains_key(key) && fed.federates.contains_key(f) {
        let a = own[attr];
        let b = wanted[key];
        if concerns(fed, f, inst, attr) && a != Set::<u64>::empty() && b != Set::<u64>::empty() {
            let (p, s) = choose|p: u64, s: u64| #[trigger]
                a.contains(p) && #[trigger] b.contains(s) && fed.regions.contains_key(p)
                    && fed.regions.contains_key(s) && overlap(
                    fed.regions[p],
                    fed.regions[s],
                );
            assert(meet(fed.regions[p], fed.regions[s]));
        }
        if in_scope(fed, f, inst, attr) && a != Set::<u64>::empty() && b != Set::<u64>::empty() {
            let (p, s) = choose|p: u64, s: u64| #[trigger]
                a.contains(p) && #[trigger] b.contains(s) && fed.regions.contains_key(p)
                    && fed.regions.contains_key(s) && meet(fed.regions[p], fed.regions[s]);
            assert(overlap(fed.regions[p], fed.regions[s]));
        }
    }
}

/// Whether a federate owns every attribute that a request gives a value for.
pub open spec fn owns_what_it_gives(
    inst: InstanceView,
    values: Option<Vec<HandleValueField>>,
    me: u32,
) -> bool {
    forall|a: u32| #[trigger]
        gives_value(values, a) ==> inst.attribute_owners.contains_key(a)
            && inst.attribute_owners[a] == me
}

/// Whether a federate hears of one of the attributes that a request gives a value for.
pub open spec fn hears_of_given(
    fed: FederationView,
    f: u32,
    class: u32,
    values: Option<Vec<HandleValueField>>,
) -> bool {
    exists|a: u32| #[trigger] gives_value(values, a) && hears_of(fed, f, class, a)
}

/// Whether one of the attributes that a request gives a value for is in scope of a
/// federate.
pub open spec fn given_in_scope(
    fed: FederationView,
    f: u32,
    inst: InstanceView,
    values: Option<Vec<HandleValueField>>,
) -> bool {
    exists|a: u32| #[trigger] gives_value(values, a) && in_scope(fed, f, inst, a)
}

proof fn lemma_attribute_audience(
    fed: FederationView,
    f: u32,
    class: u32,
    values: Option<Vec<HandleValueField>>,
    me: u32,
)
    requires
        values_are_valid(values),
    ensures
        attribute_audience(
            fed,
            class,
            ascending(values_in(value_fields(values)).dom()),
            Some(me),
        ).contains(f) <==> f != me && hears_of_given(fed, f, class, values),
{
    let dom = values_in(value_fields(values)).dom();
    let q = ascending(dom);
    let classes = chain(fed.fom.object_classes, class);
    lemma_handles_finite(dom);
    lemma_ascending(dom);
    let audience = attribute_audience(fed, class, q, Some(me));
    if audience.contains(f) {
        let (c, a) = choose|c: u32, a: u32|
            classes.contains(c) && q.contains(a) && #[trigger]
            fed.subscriptions.attributes.contains((c, a, f));
        lemma_values(values, a);
        assert(hears_of(fed, f, class, a));
    }
    if hears_of_given(fed, f, class, values) {
        let a = choose|a: u32| #[trigger] gives_value(values, a) && hears_of(fed, f, class, a);
        lemma_values(values, a);
        let c = choose|c: u32|
            classes.contains(c) && #[trigger] fed.subscriptions.attributes.contains((c, a, f));
        assert(q.contains(a));
    }
}

proof fn lemma_owns(
    inst: InstanceView,
    values: Option<Vec<HandleValueField>>,
    me: u32,
)
    requires
        values_are_valid(values),
    ensures
        owns_all(inst, values_in(value_fields(values)).dom(), me) <==> owns_what_it_gives(
            inst,
            values,
            me,
        ),
{
    let dom = values_in(value_fields(values)).dom();
    assert forall|a: u32| dom.contains(a) <==> gives_value(values, a) by {
        lemma_values(values, a);
    }
}

/// The owner of attributes can give them new values. Exactly the other federates that
/// subscribe to one of them, at the class of the instance or at one that it derives
/// from, and that regions do not keep all of them from, are served: each is told of the
/// instance first where it did not know it, and then of all the values with the tag.
/// Nothing else changes.
pub proof fn an_update_serves_exactly_its_subscribers(
    fed: FederationView,
    conns: Map<u64, u64>,
    me: u32,
    object_instance: Option<Vec<u8>>,
    attribute_values: Option<Vec<HandleValueField>>,
    user_supplied_tag: Vec<u8>,
    load: SnapshotLoadView,
    instance: u64,
)
    requires
        own_sessions(fed.federates),
        field64(object_instance) == Some(instance),
        values_are_valid(attribute_values),
        fed.object_instances.contains_key(instance),
        owns_what_it_gives(fed.object_instances[instance], attribute_values, me),
    ensures
        ({
            let request = CallRequest::UpdateAttributeValues {
                object_instance,
                attribute_values,
                user_supplied_tag,
            };
            let o = member_outcome(fed, conns, me, request, load);
            let inst = fed.object_instances[instance];
            let list = value_list(values_in(value_fields(attribute_values)));
            let served = |f: u32|
                f != me && hears_of_given(fed, f, inst.class, attribute_values) && given_in_scope(
                    fed,
                    f,
                    inst,
                    attribute_values,
                );
            &&& serves(o, Service::UpdateAttributeValues)
            &&& carries(list, attribute_values)
            &&& o.fed == (FederationView { federates: o.fed.federates, ..fed })
            &&& only_learnt(fed, o.fed, instance, served)
            &&& tells(
                o.sent,
                conns,
                fed.federates,
                |f: u32|
                    only_if(
                        served(f) && !knows(fed, f, instance),
                        discovery(instance, inst.class, inst.name, me),
                    ) + only_if(
                        served(f),
                        CallbackView::ReflectAttributeValues {
                            object_instance: bytes_of_u64(instance),
                            attribute_values: list,
                            user_supplied_tag: user_supplied_tag@,
                            producing_federate: bytes_of_u32(me),
                        },
                    ),
            )
        }),
{
    reveal(lookup_reply);
    reveal(quiet_outcome);
    reveal(exchange_outcome);
    let request = CallRequest::UpdateAttributeValues {
        object_instance,
        attribute_values,
        user_supplied_tag,
    };
    let o = member_outcome(fed, conns, me, request, load);
    let inst = fed.object_instances[instance];
    let values = values_in(value_fields(attribute_values));
    let list = value_list(values);
    let served = |f: u32|
        f != me && hears_of_given(fed, f, inst.class, attribute_values) && given_in_scope(
            fed,
            f,
            inst,
            attribute_values,
        );
    values_are_passed_on(attribute_values);
    lemma_values_are_valid(attribute_values, HlaException::InvalidAttributeHandle);
    lemma_owns(inst, attribute_values, me);
    let audience = update_audience(fed, inst, values.dom(), me);
    assert forall|f: u32| audience.contains(f) <==> served(f) by {
        lemma_attribute_audience(fed, f, inst.class, attribute_values, me);
        if audience.contains(f) {
            let a = choose|a: u32| #[trigger]
                values.dom().contains(a) && concerns(fed, f, inst, a);
            lemma_values(attribute_values, a);
            lemma_in_scope(fed, f, inst, a);
        }
        if served(f) {
            let a = choose|a: u32| #[trigger]
                gives_value(attribute_values, a) && in_scope(fed, f, inst, a);
            lemma_values(attribute_values, a);
            lemma_in_scope(fed, f, inst, a);
            assert(values.dom().contains(a));
        }
    }
    let reflect = CallbackView::ReflectAttributeValues {
        object_instance: bytes_of_u64(instance),
        attribute_values: list,
        user_supplied_tag: user_supplied_tag@,
        producing_federate: bytes_of_u32(me),
    };
    let discover = discovery(instance, inst.class, inst.name, me);
    let first = |f: u32| only_if(audience.contains(f) && !knows(fed, f, instance), discover);
    let second = |f: u32| only_if(served(f), reflect);
    let next = with_awareness(fed, audience, instance);
    lemma_discoveries(conns, fed, audience, instance, inst.class, inst.name, me);
    lemma_tells_set(conns, fed.federates, next, audience, reflect, second);
    lemma_tells_two(
        discoveries(fed, conns, audience, instance, inst.class, inst.name, me),
        deliveries(conns, next, audience, reflect),
        conns,
        fed.federates,
        first,
        second,
        |f: u32|
            only_if(served(f) && !knows(fed, f, instance), discover) + only_if(served(f), reflect),
    );
}

/// An update is refused where the instance is not known, where a value comes without a
/// handle, and where an attribute is not owned by who gives it a value.
pub proof fn only_owners_update(
    fed: FederationView,
    conns: Map<u64, u64>,
    me: u32,
    object_instance: Option<Vec<u8>>,
    attribute_values: Option<Vec<HandleValueField>>,
    user_supplied_tag: Vec<u8>,
    load: SnapshotLoadView,
)
    ensures
        ({
            let request = CallRequest::UpdateAttributeValues {
                object_instance,
                attribute_values,
                user_supplied_tag,
            };
            let o = member_outcome(fed, conns, me, request, load);
            match field64(object_instance) {
                None => refuses(o, fed, HlaException::ObjectInstanceNotKnown),
                Some(i) => {
                    let valid = values_are_valid(attribute_values);
                    let known = fed.object_instances.contains_key(i);
                    &&& !valid ==> refuses(o, fed, HlaException::InvalidAttributeHandle)
                    &&& valid && !known ==> refuses(o, fed, HlaException::ObjectInstanceNotKnown)
                    &&& valid && known && !owns_what_it_gives(
                        fed.object_instances[i],
                        attribute_values,
                        me,
                    ) ==> refuses(o, fed, HlaException::AttributeNotOwned)
                },
            }
        }),
{
    reveal(lookup_reply);
    reveal(quiet_outcome);
    reveal(exchange_outcome);
    lemma_values_are_valid(attribute_values, HlaException::InvalidAttributeHandle);
    if let Some(i) = field64(object_instance) {
        if values_are_valid(attribute_values) {
            lemma_owns(fed.object_instances[i], attribute_values, me);
        }
    }
}

/// Whether a message with a time stamp has to wait for a federate: it is constrained and
/// has not come to that time.
pub open spec fn waits(fs: FederateView, time: u64) -> bool {
    fs.time.is_constrained && before(fs.time.current_time, time)
}

/// Whether a queue has one message more, behind all that are not later and ahead of all
/// that are.
pub open spec fn queued_in_order(before: Seq<TsoView>, after: Seq<TsoView>, m: TsoView) -> bool {
    exists|k: int| #[trigger]
        in_place(before, k, m.time) && after == before.insert(k, m)
}

/// Whether a place in a queue is behind all messages that are not later than a time and
/// ahead of all that are.
pub open spec fn in_place(q: Seq<TsoView>, k: int, time: u64) -> bool {
    &&& 0 <= k <= q.len()
    &&& forall|i: int| 0 <= i < k ==> not_after((#[trigger] q[i]).time, time)
    &&& forall|i: int| k <= i < q.len() ==> !not_after((#[trigger] q[i]).time, time)
}

/// Whether of the federates of two states those that have to wait for a message have it
/// in their queues, and the others have theirs as they were.
pub open spec fn only_queued(
    a: FederationView,
    b: FederationView,
    who: spec_fn(u32) -> bool,
    m: TsoView,
) -> bool {
    forall|f: u32| #[trigger]
        a.federates.contains_key(f) ==> if who(f) && waits(a.federates[f], m.time) {
            queued_in_order(a.federates[f].tso_queue, b.federates[f].tso_queue, m)
        } else {
            b.federates[f].tso_queue == a.federates[f].tso_queue
        }
}

/// Whether two states of a federation have the same federates, and these differ in what
/// they know of an instance, and in their queues, at most.
pub open spec fn same_but_known_and_queued(
    a: FederationView,
    b: FederationView,
    instance: u64,
    learns: spec_fn(u32) -> bool,
    forgets: spec_fn(u32) -> bool,
) -> bool {
    &&& forall|f: u32| #[trigger] b.federates.contains_key(f) <==> a.federates.contains_key(f)
    &&& forall|f: u32| #[trigger]
        a.federates.contains_key(f) ==> b.federates[f] == (FederateView {
            pub_sub: PubSubView {
                discovered_instances: if learns(f) {
                    a.federates[f].pub_sub.discovered_instances.insert(instance)
                } else if forgets(f) {
                    a.federates[f].pub_sub.discovered_instances.remove(instance)
                } else {
                    a.federates[f].pub_sub.discovered_instances
                },
                ..a.federates[f].pub_sub
            },
            tso_queue: b.federates[f].tso_queue,
            ..a.federates[f]
        })
}

proof fn lemma_queued(q: Seq<TsoView>, m: TsoView)
    requires
        in_time_order(q),
    ensures
        queued_in_order(q, q.insert(due(q, m.time) as int, m), m),
{
    due_messages_come_first(q, m.time);
    assert(in_place(q, due(q, m.time) as int, m.time));
}

/// The owner of attributes can give them new values at a time, unless it regulates and
/// the time is one that it has promised not to use any more. Exactly the other federates
/// that subscribe to one of them, at the class of the instance or at one that it derives
/// from, are served: each is told of the instance where it did not know it, and of the
/// values, the tag and the time at once, unless it has to wait for them; then they go in
/// its queue, in the order of their times. Nothing else changes.
pub proof fn a_timed_update_serves_exactly_its_subscribers(
    fed: FederationView,
    conns: Map<u64, u64>,
    me: u32,
    object_instance: Option<Vec<u8>>,
    attribute_values: Option<Vec<HandleValueField>>,
    user_supplied_tag: Vec<u8>,
    time: Option<Vec<u8>>,
    load: SnapshotLoadView,
    instance: u64,
    stamp: u64,
)
    requires
        fed.wf(),
        own_sessions(fed.federates),
        field64(object_instance) == Some(instance),
        field64(time) == Some(stamp),
        values_are_valid(attribute_values),
        fed.object_instances.contains_key(instance),
        owns_what_it_gives(fed.object_instances[instance], attribute_values, me),
        !(fed.federates.contains_key(me) && fed.federates[me].time.is_regulating && before(
            stamp,
            plus(fed.federates[me].time.current_time, fed.federates[me].time.lookahead),
        )),
    ensures
        ({
            let request = CallRequest::UpdateAttributeValuesWithTime {
                object_instance,
                attribute_values,
                user_supplied_tag,
                time,
            };
            let o = member_outcome(fed, conns, me, request, load);
            let inst = fed.object_instances[instance];
            let list = value_list(values_in(value_fields(attribute_values)));
            let served = |f: u32|
                f != me && hears_of_given(fed, f, inst.class, attribute_values);
            let reflect = CallbackView::ReflectAttributeValuesWithTime {
                object_instance: bytes_of_u64(instance),
                attribute_values: list,
                user_supplied_tag: user_supplied_tag@,
                producing_federate: bytes_of_u32(me),
                time: bytes_of_u64(stamp),
                sent_order_type: 1,
                received_order_type: 1,
            };
            &&& serves(o, Service::UpdateAttributeValuesWithTime)
            &&& carries(list, attribute_values)
            &&& o.fed == (FederationView { federates: o.fed.federates, ..fed })
            &&& same_but_known_and_queued(fed, o.fed, instance, served, |f: u32| false)
            &&& only_queued(fed, o.fed, served, TsoView { time: stamp, callback: reflect })
            &&& tells(
                o.sent,
                conns,
                fed.federates,
                |f: u32|
                    only_if(
                        served(f) && !knows(fed, f, instance),
                        discovery(instance, inst.class, inst.name, me),
                    ) + only_if(served(f) && !waits(fed.federates[f], stamp), reflect),
            )
        }),
{
    reveal(lookup_reply);
    reveal(quiet_outcome);
    reveal(exchange_outcome);
    let request = CallRequest::UpdateAttributeValuesWithTime {
        object_instance,
        attribute_values,
        user_supplied_tag,
        time,
    };
    let o = member_outcome(fed, conns, me, request, load);
    let inst = fed.object_instances[instance];
    let values = values_in(value_fields(attribute_values));
    let list = value_list(values);
    let served = |f: u32| f != me && hears_of_given(fed, f, inst.class, attribute_values);
    values_are_passed_on(attribute_values);
    lemma_values_are_valid(attribute_values, HlaException::InvalidAttributeHandle);
    lemma_owns(inst, attribute_values, me);
    let audience = attribute_audience(fed, inst.class, ascending(values.dom()), Some(me));
    assert forall|f: u32| audience.contains(f) <==> served(f) by {
        lemma_attribute_audience(fed, f, inst.class, attribute_values, me);
    }
    let reflect = CallbackView::ReflectAttributeValuesWithTime {
        object_instance: bytes_of_u64(instance),
        attribute_values: list,
        user_supplied_tag: user_supplied_tag@,
        producing_federate: bytes_of_u32(me),
        time: bytes_of_u64(stamp),
        sent_order_type: 1,
        received_order_type: 1,
    };
    let m = TsoView { time: stamp, callback: reflect };
    let discover = discovery(instance, inst.class, inst.name, me);
    let first = |f: u32| only_if(audience.contains(f) && !knows(fed, f, instance), discover);
    let second = |f: u32| only_if(served(f) && !waits(fed.federates[f], stamp), reflect);
    let next = with_awareness(fed, audience, instance);
    let now = immediate(next, audience, stamp);
    lemma_discoveries(conns, fed, audience, instance, inst.class, inst.name, me);
    assert forall|f: u32| #[trigger] fed.federates.contains_key(f) implies (now.contains(f)
        <==> served(f) && !waits(fed.federates[f], stamp)) by {
        assert(next.federates.contains_key(f));
        assert(next.federates[f].time == fed.federates[f].time);
    }
    lemma_tells_set(conns, fed.federates, next, now, reflect, second);
    lemma_tells_two(
        discoveries(fed, conns, audience, instance, inst.class, inst.name, me),
        deliveries(conns, next, now, reflect),
        conns,
        fed.federates,
        first,
        second,
        |f: u32|
            only_if(served(f) && !knows(fed, f, instance), discover) + only_if(
                served(f) && !waits(fed.federates[f], stamp),
                reflect,
            ),
    );
    assert forall|f: u32| #[trigger] fed.federates.contains_key(f) implies if served(f) && waits(
        fed.federates[f],
        m.time,
    ) {
        queued_in_order(fed.federates[f].tso_queue, o.fed.federates[f].tso_queue, m)
    } else {
        o.fed.federates[f].tso_queue == fed.federates[f].tso_queue
    } by {
        assert(fed.federates[f].wf());
        lemma_queued(fed.federates[f].tso_queue, m);
        assert(next.federates[f].tso_queue == fed.federates[f].tso_queue);
        assert(next.federates[f].time == fed.federates[f].time);
    }
}

/// A timed update is refused where the instance is not known, where a value comes without
/// a handle, without a time, where an attribute is not owned by who gives it a value, and
/// where who regulates has promised not to use that time any more.
pub proof fn only_owners_update_in_time(
    fed: FederationView,
    conns: Map<u64, u64>,
    me: u32,
    object_instance: Option<Vec<u8>>,
    attribute_values: Option<Vec<HandleValueField>>,
    user_supplied_tag: Vec<u8>,
    time: Option<Vec<u8>>,
    load: SnapshotLoadView,
)
    ensures
        ({
            let request = CallRequest::UpdateAttributeValuesWithTime {
                object_instance,
                attribute_values,
                user_supplied_tag,
                time,
            };
            let o = member_outcome(fed, conns, me, request, load);
            match field64(object_instance) {
                None => refuses(o, fed, HlaException::ObjectInstanceNotKnown),
                Some(i) => {
                    let valid = values_are_valid(attribute_values);
                    let known = fed.object_instances.contains_key(i);
                    let owned = owns_what_it_gives(fed.object_instances[i], attribute_values, me);
                    &&& !valid ==> refuses(o, fed, HlaException::InvalidAttributeHandle)
                    &&& valid && field64(time) is None ==> refuses(
                        o,
                        fed,
                        HlaException::InvalidLogicalTime,
                    )
                    &&& valid && field64(time) is Some && !known ==> refuses(
                        o,
                        fed,
                        HlaException::ObjectInstanceNotKnown,
                    )
                    &&& valid && field64(time) is Some && known && !owned ==> refuses(
                        o,
                        fed,
                        HlaException::AttributeNotOwned,
                    )
                    &&& valid && known && owned && fed.federates.contains_key(me)
                        && fed.federates[me].time.is_regulating && (field64(time) matches Some(t)
                        && before(
                        t,
                        plus(fed.federates[me].time.current_time, fed.federates[me].time.lookahead),
                    )) ==> refuses(o, fed, HlaException::InvalidLogicalTime)
                },
            }
        }),
{
    reveal(lookup_reply);
    reveal(quiet_outcome);
    reveal(exchange_outcome);
    lemma_values_are_valid(attribute_values, HlaException::InvalidAttributeHandle);
    if let Some(i) = field64(object_instance) {
        if values_are_valid(attribute_values) {
            lemma_owns(fed.object_instances[i], attribute_values, me);
        }
    }
}

/// Why an interaction cannot be sent: its class is not defined, or who sends it does not
/// publish that class, or a parameter comes without a handle.
pub open spec fn interaction_refused(
    fed: FederationView,
    me: u32,
    class: Option<u32>,
    values: Option<Vec<HandleValueField>>,
) -> Option<HlaException> {
    match class {
        None => Some(HlaException::InvalidInteractionClassHandle),
        Some(c) => if !defines(fed.fom.interaction_classes, c) {
            Some(HlaException::InteractionClassNotDefined)
        } else if !fed.federates.contains_key(me) {
            Some(HlaException::FederateNotExecutionMember)
        } else if !fed.federates[me].pub_sub.published_interactions.contains(c) {
            Some(HlaException::InteractionClassNotPublished)
        } else if !values_are_valid(values) {
            Some(HlaException::InvalidParameterHandle)
        } else {
            None
        },
    }
}

proof fn lemma_interaction_audience(fed: FederationView, class: u32, me: u32, f: u32)
    ensures
        interaction_audience(fed, class, Some(me)).contains(f) <==> f != me && listens_to(
            fed,
            f,
            class,
        ),
{
}

/// Who publishes an interaction class can send one, with or without regions. Exactly the
/// other federates that subscribe to the class, or to one that it derives from, receive
/// it with its parameters and tag. Nothing changes.
pub proof fn an_interaction_serves_exactly_its_subscribers(
    fed: FederationView,
    conns: Map<u64, u64>,
    me: u32,
    with_regions: bool,
    interaction_class: Option<Vec<u8>>,
    parameter_values: Option<Vec<HandleValueField>>,
    user_supplied_tag: Vec<u8>,
    load: SnapshotLoadView,
)
    requires
        own_sessions(fed.federates),
    ensures
        ({
            let request = CallRequest::SendInteraction {
                with_regions,
                interaction_class,
                parameter_values,
                user_supplied_tag,
            };
            let o = member_outcome(fed, conns, me, request, load);
            let class = field32(interaction_class);
            let list = value_list(values_in(value_fields(parameter_values)));
            match interaction_refused(fed, me, class, parameter_values) {
                Some(kind) => refuses(o, fed, kind),
                None => {
                    &&& serves(o, Service::SendInteraction)
                    &&& carries(list, parameter_values)
                    &&& o.fed == fed
                    &&& tells(
                        o.sent,
                        conns,
                        fed.federates,
                        |f: u32|
                            only_if(
                                f != me && listens_to(fed, f, class->0),
                                CallbackView::ReceiveInteraction {
                                    interaction_class: bytes_of_u32(class->0),
                                    parameter_values: list,
                                    user_supplied_tag: user_supplied_tag@,
                                    producing_federate: bytes_of_u32(me),
                                },
                            ),
                    )
                },
            }
        }),
{
    reveal(lookup_reply);
    reveal(quiet_outcome);
    reveal(exchange_outcome);
    let class = field32(interaction_class);
    lemma_values_are_valid(parameter_values, HlaException::InvalidParameterHandle);
    if class is Some {
        lemma_defines(fed.fom.interaction_classes, class->0);
    }
    if interaction_refused(fed, me, class, parameter_values) is None {
        values_are_passed_on(parameter_values);
        let receive = CallbackView::ReceiveInteraction {
            interaction_class: bytes_of_u32(class->0),
            parameter_values: value_list(values_in(value_fields(parameter_values))),
            user_supplied_tag: user_supplied_tag@,
            producing_federate: bytes_of_u32(me),
        };
        lemma_tells_set(
            conns,
            fed.federates,
            fed,
            interaction_audience(fed, class->0, Some(me)),
            receive,
            |f: u32| only_if(f != me && listens_to(fed, f, class->0), receive),
        );
    }
}

/// An interaction with a time is received by exactly the same federates, at once, unless
/// they have to wait for it; then it goes in their queues, in the order of its time.
pub proof fn a_timed_interaction_serves_exactly_its_subscribers(
    fed: FederationView,
    conns: Map<u64, u64>,
    me: u32,
    with_regions: bool,
    interaction_class: Option<Vec<u8>>,
    parameter_values: Option<Vec<HandleValueField>>,
    user_supplied_tag: Vec<u8>,
    time: Option<Vec<u8>>,
    load: SnapshotLoadView,
)
    requires
        fed.wf(),
        own_sessions(fed.federates),
    ensures
        ({
            let request = CallRequest::SendInteractionWithTime {
                with_regions,
                interaction_class,
                parameter_values,
                user_supplied_tag,
                time,
            };
            let o = member_outcome(fed, conns, me, request, load);
            let class = field32(interaction_class);
            let list = value_list(values_in(value_fields(parameter_values)));
            match (interaction_refused(fed, me, class, parameter_values), field64(time)) {
                (Some(kind), _) => refuses(o, fed, kind),
                (None, None) => refuses(o, fed, HlaException::InvalidLogicalTime),
                (None, Some(stamp)) => {
                    let served = |f: u32| f != me && listens_to(fed, f, class->0);
                    let receive = CallbackView::ReceiveInteractionWithTime {
                        interaction_class: bytes_of_u32(class->0),
                        parameter_values: list,
                        user_supplied_tag: user_supplied_tag@,
                        producing_federate: bytes_of_u32(me),
                        time: bytes_of_u64(stamp),
                        sent_order_type: 1,
                        received_order_type: 1,
                    };
                    &&& serves(o, Service::SendInteractionWithTime)
                    &&& carries(list, parameter_values)
                    &&& o.fed == (FederationView { federates: o.fed.federates, ..fed })
                    &&& same_but_known_and_queued(fed, o.fed, 0, |f: u32| false, |f: u32| false)
                    &&& only_queued(fed, o.fed, served, TsoView { time: stamp, callback: receive })
                    &&& tells(
                        o.sent,
                        conns,
                        fed.federates,
                        |f: u32|
                            only_if(served(f) && !waits(fed.federates[f], stamp), receive),
                    )
                },
            }
        }),
{
    reveal(lookup_reply);
    reveal(quiet_outcome);
    reveal(exchange_outcome);
    let request = CallRequest::SendInteractionWithTime {
        with_regions,
        interaction_class,
        parameter_values,
        user_supplied_tag,
        time,
    };
    let o = member_outcome(fed, conns, me, request, load);
    let class = field32(interaction_class);
    lemma_values_are_valid(parameter_values, HlaException::InvalidParameterHandle);
    if class is Some {
        lemma_defines(fed.fom.interaction_classes, class->0);
    }
    if interaction_refused(fed, me, class, parameter_values) is None && field64(time) is Some {
        let stamp = field64(time)->0;
        let served = |f: u32| f != me && listens_to(fed, f, class->0);
        values_are_passed_on(parameter_values);
        let receive = CallbackView::ReceiveInteractionWithTime {
            interaction_class: bytes_of_u32(class->0),
            parameter_values: value_list(values_in(value_fields(parameter_values))),
            user_supplied_tag: user_supplied_tag@,
            producing_federate: bytes_of_u32(me),
            time: bytes_of_u64(stamp),
            sent_order_type: 1,
            received_order_type: 1,
        };
        let m = TsoView { time: stamp, callback: receive };
        let audience = interaction_audience(fed, class->0, Some(me));
        lemma_tells_set(
            conns,
            fed.federates,
            fed,
            immediate(fed, audience, stamp),
            receive,
            |f: u32| only_if(served(f) && !waits(fed.federates[f], stamp), receive),
        );
        assert forall|f: u32| #[trigger] fed.federates.contains_key(f) implies if served(f)
            && waits(fed.federates[f], m.time) {
            queued_in_order(fed.federates[f].tso_queue, o.fed.federates[f].tso_queue, m)
        } else {
            o.fed.federates[f].tso_queue == fed.federates[f].tso_queue
        } by {
            assert(fed.federates[f].wf());
            lemma_queued(fed.federates[f].tso_queue, m);
        }
    }
}

/// Who registered an instance, and nobody else, can delete it. It is gone, and exactly
/// the others that knew it are told so with the tag, and know it no more.
pub proof fn a_deleted_instance_is_gone_for_everybody(
    fed: FederationView,
    conns: Map<u64, u64>,
    me: u32,
    object_instance: Option<Vec<u8>>,
    user_supplied_tag: Vec<u8>,
    load: SnapshotLoadView,
)
    requires
        own_sessions(fed.federates),
    ensures
        ({
            let request = CallRequest::DeleteObjectInstance { object_instance, user_supplied_tag };
            let o = member_outcome(fed, conns, me, request, load);
            match field64(object_instance) {
                None => refuses(o, fed, HlaException::ObjectInstanceNotKnown),
                Some(i) => if !fed.object_instances.contains_key(i) {
                    refuses(o, fed, HlaException::ObjectInstanceNotKnown)
                } else if fed.object_instances[i].registrar != me {
                    refuses(o, fed, HlaException::DeletePrivilegeNotHeld)
                } else {
                    &&& serves(o, Service::DeleteObjectInstance)
                    &&& o.fed == (FederationView {
                        object_instances: fed.object_instances.remove(i),
                        federates: o.fed.federates,
                        ..fed
                    })
                    &&& same_but_known_and_queued(
                        fed,
                        o.fed,
                        i,
                        |f: u32| false,
                        |f: u32| f != me,
                    )
                    &&& forall|f: u32| #[trigger]
                        fed.federates.contains_key(f) ==> o.fed.federates[f].tso_queue
                            == fed.federates[f].tso_queue
                    &&& tells(
                        o.sent,
                        conns,
                        fed.federates,
                        |f: u32|
                            only_if(
                                f != me && knows(fed, f, i),
                                CallbackView::RemoveObjectInstance {
                                    object_instance: bytes_of_u64(i),
                                    user_supplied_tag: user_supplied_tag@,
                                    producing_federate: bytes_of_u32(me),
                                },
                            ),
                    )
                },
            }
        }),
{
    reveal(lookup_reply);
    reveal(quiet_outcome);
    reveal(exchange_outcome);
    let request = CallRequest::DeleteObjectInstance { object_instance, user_supplied_tag };
    let o = member_outcome(fed, conns, me, request, load);
    if let Some(i) = field64(object_instance) {
        if fed.object_instances.contains_key(i) && fed.object_instances[i].registrar == me {
            let remove = CallbackView::RemoveObjectInstance {
                object_instance: bytes_of_u64(i),
                user_supplied_tag: user_supplied_tag@,
                producing_federate: bytes_of_u32(me),
            };
            lemma_tells_set(
                conns,
                fed.federates,
                o.fed,
                knowers(fed, i, me),
                remove,
                |f: u32| only_if(f != me && knows(fed, f, i), remove),
            );
        }
    }
}

/// An instance that is deleted at a time is gone at once; those that knew it and have to
/// wait for that time are told of it then.
pub proof fn a_timed_deletion_is_told_in_time(
    fed: FederationView,
    conns: Map<u64, u64>,
    me: u32,
    object_instance: Option<Vec<u8>>,
    user_supplied_tag: Vec<u8>,
    time: Option<Vec<u8>>,
    load: SnapshotLoadView,
)
    requires
        fed.wf(),
        own_sessions(fed.federates),
    ensures
        ({
            let request = CallRequest::DeleteObjectInstanceWithTime {
                object_instance,
                user_supplied_tag,
                time,
            };
            let o = member_outcome(fed, conns, me, request, load);
            match (field64(object_instance), field64(time)) {
                (None, _) => refuses(o, fed, HlaException::ObjectInstanceNotKnown),
                (Some(_), None) => refuses(o, fed, HlaException::InvalidLogicalTime),
                (Some(i), Some(stamp)) => if !fed.object_instances.contains_key(i) {
                    refuses(o, fed, HlaException::ObjectInstanceNotKnown)
                } else if fed.object_instances[i].registrar != me {
                    refuses(o, fed, HlaException::DeletePrivilegeNotHeld)
                } else {
                    let served = |f: u32| f != me && knows(fed, f, i);
                    let remove = CallbackView::RemoveObjectInstanceWithTime {
                        object_instance: bytes_of_u64(i),
                        user_supplied_tag: user_supplied_tag@,
                        producing_federate: bytes_of_u32(me),
                        time: bytes_of_u64(stamp),
                        sent_order_type: 1,
                        received_order_type: 1,
                    };
                    &&& serves(o, Service::DeleteObjectInstanceWithTime)
                    &&& o.fed == (FederationView {
                        object_instances: fed.object_instances.remove(i),
                        federates: o.fed.federates,
                        ..fed
                    })
                    &&& same_but_known_and_queued(
                        fed,
                        o.fed,
                        i,
                        |f: u32| false,
                        |f: u32| f != me,
                    )
                    &&& only_queued(fed, o.fed, served, TsoView { time: stamp, callback: remove })
                    &&& tells(
                        o.sent,
                        conns,
                        fed.federates,
                        |f: u32| only_if(served(f) && !waits(fed.federates[f], stamp), remove),
                    )
                },
            }
        }),
{
    reveal(lookup_reply);
    reveal(quiet_outcome);
    reveal(exchange_outcome);
    let request = CallRequest::DeleteObjectInstanceWithTime {
        object_instance,
        user_supplied_tag,
        time,
    };
    let o = member_outcome(fed, conns, me, request, load);
    if field64(object_instance) is Some && field64(time) is Some {
        let i = field64(object_instance)->0;
        let stamp = field64(time)->0;
        if fed.object_instances.contains_key(i) && fed.object_instances[i].registrar == me {
            let served = |f: u32| f != me && knows(fed, f, i);
            let remove = CallbackView::RemoveObjectInstanceWithTime {
                object_instance: bytes_of_u64(i),
                user_supplied_tag: user_supplied_tag@,
                producing_federate: bytes_of_u32(me),
                time: bytes_of_u64(stamp),
                sent_order_type: 1,
                received_order_type: 1,
            };
            let m = TsoView { time: stamp, callback: remove };
            let next = without_instance(fed, i, me);
            let now = immediate(next, knowers(fed, i, me), stamp);
            assert forall|f: u32| #[trigger] fed.federates.contains_key(f) implies (now.contains(f)
                <==> served(f) && !waits(fed.federates[f], stamp)) by {
                assert(next.federates.contains_key(f));
                assert(next.federates[f].time == fed.federates[f].time);
            }
            lemma_tells_set(
                conns,
                fed.federates,
                next,
                now,
                remove,
                |f: u32| only_if(served(f) && !waits(fed.federates[f], stamp), remove),
            );
            assert forall|f: u32| #[trigger] fed.federates.contains_key(f) implies if served(f)
                && waits(fed.federates[f], m.time) {
                queued_in_order(fed.federates[f].tso_queue, o.fed.federates[f].tso_queue, m)
            } else {
                o.fed.federates[f].tso_queue == fed.federates[f].tso_queue
            } by {
                assert(fed.federates[f].wf());
                lemma_queued(fed.federates[f].tso_queue, m);
                assert(next.federates[f].tso_queue == fed.federates[f].tso_queue);
                assert(next.federates[f].time == fed.federates[f].time);
            }
        }
    }
}

/// A federate that forgets an instance does so alone, and nobody is told.
pub proof fn to_forget_an_instance_concerns_nobody_else(
    fed: FederationView,
    conns: Map<u64, u64>,
    me: u32,
    object_instance: Option<Vec<u8>>,
    load: SnapshotLoadView,
)
    ensures
        ({
            let request = CallRequest::LocalDeleteObjectInstance { object_instance };
            let o = member_outcome(fed, conns, me, request, load);
            match field64(object_instance) {
                None => refuses(o, fed, HlaException::ObjectInstanceNotKnown),
                Some(i) => {
                    &&& serves(o, Service::LocalDeleteObjectInstance)
                    &&& o.sent.len() == 0
                    &&& o.fed == (FederationView { federates: o.fed.federates, ..fed })
                    &&& same_but_known_and_queued(
                        fed,
                        o.fed,
                        i,
                        |f: u32| false,
                        |f: u32| f == me,
                    )
                    &&& forall|f: u32| #[trigger]
                        fed.federates.contains_key(f) ==> o.fed.federates[f].tso_queue
                            == fed.federates[f].tso_queue
                },
            }
        }),
{
    reveal(lookup_reply);
    reveal(quiet_outcome);
}

/// An interaction that is directed at an instance is received by exactly those others
/// that registered the instance, or want that interaction class when it is directed at
/// instances of its class.
pub proof fn a_directed_interaction_serves_exactly_who_wants_it(
    fed: FederationView,
    conns: Map<u64, u64>,
    me: u32,
    interaction_class: Option<Vec<u8>>,
    object_instance: Option<Vec<u8>>,
    parameter_values: Option<Vec<HandleValueField>>,
    user_supplied_tag: Vec<u8>,
    load: SnapshotLoadView,
)
    requires
        own_sessions(fed.federates),
    ensures
        ({
            let request = CallRequest::SendDirectedInteraction {
                interaction_class,
                object_instance,
                parameter_values,
                user_supplied_tag,
            };
            let o = member_outcome(fed, conns, me, request, load);
            let list = value_list(values_in(value_fields(parameter_values)));
            match (field32(interaction_class), field64(object_instance)) {
                (None, _) => refuses(o, fed, HlaException::InvalidInteractionClassHandle),
                (Some(_), None) => refuses(o, fed, HlaException::ObjectInstanceNotKnown),
                (Some(c), Some(i)) => if !values_are_valid(parameter_values) {
                    refuses(o, fed, HlaException::InvalidParameterHandle)
                } else if !fed.object_instances.contains_key(i) {
                    refuses(o, fed, HlaException::ObjectInstanceNotKnown)
                } else {
                    let inst = fed.object_instances[i];
                    &&& serves(o, Service::SendDirectedInteraction)
                    &&& carries(list, parameter_values)
                    &&& o.fed == fed
                    &&& tells(
                        o.sent,
                        conns,
                        fed.federates,
                        |f: u32|
                            only_if(
                                f != me && (f == inst.registrar || wants(
                                    fed.federates[f],
                                    inst.class,
                                    c,
                                )),
                                CallbackView::ReceiveDirectedInteraction {
                                    interaction_class: bytes_of_u32(c),
                                    object_instance: bytes_of_u64(i),
                                    parameter_values: list,
                                    user_supplied_tag: user_supplied_tag@,
                                    producing_federate: bytes_of_u32(me),
                                },
                            ),
                    )
                },
            }
        }),
{
    reveal(lookup_reply);
    reveal(quiet_outcome);
    reveal(exchange_outcome);
    lemma_values_are_valid(parameter_values, HlaException::InvalidParameterHandle);
    if field32(interaction_class) is Some && field64(object_instance) is Some && values_are_valid(
        parameter_values,
    ) && fed.object_instances.contains_key(field64(object_instance)->0) {
        let c = field32(interaction_class)->0;
        let i = field64(object_instance)->0;
        let inst = fed.object_instances[i];
        values_are_passed_on(parameter_values);
        let receive = CallbackView::ReceiveDirectedInteraction {
            interaction_class: bytes_of_u32(c),
            object_instance: bytes_of_u64(i),
            parameter_values: value_list(values_in(value_fields(parameter_values))),
            user_supplied_tag: user_supplied_tag@,
            producing_federate: bytes_of_u32(me),
        };
        lemma_tells_set(
            conns,
            fed.federates,
            fed,
            directed_audience(fed, i, c, me),
            receive,
            |f: u32|
                only_if(
                    f != me && (f == inst.registrar || wants(fed.federates[f], inst.class, c)),
                    receive,
                ),
        );
    }
}

/// Whether a federate wants an interaction class when it is directed at instances of a
/// class.
pub open spec fn wants(fs: FederateView, object_class: u32, interaction_class: u32) -> bool {
    let m = fs.pub_sub.subscribed_directed_interactions;
    m.contains_key(object_class) && m[object_class].contains(interaction_class)
}

} // verus!

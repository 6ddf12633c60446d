//! Ownership of attributes.

use crate::callbacks::CallbackView;
use crate::dispatch::calls::{
    coordination_outcome, exchange_outcome, lookup_reply, member_outcome, quiet_outcome,
};
use crate::dispatch::helpers::{handles_in, listed};
use crate::dispatch::ownership::{
    owned_among, owned_by, owner_reports, owners_among, unowned_among, unowned_report,
};
use crate::dispatch::restore::SnapshotLoadView;
use crate::exception::HlaException;
use crate::federation::{FederationView, InstanceView};
use crate::fom::chain;
use crate::handles::{bytes_of_u32, bytes_of_u64, decode_encode_u32, field32, field64};
use crate::laws::{
    handles_are_listed_once, hears_of, lemma_names, lemma_names_only, lemma_tells_likewise,
    lemma_tells_set, lemma_tells_two, lists, names, names_handles_only, only_if, own_sessions,
    received, refuses, serves, tells,
};
use crate::messages::{CallRequest, DivestForm, PayloadView, ResponseView, Service};
use crate::routing::{attribute_audience, deliveries, handle_list};
use crate::subscriptions::lemma_handles_finite;
use crate::tables::{ascending, lemma_ascending};
use vstd::prelude::*;

verus! {

/// Those of the attributes named in a request that a federate owns.
pub open spec fn asked_and_owned_by(
    inst: InstanceView,
    attributes: Option<Vec<Vec<u8>>>,
    f: u32,
) -> Set<u32> {
    Set::new(
        |a: u32|
            names(attributes, a) && inst.attribute_owners.contains_key(a)
                && inst.attribute_owners[a] == f,
    )
}

/// Those of the attributes named in a request that have an owner.
pub open spec fn asked_and_owned(inst: InstanceView, attributes: Option<Vec<Vec<u8>>>) -> Set<u32> {
    Set::new(|a: u32| names(attributes, a) && inst.attribute_owners.contains_key(a))
}

/// Those of the attributes named in a request that nobody owns.
pub open spec fn asked_and_free(inst: InstanceView, attributes: Option<Vec<Vec<u8>>>) -> Set<u32> {
    Set::new(|a: u32| names(attributes, a) && !inst.attribute_owners.contains_key(a))
}

/// Whether a callback tells rightly which of the attributes asked for a federate owns,
/// or which of them nobody owns.
pub open spec fn tells_rightly(
    callback: CallbackView,
    instance: u64,
    inst: InstanceView,
    attributes: Option<Vec<Vec<u8>>>,
) -> bool {
    match callback {
        CallbackView::InformAttributeOwnership { object_instance, attributes: list, federate } => {
            &&& object_instance == bytes_of_u64(instance)
            &&& list.len() > 0
            &&& exists|f: u32|
                federate == #[trigger] bytes_of_u32(f) && lists(
                    list,
                    asked_and_owned_by(inst, attributes, f),
                )
        },
        CallbackView::AttributeIsNotOwned { object_instance, attributes: list } => {
            &&& object_instance == bytes_of_u64(instance)
            &&& list.len() > 0
            &&& lists(list, asked_and_free(inst, attributes))
        },
        _ => false,
    }
}

/// Whether a callback tells what a federate owns.
pub open spec fn is_about(callback: CallbackView, f: u32) -> bool {
    callback matches CallbackView::InformAttributeOwnership { federate, .. } && federate
        == bytes_of_u32(f)
}

proof fn lemma_owner_reports(
    conns: Map<u64, u64>,
    fed: FederationView,
    me: u32,
    instance: u64,
    attrs: Set<u32>,
    owners: Seq<u32>,
)
    requires
        own_sessions(fed.federates),
    ensures
        tells(
            owner_reports(conns, fed, me, instance, attrs, owners),
            conns,
            fed.federates,
            |f: u32|
                if f == me {
                    reports(fed, instance, attrs, owners)
                } else {
                    Seq::empty()
                },
        ),
    decreases owners.len(),
{
    let what = |f: u32|
        if f == me {
            reports(fed, instance, attrs, owners)
        } else {
            Seq::empty()
        };
    if owners.len() > 0 {
        let rest = owners.drop_last();
        lemma_owner_reports(conns, fed, me, instance, attrs, rest);
        let report = report_on(fed, instance, attrs, owners.last());
        let first = |f: u32|
            if f == me {
                reports(fed, instance, attrs, rest)
            } else {
                Seq::empty()
            };
        let second = |f: u32| only_if(f == me, report);
        lemma_tells_set(conns, fed.federates, fed, set![me], report, second);
        assert(reports(fed, instance, attrs, owners) =~= reports(fed, instance, attrs, rest).push(
            report,
        ));
        lemma_tells_two(
            owner_reports(conns, fed, me, instance, attrs, rest),
            deliveries(conns, fed, set![me], report),
            conns,
            fed.federates,
            first,
            second,
            what,
        );
    } else {
        assert(reports(fed, instance, attrs, owners) =~= Seq::empty());
    }
}

spec fn report_on(fed: FederationView, instance: u64, attrs: Set<u32>, f: u32) -> CallbackView {
    CallbackView::InformAttributeOwnership {
        object_instance: bytes_of_u64(instance),
        attributes: handle_list(
            ascending(owned_by(fed.object_instances[instance].attribute_owners, attrs, f)),
        ),
        federate: bytes_of_u32(f),
    }
}

spec fn reports(
    fed: FederationView,
    instance: u64,
    attrs: Set<u32>,
    owners: Seq<u32>,
) -> Seq<CallbackView> {
    owners.map_values(|f: u32| report_on(fed, instance, attrs, f))
}

proof fn lemma_list_not_empty(l: Seq<Seq<u8>>, set: Set<u32>, a: u32)
    requires
        lists(l, set),
        set.contains(a),
    ensures
        l.len() > 0,
{
    assert(l.contains(bytes_of_u32(a)));
}

/// Who asks for the owners of attributes is told, for each owner once, exactly those of
/// them that it owns, and once exactly those that nobody owns; so every attribute that
/// was asked for is reported once, with its owner or as not owned. Nobody else is told
/// anything, and nothing changes.
pub proof fn owners_are_reported_rightly(
    fed: FederationView,
    conns: Map<u64, u64>,
    me: u32,
    object_instance: Option<Vec<u8>>,
    attributes: Option<Vec<Vec<u8>>>,
    load: SnapshotLoadView,
    instance: u64,
)
    requires
        own_sessions(fed.federates),
        fed.federates.contains_key(me),
        conns.contains_key(fed.federates[me].session_id),
        field64(object_instance) == Some(instance),
        names_handles_only(attributes),
        fed.object_instances.contains_key(instance),
    ensures
        ({
            let request = CallRequest::QueryAttributeOwnership { object_instance, attributes };
            let o = member_outcome(fed, conns, me, request, load);
            let inst = fed.object_instances[instance];
            let told = received(o.sent, fed.federates[me].session_id);
            &&& serves(o, Service::QueryAttributeOwnership)
            &&& o.fed == fed
            &&& tells(
                o.sent,
                conns,
                fed.federates,
                |f: u32|
                    if f == me {
                        told
                    } else {
                        Seq::empty()
                    },
            )
            &&& forall|i: int|
                0 <= i < told.len() ==> tells_rightly(
                    #[trigger] told[i],
                    instance,
                    inst,
                    attributes,
                )
            &&& forall|a: u32|
                names(attributes, a) && #[trigger] inst.attribute_owners.contains_key(a) ==> (exists|
                    i: int,
                |
                    0 <= i < told.len() && is_about(#[trigger] told[i], inst.attribute_owners[a]))
            &&& forall|a: u32|
                names(attributes, a) && !(#[trigger] inst.attribute_owners.contains_key(a)) ==> (
                exists|i: int| 0 <= i < told.len() && #[trigger] told[i] is AttributeIsNotOwned)
            &&& forall|i: int, j: int, f: u32|
                0 <= i < told.len() && 0 <= j < told.len() && #[trigger] is_about(told[i], f)
                    && #[trigger] is_about(told[j], f) ==> i == j
            &&& forall|i: int, j: int|
                0 <= i < told.len() && 0 <= j < told.len() && (#[trigger] told[i]) is AttributeIsNotOwned
                    && (#[trigger] told[j]) is AttributeIsNotOwned ==> i == j
        }),
{
    reveal(lookup_reply);
    reveal(quiet_outcome);
    reveal(exchange_outcome);
    reveal(coordination_outcome);
    let request = CallRequest::QueryAttributeOwnership { object_instance, attributes };
    let o = member_outcome(fed, conns, me, request, load);
    let inst = fed.object_instances[instance];
    let all = inst.attribute_owners;
    let told = received(o.sent, fed.federates[me].session_id);
    let set = handles_in(listed(attributes));
    lemma_names_only(attributes);
    assert forall|a: u32| set.contains(a) <==> names(attributes, a) by {
        lemma_names(attributes, a);
    }
    let owners = owners_among(all, set);
    let q = ascending(owners);
    lemma_handles_finite(owners);
    lemma_ascending(owners);
    let free = unowned_among(all, set);
    assert(free =~= asked_and_free(inst, attributes));
    let none = CallbackView::AttributeIsNotOwned {
        object_instance: bytes_of_u64(instance),
        attributes: handle_list(ascending(free)),
    };
    let mine = reports(fed, instance, set, q) + only_if(free != Set::<u32>::empty(), none);
    lemma_owner_reports(conns, fed, me, instance, set, q);
    let first = |f: u32|
        if f == me {
            reports(fed, instance, set, q)
        } else {
            Seq::empty()
        };
    let second = |f: u32| only_if(f == me && free != Set::<u32>::empty(), none);
    let what = |f: u32|
        if f == me {
            mine
        } else {
            Seq::empty()
        };
    if free != Set::<u32>::empty() {
        lemma_tells_set(conns, fed.federates, fed, set![me], none, second);
    } else {
        assert(tells(Seq::empty(), conns, fed.federates, second));
    }
    lemma_tells_two(
        owner_reports(conns, fed, me, instance, set, q),
        unowned_report(conns, fed, me, instance, set),
        conns,
        fed.federates,
        first,
        second,
        what,
    );
    assert(told == mine);
    lemma_tells_likewise(
        o.sent,
        conns,
        fed.federates,
        what,
        |f: u32|
            if f == me {
                told
            } else {
                Seq::empty()
            },
    );
    assert forall|f: u32| owned_by(all, set, f) == asked_and_owned_by(inst, attributes, f) by {
        assert(owned_by(all, set, f) =~= asked_and_owned_by(inst, attributes, f));
    }
    assert forall|i: int| 0 <= i < told.len() implies tells_rightly(
        #[trigger] told[i],
        instance,
        inst,
        attributes,
    ) by {
        if i < q.len() {
            let f = q[i];
            assert(told[i] == report_on(fed, instance, set, f));
            assert(q.contains(f));
            handles_are_listed_once(owned_by(all, set, f));
            let a = choose|a: u32| #[trigger]
                set.contains(a) && all.contains_key(a) && all[a] == f;
            lemma_list_not_empty(
                handle_list(ascending(owned_by(all, set, f))),
                owned_by(all, set, f),
                a,
            );
        } else {
            assert(told[i] == none);
            handles_are_listed_once(free);
            let a = choose|a: u32| free.contains(a);
            if !free.contains(a) {
                assert(free =~= Set::empty());
            }
            lemma_list_not_empty(handle_list(ascending(free)), free, a);
        }
    }
    assert forall|a: u32|
        names(attributes, a) && #[trigger] inst.attribute_owners.contains_key(a) implies (exists|
        i: int,
    |
        0 <= i < told.len() && is_about(#[trigger] told[i], inst.attribute_owners[a])) by {
        let f = all[a];
        assert(owners.contains(f)) by {
            assert(set.contains(a));
        }
        assert(q.contains(f));
        let i = q.index_of(f);
        assert(told[i] == report_on(fed, instance, set, f));
        assert(is_about(told[i], f));
    }
    assert forall|a: u32|
        names(attributes, a) && !(#[trigger] inst.attribute_owners.contains_key(a)) implies (exists|
        i: int,
    | 0 <= i < told.len() && #[trigger] told[i] is AttributeIsNotOwned) by {
        assert(free.contains(a));
        assert(told[q.len() as int] == none);
    }
    assert forall|i: int, j: int, f: u32|
        0 <= i < told.len() && 0 <= j < told.len() && #[trigger] is_about(told[i], f) && #[trigger]
        is_about(told[j], f) implies i == j by {
        assert(i < q.len() && j < q.len());
        assert(told[i] == report_on(fed, instance, set, q[i]));
        assert(told[j] == report_on(fed, instance, set, q[j]));
        decode_encode_u32(f);
        decode_encode_u32(q[i]);
        decode_encode_u32(q[j]);
    }
    assert forall|i: int, j: int|
        0 <= i < told.len() && 0 <= j < told.len() && (#[trigger] told[i]) is AttributeIsNotOwned
            && (#[trigger] told[j]) is AttributeIsNotOwned implies i == j by {
        if i < q.len() {
            assert(told[i] == report_on(fed, instance, set, q[i]));
        }
        if j < q.len() {
            assert(told[j] == report_on(fed, instance, set, q[j]));
        }
    }
}

/// Whether two states differ in who owns the attributes of an instance at most.
pub open spec fn only_owners_differ(a: FederationView, b: FederationView, instance: u64) -> bool {
    &&& b == (FederationView { object_instances: b.object_instances, ..a })
    &&& forall|o: u64| #[trigger]
        b.object_instances.contains_key(o) <==> a.object_instances.contains_key(o)
    &&& forall|o: u64|
        o != instance && #[trigger] a.object_instances.contains_key(o) ==> b.object_instances[o]
            == a.object_instances[o]
    &&& b.object_instances[instance] == (InstanceView {
        attribute_owners: b.object_instances[instance].attribute_owners,
        ..a.object_instances[instance]
    })
}

/// Who wants attributes gets exactly those that nobody owned; those that had an owner
/// keep it. It is told, each where there are any, which it got and which not, with its
/// tag.
pub proof fn free_attributes_go_to_who_wants_them(
    fed: FederationView,
    conns: Map<u64, u64>,
    me: u32,
    if_available: bool,
    object_instance: Option<Vec<u8>>,
    desired_attributes: Option<Vec<Vec<u8>>>,
    user_supplied_tag: Vec<u8>,
    load: SnapshotLoadView,
    instance: u64,
)
    requires
        own_sessions(fed.federates),
        field64(object_instance) == Some(instance),
        names_handles_only(desired_attributes),
        fed.object_instances.contains_key(instance),
    ensures
        ({
            let request = CallRequest::AttributeOwnershipAcquisition {
                if_available,
                object_instance,
                desired_attributes,
                user_supplied_tag,
            };
            let o = member_outcome(fed, conns, me, request, load);
            let inst = fed.object_instances[instance];
            let owners = o.fed.object_instances[instance].attribute_owners;
            let got = asked_and_free(inst, desired_attributes);
            let missed = asked_and_owned(inst, desired_attributes);
            &&& serves(o, Service::AttributeOwnershipAcquisitionIfAvailable)
            &&& only_owners_differ(fed, o.fed, instance)
            &&& forall|a: u32| #[trigger]
                owners.contains_key(a) <==> inst.attribute_owners.contains_key(a) || names(
                    desired_attributes,
                    a,
                )
            &&& forall|a: u32| #[trigger]
                owners.contains_key(a) ==> owners[a] == (if inst.attribute_owners.contains_key(a) {
                    inst.attribute_owners[a]
                } else {
                    me
                })
            &&& lists(handle_list(ascending(got)), got)
            &&& lists(handle_list(ascending(missed)), missed)
            &&& tells(
                o.sent,
                conns,
                fed.federates,
                |f: u32|
                    only_if(
                        f == me && got != Set::<u32>::empty(),
                        CallbackView::AttributeOwnershipAcquisitionNotification {
                            object_instance: bytes_of_u64(instance),
                            secured_attributes: handle_list(ascending(got)),
                            user_supplied_tag: user_supplied_tag@,
                        },
                    ) + only_if(
                        f == me && missed != Set::<u32>::empty(),
                        CallbackView::AttributeOwnershipUnavailable {
                            object_instance: bytes_of_u64(instance),
                            attributes: handle_list(ascending(missed)),
                            user_supplied_tag: user_supplied_tag@,
                        },
                    ),
            )
        }),
{
    reveal(lookup_reply);
    reveal(quiet_outcome);
    reveal(exchange_outcome);
    reveal(coordination_outcome);
    let request = CallRequest::AttributeOwnershipAcquisition {
        if_available,
        object_instance,
        desired_attributes,
        user_supplied_tag,
    };
    let o = member_outcome(fed, conns, me, request, load);
    let inst = fed.object_instances[instance];
    let got = asked_and_free(inst, desired_attributes);
    let missed = asked_and_owned(inst, desired_attributes);
    let set = handles_in(listed(desired_attributes));
    lemma_names_only(desired_attributes);
    assert forall|a: u32| set.contains(a) <==> names(desired_attributes, a) by {
        lemma_names(desired_attributes, a);
    }
    assert(got =~= unowned_among(inst.attribute_owners, set));
    assert(missed =~= owned_among(inst.attribute_owners, set));
    handles_are_listed_once(got);
    handles_are_listed_once(missed);
    let secured = CallbackView::AttributeOwnershipAcquisitionNotification {
        object_instance: bytes_of_u64(instance),
        secured_attributes: handle_list(ascending(got)),
        user_supplied_tag: user_supplied_tag@,
    };
    let unavailable = CallbackView::AttributeOwnershipUnavailable {
        object_instance: bytes_of_u64(instance),
        attributes: handle_list(ascending(missed)),
        user_supplied_tag: user_supplied_tag@,
    };
    let first = |f: u32| only_if(f == me && got != Set::<u32>::empty(), secured);
    let second = |f: u32| only_if(f == me && missed != Set::<u32>::empty(), unavailable);
    if got != Set::<u32>::empty() {
        lemma_tells_set(conns, fed.federates, o.fed, set![me], secured, first);
    } else {
        assert(tells(Seq::empty(), conns, fed.federates, first));
    }
    if missed != Set::<u32>::empty() {
        lemma_tells_set(conns, fed.federates, o.fed, set![me], unavailable, second);
    } else {
        assert(tells(Seq::empty(), conns, fed.federates, second));
    }
    let a = if got == Set::<u32>::empty() {
        Seq::empty()
    } else {
        deliveries(conns, o.fed, set![me], secured)
    };
    let b = if missed == Set::<u32>::empty() {
        Seq::empty()
    } else {
        deliveries(conns, o.fed, set![me], unavailable)
    };
    assert(o.sent == a + b);
    lemma_tells_two(
        a,
        b,
        conns,
        fed.federates,
        first,
        second,
        |f: u32|
            only_if(f == me && got != Set::<u32>::empty(), secured) + only_if(
                f == me && missed != Set::<u32>::empty(),
                unavailable,
            ),
    );
}

/// Who gives attributes away loses exactly those of them that it owned, and nobody owns
/// them then. Whoever subscribes to one of those, at the class of the instance or at one
/// that it derives from, is told which they are.
pub proof fn attributes_given_away_have_no_owner(
    fed: FederationView,
    conns: Map<u64, u64>,
    me: u32,
    divest_form: DivestForm,
    object_instance: Option<Vec<u8>>,
    attributes: Option<Vec<Vec<u8>>>,
    user_supplied_tag: Vec<u8>,
    load: SnapshotLoadView,
    instance: u64,
)
    requires
        own_sessions(fed.federates),
        field64(object_instance) == Some(instance),
        names_handles_only(attributes),
        fed.object_instances.contains_key(instance),
    ensures
        ({
            let request = CallRequest::AttributeOwnershipDivestiture {
                divest_form,
                object_instance,
                attributes,
                user_supplied_tag,
            };
            let o = member_outcome(fed, conns, me, request, load);
            let inst = fed.object_instances[instance];
            let owners = o.fed.object_instances[instance].attribute_owners;
            let given = asked_and_owned_by(inst, attributes, me);
            &&& serves(o, Service::UnconditionalAttributeOwnershipDivestiture)
            &&& only_owners_differ(fed, o.fed, instance)
            &&& forall|a: u32| #[trigger]
                owners.contains_key(a) <==> inst.attribute_owners.contains_key(a)
                    && !given.contains(a)
            &&& forall|a: u32| #[trigger]
                owners.contains_key(a) ==> owners[a] == inst.attribute_owners[a]
            &&& lists(handle_list(ascending(given)), given)
            &&& tells(
                o.sent,
                conns,
                fed.federates,
                |f: u32|
                    only_if(
                        exists|a: u32| #[trigger]
                            given.contains(a) && hears_of(fed, f, inst.class, a),
                        CallbackView::AttributeIsNotOwned {
                            object_instance: bytes_of_u64(instance),
                            attributes: handle_list(ascending(given)),
                        },
                    ),
            )
        }),
{
    reveal(lookup_reply);
    reveal(quiet_outcome);
    reveal(exchange_outcome);
    reveal(coordination_outcome);
    let request = CallRequest::AttributeOwnershipDivestiture {
        divest_form,
        object_instance,
        attributes,
        user_supplied_tag,
    };
    let o = member_outcome(fed, conns, me, request, load);
    let inst = fed.object_instances[instance];
    let given = asked_and_owned_by(inst, attributes, me);
    let set = handles_in(listed(attributes));
    lemma_names_only(attributes);
    assert forall|a: u32| set.contains(a) <==> names(attributes, a) by {
        lemma_names(attributes, a);
    }
    assert(given =~= owned_by(inst.attribute_owners, set, me));
    handles_are_listed_once(given);
    lemma_handles_finite(given);
    lemma_ascending(given);
    let free = CallbackView::AttributeIsNotOwned {
        object_instance: bytes_of_u64(instance),
        attributes: handle_list(ascending(given)),
    };
    let what = |f: u32|
        only_if(
            exists|a: u32| #[trigger] given.contains(a) && hears_of(fed, f, inst.class, a),
            free,
        );
    let audience = attribute_audience(o.fed, inst.class, ascending(given), None);
    assert forall|f: u32| audience.contains(f) <==> (exists|a: u32| #[trigger]
        given.contains(a) && hears_of(fed, f, inst.class, a)) by {
        if audience.contains(f) {
            let (c, a) = choose|c: u32, a: u32|
                chain(fed.fom.object_classes, inst.class).contains(c) && ascending(
                    given,
                ).contains(a) && #[trigger] o.fed.subscriptions.attributes.contains((c, a, f));
            assert(given.contains(a));
        }
        if exists|a: u32| #[trigger] given.contains(a) && hears_of(fed, f, inst.class, a) {
            let a = choose|a: u32| #[trigger] given.contains(a) && hears_of(fed, f, inst.class, a);
            let c = choose|c: u32|
                chain(fed.fom.object_classes, inst.class).contains(c) && #[trigger]
                fed.subscriptions.attributes.contains((c, a, f));
            assert(ascending(given).contains(a));
            assert(o.fed.subscriptions.attributes.contains((c, a, f)));
        }
    }
    if given == Set::<u32>::empty() {
        assert(tells(Seq::empty(), conns, fed.federates, what));
    } else {
        lemma_tells_set(conns, fed.federates, o.fed, audience, free, what);
    }
}

/// A request about the owners of attributes is refused where its instance is not known,
/// or where it names something that is no handle; nothing comes of it.
pub proof fn owners_of_unknown_instances_are_refused(
    fed: FederationView,
    conns: Map<u64, u64>,
    me: u32,
    request: CallRequest,
    load: SnapshotLoadView,
    object_instance: Option<Vec<u8>>,
    attributes: Option<Vec<Vec<u8>>>,
)
    requires
        match request {
            CallRequest::QueryAttributeOwnership { object_instance: i, attributes: l } => i
                == object_instance && l == attributes,
            CallRequest::AttributeOwnershipDivestiture { object_instance: i, attributes: l, .. } => i
                == object_instance && l == attributes,
            CallRequest::AttributeOwnershipAcquisition {
                object_instance: i,
                desired_attributes: l,
                ..
            } => i == object_instance && l == attributes,
            _ => false,
        },
    ensures
        ({
            let o = member_outcome(fed, conns, me, request, load);
            match field64(object_instance) {
                None => refuses(o, fed, HlaException::ObjectInstanceNotKnown),
                Some(i) => {
                    &&& !names_handles_only(attributes) ==> refuses(
                        o,
                        fed,
                        HlaException::InvalidAttributeHandle,
                    )
                    &&& names_handles_only(attributes) && !fed.object_instances.contains_key(i)
                        ==> refuses(o, fed, HlaException::ObjectInstanceNotKnown)
                },
            }
        }),
{
    reveal(lookup_reply);
    reveal(quiet_outcome);
    reveal(exchange_outcome);
    reveal(coordination_outcome);
    lemma_names_only(attributes);
}

/// The answer to whether a federate owns an attribute is that of the instance.
pub proof fn who_owns_an_attribute_is_answered_so(
    fed: FederationView,
    conns: Map<u64, u64>,
    me: u32,
    object_instance: Option<Vec<u8>>,
    attribute: Option<Vec<u8>>,
    load: SnapshotLoadView,
    instance: u64,
    attr: u32,
)
    requires
        field64(object_instance) == Some(instance),
        field32(attribute) == Some(attr),
    ensures
        ({
            let request = CallRequest::IsAttributeOwnedByFederate { object_instance, attribute };
            let o = member_outcome(fed, conns, me, request, load);
            let owners = fed.object_instances[instance].attribute_owners;
            &&& !fed.object_instances.contains_key(instance) ==> refuses(
                o,
                fed,
                HlaException::ObjectInstanceNotKnown,
            )
            &&& fed.object_instances.contains_key(instance) ==> {
                &&& o.reply == (ResponseView::Reply {
                    service: Service::IsAttributeOwnedByFederate,
                    payload: PayloadView::Flag(owners.contains_key(attr) && owners[attr] == me),
                })
                &&& o.fed == fed
                &&& o.sent.len() == 0
            }
        }),
{
    reveal(lookup_reply);
}

} // verus!

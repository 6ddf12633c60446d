//! Ownership of attributes.

use crate::callbacks::CallbackView;
use crate::connections::Connections;
use crate::dispatch::helpers::{
    all_handles, decode_handle_set, handles_in, listed, refusal, refuse, refuse_bare, Outcome,
};
use crate::exception::{bare, HlaException};
use crate::federation::{lemma_put_back, Federation, FederationView, InstanceView};
use crate::handles::{field32, field64, read_field32, read_field64, FederateHandle};
use crate::messages::{
    answered, done, refused, reply, reply_with, CallResponse, Payload, PayloadView, ResponseView,
    Service,
};
use crate::routing::{
    attribute_audience, attribute_is_not_owned, attribute_is_not_owned_view,
    attribute_ownership_acquisition_notification,
    attribute_ownership_acquisition_notification_view, attribute_ownership_unavailable,
    attribute_ownership_unavailable_view, deliver, deliveries, inform_attribute_ownership,
    inform_attribute_ownership_view, subscribers_for_attributes, OutboundView, Outbox,
};
use crate::tables::{ascending, lemma_ascending, KeySet, Table};
use vstd::prelude::*;

verus! {

/// Whether a federate owns an attribute of an instance.
pub open spec fn owns(inst: InstanceView, attr: u32, f: u32) -> bool {
    inst.attribute_owners.contains_key(attr) && inst.attribute_owners[attr] == f
}

/// The response to the question whether a federate owns an attribute.
pub open spec fn is_owned_reply(
    fed: FederationView,
    me: u32,
    instance: Option<u64>,
    attribute: Option<u32>,
) -> ResponseView {
    match (instance, attribute) {
        (None, _) => refused(bare(HlaException::ObjectInstanceNotKnown)),
        (Some(_), None) => refused(bare(HlaException::InvalidAttributeHandle)),
        (Some(o), Some(a)) => if !fed.object_instances.contains_key(o) {
            refused(bare(HlaException::ObjectInstanceNotKnown))
        } else {
            answered(
                Service::IsAttributeOwnedByFederate,
                PayloadView::Flag(owns(fed.object_instances[o], a, me)),
            )
        },
    }
}

/// Whether a federate owns an attribute.
pub fn is_attribute_owned_by_federate(
    federation: &Federation,
    me: FederateHandle,
    object_instance: &Option<Vec<u8>>,
    attribute: &Option<Vec<u8>>,
) -> (r: CallResponse)
    ensures
        r@ == is_owned_reply(federation@, me, field64(*object_instance), field32(*attribute)),
{
    let instance = match read_field64(object_instance) {
        Some(h) => h,
        None => return refuse_bare(HlaException::ObjectInstanceNotKnown),
    };
    let attr = match read_field32(attribute) {
        Some(h) => h,
        None => return refuse_bare(HlaException::InvalidAttributeHandle),
    };
    match federation.object_instances.get(instance) {
        None => refuse_bare(HlaException::ObjectInstanceNotKnown),
        Some(inst) => {
            let owned: bool = match inst.attribute_owners.get(attr) {
                Some(o) => *o == me,
                None => false,
            };
            reply_with(Service::IsAttributeOwnedByFederate, Payload::Flag(owned))
        },
    }
}

/// Those of the attributes that nobody owns.
pub open spec fn unowned_among(owners: Map<u32, u32>, attrs: Set<u32>) -> Set<u32> {
    Set::new(|a: u32| attrs.contains(a) && !owners.contains_key(a))
}

/// Those of the attributes that somebody owns.
pub open spec fn owned_among(owners: Map<u32, u32>, attrs: Set<u32>) -> Set<u32> {
    Set::new(|a: u32| attrs.contains(a) && owners.contains_key(a))
}

/// Those of the attributes that a federate owns.
pub open spec fn owned_by(owners: Map<u32, u32>, attrs: Set<u32>, f: u32) -> Set<u32> {
    Set::new(|a: u32| attrs.contains(a) && owners.contains_key(a) && owners[a] == f)
}

/// The owners of attributes.
pub open spec fn owners_among(owners: Map<u32, u32>, attrs: Set<u32>) -> Set<u32> {
    Set::new(
        |f: u32|
            exists|a: u32| #[trigger]
                attrs.contains(a) && owners.contains_key(a) && owners[a] == f,
    )
}

/// Parts attributes into those that have an owner and those that have none.
fn part(owners: &Table<u32, u32>, attrs: &KeySet<u32>) -> (r: (KeySet<u32>, KeySet<u32>))
    ensures
        r.0@ == owned_among(owners@, attrs@),
        r.1@ == unowned_among(owners@, attrs@),
{
    let members = attrs.members();
    proof {
        lemma_ascending(attrs@);
    }
    let mut owned: KeySet<u32> = KeySet::new();
    let mut unowned: KeySet<u32> = KeySet::new();
    let mut i: usize = 0;
    while i < members.len()
        invariant
            i <= members@.len(),
            forall|a: u32| #[trigger]
                owned@.contains(a) <==> owners@.contains_key(a) && exists|k: int|
                    0 <= k < i && members@[k] == a,
            forall|a: u32| #[trigger]
                unowned@.contains(a) <==> !owners@.contains_key(a) && exists|k: int|
                    0 <= k < i && members@[k] == a,
        decreases members@.len() - i,
    {
        if owners.contains_key(members[i]) {
            owned.insert(members[i]);
        } else {
            unowned.insert(members[i]);
        }
        i = i + 1;
    }
    proof {
        assert forall|a: u32| attrs@.contains(a) <==> exists|k: int|
            0 <= k < i && members@[k] == a by {
            if attrs@.contains(a) {
                assert(members@.contains(a));
                let k = members@.index_of(a);
                assert(members@[k] == a);
            }
            if exists|k: int| 0 <= k < i && members@[k] == a {
                assert(members@.contains(a));
            }
        }
        assert(owned@ =~= owned_among(owners@, attrs@));
        assert(unowned@ =~= unowned_among(owners@, attrs@));
    }
    (owned, unowned)
}

fn find_owned_by(owners: &Table<u32, u32>, attrs: &KeySet<u32>, f: FederateHandle) -> (r: KeySet<
    u32,
>)
    ensures
        r@ == owned_by(owners@, attrs@, f),
{
    let members = attrs.members();
    proof {
        lemma_ascending(attrs@);
    }
    let mut owned: KeySet<u32> = KeySet::new();
    let mut i: usize = 0;
    while i < members.len()
        invariant
            i <= members@.len(),
            forall|a: u32| #[trigger]
                owned@.contains(a) <==> owners@.contains_key(a) && owners@[a] == f && exists|
                    k: int,
                |
                    0 <= k < i && members@[k] == a,
        decreases members@.len() - i,
    {
        if let Some(owner) = owners.get(members[i]) {
            if *owner == f {
                owned.insert(members[i]);
            }
        }
        i = i + 1;
    }
    proof {
        assert forall|a: u32| attrs@.contains(a) <==> exists|k: int|
            0 <= k < i && members@[k] == a by {
            if attrs@.contains(a) {
                assert(members@.contains(a));
                let k = members@.index_of(a);
                assert(members@[k] == a);
            }
            if exists|k: int| 0 <= k < i && members@[k] == a {
                assert(members@.contains(a));
            }
        }
        assert(owned@ =~= owned_by(owners@, attrs@, f));
    }
    owned
}

fn find_owners(owners: &Table<u32, u32>, attrs: &KeySet<u32>) -> (r: KeySet<u32>)
    ensures
        r@ == owners_among(owners@, attrs@),
{
    let members = attrs.members();
    proof {
        lemma_ascending(attrs@);
    }
    let mut found: KeySet<u32> = KeySet::new();
    let mut i: usize = 0;
    while i < members.len()
        invariant
            i <= members@.len(),
            forall|f: u32| #[trigger]
                found@.contains(f) <==> exists|k: int|
                    0 <= k < i && owners@.contains_key(#[trigger] members@[k])
                        && owners@[members@[k]] == f,
        decreases members@.len() - i,
    {
        let ghost seen = found@;
        if let Some(owner) = owners.get(members[i]) {
            found.insert(*owner);
        }
        assert forall|f: u32| #[trigger] found@.contains(f) <==> exists|k: int|
            0 <= k < i + 1 && owners@.contains_key(#[trigger] members@[k]) && owners@[members@[k]]
                == f by {
            if seen.contains(f) {
                let k = choose|k: int|
                    0 <= k < i && owners@.contains_key(#[trigger] members@[k])
                        && owners@[members@[k]] == f;
                assert(0 <= k < i + 1 && owners@.contains_key(members@[k]));
            }
            if owners@.contains_key(members@[i as int]) && owners@[members@[i as int]] == f {
                assert(found@.contains(f));
            }
        }
        i = i + 1;
    }
    proof {
        let wanted = owners_among(owners@, attrs@);
        assert forall|f: u32| found@.contains(f) <==> wanted.contains(f) by {
            if found@.contains(f) {
                let k = choose|k: int|
                    0 <= k < i && owners@.contains_key(#[trigger] members@[k])
                        && owners@[members@[k]] == f;
                assert(members@.contains(members@[k]));
                assert(attrs@.contains(members@[k]));
            }
            if wanted.contains(f) {
                let a = choose|a: u32| #[trigger]
                    attrs@.contains(a) && owners@.contains_key(a) && owners@[a] == f;
                assert(members@.contains(a));
                let k = members@.index_of(a);
                assert(owners@.contains_key(members@[k]));
            }
        }
        assert(found@ =~= wanted);
    }
    found
}

/// The reports on the attributes of an instance, one for each owner.
pub open spec fn owner_reports(
    conns: Map<u64, u64>,
    fed: FederationView,
    me: u32,
    instance: u64,
    attrs: Set<u32>,
    owners: Seq<u32>,
) -> Seq<OutboundView>
    decreases owners.len(),
{
    if owners.len() == 0 {
        Seq::empty()
    } else {
        let all = fed.object_instances[instance].attribute_owners;
        owner_reports(conns, fed, me, instance, attrs, owners.drop_last()) + deliveries(
            conns,
            fed,
            set![me],
            inform_attribute_ownership_view(
                instance,
                ascending(owned_by(all, attrs, owners.last())),
                owners.last(),
            ),
        )
    }
}

/// The report on the attributes of an instance that nobody owns.
pub open spec fn unowned_report(
    conns: Map<u64, u64>,
    fed: FederationView,
    me: u32,
    instance: u64,
    attrs: Set<u32>,
) -> Seq<OutboundView> {
    let unowned = unowned_among(fed.object_instances[instance].attribute_owners, attrs);
    if unowned == Set::<u32>::empty() {
        Seq::empty()
    } else {
        deliveries(
            conns,
            fed,
            set![me],
            attribute_is_not_owned_view(instance, ascending(unowned)),
        )
    }
}

/// What the query for owners does: who asks is told, owner by owner, what each
/// owns, and what nobody owns.
pub open spec fn query_ownership_outcome(
    fed: FederationView,
    conns: Map<u64, u64>,
    me: u32,
    instance: Option<u64>,
    attrs: Seq<Seq<u8>>,
) -> Outcome {
    match instance {
        None => refusal(fed, bare(HlaException::ObjectInstanceNotKnown)),
        Some(o) => if !all_handles(attrs) {
            refusal(fed, bare(HlaException::InvalidAttributeHandle))
        } else if !fed.object_instances.contains_key(o) {
            refusal(fed, bare(HlaException::ObjectInstanceNotKnown))
        } else {
            let set = handles_in(attrs);
            let owners = owners_among(fed.object_instances[o].attribute_owners, set);
            Outcome {
                fed,
                reply: done(Service::QueryAttributeOwnership),
                sent: owner_reports(conns, fed, me, o, set, ascending(owners)) + unowned_report(
                    conns,
                    fed,
                    me,
                    o,
                    set,
                ),
            }
        },
    }
}

/// Tells a federate who owns attributes of an instance.
pub fn query_attribute_ownership(
    federation: &Federation,
    conns: &Connections,
    out: &mut Outbox,
    me: FederateHandle,
    object_instance: &Option<Vec<u8>>,
    attributes: &Option<Vec<Vec<u8>>>,
) -> (r: CallResponse)
    ensures
        ({
            let o = query_ownership_outcome(
                federation@,
                conns@,
                me,
                field64(*object_instance),
                listed(*attributes),
            );
            &&& o.fed == federation@
            &&& r@ == o.reply
            &&& final(out)@ == old(out)@ + o.sent
        }),
{
    assert(old(out)@ + Seq::empty() =~= old(out)@);
    let ghost fed = federation@;
    let instance = match read_field64(object_instance) {
        Some(h) => h,
        None => return refuse_bare(HlaException::ObjectInstanceNotKnown),
    };
    let attrs = match decode_handle_set(attributes) {
        Ok(s) => s,
        Err(e) => return refuse(e),
    };
    let inst = match federation.object_instances.get(instance) {
        Some(i) => i,
        None => return refuse_bare(HlaException::ObjectInstanceNotKnown),
    };
    let requester: KeySet<u32> = KeySet::single(me);
    let owners = find_owners(&inst.attribute_owners, &attrs).members();
    let ghost start = out@;
    let mut i: usize = 0;
    assert(start + owner_reports(conns@, fed, me, instance, attrs@, owners@.take(0)) =~= start);
    while i < owners.len()
        invariant
            i <= owners@.len(),
            fed == federation@,
            fed.object_instances.contains_key(instance),
            inst@ == fed.object_instances[instance],
            requester@ == set![me],
            out@ == start + owner_reports(
                conns@,
                fed,
                me,
                instance,
                attrs@,
                owners@.take(i as int),
            ),
        decreases owners@.len() - i,
    {
        let owner = owners[i];
        proof {
            assert(owners@.take(i + 1).drop_last() =~= owners@.take(i as int));
            assert(owners@.take(i + 1).last() == owner);
        }
        let owned = find_owned_by(&inst.attribute_owners, &attrs, owner).members();
        deliver(
            out,
            conns,
            federation,
            &requester,
            inform_attribute_ownership(instance, &owned, owner),
        );
        assert(out@ =~= start + owner_reports(
            conns@,
            fed,
            me,
            instance,
            attrs@,
            owners@.take(i + 1),
        ));
        i = i + 1;
    }
    assert(owners@.take(i as int) =~= owners@);
    let (_, unowned) = part(&inst.attribute_owners, &attrs);
    if !unowned.is_empty() {
        deliver(
            out,
            conns,
            federation,
            &requester,
            attribute_is_not_owned(instance, &unowned.members()),
        );
    }
    assert(out@ =~= old(out)@ + query_ownership_outcome(
        fed,
        conns@,
        me,
        field64(*object_instance),
        listed(*attributes),
    ).sent);
    reply(Service::QueryAttributeOwnership)
}

/// The federation with other owners of an instance's attributes.
pub open spec fn with_owners(
    fed: FederationView,
    instance: u64,
    owners: Map<u32, u32>,
) -> FederationView {
    FederationView {
        object_instances: fed.object_instances.insert(
            instance,
            InstanceView { attribute_owners: owners, ..fed.object_instances[instance] },
        ),
        ..fed
    }
}

/// The owners after a federate has taken those of the attributes that nobody
/// owned.
pub open spec fn acquired(owners: Map<u32, u32>, attrs: Set<u32>, me: u32) -> Map<u32, u32> {
    Map::new(
        |a: u32| owners.contains_key(a) || attrs.contains(a),
        |a: u32|
            if owners.contains_key(a) {
                owners[a]
            } else {
                me
            },
    )
}

/// The callback to a federate about some attributes, where there are any.
pub open spec fn about(
    conns: Map<u64, u64>,
    fed: FederationView,
    me: u32,
    attrs: Set<u32>,
    callback: CallbackView,
) -> Seq<OutboundView> {
    if attrs == Set::<u32>::empty() {
        Seq::empty()
    } else {
        deliveries(conns, fed, set![me], callback)
    }
}

/// What acquiring attributes does: the federate gets those that nobody owns, and
/// is told which it got and which not.
pub open spec fn acquire_outcome(
    fed: FederationView,
    conns: Map<u64, u64>,
    me: u32,
    instance: Option<u64>,
    attrs: Seq<Seq<u8>>,
    tag: Seq<u8>,
) -> Outcome {
    match instance {
        None => refusal(fed, bare(HlaException::ObjectInstanceNotKnown)),
        Some(o) => if !all_handles(attrs) {
            refusal(fed, bare(HlaException::InvalidAttributeHandle))
        } else if !fed.object_instances.contains_key(o) {
            refusal(fed, bare(HlaException::ObjectInstanceNotKnown))
        } else {
            let set = handles_in(attrs);
            let owners = fed.object_instances[o].attribute_owners;
            let next = with_owners(fed, o, acquired(owners, set, me));
            let secured = unowned_among(owners, set);
            let unavailable = owned_among(owners, set);
            Outcome {
                fed: next,
                reply: done(Service::AttributeOwnershipAcquisitionIfAvailable),
                sent: about(
                    conns,
                    next,
                    me,
                    secured,
                    attribute_ownership_acquisition_notification_view(o, ascending(secured), tag),
                ) + about(
                    conns,
                    next,
                    me,
                    unavailable,
                    attribute_ownership_unavailable_view(o, ascending(unavailable), tag),
                ),
            }
        },
    }
}

fn take_unowned(owners: &mut Table<u32, u32>, unowned: &KeySet<u32>, me: FederateHandle)
    requires
        forall|a: u32| #[trigger] unowned@.contains(a) ==> !old(owners)@.contains_key(a),
    ensures
        final(owners)@ == acquired(old(owners)@, unowned@, me),
{
    let members = unowned.members();
    proof {
        lemma_ascending(unowned@);
    }
    let ghost start = owners@;
    let mut i: usize = 0;
    while i < members.len()
        invariant
            i <= members@.len(),
            forall|a: u32| #[trigger] members@.contains(a) ==> !start.contains_key(a),
            forall|a: u32| #[trigger]
                owners@.contains_key(a) <==> start.contains_key(a) || exists|k: int|
                    0 <= k < i && members@[k] == a,
            forall|a: u32| #[trigger]
                owners@.contains_key(a) ==> owners@[a] == (if start.contains_key(a) {
                    start[a]
                } else {
                    me
                }),
        decreases members@.len() - i,
    {
        assert(members@.contains(members@[i as int]));
        owners.insert(members[i], me);
        i = i + 1;
    }
    assert(owners@ =~= acquired(start, unowned@, me)) by {
        assert forall|a: u32| unowned@.contains(a) <==> exists|k: int|
            0 <= k < i && members@[k] == a by {
            if unowned@.contains(a) {
                assert(members@.contains(a));
                let k = members@.index_of(a);
                assert(members@[k] == a);
            }
            if exists|k: int| 0 <= k < i && members@[k] == a {
                assert(members@.contains(a));
            }
        }
    }
}

/// Gives a federate those of the attributes that nobody owns.
pub fn attribute_ownership_acquisition_if_available(
    federation: &mut Federation,
    conns: &Connections,
    out: &mut Outbox,
    me: FederateHandle,
    object_instance: &Option<Vec<u8>>,
    desired_attributes: &Option<Vec<Vec<u8>>>,
    tag: &[u8],
) -> (r: CallResponse)
    requires
        old(federation).wf(),
    ensures
        final(federation).wf(),
        ({
            let o = acquire_outcome(
                old(federation)@,
                conns@,
                me,
                field64(*object_instance),
                listed(*desired_attributes),
                tag@,
            );
            &&& final(federation)@ == o.fed
            &&& r@ == o.reply
            &&& final(out)@ == old(out)@ + o.sent
        }),
{
    broadcast use lemma_put_back;

    assert(old(out)@ + Seq::empty() =~= old(out)@);
    let ghost fed = federation@;
    let instance = match read_field64(object_instance) {
        Some(h) => h,
        None => return refuse_bare(HlaException::ObjectInstanceNotKnown),
    };
    let attrs = match decode_handle_set(desired_attributes) {
        Ok(s) => s,
        Err(e) => return refuse(e),
    };
    let (unavailable, secured) = match federation.object_instances.remove(instance) {
        None => {
            return refuse_bare(HlaException::ObjectInstanceNotKnown);
        },
        Some(mut inst) => {
            let (unavailable, secured) = part(&inst.attribute_owners, &attrs);
            let ghost owners = inst.attribute_owners@;
            take_unowned(&mut inst.attribute_owners, &secured, me);
            assert(inst.attribute_owners@ =~= acquired(owners, attrs@, me));
            federation.object_instances.insert(instance, inst);
            (unavailable, secured)
        },
    };
    let requester: KeySet<u32> = KeySet::single(me);
    if !secured.is_empty() {
        deliver(
            out,
            conns,
            federation,
            &requester,
            attribute_ownership_acquisition_notification(instance, &secured.members(), tag),
        );
    }
    if !unavailable.is_empty() {
        deliver(
            out,
            conns,
            federation,
            &requester,
            attribute_ownership_unavailable(instance, &unavailable.members(), tag),
        );
    }
    assert(out@ =~= old(out)@ + acquire_outcome(
        fed,
        conns@,
        me,
        field64(*object_instance),
        listed(*desired_attributes),
        tag@,
    ).sent);
    reply(Service::AttributeOwnershipAcquisitionIfAvailable)
}

/// What giving attributes away does. Those that the federate owns have no owner
/// any more, and their subscribers are told; the others stay as they are.
pub open spec fn divest_outcome(
    fed: FederationView,
    conns: Map<u64, u64>,
    me: u32,
    instance: Option<u64>,
    attrs: Seq<Seq<u8>>,
) -> Outcome {
    match instance {
        None => refusal(fed, bare(HlaException::ObjectInstanceNotKnown)),
        Some(o) => if !all_handles(attrs) {
            refusal(fed, bare(HlaException::InvalidAttributeHandle))
        } else if !fed.object_instances.contains_key(o) {
            refusal(fed, bare(HlaException::ObjectInstanceNotKnown))
        } else {
            let inst = fed.object_instances[o];
            let divested = owned_by(inst.attribute_owners, handles_in(attrs), me);
            let next = with_owners(fed, o, inst.attribute_owners.remove_keys(divested));
            Outcome {
                fed: next,
                reply: done(Service::UnconditionalAttributeOwnershipDivestiture),
                sent: if divested == Set::<u32>::empty() {
                    Seq::empty()
                } else {
                    deliveries(
                        conns,
                        next,
                        attribute_audience(next, inst.class, ascending(divested), None),
                        attribute_is_not_owned_view(o, ascending(divested)),
                    )
                },
            }
        },
    }
}

fn release(owners: &mut Table<u32, u32>, divested: &KeySet<u32>)
    ensures
        final(owners)@ == old(owners)@.remove_keys(divested@),
{
    let members = divested.members();
    proof {
        lemma_ascending(divested@);
    }
    let ghost start = owners@;
    let mut i: usize = 0;
    while i < members.len()
        invariant
            i <= members@.len(),
            forall|a: u32| #[trigger]
                owners@.contains_key(a) <==> start.contains_key(a) && !exists|k: int|
                    0 <= k < i && members@[k] == a,
            forall|a: u32| #[trigger] owners@.contains_key(a) ==> owners@[a] == start[a],
        decreases members@.len() - i,
    {
        owners.remove(members[i]);
        i = i + 1;
    }
    assert(owners@ =~= start.remove_keys(divested@)) by {
        assert forall|a: u32| divested@.contains(a) <==> exists|k: int|
            0 <= k < i && members@[k] == a by {
            if divested@.contains(a) {
                assert(members@.contains(a));
                let k = members@.index_of(a);
                assert(members@[k] == a);
            }
            if exists|k: int| 0 <= k < i && members@[k] == a {
                assert(members@.contains(a));
            }
        }
    }
}

/// Lets a federate give attributes away.
pub fn unconditional_attribute_ownership_divestiture(
    federation: &mut Federation,
    conns: &Connections,
    out: &mut Outbox,
    me: FederateHandle,
    object_instance: &Option<Vec<u8>>,
    attributes: &Option<Vec<Vec<u8>>>,
) -> (r: CallResponse)
    requires
        old(federation).wf(),
    ensures
        final(federation).wf(),
        ({
            let o = divest_outcome(
                old(federation)@,
                conns@,
                me,
                field64(*object_instance),
                listed(*attributes),
            );
            &&& final(federation)@ == o.fed
            &&& r@ == o.reply
            &&& final(out)@ == old(out)@ + o.sent
        }),
{
    broadcast use lemma_put_back;

    assert(old(out)@ + Seq::empty() =~= old(out)@);
    let instance = match read_field64(object_instance) {
        Some(h) => h,
        None => return refuse_bare(HlaException::ObjectInstanceNotKnown),
    };
    let attrs = match decode_handle_set(attributes) {
        Ok(s) => s,
        Err(e) => return refuse(e),
    };
    let (class, divested) = match federation.object_instances.remove(instance) {
        None => return refuse_bare(HlaException::ObjectInstanceNotKnown),
        Some(mut inst) => {
            let divested = find_owned_by(&inst.attribute_owners, &attrs, me);
            release(&mut inst.attribute_owners, &divested);
            let class = inst.class;
            federation.object_instances.insert(instance, inst);
            (class, divested)
        },
    };
    if !divested.is_empty() {
        let list = divested.members();
        let audience = subscribers_for_attributes(federation, class, &list, None);
        deliver(
            out,
            conns,
            federation,
            &audience,
            attribute_is_not_owned(instance, &list),
        );
    }
    reply(Service::UnconditionalAttributeOwnershipDivestiture)
}

/// No request of one federate takes an attribute from another: who owns an
/// attribute keeps it until it gives the attribute away itself.
pub proof fn nobody_loses_an_attribute_to_another(
    fed: FederationView,
    conns: Map<u64, u64>,
    me: u32,
    instance: u64,
    attrs: Seq<Seq<u8>>,
    tag: Seq<u8>,
    attr: u32,
    owner: u32,
)
    requires
        fed.object_instances.contains_key(instance),
        owns(fed.object_instances[instance], attr, owner),
        owner != me,
    ensures
        owns(
            acquire_outcome(
                fed,
                conns,
                me,
                Some(instance),
                attrs,
                tag,
            ).fed.object_instances[instance],
            attr,
            owner,
        ),
        owns(
            divest_outcome(fed, conns, me, Some(instance), attrs).fed.object_instances[instance],
            attr,
            owner,
        ),
{
}

/// An attribute that its owner gives away goes to the next federate that wants
/// it.
pub proof fn a_divested_attribute_can_be_acquired(
    fed: FederationView,
    conns: Map<u64, u64>,
    giver: u32,
    taker: u32,
    instance: u64,
    attrs: Seq<Seq<u8>>,
    tag: Seq<u8>,
    attr: u32,
)
    requires
        fed.object_instances.contains_key(instance),
        owns(fed.object_instances[instance], attr, giver),
        all_handles(attrs),
        handles_in(attrs).contains(attr),
    ensures
        ({
            let given = divest_outcome(fed, conns, giver, Some(instance), attrs).fed;
            let taken = acquire_outcome(given, conns, taker, Some(instance), attrs, tag).fed;
            owns(taken.object_instances[instance], attr, taker)
        }),
{
}

} // verus!

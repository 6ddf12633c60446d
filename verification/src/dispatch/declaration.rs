//! Declaration management: what federates publish and subscribe to.

use crate::connections::Connections;
use crate::dispatch::advisories::{
    class_has_subscribers, class_publishers, emit_start_registration, emit_stop_registration,
    emit_turn_interactions_off, emit_turn_interactions_on, interaction_has_subscribers,
    interaction_publishers,
};
use crate::dispatch::helpers::{
    all_handles, decode_handle_set, handles_in, listed, refusal, refuse, refuse_bare, silent,
    with_pub_sub, Outcome,
};
use crate::exception::{bare, HlaException};
use crate::federation::{lemma_put_back, FederateView, Federation, FederationView, PubSubView};
use crate::handles::{field32, read_field32, FederateHandle};
use crate::messages::{done, reply, CallResponse, Service};
use crate::routing::{
    deliveries, start_registration_for_object_class_view, stop_registration_for_object_class_view,
    turn_interactions_off_view, turn_interactions_on_view, Outbox,
};
use crate::subscriptions::{SubscriptionMatrix, SubscriptionView};
use crate::tables::{extend_entry, extended, lemma_ascending, reduce_entry, reduced, KeySet};
use vstd::prelude::*;

verus! {

/// The subscriptions after a federate subscribed to attributes of a class.
pub open spec fn with_subscriptions(
    s: SubscriptionView,
    class: u32,
    attrs: Set<u32>,
    me: u32,
) -> SubscriptionView {
    SubscriptionView {
        attributes: Set::new(
            |t: (u32, u32, u32)|
                s.attributes.contains(t) || (t.0 == class && attrs.contains(t.1) && t.2 == me),
        ),
        ..s
    }
}

/// The subscriptions after a federate unsubscribed from attributes of a class.
pub open spec fn without_subscriptions(
    s: SubscriptionView,
    class: u32,
    attrs: Set<u32>,
    me: u32,
) -> SubscriptionView {
    SubscriptionView {
        attributes: Set::new(
            |t: (u32, u32, u32)|
                s.attributes.contains(t) && !(t.0 == class && attrs.contains(t.1) && t.2 == me),
        ),
        ..s
    }
}

/// What publishing attributes of a class does.
pub open spec fn publish_attributes_outcome(
    fed: FederationView,
    me: u32,
    class: Option<u32>,
    attrs: Seq<Seq<u8>>,
) -> Outcome {
    match class {
        None => refusal(fed, bare(HlaException::InvalidObjectClassHandle)),
        Some(c) => if !fed.fom.defines_object_class(c) {
            refusal(fed, bare(HlaException::ObjectClassNotDefined))
        } else if !all_handles(attrs) {
            refusal(fed, bare(HlaException::InvalidAttributeHandle))
        } else {
            let ps = fed.federates[me].pub_sub;
            silent(
                with_pub_sub(
                    fed,
                    me,
                    PubSubView {
                        published_attrs: extended(ps.published_attrs, c, handles_in(attrs)),
                        ..ps
                    },
                ),
                Service::PublishObjectClassAttributes,
            )
        },
    }
}

/// Publishes attributes of a class.
pub fn publish_object_class_attributes(
    federation: &mut Federation,
    me: FederateHandle,
    object_class: &Option<Vec<u8>>,
    attributes: &Option<Vec<Vec<u8>>>,
) -> (r: CallResponse)
    requires
        old(federation).wf(),
    ensures
        final(federation).wf(),
        ({
            let o = publish_attributes_outcome(
                old(federation)@,
                me,
                field32(*object_class),
                listed(*attributes),
            );
            &&& final(federation)@ == o.fed
            &&& r@ == o.reply
        }),
{
    broadcast use lemma_put_back;

    let class = match read_field32(object_class) {
        Some(c) => c,
        None => return refuse_bare(HlaException::InvalidObjectClassHandle),
    };
    if federation.fom.object_class_def(class).is_none() {
        return refuse_bare(HlaException::ObjectClassNotDefined);
    }
    let set = match decode_handle_set(attributes) {
        Ok(s) => s,
        Err(e) => return refuse(e),
    };
    if let Some(mut fs) = federation.federates.remove(me) {
        extend_entry(&mut fs.pub_sub.published_attrs, class, &set);
        federation.federates.insert(me, fs);
    }
    reply(Service::PublishObjectClassAttributes)
}

/// What ending the publication of attributes of a class does.
pub open spec fn unpublish_attributes_outcome(
    fed: FederationView,
    me: u32,
    class: Option<u32>,
    attrs: Seq<Seq<u8>>,
) -> Outcome {
    match class {
        None => refusal(fed, bare(HlaException::InvalidObjectClassHandle)),
        Some(c) => if !all_handles(attrs) {
            refusal(fed, bare(HlaException::InvalidAttributeHandle))
        } else {
            let ps = fed.federates[me].pub_sub;
            silent(
                with_pub_sub(
                    fed,
                    me,
                    PubSubView {
                        published_attrs: reduced(ps.published_attrs, c, handles_in(attrs)),
                        ..ps
                    },
                ),
                Service::UnpublishObjectClassAttributes,
            )
        },
    }
}

/// Ends the publication of attributes of a class.
pub fn unpublish_object_class_attributes(
    federation: &mut Federation,
    me: FederateHandle,
    object_class: &Option<Vec<u8>>,
    attributes: &Option<Vec<Vec<u8>>>,
) -> (r: CallResponse)
    requires
        old(federation).wf(),
    ensures
        final(federation).wf(),
        ({
            let o = unpublish_attributes_outcome(
                old(federation)@,
                me,
                field32(*object_class),
                listed(*attributes),
            );
            &&& final(federation)@ == o.fed
            &&& r@ == o.reply
        }),
{
    broadcast use lemma_put_back;

    let class = match read_field32(object_class) {
        Some(c) => c,
        None => return refuse_bare(HlaException::InvalidObjectClassHandle),
    };
    let set = match decode_handle_set(attributes) {
        Ok(s) => s,
        Err(e) => return refuse(e),
    };
    if let Some(mut fs) = federation.federates.remove(me) {
        reduce_entry(&mut fs.pub_sub.published_attrs, class, &set);
        federation.federates.insert(me, fs);
    }
    reply(Service::UnpublishObjectClassAttributes)
}

/// Subscribes a federate to attributes of a class.
pub fn subscribe_all(
    subscriptions: &mut SubscriptionMatrix,
    class: u32,
    attrs: &KeySet<u32>,
    me: FederateHandle,
)
    requires
        old(subscriptions).wf(),
    ensures
        final(subscriptions).wf(),
        final(subscriptions)@ == with_subscriptions(old(subscriptions)@, class, attrs@, me),
{
    let members = attrs.members();
    let mut i: usize = 0;
    while i < members.len()
        invariant
            i <= members@.len(),
            subscriptions.wf(),
            subscriptions@.interactions == old(subscriptions)@.interactions,
            forall|t: (u32, u32, u32)| #[trigger]
                subscriptions@.attributes.contains(t) <==> old(subscriptions)@.attributes.contains(t)
                    || (t.0 == class && t.2 == me && exists|k: int|
                    0 <= k < i && members@[k] == t.1),
        decreases members@.len() - i,
    {
        subscriptions.subscribe_attribute(class, members[i], me);
        assert forall|t: (u32, u32, u32)| #[trigger]
            subscriptions@.attributes.contains(t) <==> old(subscriptions)@.attributes.contains(t)
                || (t.0 == class && t.2 == me && exists|k: int|
                0 <= k < i + 1 && members@[k] == t.1) by {
            if t == (class, members@[i as int], me) {
                assert(members@[i as int] == t.1);
            }
        }
        i = i + 1;
    }
    proof {
        lemma_ascending(attrs@);
        assert forall|t: (u32, u32, u32)| #[trigger]
            subscriptions@.attributes.contains(t) <==> old(subscriptions)@.attributes.contains(t)
                || (t.0 == class && t.2 == me && attrs@.contains(t.1)) by {
            if attrs@.contains(t.1) {
                assert(members@.contains(t.1));
                let k = members@.index_of(t.1);
                assert(members@[k] == t.1);
            }
            if exists|k: int| 0 <= k < i && members@[k] == t.1 {
                assert(members@.contains(t.1));
            }
        }
        assert(subscriptions@ =~= with_subscriptions(old(subscriptions)@, class, attrs@, me));
    }
}

/// Ends the subscriptions of a federate to attributes of a class.
pub fn unsubscribe_all(
    subscriptions: &mut SubscriptionMatrix,
    class: u32,
    attrs: &KeySet<u32>,
    me: FederateHandle,
)
    requires
        old(subscriptions).wf(),
    ensures
        final(subscriptions).wf(),
        final(subscriptions)@ == without_subscriptions(old(subscriptions)@, class, attrs@, me),
{
    let members = attrs.members();
    let mut i: usize = 0;
    while i < members.len()
        invariant
            i <= members@.len(),
            subscriptions.wf(),
            subscriptions@.interactions == old(subscriptions)@.interactions,
            forall|t: (u32, u32, u32)| #[trigger]
                subscriptions@.attributes.contains(t) <==> old(subscriptions)@.attributes.contains(t)
                    && !(t.0 == class && t.2 == me && exists|k: int|
                    0 <= k < i && members@[k] == t.1),
        decreases members@.len() - i,
    {
        subscriptions.unsubscribe_attribute(class, members[i], me);
        assert forall|t: (u32, u32, u32)| #[trigger]
            subscriptions@.attributes.contains(t) <==> old(subscriptions)@.attributes.contains(t)
                && !(t.0 == class && t.2 == me && exists|k: int|
                0 <= k < i + 1 && members@[k] == t.1) by {
            if t == (class, members@[i as int], me) {
                assert(members@[i as int] == t.1);
            }
        }
        i = i + 1;
    }
    proof {
        lemma_ascending(attrs@);
        assert forall|t: (u32, u32, u32)| #[trigger]
            subscriptions@.attributes.contains(t) <==> old(subscriptions)@.attributes.contains(t)
                && !(t.0 == class && t.2 == me && attrs@.contains(t.1)) by {
            if attrs@.contains(t.1) {
                assert(members@.contains(t.1));
                let k = members@.index_of(t.1);
                assert(members@[k] == t.1);
            }
            if exists|k: int| 0 <= k < i && members@[k] == t.1 {
                assert(members@.contains(t.1));
            }
        }
        assert(subscriptions@ =~= without_subscriptions(old(subscriptions)@, class, attrs@, me));
    }
}

/// What subscribing to attributes of a class does. The first subscription to
/// the class is made known to its publishers.
pub open spec fn subscribe_attributes_outcome(
    fed: FederationView,
    conns: Map<u64, u64>,
    me: u32,
    class: Option<u32>,
    attrs: Seq<Seq<u8>>,
) -> Outcome {
    match class {
        None => refusal(fed, bare(HlaException::InvalidObjectClassHandle)),
        Some(c) => if !fed.fom.defines_object_class(c) {
            refusal(fed, bare(HlaException::ObjectClassNotDefined))
        } else if !all_handles(attrs) {
            refusal(fed, bare(HlaException::InvalidAttributeHandle))
        } else {
            let ps = fed.federates[me].pub_sub;
            let declared = with_pub_sub(
                fed,
                me,
                PubSubView {
                    subscribed_attrs: extended(ps.subscribed_attrs, c, handles_in(attrs)),
                    ..ps
                },
            );
            let next = FederationView {
                subscriptions: with_subscriptions(fed.subscriptions, c, handles_in(attrs), me),
                ..declared
            };
            Outcome {
                fed: next,
                reply: done(Service::SubscribeObjectClassAttributes),
                sent: if !fed.subscriptions.class_in_use(c) && next.subscriptions.class_in_use(c) {
                    deliveries(
                        conns,
                        next,
                        class_publishers(next, c, Some(me)),
                        start_registration_for_object_class_view(c),
                    )
                } else {
                    Seq::empty()
                },
            }
        },
    }
}

/// Subscribes to attributes of a class.
pub fn subscribe_object_class_attributes_inner(
    federation: &mut Federation,
    conns: &Connections,
    out: &mut Outbox,
    me: FederateHandle,
    object_class: &Option<Vec<u8>>,
    attributes: &Option<Vec<Vec<u8>>>,
) -> (r: CallResponse)
    requires
        old(federation).wf(),
    ensures
        final(federation).wf(),
        ({
            let o = subscribe_attributes_outcome(
                old(federation)@,
                conns@,
                me,
                field32(*object_class),
                listed(*attributes),
            );
            &&& final(federation)@ == o.fed
            &&& r@ == o.reply
            &&& final(out)@ == old(out)@ + o.sent
        }),
{
    broadcast use lemma_put_back;

    let ghost fed = federation@;

    assert(old(out)@ + Seq::empty() =~= old(out)@);
    let class = match read_field32(object_class) {
        Some(c) => c,
        None => return refuse_bare(HlaException::InvalidObjectClassHandle),
    };
    if federation.fom.object_class_def(class).is_none() {
        return refuse_bare(HlaException::ObjectClassNotDefined);
    }
    let set = match decode_handle_set(attributes) {
        Ok(s) => s,
        Err(e) => return refuse(e),
    };
    let was_subscribed = class_has_subscribers(federation, class);
    if let Some(mut fs) = federation.federates.remove(me) {
        let ghost was = fs@;
        extend_entry(&mut fs.pub_sub.subscribed_attrs, class, &set);
        let ghost is = fs@;
        federation.federates.insert(me, fs);
        proof {
            assert(is == (FederateView {
                pub_sub: PubSubView {
                    subscribed_attrs: is.pub_sub.subscribed_attrs,
                    ..was.pub_sub
                },
                ..was
            }));
            assert(federation@ == fed.with_federate(me, is));
        }
    } else {
        assert(federation@.federates =~= fed.federates);
    }
    subscribe_all(&mut federation.subscriptions, class, &set, me);
    if !was_subscribed && class_has_subscribers(federation, class) {
        emit_start_registration(federation, conns, out, class, me);
    }
    assert(federation@ =~= subscribe_attributes_outcome(
        fed,
        conns@,
        me,
        field32(*object_class),
        listed(*attributes),
    ).fed);
    reply(Service::SubscribeObjectClassAttributes)
}

/// What ending subscriptions to attributes of a class does. The loss of the last
/// subscription to the class is made known to its publishers.
pub open spec fn unsubscribe_attributes_outcome(
    fed: FederationView,
    conns: Map<u64, u64>,
    me: u32,
    class: Option<u32>,
    attrs: Seq<Seq<u8>>,
) -> Outcome {
    match class {
        None => refusal(fed, bare(HlaException::InvalidObjectClassHandle)),
        Some(c) => if !all_handles(attrs) {
            refusal(fed, bare(HlaException::InvalidAttributeHandle))
        } else {
            let ps = fed.federates[me].pub_sub;
            let declared = with_pub_sub(
                fed,
                me,
                PubSubView {
                    subscribed_attrs: reduced(ps.subscribed_attrs, c, handles_in(attrs)),
                    ..ps
                },
            );
            let next = FederationView {
                subscriptions: without_subscriptions(fed.subscriptions, c, handles_in(attrs), me),
                ..declared
            };
            Outcome {
                fed: next,
                reply: done(Service::UnsubscribeObjectClassAttributes),
                sent: if fed.subscriptions.class_in_use(c) && !next.subscriptions.class_in_use(c) {
                    deliveries(
                        conns,
                        next,
                        class_publishers(next, c, None),
                        stop_registration_for_object_class_view(c),
                    )
                } else {
                    Seq::empty()
                },
            }
        },
    }
}

/// Ends subscriptions to attributes of a class.
pub fn unsubscribe_object_class_attributes_inner(
    federation: &mut Federation,
    conns: &Connections,
    out: &mut Outbox,
    me: FederateHandle,
    object_class: &Option<Vec<u8>>,
    attributes: &Option<Vec<Vec<u8>>>,
) -> (r: CallResponse)
    requires
        old(federation).wf(),
    ensures
        final(federation).wf(),
        ({
            let o = unsubscribe_attributes_outcome(
                old(federation)@,
                conns@,
                me,
                field32(*object_class),
                listed(*attributes),
            );
            &&& final(federation)@ == o.fed
            &&& r@ == o.reply
            &&& final(out)@ == old(out)@ + o.sent
        }),
{
    broadcast use lemma_put_back;

    assert(old(out)@ + Seq::empty() =~= old(out)@);
    let class = match read_field32(object_class) {
        Some(c) => c,
        None => return refuse_bare(HlaException::InvalidObjectClassHandle),
    };
    let set = match decode_handle_set(attributes) {
        Ok(s) => s,
        Err(e) => return refuse(e),
    };
    let was_subscribed = class_has_subscribers(federation, class);
    if let Some(mut fs) = federation.federates.remove(me) {
        reduce_entry(&mut fs.pub_sub.subscribed_attrs, class, &set);
        federation.federates.insert(me, fs);
    }
    unsubscribe_all(&mut federation.subscriptions, class, &set, me);
    if was_subscribed && !class_has_subscribers(federation, class) {
        emit_stop_registration(federation, conns, out, class);
    }
    reply(Service::UnsubscribeObjectClassAttributes)
}

/// What ending the publication of a class does.
pub open spec fn unpublish_class_outcome(
    fed: FederationView,
    me: u32,
    class: Option<u32>,
) -> Outcome {
    match class {
        None => refusal(fed, bare(HlaException::InvalidObjectClassHandle)),
        Some(c) => {
            let ps = fed.federates[me].pub_sub;
            silent(
                with_pub_sub(
                    fed,
                    me,
                    PubSubView { published_attrs: ps.published_attrs.remove(c), ..ps },
                ),
                Service::UnpublishObjectClass,
            )
        },
    }
}

/// Ends the publication of all attributes of a class.
pub fn unpublish_object_class(
    federation: &mut Federation,
    me: FederateHandle,
    object_class: &Option<Vec<u8>>,
) -> (r: CallResponse)
    requires
        old(federation).wf(),
    ensures
        final(federation).wf(),
        ({
            let o = unpublish_class_outcome(old(federation)@, me, field32(*object_class));
            &&& final(federation)@ == o.fed
            &&& r@ == o.reply
        }),
{
    broadcast use lemma_put_back;

    let class = match read_field32(object_class) {
        Some(c) => c,
        None => return refuse_bare(HlaException::InvalidObjectClassHandle),
    };
    if let Some(mut fs) = federation.federates.remove(me) {
        fs.pub_sub.published_attrs.remove(class);
        federation.federates.insert(me, fs);
    }
    reply(Service::UnpublishObjectClass)
}

/// What ending the subscription to a class does: every subscription to the class
/// ends, also those of others.
pub open spec fn unsubscribe_class_outcome(
    fed: FederationView,
    me: u32,
    class: Option<u32>,
) -> Outcome {
    match class {
        None => refusal(fed, bare(HlaException::InvalidObjectClassHandle)),
        Some(c) => {
            let ps = fed.federates[me].pub_sub;
            let declared = with_pub_sub(
                fed,
                me,
                PubSubView { subscribed_attrs: ps.subscribed_attrs.remove(c), ..ps },
            );
            silent(
                FederationView {
                    subscriptions: SubscriptionView {
                        attributes: fed.subscriptions.attributes.filter(
                            |t: (u32, u32, u32)| t.0 != c,
                        ),
                        ..fed.subscriptions
                    },
                    ..declared
                },
                Service::UnsubscribeObjectClass,
            )
        },
    }
}

/// Ends the subscription to all attributes of a class.
pub fn unsubscribe_object_class(
    federation: &mut Federation,
    me: FederateHandle,
    object_class: &Option<Vec<u8>>,
) -> (r: CallResponse)
    requires
        old(federation).wf(),
    ensures
        final(federation).wf(),
        ({
            let o = unsubscribe_class_outcome(old(federation)@, me, field32(*object_class));
            &&& final(federation)@ == o.fed
            &&& r@ == o.reply
        }),
{
    broadcast use lemma_put_back;

    let class = match read_field32(object_class) {
        Some(c) => c,
        None => return refuse_bare(HlaException::InvalidObjectClassHandle),
    };
    if let Some(mut fs) = federation.federates.remove(me) {
        fs.pub_sub.subscribed_attrs.remove(class);
        federation.federates.insert(me, fs);
    }
    federation.subscriptions.remove_class(class);
    reply(Service::UnsubscribeObjectClass)
}

/// What publishing an interaction class does.
pub open spec fn publish_interaction_outcome(
    fed: FederationView,
    me: u32,
    class: Option<u32>,
) -> Outcome {
    match class {
        None => refusal(fed, bare(HlaException::InvalidInteractionClassHandle)),
        Some(c) => if !fed.fom.defines_interaction_class(c) {
            refusal(fed, bare(HlaException::InteractionClassNotDefined))
        } else {
            let ps = fed.federates[me].pub_sub;
            silent(
                with_pub_sub(
                    fed,
                    me,
                    PubSubView {
                        published_interactions: ps.published_interactions.insert(c),
                        ..ps
                    },
                ),
                Service::PublishInteractionClass,
            )
        },
    }
}

/// Publishes an interaction class.
pub fn publish_interaction_class(
    federation: &mut Federation,
    me: FederateHandle,
    interaction_class: &Option<Vec<u8>>,
) -> (r: CallResponse)
    requires
        old(federation).wf(),
    ensures
        final(federation).wf(),
        ({
            let o = publish_interaction_outcome(old(federation)@, me, field32(*interaction_class));
            &&& final(federation)@ == o.fed
            &&& r@ == o.reply
        }),
{
    broadcast use lemma_put_back;

    let class = match read_field32(interaction_class) {
        Some(c) => c,
        None => return refuse_bare(HlaException::InvalidInteractionClassHandle),
    };
    if federation.fom.interaction_class_def(class).is_none() {
        return refuse_bare(HlaException::InteractionClassNotDefined);
    }
    if let Some(mut fs) = federation.federates.remove(me) {
        fs.pub_sub.published_interactions.insert(class);
        federation.federates.insert(me, fs);
    }
    reply(Service::PublishInteractionClass)
}

/// What ending the publication of an interaction class does.
pub open spec fn unpublish_interaction_outcome(
    fed: FederationView,
    me: u32,
    class: Option<u32>,
) -> Outcome {
    match class {
        None => refusal(fed, bare(HlaException::InvalidInteractionClassHandle)),
        Some(c) => {
            let ps = fed.federates[me].pub_sub;
            silent(
                with_pub_sub(
                    fed,
                    me,
                    PubSubView {
                        published_interactions: ps.published_interactions.remove(c),
                        ..ps
                    },
                ),
                Service::UnpublishInteractionClass,
            )
        },
    }
}

/// Ends the publication of an interaction class.
pub fn unpublish_interaction_class(
    federation: &mut Federation,
    me: FederateHandle,
    interaction_class: &Option<Vec<u8>>,
) -> (r: CallResponse)
    requires
        old(federation).wf(),
    ensures
        final(federation).wf(),
        ({
            let o = unpublish_interaction_outcome(
                old(federation)@,
                me,
                field32(*interaction_class),
            );
            &&& final(federation)@ == o.fed
            &&& r@ == o.reply
        }),
{
    broadcast use lemma_put_back;

    let class = match read_field32(interaction_class) {
        Some(c) => c,
        None => return refuse_bare(HlaException::InvalidInteractionClassHandle),
    };
    if let Some(mut fs) = federation.federates.remove(me) {
        fs.pub_sub.published_interactions.remove(class);
        federation.federates.insert(me, fs);
    }
    reply(Service::UnpublishInteractionClass)
}

/// What subscribing to an interaction class does. The first subscription is made
/// known to its publishers.
pub open spec fn subscribe_interaction_outcome(
    fed: FederationView,
    conns: Map<u64, u64>,
    me: u32,
    class: Option<u32>,
) -> Outcome {
    match class {
        None => refusal(fed, bare(HlaException::InvalidInteractionClassHandle)),
        Some(c) => if !fed.fom.defines_interaction_class(c) {
            refusal(fed, bare(HlaException::InteractionClassNotDefined))
        } else {
            let ps = fed.federates[me].pub_sub;
            let declared = with_pub_sub(
                fed,
                me,
                PubSubView {
                    subscribed_interactions: ps.subscribed_interactions.insert(c),
                    ..ps
                },
            );
            let next = FederationView {
                subscriptions: SubscriptionView {
                    interactions: fed.subscriptions.interactions.insert((c, me)),
                    ..fed.subscriptions
                },
                ..declared
            };
            Outcome {
                fed: next,
                reply: done(Service::SubscribeInteractionClass),
                sent: if !fed.subscriptions.interaction_in_use(c) {
                    deliveries(
                        conns,
                        next,
                        interaction_publishers(next, c, Some(me)),
                        turn_interactions_on_view(c),
                    )
                } else {
                    Seq::empty()
                },
            }
        },
    }
}

/// Subscribes to an interaction class.
pub fn subscribe_interaction_class_inner(
    federation: &mut Federation,
    conns: &Connections,
    out: &mut Outbox,
    me: FederateHandle,
    interaction_class: &Option<Vec<u8>>,
) -> (r: CallResponse)
    requires
        old(federation).wf(),
    ensures
        final(federation).wf(),
        ({
            let o = subscribe_interaction_outcome(
                old(federation)@,
                conns@,
                me,
                field32(*interaction_class),
            );
            &&& final(federation)@ == o.fed
            &&& r@ == o.reply
            &&& final(out)@ == old(out)@ + o.sent
        }),
{
    broadcast use lemma_put_back;

    assert(old(out)@ + Seq::empty() =~= old(out)@);
    let class = match read_field32(interaction_class) {
        Some(c) => c,
        None => return refuse_bare(HlaException::InvalidInteractionClassHandle),
    };
    if federation.fom.interaction_class_def(class).is_none() {
        return refuse_bare(HlaException::InteractionClassNotDefined);
    }
    let was_subscribed = interaction_has_subscribers(federation, class);
    if let Some(mut fs) = federation.federates.remove(me) {
        fs.pub_sub.subscribed_interactions.insert(class);
        federation.federates.insert(me, fs);
    }
    federation.subscriptions.subscribe_interaction(class, me);
    assert(federation@.subscriptions.interactions.contains((class, me)));
    if !was_subscribed && interaction_has_subscribers(federation, class) {
        emit_turn_interactions_on(federation, conns, out, class, me);
    }
    reply(Service::SubscribeInteractionClass)
}

/// What ending the subscription to an interaction class does. The loss of the
/// last subscription is made known to its publishers.
pub open spec fn unsubscribe_interaction_outcome(
    fed: FederationView,
    conns: Map<u64, u64>,
    me: u32,
    class: Option<u32>,
) -> Outcome {
    match class {
        None => refusal(fed, bare(HlaException::InvalidInteractionClassHandle)),
        Some(c) => {
            let ps = fed.federates[me].pub_sub;
            let declared = with_pub_sub(
                fed,
                me,
                PubSubView {
                    subscribed_interactions: ps.subscribed_interactions.remove(c),
                    ..ps
                },
            );
            let next = FederationView {
                subscriptions: SubscriptionView {
                    interactions: fed.subscriptions.interactions.remove((c, me)),
                    ..fed.subscriptions
                },
                ..declared
            };
            Outcome {
                fed: next,
                reply: done(Service::UnsubscribeInteractionClass),
                sent: if fed.subscriptions.interaction_in_use(c)
                    && !next.subscriptions.interaction_in_use(c) {
                    deliveries(
                        conns,
                        next,
                        interaction_publishers(next, c, None),
                        turn_interactions_off_view(c),
                    )
                } else {
                    Seq::empty()
                },
            }
        },
    }
}

/// Ends the subscription to an interaction class.
pub fn unsubscribe_interaction_class_inner(
    federation: &mut Federation,
    conns: &Connections,
    out: &mut Outbox,
    me: FederateHandle,
    interaction_class: &Option<Vec<u8>>,
) -> (r: CallResponse)
    requires
        old(federation).wf(),
    ensures
        final(federation).wf(),
        ({
            let o = unsubscribe_interaction_outcome(
                old(federation)@,
                conns@,
                me,
                field32(*interaction_class),
            );
            &&& final(federation)@ == o.fed
            &&& r@ == o.reply
            &&& final(out)@ == old(out)@ + o.sent
        }),
{
    broadcast use lemma_put_back;

    assert(old(out)@ + Seq::empty() =~= old(out)@);
    let class = match read_field32(interaction_class) {
        Some(c) => c,
        None => return refuse_bare(HlaException::InvalidInteractionClassHandle),
    };
    let was_subscribed = interaction_has_subscribers(federation, class);
    if let Some(mut fs) = federation.federates.remove(me) {
        fs.pub_sub.subscribed_interactions.remove(class);
        federation.federates.insert(me, fs);
    }
    federation.subscriptions.unsubscribe_interaction(class, me);
    if was_subscribed && !interaction_has_subscribers(federation, class) {
        emit_turn_interactions_off(federation, conns, out, class);
    }
    reply(Service::UnsubscribeInteractionClass)
}

/// To unsubscribe undoes to subscribe: a federate that did not subscribe to the
/// attributes before does not afterwards, and the other subscriptions are as
/// they were.
pub proof fn to_unsubscribe_undoes_to_subscribe(
    s: SubscriptionView,
    class: u32,
    attrs: Set<u32>,
    me: u32,
)
    requires
        forall|a: u32| #[trigger]
            attrs.contains(a) ==> !s.attributes.contains((class, a, me)),
    ensures
        without_subscriptions(with_subscriptions(s, class, attrs, me), class, attrs, me) == s,
{
    let back = without_subscriptions(with_subscriptions(s, class, attrs, me), class, attrs, me);
    assert forall|t: (u32, u32, u32)| back.attributes.contains(t) <==> s.attributes.contains(t) by {
        if s.attributes.contains(t) && t.0 == class && attrs.contains(t.1) && t.2 == me {
            assert(t == (class, t.1, me));
        }
    }
    assert(back.attributes =~= s.attributes);
}

} // verus!

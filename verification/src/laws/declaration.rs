//! Declarations: what federates publish and subscribe to, and who is advised of it.

use crate::callbacks::CallbackView;
use crate::dispatch::advisories::{class_publishers, interaction_publishers};
use crate::dispatch::calls::{exchange_outcome, lookup_reply, member_outcome, quiet_outcome};
use crate::dispatch::helpers::{handles_in, listed};
use crate::dispatch::restore::SnapshotLoadView;
use crate::exception::HlaException;
use crate::federation::{FederateView, FederationView, PubSubView};
use crate::handles::{bytes_of_u32, field32};
use crate::laws::models::{defines, lemma_defines};
use crate::laws::{
    lemma_names, lemma_names_only, lemma_tells_set, names, names_handles_only, only_if,
    own_sessions, refuses, serves, tells,
};
use crate::messages::{CallRequest, Service, SubscribeForm};
use crate::routing::OutboundView;
use crate::subscriptions::SubscriptionView;
use crate::tables::{extended, reduced};
use vstd::prelude::*;

verus! {

/// Whether two states differ in the subscriptions, and in what one federate has
/// declared, at most.
pub open spec fn only_declarations_differ(a: FederationView, b: FederationView, me: u32) -> bool {
    &&& b == (FederationView { federates: b.federates, subscriptions: b.subscriptions, ..a })
    &&& forall|f: u32| #[trigger] b.federates.contains_key(f) <==> a.federates.contains_key(f)
    &&& forall|f: u32|
        f != me && #[trigger] a.federates.contains_key(f) ==> b.federates[f] == a.federates[f]
    &&& a.federates.contains_key(me) ==> b.federates[me] == (FederateView {
        pub_sub: b.federates[me].pub_sub,
        ..a.federates[me]
    })
}

/// Whether a table has the members that a list names added to those under a key, and is
/// otherwise as it was.
pub open spec fn has_more(
    a: Map<u32, Set<u32>>,
    b: Map<u32, Set<u32>>,
    key: u32,
    more: Option<Vec<Vec<u8>>>,
) -> bool {
    &&& forall|k: u32| #[trigger] b.contains_key(k) <==> a.contains_key(k) || k == key
    &&& forall|k: u32| k != key && #[trigger] a.contains_key(k) ==> b[k] == a[k]
    &&& forall|m: u32| #[trigger]
        b[key].contains(m) <==> (a.contains_key(key) && a[key].contains(m)) || names(more, m)
}

/// Whether a table has the members that a list names taken from those under a key, and is
/// otherwise as it was. A key whose last member is taken goes.
pub open spec fn has_less(
    a: Map<u32, Set<u32>>,
    b: Map<u32, Set<u32>>,
    key: u32,
    less: Option<Vec<Vec<u8>>>,
) -> bool {
    &&& forall|k: u32| k != key ==> (#[trigger] b.contains_key(k) <==> a.contains_key(k))
    &&& forall|k: u32| k != key && #[trigger] a.contains_key(k) ==> b[k] == a[k]
    &&& b.contains_key(key) <==> a.contains_key(key) && exists|m: u32| #[trigger]
        a[key].contains(m) && !names(less, m)
    &&& b.contains_key(key) ==> forall|m: u32| #[trigger]
        b[key].contains(m) <==> a[key].contains(m) && !names(less, m)
}

proof fn lemma_has_more(a: Map<u32, Set<u32>>, key: u32, more: Option<Vec<Vec<u8>>>)
    ensures
        has_more(a, extended(a, key, handles_in(listed(more))), key, more),
{
    let s = handles_in(listed(more));
    assert forall|m: u32| s.contains(m) <==> names(more, m) by {
        lemma_names(more, m);
    }
}

proof fn lemma_has_less(a: Map<u32, Set<u32>>, key: u32, less: Option<Vec<Vec<u8>>>)
    ensures
        has_less(a, reduced(a, key, handles_in(listed(less))), key, less),
{
    let s = handles_in(listed(less));
    assert forall|m: u32| s.contains(m) <==> names(less, m) by {
        lemma_names(less, m);
    }
    if a.contains_key(key) {
        let left = a[key].difference(s);
        if exists|m: u32| #[trigger] a[key].contains(m) && !names(less, m) {
            let m = choose|m: u32| #[trigger] a[key].contains(m) && !names(less, m);
            assert(left.contains(m));
        } else {
            assert(left =~= Set::empty());
        }
    }
}

/// Whether somebody subscribes to an attribute of a class.
pub open spec fn in_use(s: SubscriptionView, class: u32) -> bool {
    exists|a: u32, f: u32| #[trigger] s.attributes.contains((class, a, f))
}

/// Whether somebody subscribes to an interaction class.
pub open spec fn interaction_used(s: SubscriptionView, class: u32) -> bool {
    exists|f: u32| #[trigger] s.interactions.contains((class, f))
}

/// Whether a federate publishes a class and wants to know when somebody subscribes to it.
pub open spec fn to_be_advised(fs: FederateView, class: u32) -> bool {
    fs.switches.object_class_relevance_advisory && fs.pub_sub.published_attrs.contains_key(class)
}

/// Whether a federate publishes an interaction class and wants to know when somebody
/// subscribes to it.
pub open spec fn to_be_advised_of_interactions(fs: FederateView, class: u32) -> bool {
    fs.switches.interaction_relevance_advisory && fs.pub_sub.published_interactions.contains(class)
}

/// Whether a federate subscribes to more attributes of a class, and all other
/// subscriptions are as they were.
pub open spec fn subscribes_to_more(
    a: SubscriptionView,
    b: SubscriptionView,
    class: u32,
    attributes: Option<Vec<Vec<u8>>>,
    me: u32,
) -> bool {
    &&& b.interactions == a.interactions
    &&& forall|c: u32, x: u32, f: u32| #[trigger]
        b.attributes.contains((c, x, f)) <==> a.attributes.contains((c, x, f)) || (c == class
            && names(attributes, x) && f == me)
}

/// Whether a federate subscribes to fewer attributes of a class, and all other
/// subscriptions are as they were.
pub open spec fn subscribes_to_less(
    a: SubscriptionView,
    b: SubscriptionView,
    class: u32,
    attributes: Option<Vec<Vec<u8>>>,
    me: u32,
) -> bool {
    &&& b.interactions == a.interactions
    &&& forall|c: u32, x: u32, f: u32| #[trigger]
        b.attributes.contains((c, x, f)) <==> a.attributes.contains((c, x, f)) && !(c == class
            && names(attributes, x) && f == me)
}

/// To publish attributes of a class adds them to those that the federate publishes, and
/// nothing else; nobody is told.
pub proof fn to_publish_attributes_adds_them(
    fed: FederationView,
    conns: Map<u64, u64>,
    me: u32,
    object_class: Option<Vec<u8>>,
    attributes: Option<Vec<Vec<u8>>>,
    load: SnapshotLoadView,
    class: u32,
)
    requires
        fed.federates.contains_key(me),
        field32(object_class) == Some(class),
    ensures
        ({
            let request = CallRequest::PublishObjectClassAttributes { object_class, attributes };
            let o = member_outcome(fed, conns, me, request, load);
            let was = fed.federates[me].pub_sub;
            let is = o.fed.federates[me].pub_sub;
            &&& !defines(fed.fom.object_classes, class) ==> refuses(
                o,
                fed,
                HlaException::ObjectClassNotDefined,
            )
            &&& defines(fed.fom.object_classes, class) && !names_handles_only(attributes) ==> refuses(
                o,
                fed,
                HlaException::InvalidAttributeHandle,
            )
            &&& defines(fed.fom.object_classes, class) && names_handles_only(attributes) ==> {
                &&& serves(o, Service::PublishObjectClassAttributes)
                &&& only_declarations_differ(fed, o.fed, me)
                &&& is == (PubSubView { published_attrs: is.published_attrs, ..was })
                &&& has_more(was.published_attrs, is.published_attrs, class, attributes)
                &&& o.fed.subscriptions == fed.subscriptions
                &&& o.sent.len() == 0
            }
        }),
{
    reveal(lookup_reply);
    reveal(quiet_outcome);
    reveal(exchange_outcome);
    let request = CallRequest::PublishObjectClassAttributes { object_class, attributes };
    let o = member_outcome(fed, conns, me, request, load);
    let was = fed.federates[me].pub_sub;
    lemma_defines(fed.fom.object_classes, class);
    lemma_names_only(attributes);
    lemma_has_more(was.published_attrs, class, attributes);
}

/// To unpublish attributes of a class takes them from those that the federate publishes,
/// and nothing else; nobody is told.
pub proof fn to_unpublish_attributes_takes_them(
    fed: FederationView,
    conns: Map<u64, u64>,
    me: u32,
    object_class: Option<Vec<u8>>,
    attributes: Option<Vec<Vec<u8>>>,
    load: SnapshotLoadView,
    class: u32,
)
    requires
        fed.federates.contains_key(me),
        field32(object_class) == Some(class),
    ensures
        ({
            let request = CallRequest::UnpublishObjectClassAttributes { object_class, attributes };
            let o = member_outcome(fed, conns, me, request, load);
            let was = fed.federates[me].pub_sub;
            let is = o.fed.federates[me].pub_sub;
            &&& !names_handles_only(attributes) ==> refuses(
                o,
                fed,
                HlaException::InvalidAttributeHandle,
            )
            &&&             names_handles_only(attributes) ==> {
                &&& serves(o, Service::UnpublishObjectClassAttributes)
                &&& only_declarations_differ(fed, o.fed, me)
                &&& is == (PubSubView { published_attrs: is.published_attrs, ..was })
                &&& has_less(was.published_attrs, is.published_attrs, class, attributes)
                &&& o.fed.subscriptions == fed.subscriptions
                &&& o.sent.len() == 0
            }
        }),
{
    reveal(lookup_reply);
    reveal(quiet_outcome);
    reveal(exchange_outcome);
    let request = CallRequest::UnpublishObjectClassAttributes { object_class, attributes };
    let o = member_outcome(fed, conns, me, request, load);
    let was = fed.federates[me].pub_sub;
    lemma_names_only(attributes);
    lemma_has_less(was.published_attrs, class, attributes);
}

/// To unpublish a class takes all its attributes from those that the federate publishes,
/// and nothing else; nobody is told.
pub proof fn to_unpublish_a_class_takes_it(
    fed: FederationView,
    conns: Map<u64, u64>,
    me: u32,
    object_class: Option<Vec<u8>>,
    load: SnapshotLoadView,
    class: u32,
)
    requires
        fed.federates.contains_key(me),
        field32(object_class) == Some(class),
    ensures
        ({
            let request = CallRequest::UnpublishObjectClass { object_class };
            let o = member_outcome(fed, conns, me, request, load);
            let was = fed.federates[me].pub_sub;
            let is = o.fed.federates[me].pub_sub;
            &&&             true ==> {
                &&& serves(o, Service::UnpublishObjectClass)
                &&& only_declarations_differ(fed, o.fed, me)
                &&& is == (PubSubView { published_attrs: is.published_attrs, ..was })
                &&& is.published_attrs == was.published_attrs.remove(class)
                &&& o.fed.subscriptions == fed.subscriptions
                &&& o.sent.len() == 0
            }
        }),
{
    reveal(lookup_reply);
    reveal(quiet_outcome);
    reveal(exchange_outcome);
    let request = CallRequest::UnpublishObjectClass { object_class };
    let o = member_outcome(fed, conns, me, request, load);
    let was = fed.federates[me].pub_sub;
}

/// To subscribe to attributes of a class adds them to the subscriptions of the federate,
/// in its own declarations as in the federation. Where nobody subscribed to the class
/// before, and now somebody does, exactly the other federates that publish the class, and
/// want to know, are told to register instances of it.
pub proof fn to_subscribe_to_attributes_adds_them(
    fed: FederationView,
    conns: Map<u64, u64>,
    me: u32,
    subscribe_form: SubscribeForm,
    object_class: Option<Vec<u8>>,
    attributes: Option<Vec<Vec<u8>>>,
    load: SnapshotLoadView,
    class: u32,
)
    requires
        own_sessions(fed.federates),
        fed.federates.contains_key(me),
        field32(object_class) == Some(class),
    ensures
        ({
            let request = CallRequest::SubscribeObjectClassAttributes {
                subscribe_form,
                object_class,
                attributes,
            };
            let o = member_outcome(fed, conns, me, request, load);
            let was = fed.federates[me].pub_sub;
            let is = o.fed.federates[me].pub_sub;
            &&& !defines(fed.fom.object_classes, class) ==> refuses(
                o,
                fed,
                HlaException::ObjectClassNotDefined,
            )
            &&& defines(fed.fom.object_classes, class) && !names_handles_only(attributes) ==> refuses(
                o,
                fed,
                HlaException::InvalidAttributeHandle,
            )
            &&& defines(fed.fom.object_classes, class) && names_handles_only(attributes) ==> {
                &&& serves(o, Service::SubscribeObjectClassAttributes)
                &&& only_declarations_differ(fed, o.fed, me)
                &&& is == (PubSubView { subscribed_attrs: is.subscribed_attrs, ..was })
                &&& has_more(was.subscribed_attrs, is.subscribed_attrs, class, attributes)
                &&& subscribes_to_more(
                    fed.subscriptions,
                    o.fed.subscriptions,
                    class,
                    attributes,
                    me,
                )
                &&& tells(
                    o.sent,
                    conns,
                    fed.federates,
                    |f: u32|
                        only_if(
                            !in_use(fed.subscriptions, class) && in_use(
                                o.fed.subscriptions,
                                class,
                            ) && f != me && to_be_advised(fed.federates[f], class),
                            CallbackView::StartRegistrationForObjectClass {
                                object_class: bytes_of_u32(class),
                            },
                        ),
                )
            }
        }),
{
    reveal(lookup_reply);
    reveal(quiet_outcome);
    reveal(exchange_outcome);
    let request = CallRequest::SubscribeObjectClassAttributes {
                subscribe_form,
                object_class,
                attributes,
            };
    let o = member_outcome(fed, conns, me, request, load);
    let was = fed.federates[me].pub_sub;
    lemma_defines(fed.fom.object_classes, class);
    lemma_names_only(attributes);
    lemma_has_more(was.subscribed_attrs, class, attributes);
    let s = handles_in(listed(attributes));
    assert forall|m: u32| s.contains(m) <==> names(attributes, m) by {
        lemma_names(attributes, m);
    }
    if defines(fed.fom.object_classes, class) && names_handles_only(attributes) {
        let start = CallbackView::StartRegistrationForObjectClass {
            object_class: bytes_of_u32(class),
        };
        let what = |f: u32|
            only_if(
                !in_use(fed.subscriptions, class) && in_use(o.fed.subscriptions, class) && f != me
                    && to_be_advised(fed.federates[f], class),
                start,
            );
        if !in_use(fed.subscriptions, class) && in_use(o.fed.subscriptions, class) {
            assert(o.fed.subscriptions.class_in_use(class));
            assert(!fed.subscriptions.class_in_use(class));
            lemma_tells_set(
                conns,
                fed.federates,
                o.fed,
                class_publishers(o.fed, class, Some(me)),
                start,
                what,
            );
        } else {
            assert(o.sent == Seq::<OutboundView>::empty());
            assert(tells(o.sent, conns, fed.federates, what));
        }
    }
}

/// To unsubscribe from attributes of a class takes them from the subscriptions of the
/// federate, in its own declarations as in the federation. Where with that nobody
/// subscribes to the class any more, exactly the federates that publish the class, and
/// want to know, are told to stop registering instances of it.
pub proof fn to_unsubscribe_from_attributes_takes_them(
    fed: FederationView,
    conns: Map<u64, u64>,
    me: u32,
    object_class: Option<Vec<u8>>,
    attributes: Option<Vec<Vec<u8>>>,
    load: SnapshotLoadView,
    class: u32,
)
    requires
        own_sessions(fed.federates),
        fed.federates.contains_key(me),
        field32(object_class) == Some(class),
    ensures
        ({
            let request = CallRequest::UnsubscribeObjectClassAttributes {
                object_class,
                attributes,
            };
            let o = member_outcome(fed, conns, me, request, load);
            let was = fed.federates[me].pub_sub;
            let is = o.fed.federates[me].pub_sub;
            &&& !names_handles_only(attributes) ==> refuses(
                o,
                fed,
                HlaException::InvalidAttributeHandle,
            )
            &&&             names_handles_only(attributes) ==> {
                &&& serves(o, Service::UnsubscribeObjectClassAttributes)
                &&& only_declarations_differ(fed, o.fed, me)
                &&& is == (PubSubView { subscribed_attrs: is.subscribed_attrs, ..was })
                &&& has_less(was.subscribed_attrs, is.subscribed_attrs, class, attributes)
                &&& subscribes_to_less(
                    fed.subscriptions,
                    o.fed.subscriptions,
                    class,
                    attributes,
                    me,
                )
                &&& tells(
                    o.sent,
                    conns,
                    fed.federates,
                    |f: u32|
                        only_if(
                            in_use(fed.subscriptions, class) && !in_use(
                                o.fed.subscriptions,
                                class,
                            ) && to_be_advised(fed.federates[f], class),
                            CallbackView::StopRegistrationForObjectClass {
                                object_class: bytes_of_u32(class),
                            },
                        ),
                )
            }
        }),
{
    reveal(lookup_reply);
    reveal(quiet_outcome);
    reveal(exchange_outcome);
    let request = CallRequest::UnsubscribeObjectClassAttributes { object_class, attributes };
    let o = member_outcome(fed, conns, me, request, load);
    let was = fed.federates[me].pub_sub;
    lemma_names_only(attributes);
    lemma_has_less(was.subscribed_attrs, class, attributes);
    let s = handles_in(listed(attributes));
    assert forall|m: u32| s.contains(m) <==> names(attributes, m) by {
        lemma_names(attributes, m);
    }
    if names_handles_only(attributes) {
        let stop = CallbackView::StopRegistrationForObjectClass {
            object_class: bytes_of_u32(class),
        };
        let what = |f: u32|
            only_if(
                in_use(fed.subscriptions, class) && !in_use(o.fed.subscriptions, class)
                    && to_be_advised(fed.federates[f], class),
                stop,
            );
        if in_use(fed.subscriptions, class) && !in_use(o.fed.subscriptions, class) {
            assert(!o.fed.subscriptions.class_in_use(class));
            assert(fed.subscriptions.class_in_use(class));
            lemma_tells_set(
                conns,
                fed.federates,
                o.fed,
                class_publishers(o.fed, class, None),
                stop,
                what,
            );
        } else {
            assert(o.sent == Seq::<OutboundView>::empty());
            assert(tells(o.sent, conns, fed.federates, what));
        }
    }
}

/// To unsubscribe from a class takes it from the declarations of the federate, and every
/// subscription to the class from the federation; nobody is told.
pub proof fn to_unsubscribe_from_a_class_ends_its_subscriptions(
    fed: FederationView,
    conns: Map<u64, u64>,
    me: u32,
    object_class: Option<Vec<u8>>,
    load: SnapshotLoadView,
    class: u32,
)
    requires
        fed.federates.contains_key(me),
        field32(object_class) == Some(class),
    ensures
        ({
            let request = CallRequest::UnsubscribeObjectClass { object_class };
            let o = member_outcome(fed, conns, me, request, load);
            let was = fed.federates[me].pub_sub;
            let is = o.fed.federates[me].pub_sub;
            &&&             true ==> {
                &&& serves(o, Service::UnsubscribeObjectClass)
                &&& only_declarations_differ(fed, o.fed, me)
                &&& is == (PubSubView { subscribed_attrs: is.subscribed_attrs, ..was })
                &&& is.subscribed_attrs == was.subscribed_attrs.remove(class)
                &&& o.fed.subscriptions.interactions == fed.subscriptions.interactions
                &&& forall|c: u32, x: u32, f: u32| #[trigger]
                    o.fed.subscriptions.attributes.contains((c, x, f))
                        <==> fed.subscriptions.attributes.contains((c, x, f)) && c != class
                &&& o.sent.len() == 0
            }
        }),
{
    reveal(lookup_reply);
    reveal(quiet_outcome);
    reveal(exchange_outcome);
    let request = CallRequest::UnsubscribeObjectClass { object_class };
    let o = member_outcome(fed, conns, me, request, load);
    let was = fed.federates[me].pub_sub;
}

/// To publish an interaction class adds it to those that the federate publishes, and
/// nothing else; nobody is told.
pub proof fn to_publish_an_interaction_class_adds_it(
    fed: FederationView,
    conns: Map<u64, u64>,
    me: u32,
    interaction_class: Option<Vec<u8>>,
    load: SnapshotLoadView,
    class: u32,
)
    requires
        fed.federates.contains_key(me),
        field32(interaction_class) == Some(class),
    ensures
        ({
            let request = CallRequest::PublishInteractionClass { interaction_class };
            let o = member_outcome(fed, conns, me, request, load);
            let was = fed.federates[me].pub_sub;
            let is = o.fed.federates[me].pub_sub;
            &&& !defines(fed.fom.interaction_classes, class) ==> refuses(
                o,
                fed,
                HlaException::InteractionClassNotDefined,
            )
            &&& defines(fed.fom.interaction_classes, class) ==> {
                &&& serves(o, Service::PublishInteractionClass)
                &&& only_declarations_differ(fed, o.fed, me)
                &&& is == (PubSubView { published_interactions: is.published_interactions, ..was })
                &&& is.published_interactions == was.published_interactions.insert(class)
                &&& o.fed.subscriptions == fed.subscriptions
                &&& o.sent.len() == 0
            }
        }),
{
    reveal(lookup_reply);
    reveal(quiet_outcome);
    reveal(exchange_outcome);
    let request = CallRequest::PublishInteractionClass { interaction_class };
    let o = member_outcome(fed, conns, me, request, load);
    let was = fed.federates[me].pub_sub;
    lemma_defines(fed.fom.interaction_classes, class);
}

/// To unpublish an interaction class takes it from those that the federate publishes, and
/// nothing else; nobody is told.
pub proof fn to_unpublish_an_interaction_class_takes_it(
    fed: FederationView,
    conns: Map<u64, u64>,
    me: u32,
    interaction_class: Option<Vec<u8>>,
    load: SnapshotLoadView,
    class: u32,
)
    requires
        fed.federates.contains_key(me),
        field32(interaction_class) == Some(class),
    ensures
        ({
            let request = CallRequest::UnpublishInteractionClass { interaction_class };
            let o = member_outcome(fed, conns, me, request, load);
            let was = fed.federates[me].pub_sub;
            let is = o.fed.federates[me].pub_sub;
            &&&             true ==> {
                &&& serves(o, Service::UnpublishInteractionClass)
                &&& only_declarations_differ(fed, o.fed, me)
                &&& is == (PubSubView { published_interactions: is.published_interactions, ..was })
                &&& is.published_interactions == was.published_interactions.remove(class)
                &&& o.fed.subscriptions == fed.subscriptions
                &&& o.sent.len() == 0
            }
        }),
{
    reveal(lookup_reply);
    reveal(quiet_outcome);
    reveal(exchange_outcome);
    let request = CallRequest::UnpublishInteractionClass { interaction_class };
    let o = member_outcome(fed, conns, me, request, load);
    let was = fed.federates[me].pub_sub;
}

/// To subscribe to an interaction class adds it to the subscriptions of the federate, in its
/// own declarations as in the federation. Where nobody subscribed to it before, exactly
/// the other federates that publish it, and want to know, are told to turn it on.
pub proof fn to_subscribe_to_an_interaction_class_adds_it(
    fed: FederationView,
    conns: Map<u64, u64>,
    me: u32,
    passively: bool,
    interaction_class: Option<Vec<u8>>,
    load: SnapshotLoadView,
    class: u32,
)
    requires
        own_sessions(fed.federates),
        fed.federates.contains_key(me),
        field32(interaction_class) == Some(class),
    ensures
        ({
            let request = CallRequest::SubscribeInteractionClass { passively, interaction_class };
            let o = member_outcome(fed, conns, me, request, load);
            let was = fed.federates[me].pub_sub;
            let is = o.fed.federates[me].pub_sub;
            &&& !defines(fed.fom.interaction_classes, class) ==> refuses(
                o,
                fed,
                HlaException::InteractionClassNotDefined,
            )
            &&& defines(fed.fom.interaction_classes, class) ==> {
                &&& serves(o, Service::SubscribeInteractionClass)
                &&& only_declarations_differ(fed, o.fed, me)
                &&& is == (PubSubView {
                    subscribed_interactions: is.subscribed_interactions,
                    ..was
                })
                &&& is.subscribed_interactions == was.subscribed_interactions.insert(class)
                &&& o.fed.subscriptions == (SubscriptionView {
                    interactions: fed.subscriptions.interactions.insert((class, me)),
                    ..fed.subscriptions
                })
                &&& tells(
                    o.sent,
                    conns,
                    fed.federates,
                    |f: u32|
                        only_if(
                            !interaction_used(fed.subscriptions, class) && f != me
                                && to_be_advised_of_interactions(fed.federates[f], class),
                            CallbackView::TurnInteractionsOn {
                                interaction_class: bytes_of_u32(class),
                            },
                        ),
                )
            }
        }),
{
    reveal(lookup_reply);
    reveal(quiet_outcome);
    reveal(exchange_outcome);
    let request = CallRequest::SubscribeInteractionClass { passively, interaction_class };
    let o = member_outcome(fed, conns, me, request, load);
    let was = fed.federates[me].pub_sub;
    lemma_defines(fed.fom.interaction_classes, class);
    if defines(fed.fom.interaction_classes, class) {
        let on = CallbackView::TurnInteractionsOn { interaction_class: bytes_of_u32(class) };
        let what = |f: u32|
            only_if(
                !interaction_used(fed.subscriptions, class) && f != me
                    && to_be_advised_of_interactions(fed.federates[f], class),
                on,
            );
        if !interaction_used(fed.subscriptions, class) {
            assert(!fed.subscriptions.interaction_in_use(class));
            lemma_tells_set(
                conns,
                fed.federates,
                o.fed,
                interaction_publishers(o.fed, class, Some(me)),
                on,
                what,
            );
        } else {
            assert(o.sent == Seq::<OutboundView>::empty());
            assert(tells(o.sent, conns, fed.federates, what));
        }
    }
}

/// To unsubscribe from an interaction class takes it from the subscriptions of the federate,
/// in its own declarations as in the federation. Where with that nobody subscribes to it
/// any more, exactly the federates that publish it, and want to know, are told to turn it
/// off.
pub proof fn to_unsubscribe_from_an_interaction_class_takes_it(
    fed: FederationView,
    conns: Map<u64, u64>,
    me: u32,
    interaction_class: Option<Vec<u8>>,
    load: SnapshotLoadView,
    class: u32,
)
    requires
        own_sessions(fed.federates),
        fed.federates.contains_key(me),
        field32(interaction_class) == Some(class),
    ensures
        ({
            let request = CallRequest::UnsubscribeInteractionClass { interaction_class };
            let o = member_outcome(fed, conns, me, request, load);
            let was = fed.federates[me].pub_sub;
            let is = o.fed.federates[me].pub_sub;
            &&&             true ==> {
                &&& serves(o, Service::UnsubscribeInteractionClass)
                &&& only_declarations_differ(fed, o.fed, me)
                &&& is == (PubSubView {
                    subscribed_interactions: is.subscribed_interactions,
                    ..was
                })
                &&& is.subscribed_interactions == was.subscribed_interactions.remove(class)
                &&& o.fed.subscriptions == (SubscriptionView {
                    interactions: fed.subscriptions.interactions.remove((class, me)),
                    ..fed.subscriptions
                })
                &&& tells(
                    o.sent,
                    conns,
                    fed.federates,
                    |f: u32|
                        only_if(
                            interaction_used(fed.subscriptions, class) && !interaction_used(
                                o.fed.subscriptions,
                                class,
                            ) && to_be_advised_of_interactions(fed.federates[f], class),
                            CallbackView::TurnInteractionsOff {
                                interaction_class: bytes_of_u32(class),
                            },
                        ),
                )
            }
        }),
{
    reveal(lookup_reply);
    reveal(quiet_outcome);
    reveal(exchange_outcome);
    let request = CallRequest::UnsubscribeInteractionClass { interaction_class };
    let o = member_outcome(fed, conns, me, request, load);
    let was = fed.federates[me].pub_sub;
    let off = CallbackView::TurnInteractionsOff { interaction_class: bytes_of_u32(class) };
    let what = |f: u32|
        only_if(
            interaction_used(fed.subscriptions, class) && !interaction_used(
                o.fed.subscriptions,
                class,
            ) && to_be_advised_of_interactions(fed.federates[f], class),
            off,
        );
    if interaction_used(fed.subscriptions, class) && !interaction_used(
        o.fed.subscriptions,
        class,
    ) {
        assert(fed.subscriptions.interaction_in_use(class));
        assert(!o.fed.subscriptions.interaction_in_use(class));
        lemma_tells_set(
            conns,
            fed.federates,
            o.fed,
            interaction_publishers(o.fed, class, None),
            off,
            what,
        );
    } else {
        assert(o.sent == Seq::<OutboundView>::empty());
        assert(tells(o.sent, conns, fed.federates, what));
    }
}

/// To publish interactions directed at instances of a class adds them to those that the
/// federate publishes so, and nothing else; nobody is told.
pub proof fn to_publish_directed_interactions_adds_them(
    fed: FederationView,
    conns: Map<u64, u64>,
    me: u32,
    object_class: Option<Vec<u8>>,
    interaction_classes: Option<Vec<Vec<u8>>>,
    load: SnapshotLoadView,
    class: u32,
)
    requires
        fed.federates.contains_key(me),
        field32(object_class) == Some(class),
    ensures
        ({
            let request = CallRequest::PublishObjectClassDirectedInteractions {
                object_class,
                interaction_classes,
            };
            let o = member_outcome(fed, conns, me, request, load);
            let was = fed.federates[me].pub_sub;
            let is = o.fed.federates[me].pub_sub;
            &&&             true ==> {
                &&& serves(o, Service::PublishObjectClassDirectedInteractions)
                &&& only_declarations_differ(fed, o.fed, me)
                &&& is == (PubSubView {
                    published_directed_interactions: is.published_directed_interactions,
                    ..was
                })
                &&& has_more(
                    was.published_directed_interactions,
                    is.published_directed_interactions,
                    class,
                    interaction_classes,
                )
                &&& o.fed.subscriptions == fed.subscriptions
                &&& o.sent.len() == 0
            }
        }),
{
    reveal(lookup_reply);
    reveal(quiet_outcome);
    reveal(exchange_outcome);
    let request = CallRequest::PublishObjectClassDirectedInteractions {
                object_class,
                interaction_classes,
            };
    let o = member_outcome(fed, conns, me, request, load);
    let was = fed.federates[me].pub_sub;
    lemma_has_more(was.published_directed_interactions, class, interaction_classes);
}

/// To unpublish interactions directed at instances of a class takes those that are named from
/// those that the federate publishes so, and nothing else; nobody is told.
pub proof fn to_unpublish_directed_interactions_takes_them(
    fed: FederationView,
    conns: Map<u64, u64>,
    me: u32,
    interaction_classes: Option<Vec<Vec<u8>>>,
    object_class: Option<Vec<u8>>,
    load: SnapshotLoadView,
    class: u32,
)
    requires
        fed.federates.contains_key(me),
        field32(object_class) == Some(class),
    ensures
        ({
            let request = CallRequest::UnpublishObjectClassDirectedInteractionsWithSet {
                object_class,
                interaction_classes,
            };
            let o = member_outcome(fed, conns, me, request, load);
            let was = fed.federates[me].pub_sub;
            let is = o.fed.federates[me].pub_sub;
            &&&             interaction_classes is Some ==> {
                &&& serves(o, Service::UnpublishObjectClassDirectedInteractions)
                &&& only_declarations_differ(fed, o.fed, me)
                &&& is == (PubSubView {
                    published_directed_interactions: is.published_directed_interactions,
                    ..was
                })
                &&& has_less(
                    was.published_directed_interactions,
                    is.published_directed_interactions,
                    class,
                    interaction_classes,
                )
                &&& o.fed.subscriptions == fed.subscriptions
                &&& o.sent.len() == 0
            }
        }),
{
    reveal(lookup_reply);
    reveal(quiet_outcome);
    reveal(exchange_outcome);
    let request = CallRequest::UnpublishObjectClassDirectedInteractionsWithSet {
                object_class,
                interaction_classes,
            };
    let o = member_outcome(fed, conns, me, request, load);
    let was = fed.federates[me].pub_sub;
    lemma_has_less(was.published_directed_interactions, class, interaction_classes);
}

/// To unpublish all interactions directed at instances of a class takes the class from those
/// that the federate publishes so, and nothing else; nobody is told.
pub proof fn to_unpublish_all_directed_interactions_takes_them(
    fed: FederationView,
    conns: Map<u64, u64>,
    me: u32,
    object_class: Option<Vec<u8>>,
    load: SnapshotLoadView,
    class: u32,
)
    requires
        fed.federates.contains_key(me),
        field32(object_class) == Some(class),
    ensures
        ({
            let request = CallRequest::UnpublishObjectClassDirectedInteractions { object_class };
            let o = member_outcome(fed, conns, me, request, load);
            let was = fed.federates[me].pub_sub;
            let is = o.fed.federates[me].pub_sub;
            &&&             true ==> {
                &&& serves(o, Service::UnpublishObjectClassDirectedInteractions)
                &&& only_declarations_differ(fed, o.fed, me)
                &&& is == (PubSubView {
                    published_directed_interactions: is.published_directed_interactions,
                    ..was
                })
                &&& is.published_directed_interactions
                    == was.published_directed_interactions.remove(class)
                &&& o.fed.subscriptions == fed.subscriptions
                &&& o.sent.len() == 0
            }
        }),
{
    reveal(lookup_reply);
    reveal(quiet_outcome);
    reveal(exchange_outcome);
    let request = CallRequest::UnpublishObjectClassDirectedInteractions { object_class };
    let o = member_outcome(fed, conns, me, request, load);
    let was = fed.federates[me].pub_sub;
}

/// To subscribe to interactions directed at instances of a class adds them to those that the
/// federate subscribes to so, and nothing else; nobody is told.
pub proof fn to_subscribe_to_directed_interactions_adds_them(
    fed: FederationView,
    conns: Map<u64, u64>,
    me: u32,
    universally: bool,
    object_class: Option<Vec<u8>>,
    interaction_classes: Option<Vec<Vec<u8>>>,
    load: SnapshotLoadView,
    class: u32,
)
    requires
        fed.federates.contains_key(me),
        field32(object_class) == Some(class),
    ensures
        ({
            let request = CallRequest::SubscribeObjectClassDirectedInteractions {
                universally,
                object_class,
                interaction_classes,
            };
            let o = member_outcome(fed, conns, me, request, load);
            let was = fed.federates[me].pub_sub;
            let is = o.fed.federates[me].pub_sub;
            &&&             true ==> {
                &&& serves(o, Service::SubscribeObjectClassDirectedInteractions)
                &&& only_declarations_differ(fed, o.fed, me)
                &&& is == (PubSubView {
                    subscribed_directed_interactions: is.subscribed_directed_interactions,
                    ..was
                })
                &&& has_more(
                    was.subscribed_directed_interactions,
                    is.subscribed_directed_interactions,
                    class,
                    interaction_classes,
                )
                &&& o.fed.subscriptions == fed.subscriptions
                &&& o.sent.len() == 0
            }
        }),
{
    reveal(lookup_reply);
    reveal(quiet_outcome);
    reveal(exchange_outcome);
    let request = CallRequest::SubscribeObjectClassDirectedInteractions {
                universally,
                object_class,
                interaction_classes,
            };
    let o = member_outcome(fed, conns, me, request, load);
    let was = fed.federates[me].pub_sub;
    lemma_has_more(was.subscribed_directed_interactions, class, interaction_classes);
}

/// To unsubscribe from interactions directed at instances of a class takes those that are
/// named from those that the federate subscribes to so, and nothing else; nobody is told.
pub proof fn to_unsubscribe_from_directed_interactions_takes_them(
    fed: FederationView,
    conns: Map<u64, u64>,
    me: u32,
    interaction_classes: Option<Vec<Vec<u8>>>,
    object_class: Option<Vec<u8>>,
    load: SnapshotLoadView,
    class: u32,
)
    requires
        fed.federates.contains_key(me),
        field32(object_class) == Some(class),
    ensures
        ({
            let request = CallRequest::UnsubscribeObjectClassDirectedInteractionsWithSet {
                object_class,
                interaction_classes,
            };
            let o = member_outcome(fed, conns, me, request, load);
            let was = fed.federates[me].pub_sub;
            let is = o.fed.federates[me].pub_sub;
            &&&             interaction_classes is Some ==> {
                &&& serves(o, Service::UnsubscribeObjectClassDirectedInteractions)
                &&& only_declarations_differ(fed, o.fed, me)
                &&& is == (PubSubView {
                    subscribed_directed_interactions: is.subscribed_directed_interactions,
                    ..was
                })
                &&& has_less(
                    was.subscribed_directed_interactions,
                    is.subscribed_directed_interactions,
                    class,
                    interaction_classes,
                )
                &&& o.fed.subscriptions == fed.subscriptions
                &&& o.sent.len() == 0
            }
        }),
{
    reveal(lookup_reply);
    reveal(quiet_outcome);
    reveal(exchange_outcome);
    let request = CallRequest::UnsubscribeObjectClassDirectedInteractionsWithSet {
                object_class,
                interaction_classes,
            };
    let o = member_outcome(fed, conns, me, request, load);
    let was = fed.federates[me].pub_sub;
    lemma_has_less(was.subscribed_directed_interactions, class, interaction_classes);
}

/// To unsubscribe from all interactions directed at instances of a class takes the class from those
/// that the federate subscribes to so, and nothing else; nobody is told.
pub proof fn to_unsubscribe_from_all_directed_interactions_takes_them(
    fed: FederationView,
    conns: Map<u64, u64>,
    me: u32,
    object_class: Option<Vec<u8>>,
    load: SnapshotLoadView,
    class: u32,
)
    requires
        fed.federates.contains_key(me),
        field32(object_class) == Some(class),
    ensures
        ({
            let request = CallRequest::UnsubscribeObjectClassDirectedInteractions { object_class };
            let o = member_outcome(fed, conns, me, request, load);
            let was = fed.federates[me].pub_sub;
            let is = o.fed.federates[me].pub_sub;
            &&&             true ==> {
                &&& serves(o, Service::UnsubscribeObjectClassDirectedInteractions)
                &&& only_declarations_differ(fed, o.fed, me)
                &&& is == (PubSubView {
                    subscribed_directed_interactions: is.subscribed_directed_interactions,
                    ..was
                })
                &&& is.subscribed_directed_interactions
                    == was.subscribed_directed_interactions.remove(class)
                &&& o.fed.subscriptions == fed.subscriptions
                &&& o.sent.len() == 0
            }
        }),
{
    reveal(lookup_reply);
    reveal(quiet_outcome);
    reveal(exchange_outcome);
    let request = CallRequest::UnsubscribeObjectClassDirectedInteractions { object_class };
    let o = member_outcome(fed, conns, me, request, load);
    let was = fed.federates[me].pub_sub;
}

/// Whether a request declares something of an object class, and names which.
pub open spec fn declares_of_class(request: CallRequest, class: Option<Vec<u8>>) -> bool {
    match request {
        CallRequest::PublishObjectClassAttributes { object_class, .. } => object_class == class,
        CallRequest::UnpublishObjectClassAttributes { object_class, .. } => object_class == class,
        CallRequest::UnpublishObjectClass { object_class } => object_class == class,
        CallRequest::SubscribeObjectClassAttributes { object_class, .. } => object_class == class,
        CallRequest::UnsubscribeObjectClassAttributes { object_class, .. } => object_class == class,
        CallRequest::UnsubscribeObjectClass { object_class } => object_class == class,
        CallRequest::SubscribeObjectClassAttributesWithRegions { object_class, .. } => object_class
            == class,
        CallRequest::UnsubscribeObjectClassAttributesWithRegions { object_class, .. } => {
            object_class == class
        },
        CallRequest::PublishObjectClassDirectedInteractions { object_class, .. } => object_class
            == class,
        CallRequest::UnpublishObjectClassDirectedInteractions { object_class } => object_class
            == class,
        CallRequest::UnpublishObjectClassDirectedInteractionsWithSet { object_class, .. } => {
            object_class == class
        },
        CallRequest::SubscribeObjectClassDirectedInteractions { object_class, .. } => object_class
            == class,
        CallRequest::UnsubscribeObjectClassDirectedInteractions { object_class } => object_class
            == class,
        CallRequest::UnsubscribeObjectClassDirectedInteractionsWithSet { object_class, .. } => {
            object_class == class
        },
        _ => false,
    }
}

/// Whether a request declares something of an interaction class, and names which.
pub open spec fn declares_of_interaction_class(
    request: CallRequest,
    class: Option<Vec<u8>>,
) -> bool {
    match request {
        CallRequest::PublishInteractionClass { interaction_class } => interaction_class == class,
        CallRequest::UnpublishInteractionClass { interaction_class } => interaction_class == class,
        CallRequest::SubscribeInteractionClass { interaction_class, .. } => interaction_class
            == class,
        CallRequest::UnsubscribeInteractionClass { interaction_class } => interaction_class
            == class,
        _ => false,
    }
}

/// A declaration without the handle of a class is refused.
pub proof fn declarations_name_a_class(
    fed: FederationView,
    conns: Map<u64, u64>,
    me: u32,
    request: CallRequest,
    load: SnapshotLoadView,
    class: Option<Vec<u8>>,
)
    requires
        field32(class) is None,
    ensures
        declares_of_class(request, class) ==> refuses(
            member_outcome(fed, conns, me, request, load),
            fed,
            HlaException::InvalidObjectClassHandle,
        ),
        declares_of_interaction_class(request, class) ==> refuses(
            member_outcome(fed, conns, me, request, load),
            fed,
            HlaException::InvalidInteractionClassHandle,
        ),
{
    reveal(lookup_reply);
    reveal(quiet_outcome);
    reveal(exchange_outcome);
}

} // verus!

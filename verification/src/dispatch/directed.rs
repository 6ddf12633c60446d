//! Interactions that are directed at object instances.

use crate::connections::Connections;
use crate::dispatch::helpers::{
    decode_parameter_value_map, handles_in, listed, read_handles, refusal, refuse, refuse_bare,
    silent, value_fault, value_fields, values_in, with_pub_sub, Outcome,
};
use crate::exception::{bare, HlaException};
use crate::federation::{lemma_put_back, Federation, FederationView, PubSubView};
use crate::handles::{field32, field64, read_field32, read_field64, FederateHandle};
use crate::messages::{done, reply, CallResponse, HandleValueField, Service};
use crate::routing::{
    deliver, deliveries, receive_directed_interaction, receive_directed_interaction_view, Outbox,
};
use crate::tables::{
    extend_entry, extended, lemma_ascending, reduce_entry, reduced, KeySet, Table,
};
use vstd::prelude::*;

verus! {

/// The byte strings in a field, where there is one.
pub open spec fn optional_list(field: Option<Vec<Vec<u8>>>) -> Option<Seq<Seq<u8>>> {
    match field {
        Some(_) => Some(listed(field)),
        None => None,
    }
}

/// The interaction classes in a field.
fn decode_interaction_class_set(field: &Option<Vec<Vec<u8>>>) -> (r: KeySet<u32>)
    ensures
        r@ == handles_in(listed(*field)),
{
    read_handles(field)
}

/// What publishing interactions directed at instances of a class does.
pub open spec fn publish_directed_outcome(
    fed: FederationView,
    me: u32,
    class: Option<u32>,
    interactions: Seq<Seq<u8>>,
) -> Outcome {
    match class {
        None => refusal(fed, bare(HlaException::InvalidObjectClassHandle)),
        Some(c) => {
            let ps = fed.federates[me].pub_sub;
            silent(
                with_pub_sub(
                    fed,
                    me,
                    PubSubView {
                        published_directed_interactions: extended(
                            ps.published_directed_interactions,
                            c,
                            handles_in(interactions),
                        ),
                        ..ps
                    },
                ),
                Service::PublishObjectClassDirectedInteractions,
            )
        },
    }
}

/// Publishes interactions directed at instances of a class.
pub fn publish_object_class_directed_interactions(
    federation: &mut Federation,
    me: FederateHandle,
    object_class: &Option<Vec<u8>>,
    interaction_classes: &Option<Vec<Vec<u8>>>,
) -> (r: CallResponse)
    requires
        old(federation).wf(),
    ensures
        final(federation).wf(),
        ({
            let o = publish_directed_outcome(
                old(federation)@,
                me,
                field32(*object_class),
                listed(*interaction_classes),
            );
            &&& final(federation)@ == o.fed
            &&& r@ == o.reply
        }),
{
    broadcast use lemma_put_back;

    let class = match read_field32(object_class) {
        Some(c) => c,
        None => return refuse_bare(HlaException::InvalidObjectClassHandle),
    };
    let set = decode_interaction_class_set(interaction_classes);
    if let Some(mut fs) = federation.federates.remove(me) {
        extend_entry(&mut fs.pub_sub.published_directed_interactions, class, &set);
        federation.federates.insert(me, fs);
    }
    reply(Service::PublishObjectClassDirectedInteractions)
}

/// The interaction classes of object classes without some of one class. Without a
/// set, all of them are meant.
pub open spec fn without_interactions(
    m: Map<u32, Set<u32>>,
    class: u32,
    interactions: Option<Seq<Seq<u8>>>,
) -> Map<u32, Set<u32>> {
    match interactions {
        Some(l) => reduced(m, class, handles_in(l)),
        None => m.remove(class),
    }
}

fn drop_interactions(
    table: &mut Table<u32, KeySet<u32>>,
    class: u32,
    interaction_classes: &Option<Vec<Vec<u8>>>,
)
    ensures
        final(table)@ == without_interactions(
            old(table)@,
            class,
            optional_list(*interaction_classes),
        ),
{
    if interaction_classes.is_some() {
        let set = decode_interaction_class_set(interaction_classes);
        reduce_entry(table, class, &set);
    } else {
        table.remove(class);
    }
}

/// What ending the publication of directed interactions does. Without a set, all of
/// them are meant.
pub open spec fn unpublish_directed_outcome(
    fed: FederationView,
    me: u32,
    class: Option<u32>,
    interactions: Option<Seq<Seq<u8>>>,
) -> Outcome {
    match class {
        None => refusal(fed, bare(HlaException::InvalidObjectClassHandle)),
        Some(c) => {
            let ps = fed.federates[me].pub_sub;
            let m = ps.published_directed_interactions;
            silent(
                with_pub_sub(
                    fed,
                    me,
                    PubSubView {
                        published_directed_interactions: without_interactions(m, c, interactions),
                        ..ps
                    },
                ),
                Service::UnpublishObjectClassDirectedInteractions,
            )
        },
    }
}

/// Ends the publication of interactions directed at instances of a class.
pub fn unpublish_object_class_directed_interactions(
    federation: &mut Federation,
    me: FederateHandle,
    object_class: &Option<Vec<u8>>,
    interaction_classes: &Option<Vec<Vec<u8>>>,
) -> (r: CallResponse)
    requires
        old(federation).wf(),
    ensures
        final(federation).wf(),
        ({
            let o = unpublish_directed_outcome(
                old(federation)@,
                me,
                field32(*object_class),
                optional_list(*interaction_classes),
            );
            &&& final(federation)@ == o.fed
            &&& r@ == o.reply
        }),
{
    broadcast use lemma_put_back;

    let class = match read_field32(object_class) {
        Some(c) => c,
        None => return refuse_bare(HlaException::InvalidObjectClassHandle),
    };
    if let Some(mut fs) = federation.federates.remove(me) {
        drop_interactions(&mut fs.pub_sub.published_directed_interactions, class, interaction_classes);
        federation.federates.insert(me, fs);
    }
    reply(Service::UnpublishObjectClassDirectedInteractions)
}

/// What subscribing to interactions directed at instances of a class does.
pub open spec fn subscribe_directed_outcome(
    fed: FederationView,
    me: u32,
    class: Option<u32>,
    interactions: Seq<Seq<u8>>,
) -> Outcome {
    match class {
        None => refusal(fed, bare(HlaException::InvalidObjectClassHandle)),
        Some(c) => {
            let ps = fed.federates[me].pub_sub;
            silent(
                with_pub_sub(
                    fed,
                    me,
                    PubSubView {
                        subscribed_directed_interactions: extended(
                            ps.subscribed_directed_interactions,
                            c,
                            handles_in(interactions),
                        ),
                        ..ps
                    },
                ),
                Service::SubscribeObjectClassDirectedInteractions,
            )
        },
    }
}

/// Subscribes to interactions directed at instances of a class.
pub fn subscribe_object_class_directed_interactions(
    federation: &mut Federation,
    me: FederateHandle,
    object_class: &Option<Vec<u8>>,
    interaction_classes: &Option<Vec<Vec<u8>>>,
) -> (r: CallResponse)
    requires
        old(federation).wf(),
    ensures
        final(federation).wf(),
        ({
            let o = subscribe_directed_outcome(
                old(federation)@,
                me,
                field32(*object_class),
                listed(*interaction_classes),
            );
            &&& final(federation)@ == o.fed
            &&& r@ == o.reply
        }),
{
    broadcast use lemma_put_back;

    let class = match read_field32(object_class) {
        Some(c) => c,
        None => return refuse_bare(HlaException::InvalidObjectClassHandle),
    };
    let set = decode_interaction_class_set(interaction_classes);
    if let Some(mut fs) = federation.federates.remove(me) {
        extend_entry(&mut fs.pub_sub.subscribed_directed_interactions, class, &set);
        federation.federates.insert(me, fs);
    }
    reply(Service::SubscribeObjectClassDirectedInteractions)
}

/// What ending the subscription to directed interactions does. Without a set, all of
/// them are meant.
pub open spec fn unsubscribe_directed_outcome(
    fed: FederationView,
    me: u32,
    class: Option<u32>,
    interactions: Option<Seq<Seq<u8>>>,
) -> Outcome {
    match class {
        None => refusal(fed, bare(HlaException::InvalidObjectClassHandle)),
        Some(c) => {
            let ps = fed.federates[me].pub_sub;
            let m = ps.subscribed_directed_interactions;
            silent(
                with_pub_sub(
                    fed,
                    me,
                    PubSubView {
                        subscribed_directed_interactions: without_interactions(m, c, interactions),
                        ..ps
                    },
                ),
                Service::UnsubscribeObjectClassDirectedInteractions,
            )
        },
    }
}

/// Ends the subscription to interactions directed at instances of a class.
pub fn unsubscribe_object_class_directed_interactions(
    federation: &mut Federation,
    me: FederateHandle,
    object_class: &Option<Vec<u8>>,
    interaction_classes: &Option<Vec<Vec<u8>>>,
) -> (r: CallResponse)
    requires
        old(federation).wf(),
    ensures
        final(federation).wf(),
        ({
            let o = unsubscribe_directed_outcome(
                old(federation)@,
                me,
                field32(*object_class),
                optional_list(*interaction_classes),
            );
            &&& final(federation)@ == o.fed
            &&& r@ == o.reply
        }),
{
    broadcast use lemma_put_back;

    let class = match read_field32(object_class) {
        Some(c) => c,
        None => return refuse_bare(HlaException::InvalidObjectClassHandle),
    };
    if let Some(mut fs) = federation.federates.remove(me) {
        drop_interactions(&mut fs.pub_sub.subscribed_directed_interactions, class, interaction_classes);
        federation.federates.insert(me, fs);
    }
    reply(Service::UnsubscribeObjectClassDirectedInteractions)
}

/// Whether a federate subscribes to an interaction class when it is directed at
/// instances of an object class.
pub open spec fn wants_directed(
    fed: FederationView,
    f: u32,
    object_class: u32,
    interaction: u32,
) -> bool {
    let m = fed.federates[f].pub_sub.subscribed_directed_interactions;
    fed.federates.contains_key(f) && m.contains_key(object_class) && m[object_class].contains(
        interaction,
    )
}

/// Whom an interaction directed at an instance reaches: the registrar of the
/// instance and those who subscribe to such interactions, but not its sender.
pub open spec fn directed_audience(
    fed: FederationView,
    instance: u64,
    interaction: u32,
    me: u32,
) -> Set<u32> {
    let inst = fed.object_instances[instance];
    Set::new(
        |f: u32|
            f != me && (f == inst.registrar || wants_directed(fed, f, inst.class, interaction)),
    )
}

/// What sending a directed interaction does.
pub open spec fn directed_outcome(
    fed: FederationView,
    conns: Map<u64, u64>,
    me: u32,
    class: Option<u32>,
    instance: Option<u64>,
    fields: Seq<HandleValueField>,
    tag: Seq<u8>,
) -> Outcome {
    match (class, instance) {
        (None, _) => refusal(fed, bare(HlaException::InvalidInteractionClassHandle)),
        (Some(_), None) => refusal(fed, bare(HlaException::ObjectInstanceNotKnown)),
        (Some(c), Some(o)) => match value_fault(fields, HlaException::InvalidParameterHandle) {
            Some(e) => refusal(fed, e),
            None => if !fed.object_instances.contains_key(o) {
                refusal(fed, bare(HlaException::ObjectInstanceNotKnown))
            } else {
                Outcome {
                    fed,
                    reply: done(Service::SendDirectedInteraction),
                    sent: deliveries(
                        conns,
                        fed,
                        directed_audience(fed, o, c, me),
                        receive_directed_interaction_view(c, o, values_in(fields), tag, me),
                    ),
                }
            },
        },
    }
}

fn find_directed_audience(
    federation: &Federation,
    object_class: u32,
    registrar: FederateHandle,
    interaction: u32,
    me: FederateHandle,
) -> (r: KeySet<u32>)
    requires
        federation.wf(),
    ensures
        r@ == Set::new(
            |f: u32|
                f != me && (f == registrar || wants_directed(
                    federation@,
                    f,
                    object_class,
                    interaction,
                )),
        ),
{
    let ghost fed = federation@;
    let mut targets: KeySet<u32> = KeySet::new();
    if registrar != me {
        targets.insert(registrar);
    }
    let keys = federation.federates.keys();
    proof {
        lemma_ascending(fed.federates.dom());
    }
    let mut i: usize = 0;
    while i < keys.len()
        invariant
            i <= keys@.len(),
            fed == federation@,
            forall|f: u32| #[trigger] keys@.contains(f) <==> fed.federates.contains_key(f),
            forall|f: u32| #[trigger]
                targets@.contains(f) <==> f != me && (f == registrar || (wants_directed(
                    fed,
                    f,
                    object_class,
                    interaction,
                ) && exists|k: int| 0 <= k < i && keys@[k] == f)),
        decreases keys@.len() - i,
    {
        let f = keys[i];
        assert(keys@.contains(keys@[i as int]));
        if f != me {
            if let Some(fs) = federation.federates.get(f) {
                if let Some(set) = fs.pub_sub.subscribed_directed_interactions.get(object_class) {
                    if set.contains(interaction) {
                        targets.insert(f);
                    }
                }
            }
        }
        i = i + 1;
    }
    proof {
        let wanted = Set::new(
            |f: u32|
                f != me && (f == registrar || wants_directed(fed, f, object_class, interaction)),
        );
        assert forall|f: u32| wanted.contains(f) implies targets@.contains(f) by {
            if f != registrar {
                assert(keys@.contains(f));
                let k = keys@.index_of(f);
                assert(keys@[k] == f);
            }
        }
        assert(targets@ =~= wanted);
    }
    targets
}

/// Sends an interaction that is directed at an instance.
pub fn send_directed_interaction(
    federation: &Federation,
    conns: &Connections,
    out: &mut Outbox,
    me: FederateHandle,
    interaction_class: &Option<Vec<u8>>,
    object_instance: &Option<Vec<u8>>,
    parameter_values: &Option<Vec<HandleValueField>>,
    tag: &[u8],
) -> (r: CallResponse)
    requires
        federation.wf(),
    ensures
        ({
            let o = directed_outcome(
                federation@,
                conns@,
                me,
                field32(*interaction_class),
                field64(*object_instance),
                value_fields(*parameter_values),
                tag@,
            );
            &&& o.fed == federation@
            &&& r@ == o.reply
            &&& final(out)@ == old(out)@ + o.sent
        }),
{
    assert(old(out)@ + Seq::empty() =~= old(out)@);
    let class = match read_field32(interaction_class) {
        Some(c) => c,
        None => return refuse_bare(HlaException::InvalidInteractionClassHandle),
    };
    let instance = match read_field64(object_instance) {
        Some(h) => h,
        None => return refuse_bare(HlaException::ObjectInstanceNotKnown),
    };
    let params = match decode_parameter_value_map(parameter_values) {
        Ok(v) => v,
        Err(e) => return refuse(e),
    };
    let targets = match federation.object_instances.get(instance) {
        None => return refuse_bare(HlaException::ObjectInstanceNotKnown),
        Some(inst) => find_directed_audience(federation, inst.class, inst.registrar, class, me),
    };
    assert(targets@ =~= directed_audience(federation@, instance, class, me));
    deliver(
        out,
        conns,
        federation,
        &targets,
        receive_directed_interaction(class, instance, &params, tag, me),
    );
    reply(Service::SendDirectedInteraction)
}

} // verus!

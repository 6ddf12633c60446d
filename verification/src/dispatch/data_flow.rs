//! Updates, interactions and deletions.

use crate::callbacks::{CallbackRequest, CallbackView};
use crate::connections::Connections;
use crate::dispatch::ddm_matching::{concerns, filter_subscribers_by_regions};
use crate::dispatch::helpers::{
    decode_attribute_value_map, decode_parameter_value_map, refusal, refuse, refuse_bare,
    value_fault, value_fields, values_in, Outcome,
};
use crate::dispatch::object_mgmt::{
    discoveries, notify_subscribers_of_registration_subset, unaware, with_awareness,
};
use crate::exception::{
    bare, bare_exception, exception_variant, raised, Details, DetailsView, ExceptionData,
    ExceptionView, HlaException,
};
use crate::federation::{
    in_time_order, lemma_put_back, queue_view, share, FederateView, Federation, FederationView,
    InstanceView, ObjectInstance, PubSubView, TsoMessage, TsoView,
};
use crate::handles::{
    field32, field64, read_field32, read_field64, FederateHandle, ObjectInstanceHandle,
};
use crate::logical_time::{
    before, is_nan, not_after, plus_is_a_number, rank, stamp_before, stamp_not_after, stamp_plus,
};
use crate::messages::{done, reply, CallResponse, HandleValueField, Service};
use crate::routing::{
    attribute_audience, connection_of, deliver, deliveries, deliveries_pass_others_by,
    deliveries_reach_exactly_the_members, discover_object_instance_view, fan_out_shared,
    interaction_audience, live_connections, receive_interaction, receive_interaction_view,
    receive_interaction_with_time, receive_interaction_with_time_view, reflect_attribute_values,
    reflect_attribute_values_view, reflect_attribute_values_with_time,
    reflect_attribute_values_with_time_view, remove_object_instance, remove_object_instance_view,
    remove_object_instance_with_time, remove_object_instance_with_time_view,
    subscribers_for_attributes, subscribers_for_interaction, OutboundView, Outbox,
};
use crate::tables::{ascending, lemma_ascending, KeySet, Table};
use crate::text::copy_text;
use crate::time::{
    due, due_messages_come_first, horizon, lower_bound, lower_bound_is_least_horizon,
};
use std::sync::Arc;
use vstd::prelude::*;

verus! {

/// Whether a federate owns every listed attribute of an instance.
pub open spec fn owns_all(inst: InstanceView, attrs: Set<u32>, me: u32) -> bool {
    forall|a: u32| #[trigger]
        attrs.contains(a) ==> inst.attribute_owners.contains_key(a) && inst.attribute_owners[a]
            == me
}

fn check_ownership(inst: &ObjectInstance, attrs: &Vec<u32>, me: FederateHandle) -> (r: bool)
    ensures
        r == owns_all(inst@, attrs@.to_set(), me),
{
    let mut i: usize = 0;
    while i < attrs.len()
        invariant
            i <= attrs@.len(),
            forall|k: int|
                0 <= k < i ==> inst@.attribute_owners.contains_key(#[trigger] attrs@[k])
                    && inst@.attribute_owners[attrs@[k]] == me,
        decreases attrs@.len() - i,
    {
        match inst.attribute_owners.get(attrs[i]) {
            Some(owner) if *owner == me => {},
            _ => {
                assert(attrs@.to_set().contains(attrs@[i as int]));
                return false;
            },
        }
        i = i + 1;
    }
    assert forall|a: u32| #[trigger] attrs@.to_set().contains(a) implies inst@.attribute_owners.contains_key(
        a,
    ) && inst@.attribute_owners[a] == me by {
        let k = attrs@.index_of(a);
        assert(attrs@[k] == a);
    }
    true
}

/// The federates other than the producer whom an update of an instance concerns:
/// they subscribe to one of the attributes, and the regions of one of the
/// attributes meet theirs.
pub open spec fn update_audience(
    fed: FederationView,
    inst: InstanceView,
    attrs: Set<u32>,
    me: u32,
) -> Set<u32> {
    let subscribers = attribute_audience(fed, inst.class, ascending(attrs), Some(me));
    Set::new(
        |f: u32|
            subscribers.contains(f) && exists|a: u32| #[trigger]
                attrs.contains(a) && concerns(fed, f, inst, a),
    )
}

fn find_update_audience(
    federation: &Federation,
    instance: ObjectInstanceHandle,
    inst: &ObjectInstance,
    attrs: &Vec<u32>,
    me: FederateHandle,
    Ghost(set): Ghost<Set<u32>>,
) -> (r: KeySet<u32>)
    requires
        attrs@ == ascending(set),
        set.finite(),
        federation@.object_instances.contains_key(instance),
        federation@.object_instances[instance] == inst@,
    ensures
        r@ == update_audience(federation@, inst@, set, me),
{
    let ghost fed = federation@;
    let subscribers = subscribers_for_attributes(federation, inst.class, attrs, Some(me));
    let mut matched: KeySet<u32> = KeySet::new();
    let mut i: usize = 0;
    while i < attrs.len()
        invariant
            i <= attrs@.len(),
            fed == federation@,
            fed.object_instances.contains_key(instance),
            fed.object_instances[instance] == inst@,
            forall|f: u32| #[trigger]
                matched@.contains(f) <==> subscribers@.contains(f) && exists|k: int|
                    0 <= k < i && concerns(fed, f, inst@, #[trigger] attrs@[k]),
        decreases attrs@.len() - i,
    {
        let found = filter_subscribers_by_regions(federation, &subscribers, instance, attrs[i]);
        let ghost seen = matched@;
        matched.extend(&found);
        assert forall|f: u32| #[trigger] matched@.contains(f) <==> subscribers@.contains(f)
            && exists|k: int| 0 <= k < i + 1 && concerns(fed, f, inst@, #[trigger] attrs@[k]) by {
            if seen.contains(f) {
                let k = choose|k: int| 0 <= k < i && concerns(fed, f, inst@, #[trigger] attrs@[k]);
                assert(0 <= k < i + 1 && concerns(fed, f, inst@, attrs@[k]));
            }
            if found@.contains(f) {
                assert(concerns(fed, f, inst@, attrs@[i as int]));
            }
        }
        i = i + 1;
    }
    proof {
        lemma_ascending(set);
        let audience = update_audience(fed, inst@, set, me);
        assert forall|f: u32| matched@.contains(f) <==> audience.contains(f) by {
            if matched@.contains(f) {
                let k = choose|k: int| 0 <= k < i && concerns(fed, f, inst@, #[trigger] attrs@[k]);
                assert(attrs@.contains(attrs@[k]));
                assert(set.contains(attrs@[k]));
            }
            if audience.contains(f) {
                let a = choose|a: u32| #[trigger] set.contains(a) && concerns(fed, f, inst@, a);
                assert(attrs@.contains(a));
                let k = attrs@.index_of(a);
                assert(concerns(fed, f, inst@, attrs@[k]));
            }
        }
        assert(matched@ =~= audience);
    }
    matched
}

/// What an update of attribute values does. Those whom it concerns learn of the
/// instance first, where they do not know it yet.
pub open spec fn update_outcome(
    fed: FederationView,
    conns: Map<u64, u64>,
    me: u32,
    instance: Option<u64>,
    fields: Seq<HandleValueField>,
    tag: Seq<u8>,
) -> Outcome {
    match instance {
        None => refusal(fed, raised(HlaException::ObjectInstanceNotKnown, "missing handle"@)),
        Some(o) => match value_fault(fields, HlaException::InvalidAttributeHandle) {
            Some(e) => refusal(fed, e),
            None => {
                let values = values_in(fields);
                if !fed.object_instances.contains_key(o) {
                    refusal(fed, bare(HlaException::ObjectInstanceNotKnown))
                } else if !owns_all(fed.object_instances[o], values.dom(), me) {
                    refusal(fed, bare(HlaException::AttributeNotOwned))
                } else {
                    let inst = fed.object_instances[o];
                    let audience = update_audience(fed, inst, values.dom(), me);
                    let next = with_awareness(fed, audience, o);
                    Outcome {
                        fed: next,
                        reply: done(Service::UpdateAttributeValues),
                        sent: discoveries(fed, conns, audience, o, inst.class, inst.name, me)
                            + deliveries(
                            conns,
                            next,
                            audience,
                            reflect_attribute_values_view(o, values, tag, me),
                        ),
                    }
                }
            },
        },
    }
}

/// Updates attribute values of an instance.
pub fn update_attribute_values(
    federation: &mut Federation,
    conns: &Connections,
    out: &mut Outbox,
    me: FederateHandle,
    object_instance: &Option<Vec<u8>>,
    attribute_values: &Option<Vec<HandleValueField>>,
    tag: &[u8],
) -> (r: CallResponse)
    requires
        old(federation).wf(),
    ensures
        final(federation).wf(),
        ({
            let o = update_outcome(
                old(federation)@,
                conns@,
                me,
                field64(*object_instance),
                value_fields(*attribute_values),
                tag@,
            );
            &&& final(federation)@ == o.fed
            &&& r@ == o.reply
            &&& final(out)@ == old(out)@ + o.sent
        }),
{
    assert(old(out)@ + Seq::empty() =~= old(out)@);
    let instance = match read_field64(object_instance) {
        Some(h) => h,
        None => {
            return refuse(
                exception_variant(HlaException::ObjectInstanceNotKnown, "missing handle"),
            );
        },
    };
    let values = match decode_attribute_value_map(attribute_values) {
        Ok(v) => v,
        Err(e) => return refuse(e),
    };
    let attrs = values.keys();
    proof {
        lemma_ascending(values@.dom());
    }
    let (class, name, audience) = match federation.object_instances.get(instance) {
        None => return refuse_bare(HlaException::ObjectInstanceNotKnown),
        Some(inst) => {
            if !check_ownership(inst, &attrs, me) {
                return refuse_bare(HlaException::AttributeNotOwned);
            }
            let audience = find_update_audience(
                federation,
                instance,
                inst,
                &attrs,
                me,
                Ghost(values@.dom()),
            );
            (inst.class, copy_text(inst.name.as_str()), audience)
        },
    };
    notify_subscribers_of_registration_subset(
        federation,
        conns,
        out,
        instance,
        class,
        name.as_str(),
        me,
        &audience,
    );
    deliver(
        out,
        conns,
        federation,
        &audience,
        reflect_attribute_values(instance, &values, tag, me),
    );
    assert(out@ =~= old(out)@ + update_outcome(
        old(federation)@,
        conns@,
        me,
        field64(*object_instance),
        value_fields(*attribute_values),
        tag@,
    ).sent);
    reply(Service::UpdateAttributeValues)
}

/// Whether a message has to wait for a federate.
pub open spec fn must_wait(fs: FederateView, time: u64) -> bool {
    fs.time.is_constrained && before(fs.time.current_time, time)
}

/// Those of the recipients who receive a message at once.
pub open spec fn immediate(fed: FederationView, recipients: Set<u32>, time: u64) -> Set<u32> {
    Set::new(
        |f: u32|
            recipients.contains(f) && fed.federates.contains_key(f) && !must_wait(
                fed.federates[f],
                time,
            ),
    )
}

/// A federate with one more message in its queue, behind those of the same or an
/// earlier time.
pub open spec fn enqueued(fs: FederateView, time: u64, callback: CallbackView) -> FederateView {
    FederateView {
        tso_queue: fs.tso_queue.insert(
            due(fs.tso_queue, time) as int,
            TsoView { time, callback },
        ),
        ..fs
    }
}

/// The federation after a message was queued for those of the recipients for
/// whom it has to wait.
pub open spec fn with_queued(
    fed: FederationView,
    recipients: Set<u32>,
    time: u64,
    callback: CallbackView,
) -> FederationView {
    FederationView {
        federates: Map::new(
            |f: u32| fed.federates.contains_key(f),
            |f: u32|
                if recipients.contains(f) && must_wait(fed.federates[f], time) {
                    enqueued(fed.federates[f], time, callback)
                } else {
                    fed.federates[f]
                },
        ),
        ..fed
    }
}

/// A queue in time order stays so when a message is put in behind those that are
/// due.
proof fn lemma_enqueued_wf(fs: FederateView, time: u64, callback: CallbackView)
    requires
        fs.wf(),
        before(fs.time.current_time, time),
    ensures
        enqueued(fs, time, callback).wf(),
{
    let q = fs.tso_queue;
    let n = due(q, time) as int;
    due_messages_come_first(q, time);
    let m = TsoView { time, callback };
    let q1 = q.insert(n, m);
    assert forall|i: int| 0 <= i < q1.len() implies !is_nan(
        (#[trigger] q1[i]).time,
    ) && before(fs.time.current_time, q1[i].time) by {
        if i < n {
            assert(q1[i] == q[i]);
        } else if i > n {
            assert(q1[i] == q[i - 1]);
        }
    }
    assert forall|i: int, j: int| 0 <= i <= j < q1.len() implies rank((#[trigger] q1[i]).time)
        <= rank((#[trigger] q1[j]).time) by {
        if i < n {
            assert(q1[i] == q[i]);
            assert(not_after(q[i].time, time));
        } else if i > n {
            assert(q1[i] == q[i - 1]);
            assert(!not_after(q[i - 1].time, time));
        }
        if j < n {
            assert(q1[j] == q[j]);
            assert(not_after(q[j].time, time));
            if i < n {
                assert(rank(q[i].time) <= rank(q[j].time));
            }
        } else if j > n {
            assert(q1[j] == q[j - 1]);
            assert(!not_after(q[j - 1].time, time));
            if i < n {
                assert(rank(q[i].time) <= rank(q[j - 1].time));
            } else if i > n {
                assert(rank(q[i - 1].time) <= rank(q[j - 1].time));
            }
        }
    }
}

/// The position behind the messages that are due at a time.
fn position_for(queue: &Vec<TsoMessage>, time: u64) -> (r: usize)
    requires
        in_time_order(queue_view(queue@)),
    ensures
        r == due(queue_view(queue@), time),
        r <= queue@.len(),
{
    let ghost q = queue_view(queue@);
    let mut n: usize = 0;
    proof {
        due_messages_come_first(q, time);
    }
    while n < queue.len() && stamp_not_after(queue[n].time, time)
        invariant
            n <= queue@.len(),
            q == queue_view(queue@),
            n <= due(q, time) <= q.len(),
            forall|i: int| due(q, time) <= i < q.len() ==> !not_after((#[trigger] q[i]).time, time),
        ensures
            n <= queue@.len(),
            n <= due(q, time),
            n < queue@.len() ==> !not_after(q[n as int].time, time),
        decreases queue@.len() - n,
    {
        assert(not_after(q[n as int].time, time));
        n = n + 1;
    }
    assert(n == due(q, time)) by {
        if n < due(q, time) {
            assert(not_after(q[n as int].time, time));
        }
    }
    n
}

/// Sends a message with a time stamp to those of the recipients who may see it,
/// and queues it for the others.
pub fn route_tso_or_immediate(
    federation: &mut Federation,
    conns: &Connections,
    out: &mut Outbox,
    recipients: &KeySet<FederateHandle>,
    time: u64,
    callback: CallbackRequest,
)
    requires
        old(federation).wf(),
    ensures
        final(federation).wf(),
        final(federation)@ == with_queued(old(federation)@, recipients@, time, callback@),
        final(out)@ == old(out)@ + deliveries(
            conns@,
            old(federation)@,
            immediate(old(federation)@, recipients@, time),
            callback@,
        ),
{
    broadcast use lemma_put_back;

    let ghost fed = old(federation)@;
    let ghost cb = callback@;
    let shared = Arc::new(callback);
    let members = recipients.members();
    proof {
        lemma_ascending(recipients@);
    }
    let mut now: KeySet<u32> = KeySet::new();
    let mut i: usize = 0;
    while i < members.len()
        invariant
            i <= members@.len(),
            *federation == *old(federation),
            fed == federation@,
            forall|f: u32| #[trigger] members@.contains(f) <==> recipients@.contains(f),
            forall|f: u32| #[trigger]
                now@.contains(f) <==> immediate(fed, recipients@, time).contains(f) && exists|
                    k: int,
                |
                    0 <= k < i && members@[k] == f,
        decreases members@.len() - i,
    {
        let f = members[i];
        assert(members@.contains(members@[i as int]));
        if let Some(fs) = federation.federates.get(f) {
            let wait = fs.time.is_constrained && stamp_before(fs.time.current_time, time);
            if !wait {
                now.insert(f);
            }
        }
        i = i + 1;
    }
    assert(now@ =~= immediate(fed, recipients@, time)) by {
        assert forall|f: u32| immediate(fed, recipients@, time).contains(f) implies now@.contains(
            f,
        ) by {
            assert(members@.contains(f));
            let k = members@.index_of(f);
            assert(members@[k] == f);
        }
    }
    let targets = live_connections(conns, &federation.federates, &now);
    fan_out_shared(out, &targets, &shared);
    let mut j: usize = 0;
    proof {
        assert(with_queued(fed, members@.take(0).to_set(), time, cb).federates =~= fed.federates);
    }
    while j < members.len()
        invariant
            j <= members@.len(),
            fed == old(federation)@,
            fed.wf(),
            cb == shared@,
            members@.no_duplicates(),
            federation.wf(),
            federation@ == with_queued(fed, members@.take(j as int).to_set(), time, cb),
        decreases members@.len() - j,
    {
        let f = members[j];
        let ghost seen = members@.take(j as int);
        let ghost seen1 = members@.take(j + 1);
        proof {
            assert(seen1 =~= seen.push(f));
            assert(!seen.contains(f)) by {
                if seen.contains(f) {
                    let k = seen.index_of(f);
                    assert(members@[k] == members@[j as int]);
                }
            }
            assert forall|g: u32| seen1.to_set().contains(g) <==> seen.to_set().contains(g) || g
                == f by {
                broadcast use vstd::seq_lib::group_seq_properties;
            }
        }
        if let Some(mut fs) = federation.federates.remove(f) {
            assert(fs@ == fed.federates[f]);
            assert(fed.federates.contains_key(f));
            if fs.time.is_constrained && stamp_before(fs.time.current_time, time) {
                let pos = position_for(&fs.tso_queue, time);
                let ghost q0 = fs.tso_queue@;
                fs.tso_queue.insert(pos, TsoMessage { time, callback: share(&shared) });
                proof {
                    assert(queue_view(fs.tso_queue@) =~= queue_view(q0).insert(
                        pos as int,
                        TsoView { time, callback: cb },
                    ));
                    assert(fs@ =~= enqueued(fed.federates[f], time, cb));
                    lemma_enqueued_wf(fed.federates[f], time, cb);
                }
            }
            federation.federates.insert(f, fs);
        }
        proof {
            assert(federation@.federates =~= with_queued(
                fed,
                seen1.to_set(),
                time,
                cb,
            ).federates);
            assert forall|g: u32| #[trigger]
                federation@.federates.contains_key(g) implies federation@.federates[g].handle == g
                && federation@.federates[g].wf() by {
                assert(fed.federates.contains_key(g));
                if seen1.to_set().contains(g) && must_wait(fed.federates[g], time) {
                    lemma_enqueued_wf(fed.federates[g], time, cb);
                }
            }
        }
        j = j + 1;
    }
    assert(members@.take(j as int) =~= members@);
}

/// The exception for a time stamp that a regulating federate may not send any
/// more.
pub open spec fn too_early(time: u64, bound: u64) -> ExceptionView {
    ExceptionView {
        exception: HlaException::InvalidLogicalTime,
        details: DetailsView::StampBelow { time, bound },
    }
}

/// What an update of attribute values at a time does.
pub open spec fn timed_update_outcome(
    fed: FederationView,
    conns: Map<u64, u64>,
    me: u32,
    instance: Option<u64>,
    fields: Seq<HandleValueField>,
    tag: Seq<u8>,
    stamp: Option<u64>,
) -> Outcome {
    match instance {
        None => refusal(fed, bare(HlaException::ObjectInstanceNotKnown)),
        Some(o) => match value_fault(fields, HlaException::InvalidAttributeHandle) {
            Some(e) => refusal(fed, e),
            None => match stamp {
                None => refusal(fed, bare(HlaException::InvalidLogicalTime)),
                Some(time) => {
                    let values = values_in(fields);
                    let inst = fed.object_instances[o];
                    if !fed.object_instances.contains_key(o) {
                        refusal(fed, bare(HlaException::ObjectInstanceNotKnown))
                    } else if !owns_all(inst, values.dom(), me) {
                        refusal(fed, bare(HlaException::AttributeNotOwned))
                    } else if fed.federates.contains_key(me)
                        && fed.federates[me].time.is_regulating && before(
                        time,
                        horizon(fed.federates[me]),
                    ) {
                        refusal(fed, too_early(time, horizon(fed.federates[me])))
                    } else {
                        let audience = attribute_audience(
                            fed,
                            inst.class,
                            ascending(values.dom()),
                            Some(me),
                        );
                        let aware = with_awareness(fed, audience, o);
                        let callback = reflect_attribute_values_with_time_view(
                            o,
                            values,
                            tag,
                            me,
                            time,
                        );
                        Outcome {
                            fed: with_queued(aware, audience, time, callback),
                            reply: done(Service::UpdateAttributeValuesWithTime),
                            sent: discoveries(fed, conns, audience, o, inst.class, inst.name, me)
                                + deliveries(
                                conns,
                                aware,
                                immediate(aware, audience, time),
                                callback,
                            ),
                        }
                    }
                },
            },
        },
    }
}

/// Updates attribute values of an instance at a time.
pub fn update_attribute_values_with_time(
    federation: &mut Federation,
    conns: &Connections,
    out: &mut Outbox,
    me: FederateHandle,
    object_instance: &Option<Vec<u8>>,
    attribute_values: &Option<Vec<HandleValueField>>,
    tag: &[u8],
    time: &Option<Vec<u8>>,
) -> (r: CallResponse)
    requires
        old(federation).wf(),
    ensures
        final(federation).wf(),
        ({
            let o = timed_update_outcome(
                old(federation)@,
                conns@,
                me,
                field64(*object_instance),
                value_fields(*attribute_values),
                tag@,
                field64(*time),
            );
            &&& final(federation)@ == o.fed
            &&& r@ == o.reply
            &&& final(out)@ == old(out)@ + o.sent
        }),
{
    assert(old(out)@ + Seq::empty() =~= old(out)@);
    let instance = match read_field64(object_instance) {
        Some(h) => h,
        None => return refuse_bare(HlaException::ObjectInstanceNotKnown),
    };
    let values = match decode_attribute_value_map(attribute_values) {
        Ok(v) => v,
        Err(e) => return refuse(e),
    };
    let stamp = match read_field64(time) {
        Some(t) => t,
        None => return refuse_bare(HlaException::InvalidLogicalTime),
    };
    let attrs = values.keys();
    proof {
        lemma_ascending(values@.dom());
    }
    let (class, name) = match federation.object_instances.get(instance) {
        None => return refuse_bare(HlaException::ObjectInstanceNotKnown),
        Some(inst) => {
            if !check_ownership(inst, &attrs, me) {
                return refuse_bare(HlaException::AttributeNotOwned);
            }
            (inst.class, copy_text(inst.name.as_str()))
        },
    };
    if let Some(fs) = federation.federates.get(me) {
        if fs.time.is_regulating {
            let bound: u64 = stamp_plus(fs.time.current_time, fs.time.lookahead);
            if stamp_before(stamp, bound) {
                return refuse(
                    ExceptionData {
                        exception: HlaException::InvalidLogicalTime,
                        details: Details::StampBelow { time: stamp, bound },
                    },
                );
            }
        }
    }
    let audience = subscribers_for_attributes(federation, class, &attrs, Some(me));
    notify_subscribers_of_registration_subset(
        federation,
        conns,
        out,
        instance,
        class,
        name.as_str(),
        me,
        &audience,
    );
    let callback = reflect_attribute_values_with_time(instance, &values, tag, me, stamp);
    route_tso_or_immediate(federation, conns, out, &audience, stamp, callback);
    assert(out@ =~= old(out)@ + timed_update_outcome(
        old(federation)@,
        conns@,
        me,
        field64(*object_instance),
        value_fields(*attribute_values),
        tag@,
        field64(*time),
    ).sent);
    reply(Service::UpdateAttributeValuesWithTime)
}

/// Why an interaction may not be sent.
pub open spec fn interaction_fault(
    fed: FederationView,
    me: u32,
    class: Option<u32>,
    fields: Seq<HandleValueField>,
) -> Option<ExceptionView> {
    match class {
        None => Some(bare(HlaException::InvalidInteractionClassHandle)),
        Some(c) => if !fed.fom.defines_interaction_class(c) {
            Some(bare(HlaException::InteractionClassNotDefined))
        } else if !fed.federates.contains_key(me) {
            Some(bare(HlaException::FederateNotExecutionMember))
        } else if !fed.federates[me].pub_sub.published_interactions.contains(c) {
            Some(bare(HlaException::InteractionClassNotPublished))
        } else {
            value_fault(fields, HlaException::InvalidParameterHandle)
        },
    }
}

fn check_interaction(
    federation: &Federation,
    me: FederateHandle,
    interaction_class: &Option<Vec<u8>>,
    parameter_values: &Option<Vec<HandleValueField>>,
) -> (r: Result<(u32, Table<u32, Vec<u8>>), ExceptionData>)
    ensures
        ({
            let fault = interaction_fault(
                federation@,
                me,
                field32(*interaction_class),
                value_fields(*parameter_values),
            );
            match r {
                Ok(p) => fault is None && field32(*interaction_class) == Some(p.0) && p.1@
                    == values_in(value_fields(*parameter_values)),
                Err(e) => fault == Some(e@),
            }
        }),
{
    let class = match read_field32(interaction_class) {
        Some(c) => c,
        None => {
            return Err(
                bare_exception(HlaException::InvalidInteractionClassHandle),
            );
        },
    };
    if federation.fom.interaction_class_def(class).is_none() {
        return Err(bare_exception(HlaException::InteractionClassNotDefined));
    }
    match federation.federates.get(me) {
        None => {
            return Err(bare_exception(HlaException::FederateNotExecutionMember));
        },
        Some(fs) => {
            if !fs.pub_sub.published_interactions.contains(class) {
                return Err(
                    bare_exception(HlaException::InteractionClassNotPublished),
                );
            }
        },
    }
    match decode_parameter_value_map(parameter_values) {
        Ok(v) => Ok((class, v)),
        Err(e) => Err(e),
    }
}

/// What sending an interaction does.
pub open spec fn interaction_outcome(
    fed: FederationView,
    conns: Map<u64, u64>,
    me: u32,
    class: Option<u32>,
    fields: Seq<HandleValueField>,
    tag: Seq<u8>,
) -> Outcome {
    match interaction_fault(fed, me, class, fields) {
        Some(e) => refusal(fed, e),
        None => Outcome {
            fed,
            reply: done(Service::SendInteraction),
            sent: deliveries(
                conns,
                fed,
                interaction_audience(fed, class->0, Some(me)),
                receive_interaction_view(class->0, values_in(fields), tag, me),
            ),
        },
    }
}

/// Sends an interaction.
pub fn send_interaction(
    federation: &Federation,
    conns: &Connections,
    out: &mut Outbox,
    me: FederateHandle,
    interaction_class: &Option<Vec<u8>>,
    parameter_values: &Option<Vec<HandleValueField>>,
    tag: &[u8],
) -> (r: CallResponse)
    ensures
        ({
            let o = interaction_outcome(
                federation@,
                conns@,
                me,
                field32(*interaction_class),
                value_fields(*parameter_values),
                tag@,
            );
            &&& o.fed == federation@
            &&& r@ == o.reply
            &&& final(out)@ == old(out)@ + o.sent
        }),
{
    assert(old(out)@ + Seq::empty() =~= old(out)@);
    let (class, params) = match check_interaction(
        federation,
        me,
        interaction_class,
        parameter_values,
    ) {
        Ok(p) => p,
        Err(e) => return refuse(e),
    };
    let audience = subscribers_for_interaction(federation, class, Some(me));
    deliver(out, conns, federation, &audience, receive_interaction(class, &params, tag, me));
    reply(Service::SendInteraction)
}

/// What sending an interaction at a time does.
pub open spec fn timed_interaction_outcome(
    fed: FederationView,
    conns: Map<u64, u64>,
    me: u32,
    class: Option<u32>,
    fields: Seq<HandleValueField>,
    tag: Seq<u8>,
    stamp: Option<u64>,
) -> Outcome {
    match interaction_fault(fed, me, class, fields) {
        Some(e) => refusal(fed, e),
        None => match stamp {
            None => refusal(fed, bare(HlaException::InvalidLogicalTime)),
            Some(time) => {
                let audience = interaction_audience(fed, class->0, Some(me));
                let callback = receive_interaction_with_time_view(
                    class->0,
                    values_in(fields),
                    tag,
                    me,
                    time,
                );
                Outcome {
                    fed: with_queued(fed, audience, time, callback),
                    reply: done(Service::SendInteractionWithTime),
                    sent: deliveries(conns, fed, immediate(fed, audience, time), callback),
                }
            },
        },
    }
}

/// Sends an interaction at a time.
pub fn send_interaction_with_time(
    federation: &mut Federation,
    conns: &Connections,
    out: &mut Outbox,
    me: FederateHandle,
    interaction_class: &Option<Vec<u8>>,
    parameter_values: &Option<Vec<HandleValueField>>,
    tag: &[u8],
    time: &Option<Vec<u8>>,
) -> (r: CallResponse)
    requires
        old(federation).wf(),
    ensures
        final(federation).wf(),
        ({
            let o = timed_interaction_outcome(
                old(federation)@,
                conns@,
                me,
                field32(*interaction_class),
                value_fields(*parameter_values),
                tag@,
                field64(*time),
            );
            &&& final(federation)@ == o.fed
            &&& r@ == o.reply
            &&& final(out)@ == old(out)@ + o.sent
        }),
{
    assert(old(out)@ + Seq::empty() =~= old(out)@);
    let (class, params) = match check_interaction(
        federation,
        me,
        interaction_class,
        parameter_values,
    ) {
        Ok(p) => p,
        Err(e) => return refuse(e),
    };
    let stamp = match read_field64(time) {
        Some(t) => t,
        None => return refuse_bare(HlaException::InvalidLogicalTime),
    };
    let audience = subscribers_for_interaction(federation, class, Some(me));
    let callback = receive_interaction_with_time(class, &params, tag, me, stamp);
    route_tso_or_immediate(federation, conns, out, &audience, stamp, callback);
    reply(Service::SendInteractionWithTime)
}

/// The federates other than the deleting one that know an instance.
pub open spec fn knowers(fed: FederationView, instance: u64, me: u32) -> Set<u32> {
    Set::new(
        |f: u32|
            f != me && fed.federates.contains_key(f)
                && fed.federates[f].pub_sub.discovered_instances.contains(instance),
    )
}

/// The federation without an instance, which everybody but the deleting federate
/// forgets.
pub open spec fn without_instance(fed: FederationView, instance: u64, me: u32) -> FederationView {
    FederationView {
        object_instances: fed.object_instances.remove(instance),
        federates: Map::new(
            |f: u32| fed.federates.contains_key(f),
            |f: u32|
                if f == me {
                    fed.federates[f]
                } else {
                    forgetful(fed.federates[f], instance)
                },
        ),
        ..fed
    }
}

/// A federate that does not know an instance.
pub open spec fn forgetful(fs: FederateView, instance: u64) -> FederateView {
    FederateView {
        pub_sub: PubSubView {
            discovered_instances: fs.pub_sub.discovered_instances.remove(instance),
            ..fs.pub_sub
        },
        ..fs
    }
}

/// Why an instance may not be deleted.
pub open spec fn deletion_fault(
    fed: FederationView,
    me: u32,
    instance: u64,
) -> Option<ExceptionView> {
    if !fed.object_instances.contains_key(instance) {
        Some(bare(HlaException::ObjectInstanceNotKnown))
    } else if fed.object_instances[instance].registrar != me {
        Some(bare(HlaException::DeletePrivilegeNotHeld))
    } else {
        None
    }
}

/// Takes an instance out of the federation, and lets everybody but the deleting
/// federate forget it.
fn forget_instance(
    federation: &mut Federation,
    me: FederateHandle,
    instance: ObjectInstanceHandle,
) -> (r: Result<KeySet<u32>, HlaException>)
    requires
        old(federation).wf(),
    ensures
        final(federation).wf(),
        match r {
            Ok(s) => {
                &&& deletion_fault(old(federation)@, me, instance) is None
                &&& s@ == knowers(old(federation)@, instance, me)
                &&& final(federation)@ == without_instance(old(federation)@, instance, me)
            },
            Err(kind) => {
                &&& deletion_fault(old(federation)@, me, instance) == Some(bare(kind))
                &&& final(federation)@ == old(federation)@
            },
        },
{
    broadcast use lemma_put_back;

    let ghost fed = old(federation)@;
    match federation.object_instances.get(instance) {
        None => return Err(HlaException::ObjectInstanceNotKnown),
        Some(inst) => {
            if inst.registrar != me {
                return Err(HlaException::DeletePrivilegeNotHeld);
            }
        },
    }
    federation.object_instances.remove(instance);
    let keys = federation.federates.keys();
    proof {
        lemma_ascending(fed.federates.dom());
    }
    let mut to_notify: KeySet<u32> = KeySet::new();
    let mut i: usize = 0;
    while i < keys.len()
        invariant
            i <= keys@.len(),
            fed == old(federation)@,
            fed.wf(),
            keys@.no_duplicates(),
            federation.wf(),
            forall|f: u32| #[trigger] keys@.contains(f) <==> fed.federates.contains_key(f),
            federation@ == (FederationView {
                object_instances: fed.object_instances.remove(instance),
                federates: federation@.federates,
                ..fed
            }),
            federation@.federates.dom() == fed.federates.dom(),
            forall|k: int|
                #![trigger keys@[k]]
                0 <= k < keys@.len() ==> federation@.federates[keys@[k]] == (if k < i && keys@[k]
                    != me {
                    forgetful(fed.federates[keys@[k]], instance)
                } else {
                    fed.federates[keys@[k]]
                }),
            forall|f: u32| #[trigger]
                to_notify@.contains(f) <==> knowers(fed, instance, me).contains(f) && exists|k: int|
                    0 <= k < i && keys@[k] == f,
        decreases keys@.len() - i,
    {
        let f = keys[i];
        let ghost cur = federation@.federates;
        proof {
            assert(keys@.contains(keys@[i as int]));
            assert(cur[keys@[i as int]] == fed.federates[f]);
            assert(cur.dom().contains(f));
        }
        if f != me {
            if let Some(mut fs) = federation.federates.remove(f) {
                if fs.pub_sub.discovered_instances.remove(instance) {
                    to_notify.insert(f);
                }
                assert(fs@ =~= forgetful(fed.federates[f], instance));
                federation.federates.insert(f, fs);
            }
        }
        proof {
            assert(federation@.federates.dom() =~= fed.federates.dom());
            assert forall|k: int|
                #![trigger keys@[k]]
                0 <= k < keys@.len() implies federation@.federates[keys@[k]] == (if k < i + 1
                && keys@[k] != me {
                forgetful(fed.federates[keys@[k]], instance)
            } else {
                fed.federates[keys@[k]]
            }) by {
                if k != i {
                    assert(keys@[k] != keys@[i as int]);
                }
            }
            assert forall|g: u32| #[trigger]
                federation@.federates.contains_key(g) implies federation@.federates[g].handle == g
                && federation@.federates[g].wf() by {
                assert(fed.federates.dom().contains(g));
                assert(keys@.contains(g));
                let k = keys@.index_of(g);
                assert(keys@[k] == g);
                assert(fed.federates.contains_key(g));
            }
        }
        i = i + 1;
    }
    proof {
        assert(to_notify@ =~= knowers(fed, instance, me)) by {
            assert forall|f: u32| knowers(fed, instance, me).contains(
                f,
            ) implies to_notify@.contains(f) by {
                assert(keys@.contains(f));
                let k = keys@.index_of(f);
                assert(keys@[k] == f);
            }
        }
        assert(federation@.federates =~= without_instance(fed, instance, me).federates) by {
            assert forall|f: u32| fed.federates.contains_key(f) implies federation@.federates[f]
                == without_instance(fed, instance, me).federates[f] by {
                assert(keys@.contains(f));
                let k = keys@.index_of(f);
                assert(keys@[k] == f);
            }
        }
    }
    Ok(to_notify)
}

/// What deleting an instance does.
pub open spec fn delete_outcome(
    fed: FederationView,
    conns: Map<u64, u64>,
    me: u32,
    instance: Option<u64>,
    tag: Seq<u8>,
) -> Outcome {
    match instance {
        None => refusal(fed, bare(HlaException::ObjectInstanceNotKnown)),
        Some(o) => match deletion_fault(fed, me, o) {
            Some(e) => refusal(fed, e),
            None => {
                let next = without_instance(fed, o, me);
                Outcome {
                    fed: next,
                    reply: done(Service::DeleteObjectInstance),
                    sent: deliveries(
                        conns,
                        next,
                        knowers(fed, o, me),
                        remove_object_instance_view(o, tag, me),
                    ),
                }
            },
        },
    }
}

/// Deletes an instance.
pub fn delete_object_instance(
    federation: &mut Federation,
    conns: &Connections,
    out: &mut Outbox,
    me: FederateHandle,
    object_instance: &Option<Vec<u8>>,
    tag: &[u8],
) -> (r: CallResponse)
    requires
        old(federation).wf(),
    ensures
        final(federation).wf(),
        ({
            let o = delete_outcome(
                old(federation)@,
                conns@,
                me,
                field64(*object_instance),
                tag@,
            );
            &&& final(federation)@ == o.fed
            &&& r@ == o.reply
            &&& final(out)@ == old(out)@ + o.sent
        }),
{
    assert(old(out)@ + Seq::empty() =~= old(out)@);
    let instance = match read_field64(object_instance) {
        Some(h) => h,
        None => return refuse_bare(HlaException::ObjectInstanceNotKnown),
    };
    let to_notify = match forget_instance(federation, me, instance) {
        Ok(s) => s,
        Err(kind) => return refuse_bare(kind),
    };
    deliver(out, conns, federation, &to_notify, remove_object_instance(instance, tag, me));
    reply(Service::DeleteObjectInstance)
}

/// What deleting an instance at a time does.
pub open spec fn timed_delete_outcome(
    fed: FederationView,
    conns: Map<u64, u64>,
    me: u32,
    instance: Option<u64>,
    tag: Seq<u8>,
    stamp: Option<u64>,
) -> Outcome {
    match instance {
        None => refusal(fed, bare(HlaException::ObjectInstanceNotKnown)),
        Some(o) => match stamp {
            None => refusal(fed, bare(HlaException::InvalidLogicalTime)),
            Some(time) => match deletion_fault(fed, me, o) {
                Some(e) => refusal(fed, e),
                None => {
                    let next = without_instance(fed, o, me);
                    let audience = knowers(fed, o, me);
                    let callback = remove_object_instance_with_time_view(o, tag, me, time);
                    Outcome {
                        fed: with_queued(next, audience, time, callback),
                        reply: done(Service::DeleteObjectInstanceWithTime),
                        sent: deliveries(conns, next, immediate(next, audience, time), callback),
                    }
                },
            },
        },
    }
}

/// Deletes an instance at a time.
pub fn delete_object_instance_with_time(
    federation: &mut Federation,
    conns: &Connections,
    out: &mut Outbox,
    me: FederateHandle,
    object_instance: &Option<Vec<u8>>,
    tag: &[u8],
    time: &Option<Vec<u8>>,
) -> (r: CallResponse)
    requires
        old(federation).wf(),
    ensures
        final(federation).wf(),
        ({
            let o = timed_delete_outcome(
                old(federation)@,
                conns@,
                me,
                field64(*object_instance),
                tag@,
                field64(*time),
            );
            &&& final(federation)@ == o.fed
            &&& r@ == o.reply
            &&& final(out)@ == old(out)@ + o.sent
        }),
{
    assert(old(out)@ + Seq::empty() =~= old(out)@);
    let instance = match read_field64(object_instance) {
        Some(h) => h,
        None => return refuse_bare(HlaException::ObjectInstanceNotKnown),
    };
    let stamp = match read_field64(time) {
        Some(t) => t,
        None => return refuse_bare(HlaException::InvalidLogicalTime),
    };
    let to_notify = match forget_instance(federation, me, instance) {
        Ok(s) => s,
        Err(kind) => return refuse_bare(kind),
    };
    let callback = remove_object_instance_with_time(instance, tag, me, stamp);
    route_tso_or_immediate(federation, conns, out, &to_notify, stamp, callback);
    reply(Service::DeleteObjectInstanceWithTime)
}

/// Whoever produces data does not get it back: neither updates nor interactions
/// nor the removal of an instance come to the federate that they come from.
pub proof fn producers_are_not_served_themselves(
    fed: FederationView,
    inst: InstanceView,
    attrs: Set<u32>,
    class: u32,
    instance: u64,
    me: u32,
)
    ensures
        !update_audience(fed, inst, attrs, me).contains(me),
        !attribute_audience(fed, inst.class, ascending(attrs), Some(me)).contains(me),
        !interaction_audience(fed, class, Some(me)).contains(me),
        !knowers(fed, instance, me).contains(me),
{
}

/// An update that is served sends nothing to the session of its producer, as
/// long as no two federates share a session.
pub proof fn an_update_does_not_come_back(
    fed: FederationView,
    conns: Map<u64, u64>,
    me: u32,
    instance: Option<u64>,
    fields: Seq<HandleValueField>,
    tag: Seq<u8>,
)
    requires
        fed.federates.contains_key(me),
        forall|f: u32| #[trigger]
            fed.federates.contains_key(f) && f != me ==> fed.federates[f].session_id
                != fed.federates[me].session_id,
    ensures
        ({
            let sent = update_outcome(fed, conns, me, instance, fields, tag).sent;
            forall|i: int|
                0 <= i < sent.len() ==> (#[trigger] sent[i]).target.session_id
                    != fed.federates[me].session_id
        }),
{
    let o = update_outcome(fed, conns, me, instance, fields, tag);
    if o.sent.len() > 0 {
        let h = instance->0;
        let inst = fed.object_instances[h];
        let audience = update_audience(fed, inst, values_in(fields).dom(), me);
        let next = with_awareness(fed, audience, h);
        assert forall|f: u32| #[trigger]
            next.federates.contains_key(f) && f != me implies next.federates[f].session_id
            != next.federates[me].session_id by {
            assert(fed.federates.contains_key(f));
        }
        let discover = discover_object_instance_view(
            h,
            inst.class,
            inst.name,
            me,
        );
        let reflect = reflect_attribute_values_view(h, values_in(fields), tag, me);
        deliveries_pass_others_by(
            conns,
            next,
            unaware(fed, audience, h),
            discover,
            me,
        );
        deliveries_pass_others_by(conns, next, audience, reflect, me);
        let first = deliveries(conns, next, unaware(fed, audience, h), discover);
        let second = deliveries(conns, next, audience, reflect);
        assert(o.sent == first + second);
        assert forall|i: int| 0 <= i < o.sent.len() implies (#[trigger] o.sent[i]).target.session_id
            != fed.federates[me].session_id by {
            if i < first.len() {
                assert(o.sent[i] == first[i]);
            } else {
                assert(o.sent[i] == second[i - first.len()]);
            }
        }
    }
}

/// Whoever gets values of an instance knows the instance: those who did not are
/// told of it before the values come.
pub proof fn instances_are_discovered_before_their_values(
    fed: FederationView,
    conns: Map<u64, u64>,
    me: u32,
    instance: u64,
    fields: Seq<HandleValueField>,
    tag: Seq<u8>,
    f: u32,
)
    requires
        update_outcome(fed, conns, me, Some(instance), fields, tag).reply == done(
            Service::UpdateAttributeValues,
        ),
        update_audience(
            fed,
            fed.object_instances[instance],
            values_in(fields).dom(),
            me,
        ).contains(f),
        fed.federates.contains_key(f),
    ensures
        ({
            let o = update_outcome(fed, conns, me, Some(instance), fields, tag);
            let inst = fed.object_instances[instance];
            let audience = update_audience(fed, inst, values_in(fields).dom(), me);
            &&& o.fed.federates[f].pub_sub.discovered_instances.contains(instance)
            &&& fed.federates[f].pub_sub.discovered_instances.contains(instance) || unaware(
                fed,
                audience,
                instance,
            ).contains(f)
            &&& o.sent == discoveries(fed, conns, audience, instance, inst.class, inst.name, me)
                + deliveries(
                conns,
                o.fed,
                audience,
                reflect_attribute_values_view(instance, values_in(fields), tag, me),
            )
        }),
{
}

/// A constrained federate gets no message before its time has come: the message
/// waits in its queue, and nobody misses it.
pub proof fn no_message_comes_early(
    fed: FederationView,
    recipients: Set<u32>,
    time: u64,
    callback: CallbackView,
    f: u32,
)
    requires
        fed.wf(),
        recipients.contains(f),
        fed.federates.contains_key(f),
    ensures
        ({
            let fs = fed.federates[f];
            let after = with_queued(fed, recipients, time, callback).federates[f];
            &&& fs.time.is_constrained && before(fs.time.current_time, time) <==> !immediate(
                fed,
                recipients,
                time,
            ).contains(f)
            &&& !immediate(fed, recipients, time).contains(f) ==> after.tso_queue.contains(
                TsoView { time, callback },
            ) && after.tso_queue.len() == fs.tso_queue.len() + 1
            &&& immediate(fed, recipients, time).contains(f) ==> after == fs
        }),
{
    let fs = fed.federates[f];
    if must_wait(fs, time) {
        let n = due(fs.tso_queue, time) as int;
        due_messages_come_first(fs.tso_queue, time);
        let q = fs.tso_queue.insert(n, TsoView { time, callback });
        assert(q[n] == (TsoView { time, callback }));
    }
}

/// An update that a regulating federate may send has a time stamp at or above the
/// lower bound of the federation.
pub proof fn regulated_updates_keep_to_the_bound(
    fed: FederationView,
    conns: Map<u64, u64>,
    me: u32,
    instance: Option<u64>,
    fields: Seq<HandleValueField>,
    tag: Seq<u8>,
    time: u64,
)
    requires
        fed.wf(),
        fed.federates.contains_key(me),
        fed.federates[me].time.is_regulating,
        !is_nan(time),
        timed_update_outcome(fed, conns, me, instance, fields, tag, Some(time)).reply == done(
            Service::UpdateAttributeValuesWithTime,
        ),
    ensures
        not_after(lower_bound(fed), time),
{
    lower_bound_is_least_horizon(fed);
    let h = horizon(fed.federates[me]);
    plus_is_a_number(
        fed.federates[me].time.current_time,
        fed.federates[me].time.lookahead,
    );
    assert(not_after(lower_bound(fed), h));
    assert(!before(time, h));
}

/// What is written is what is read: an update that is served goes, with its values
/// and its tag, to every connected federate that subscribes to one of the
/// attributes and whose regions it meets.
pub proof fn an_update_reaches_its_subscribers(
    fed: FederationView,
    conns: Map<u64, u64>,
    me: u32,
    instance: u64,
    fields: Seq<HandleValueField>,
    tag: Seq<u8>,
    f: u32,
    attr: u32,
)
    requires
        update_outcome(fed, conns, me, Some(instance), fields, tag).reply == done(
            Service::UpdateAttributeValues,
        ),
        f != me,
        connection_of(conns, fed.federates, f) is Some,
        values_in(fields).contains_key(attr),
        attribute_audience(
            fed,
            fed.object_instances[instance].class,
            ascending(values_in(fields).dom()),
            Some(me),
        ).contains(f),
        concerns(fed, f, fed.object_instances[instance], attr),
    ensures
        update_outcome(fed, conns, me, Some(instance), fields, tag).sent.contains(
            OutboundView {
                target: connection_of(conns, fed.federates, f)->0,
                callback: reflect_attribute_values_view(instance, values_in(fields), tag, me),
            },
        ),
{
    let o = update_outcome(fed, conns, me, Some(instance), fields, tag);
    let inst = fed.object_instances[instance];
    let values = values_in(fields);
    let audience = update_audience(fed, inst, values.dom(), me);
    assert(values.dom().contains(attr));
    assert(audience.contains(f));
    let callback = reflect_attribute_values_view(instance, values, tag, me);
    let first = discoveries(fed, conns, audience, instance, inst.class, inst.name, me);
    let second = deliveries(conns, o.fed, audience, callback);
    assert(connection_of(conns, o.fed.federates, f) == connection_of(conns, fed.federates, f));
    deliveries_reach_exactly_the_members(conns, o.fed, audience, callback);
    let item = OutboundView { target: connection_of(conns, fed.federates, f)->0, callback };
    assert(second.contains(item));
    let k = second.index_of(item);
    assert(o.sent == first + second);
    assert(o.sent[first.len() + k] == item);
}

/// An interaction that is served goes, with its parameters and its tag, to every
/// connected subscriber of its class or of an ancestor.
pub proof fn an_interaction_reaches_its_subscribers(
    fed: FederationView,
    conns: Map<u64, u64>,
    me: u32,
    class: u32,
    fields: Seq<HandleValueField>,
    tag: Seq<u8>,
    f: u32,
)
    requires
        interaction_fault(fed, me, Some(class), fields) is None,
        connection_of(conns, fed.federates, f) is Some,
        interaction_audience(fed, class, Some(me)).contains(f),
    ensures
        interaction_outcome(fed, conns, me, Some(class), fields, tag).sent.contains(
            OutboundView {
                target: connection_of(conns, fed.federates, f)->0,
                callback: receive_interaction_view(class, values_in(fields), tag, me),
            },
        ),
{
    deliveries_reach_exactly_the_members(
        conns,
        fed,
        interaction_audience(fed, class, Some(me)),
        receive_interaction_view(class, values_in(fields), tag, me),
    );
}

/// Whoever knows a deleted instance, and is connected, is told of its removal; and
/// nobody knows it afterwards but the federate that deleted it.
pub proof fn a_removal_reaches_those_who_know(
    fed: FederationView,
    conns: Map<u64, u64>,
    me: u32,
    instance: u64,
    tag: Seq<u8>,
    f: u32,
)
    requires
        deletion_fault(fed, me, instance) is None,
        f != me,
        fed.federates.contains_key(f),
    ensures
        ({
            let o = delete_outcome(fed, conns, me, Some(instance), tag);
            let known = fed.federates[f].pub_sub.discovered_instances.contains(instance);
            &&& known && connection_of(conns, fed.federates, f) is Some ==> o.sent.contains(
                OutboundView {
                    target: connection_of(conns, fed.federates, f)->0,
                    callback: remove_object_instance_view(instance, tag, me),
                },
            )
            &&& !o.fed.federates[f].pub_sub.discovered_instances.contains(instance)
            &&& !o.fed.object_instances.contains_key(instance)
        }),
{
    let next = without_instance(fed, instance, me);
    assert(connection_of(conns, next.federates, f) == connection_of(conns, fed.federates, f));
    deliveries_reach_exactly_the_members(
        conns,
        next,
        knowers(fed, instance, me),
        remove_object_instance_view(instance, tag, me),
    );
}

} // verus!

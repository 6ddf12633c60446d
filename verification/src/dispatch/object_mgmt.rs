//! Registration of object instances.

use crate::connections::Connections;
use crate::dispatch::instance_lookup::{
    instance_handle_reply, instance_name_reply, instances_named,
};
use crate::exception::{
    bare, bare_exception, exception_variant, raised, ExceptionData, ExceptionView, HlaException,
};
use crate::federation::{
    lemma_put_back, FederateView, Federation, FederationView, InstanceView, ObjectInstance,
    PubSubView,
};
use crate::fom::chain;
use crate::handles::{
    bytes_of_u64, field32, read_field32, FederateHandle, ObjectClassHandle, ObjectInstanceHandle,
};
use crate::messages::{answered, PayloadView, Service};
use crate::routing::{
    connection_of, deliver, deliveries, deliveries_reach_exactly_the_members,
    discover_object_instance, discover_object_instance_view, OutboundView, Outbox,
};
use crate::tables::{ascending, lemma_ascending, KeySet, Table};
use crate::text::{copy_text, decimal, decimal_of, joined, same_text};
use vstd::prelude::*;

verus! {

/// The number after `n`; the last one is followed by zero.
pub open spec fn next_number(n: u64) -> u64 {
    if n == u64::MAX {
        0
    } else {
        (n + 1) as u64
    }
}

/// The number after `n`; the last one is followed by zero.
pub fn following(n: u64) -> (r: u64)
    ensures
        r == next_number(n),
{
    if n == u64::MAX {
        0
    } else {
        n + 1
    }
}

/// Those of the candidates who do not know an instance yet.
pub open spec fn unaware(fed: FederationView, candidates: Set<u32>, instance: u64) -> Set<u32> {
    Set::new(
        |f: u32|
            candidates.contains(f) && fed.federates.contains_key(f)
                && !fed.federates[f].pub_sub.discovered_instances.contains(instance),
    )
}

/// A federate that knows an instance.
pub open spec fn aware(fs: FederateView, instance: u64) -> FederateView {
    FederateView {
        pub_sub: PubSubView {
            discovered_instances: fs.pub_sub.discovered_instances.insert(instance),
            ..fs.pub_sub
        },
        ..fs
    }
}

/// The federation after the candidates have learnt of an instance.
pub open spec fn with_awareness(
    fed: FederationView,
    candidates: Set<u32>,
    instance: u64,
) -> FederationView {
    FederationView {
        federates: Map::new(
            |f: u32| fed.federates.contains_key(f),
            |f: u32|
                if candidates.contains(f) {
                    aware(fed.federates[f], instance)
                } else {
                    fed.federates[f]
                },
        ),
        ..fed
    }
}

/// The discoveries that go to the candidates who do not know an instance yet.
pub open spec fn discoveries(
    fed: FederationView,
    conns: Map<u64, u64>,
    candidates: Set<u32>,
    instance: u64,
    class: u32,
    name: Seq<char>,
    producer: u32,
) -> Seq<OutboundView> {
    deliveries(
        conns,
        with_awareness(fed, candidates, instance),
        unaware(fed, candidates, instance),
        discover_object_instance_view(instance, class, name, producer),
    )
}

/// Lets the candidates know of an instance, and tells those of it who did not
/// know it yet.
pub fn notify_subscribers_of_registration_subset(
    federation: &mut Federation,
    conns: &Connections,
    out: &mut Outbox,
    instance: ObjectInstanceHandle,
    class: ObjectClassHandle,
    name: &str,
    producer: FederateHandle,
    candidates: &KeySet<FederateHandle>,
)
    requires
        old(federation).wf(),
    ensures
        final(federation).wf(),
        final(federation)@ == with_awareness(old(federation)@, candidates@, instance),
        final(out)@ == old(out)@ + discoveries(
            old(federation)@,
            conns@,
            candidates@,
            instance,
            class,
            name@,
            producer,
        ),
{
    broadcast use lemma_put_back;

    let ghost fed = old(federation)@;
    let members = candidates.members();
    proof {
        lemma_ascending(candidates@);
    }
    let mut to_notify: KeySet<u32> = KeySet::new();
    let mut i: usize = 0;
    proof {
        let none = members@.take(0).to_set();
        assert(with_awareness(fed, none, instance).federates =~= fed.federates);
        assert(with_awareness(fed, none, instance) =~= fed);
        assert(unaware(fed, none, instance) =~= Set::empty());
    }
    while i < members.len()
        invariant
            i <= members@.len(),
            fed == old(federation)@,
            fed.wf(),
            members@.no_duplicates(),
            federation.wf(),
            federation@ == with_awareness(fed, members@.take(i as int).to_set(), instance),
            to_notify@ == unaware(fed, members@.take(i as int).to_set(), instance),
        decreases members@.len() - i,
    {
        let f = members[i];
        let ghost seen = members@.take(i as int);
        let ghost seen1 = members@.take(i + 1);
        proof {
            assert(seen1 =~= seen.push(f));
            assert(!seen.contains(f)) by {
                if seen.contains(f) {
                    let k = seen.index_of(f);
                    assert(members@[k] == members@[i as int]);
                }
            }
            assert forall|g: u32| seen1.to_set().contains(g) <==> seen.to_set().contains(g) || g
                == f by {
                broadcast use vstd::seq_lib::group_seq_properties;
            }
        }
        if let Some(mut fs) = federation.federates.remove(f) {
            assert(fs@ == fed.federates[f]);
            if fs.pub_sub.discovered_instances.insert(instance) {
                to_notify.insert(f);
            }
            assert(fs@ =~= aware(fed.federates[f], instance));
            federation.federates.insert(f, fs);
        }
        proof {
            assert(federation@.federates =~= with_awareness(
                fed,
                seen1.to_set(),
                instance,
            ).federates);
            assert(to_notify@ =~= unaware(fed, seen1.to_set(), instance));
            assert forall|g: u32| #[trigger]
                federation@.federates.contains_key(g) implies federation@.federates[g].handle == g
                && federation@.federates[g].wf() by {
                assert(fed.federates.contains_key(g));
            }
        }
        i = i + 1;
    }
    proof {
        assert(members@.take(i as int) =~= members@);
    }
    deliver(
        out,
        conns,
        federation,
        &to_notify,
        discover_object_instance(instance, class, name, producer),
    );
}

/// The federates other than the producer that subscribe to some attribute of one
/// of the given classes.
pub open spec fn class_audience(fed: FederationView, classes: Seq<u32>, producer: u32) -> Set<u32> {
    Set::new(
        |f: u32|
            f != producer && exists|c: u32|
                classes.contains(c) && #[trigger] fed.subscriptions.subscribes_to_class(c, f),
    )
}

/// The federates that learn of a new instance of a class: the subscribers of the
/// class and of its ancestors, without the producer.
pub open spec fn registration_audience(fed: FederationView, class: u32, producer: u32) -> Set<u32> {
    class_audience(fed, chain(fed.fom.object_classes, class), producer)
}

/// Tells every subscriber of a class or an ancestor of a new instance.
pub fn notify_subscribers_of_registration(
    federation: &mut Federation,
    conns: &Connections,
    out: &mut Outbox,
    instance: ObjectInstanceHandle,
    class: ObjectClassHandle,
    name: &str,
    producer: FederateHandle,
)
    requires
        old(federation).wf(),
    ensures
        final(federation).wf(),
        ({
            let fed = old(federation)@;
            let audience = registration_audience(fed, class, producer);
            &&& final(federation)@ == with_awareness(fed, audience, instance)
            &&& final(out)@ == old(out)@ + discoveries(
                fed,
                conns@,
                audience,
                instance,
                class,
                name@,
                producer,
            )
        }),
{
    let classes = federation.fom.inheritance_chain(class);
    let ghost fed = federation@;
    let mut candidates: KeySet<u32> = KeySet::new();
    let mut i: usize = 0;
    while i < classes.len()
        invariant
            i <= classes@.len(),
            *federation == *old(federation),
            federation.wf(),
            fed == federation@,
            forall|f: u32| #[trigger]
                candidates@.contains(f) <==> exists|k: int|
                    0 <= k < i && fed.subscriptions.subscribes_to_class(#[trigger] classes@[k], f),
        decreases classes@.len() - i,
    {
        let found = federation.subscriptions.subscribers_of_class(classes[i]);
        let ghost before = candidates@;
        candidates.extend(&found);
        assert forall|f: u32| #[trigger] candidates@.contains(f) <==> exists|k: int|
            0 <= k < i + 1 && fed.subscriptions.subscribes_to_class(#[trigger] classes@[k], f) by {
            if before.contains(f) {
                let k = choose|k: int|
                    0 <= k < i && fed.subscriptions.subscribes_to_class(#[trigger] classes@[k], f);
                assert(0 <= k < i + 1 && fed.subscriptions.subscribes_to_class(classes@[k], f));
            }
            if found@.contains(f) {
                assert(fed.subscriptions.subscribes_to_class(classes@[i as int], f));
            }
        }
        i = i + 1;
    }
    candidates.remove(producer);
    proof {
        let audience = registration_audience(fed, class, producer);
        assert forall|f: u32| candidates@.contains(f) <==> audience.contains(f) by {
            if audience.contains(f) {
                let c = choose|c: u32|
                    classes@.contains(c) && #[trigger] fed.subscriptions.subscribes_to_class(c, f);
                let k = classes@.index_of(c);
                assert(fed.subscriptions.subscribes_to_class(classes@[k], f));
            }
            if candidates@.contains(f) {
                let k = choose|k: int|
                    0 <= k < i && fed.subscriptions.subscribes_to_class(#[trigger] classes@[k], f);
                assert(classes@.contains(classes@[k]));
                assert(fed.subscriptions.subscribes_to_class(classes@[k], f));
            }
        }
        assert(candidates@ =~= audience);
    }
    notify_subscribers_of_registration_subset(
        federation,
        conns,
        out,
        instance,
        class,
        name,
        producer,
        &candidates,
    );
}

/// Whether an instance bears a name.
pub open spec fn instance_name_taken(fed: FederationView, name: Seq<char>) -> bool {
    exists|o: u64| #[trigger]
        fed.object_instances.contains_key(o) && fed.object_instances[o].name == name
}

fn is_instance_name_taken(federation: &Federation, name: &str) -> (r: bool)
    ensures
        r == instance_name_taken(federation@, name@),
{
    let keys = federation.object_instances.keys();
    let ghost instances = federation@.object_instances;
    proof {
        lemma_ascending(instances.dom());
    }
    let mut i: usize = 0;
    while i < keys.len()
        invariant
            i <= keys@.len(),
            instances == federation@.object_instances,
            forall|o: u64| #[trigger] keys@.contains(o) <==> instances.contains_key(o),
            forall|k: int| 0 <= k < i ==> instances[#[trigger] keys@[k]].name != name@,
        decreases keys@.len() - i,
    {
        assert(keys@.contains(keys@[i as int]));
        if let Some(inst) = federation.object_instances.get(keys[i]) {
            if same_text(inst.name.as_str(), name) {
                assert(instances.contains_key(keys@[i as int]));
                return true;
            }
        }
        i = i + 1;
    }
    proof {
        if instance_name_taken(federation@, name@) {
            let o = choose|o: u64| #[trigger]
                instances.contains_key(o) && instances[o].name == name@;
            assert(keys@.contains(o));
            let k = keys@.index_of(o);
            assert(keys@[k] == o);
        }
    }
    false
}

/// What a registration does: the federation afterwards, the handle or the
/// exception, and the callbacks that are sent.
pub struct Registration {
    pub fed: FederationView,
    pub result: Result<u64, ExceptionView>,
    pub sent: Seq<OutboundView>,
}

/// A registration that is refused.
pub open spec fn not_registered(fed: FederationView, e: ExceptionView) -> Registration {
    Registration { fed, result: Err(e), sent: Seq::empty() }
}

/// The owners of a new instance's attributes: the registrar owns those that it
/// publishes.
pub open spec fn initial_owners(published: Set<u32>, me: u32) -> Map<u32, u32> {
    Map::new(|a: u32| published.contains(a), |a: u32| me)
}

/// What registering an instance does. Without a requested name the instance is
/// named after its number.
pub open spec fn registration(
    fed: FederationView,
    conns: Map<u64, u64>,
    me: u32,
    class: Option<u32>,
    requested_name: Option<Seq<char>>,
) -> Registration {
    match class {
        None => not_registered(fed, bare(HlaException::InvalidObjectClassHandle)),
        Some(c) => if !fed.fom.defines_object_class(c) {
            not_registered(fed, bare(HlaException::ObjectClassNotDefined))
        } else if !fed.federates.contains_key(me) {
            not_registered(fed, bare(HlaException::FederateNotExecutionMember))
        } else if !fed.federates[me].pub_sub.published_attrs.contains_key(c) {
            not_registered(fed, bare(HlaException::ObjectClassNotPublished))
        } else {
            let handle = fed.next_object_id;
            let numbered = FederationView {
                next_object_id: next_number(handle),
                renumbered: fed.renumbered || handle == u64::MAX,
                ..fed
            };
            match requested_name {
                Some(n) if instance_name_taken(fed, n) => not_registered(
                    numbered,
                    raised(HlaException::ObjectInstanceNameInUse, n),
                ),
                _ => {
                    let name = match requested_name {
                        Some(n) => n,
                        None => "HLA"@ + decimal_of(handle as nat),
                    };
                    let inst = InstanceView {
                        handle,
                        class: c,
                        name,
                        registrar: me,
                        attribute_owners: initial_owners(
                            fed.federates[me].pub_sub.published_attrs[c],
                            me,
                        ),
                        attribute_regions: Map::empty(),
                    };
                    let registered = FederationView {
                        object_instances: fed.object_instances.insert(handle, inst),
                        ..numbered
                    };
                    let audience = registration_audience(fed, c, me);
                    Registration {
                        fed: with_awareness(registered, audience, handle),
                        result: Ok(handle),
                        sent: discoveries(registered, conns, audience, handle, c, name, me),
                    }
                },
            }
        },
    }
}

fn owners_of(published: &KeySet<u32>, me: FederateHandle) -> (r: Table<u32, u32>)
    ensures
        r@ == initial_owners(published@, me),
{
    let members = published.members();
    proof {
        lemma_ascending(published@);
    }
    let mut owners: Table<u32, u32> = Table::new();
    let mut i: usize = 0;
    while i < members.len()
        invariant
            i <= members@.len(),
            forall|a: u32| #[trigger]
                owners@.contains_key(a) <==> exists|k: int| 0 <= k < i && members@[k] == a,
            forall|a: u32| #[trigger] owners@.contains_key(a) ==> owners@[a] == me,
        decreases members@.len() - i,
    {
        owners.insert(members[i], me);
        i = i + 1;
    }
    assert(owners@ =~= initial_owners(published@, me)) by {
        assert forall|a: u32| owners@.contains_key(a) <==> published@.contains(a) by {
            if published@.contains(a) {
                assert(members@.contains(a));
                let k = members@.index_of(a);
                assert(members@[k] == a);
            }
            if owners@.contains_key(a) {
                assert(members@.contains(a));
            }
        }
    }
    owners
}

/// Registers an instance of a class.
pub fn register_object_instance(
    federation: &mut Federation,
    conns: &Connections,
    out: &mut Outbox,
    me: FederateHandle,
    object_class: &Option<Vec<u8>>,
    requested_name: Option<String>,
) -> (r: Result<ObjectInstanceHandle, ExceptionData>)
    requires
        old(federation).wf(),
    ensures
        final(federation).wf(),
        ({
            let o = registration(
                old(federation)@,
                conns@,
                me,
                field32(*object_class),
                match requested_name {
                    Some(n) => Some(n@),
                    None => None,
                },
            );
            &&& final(federation)@ == o.fed
            &&& final(out)@ == old(out)@ + o.sent
            &&& match r {
                Ok(h) => o.result == Ok::<u64, ExceptionView>(h),
                Err(e) => o.result == Err::<u64, ExceptionView>(e@),
            }
        }),
{
    assert(old(out)@ + Seq::empty() =~= old(out)@);
    let ghost fed = federation@;
    let class = match read_field32(object_class) {
        Some(c) => c,
        None => return Err(bare_exception(HlaException::InvalidObjectClassHandle)),
    };
    if federation.fom.object_class_def(class).is_none() {
        return Err(bare_exception(HlaException::ObjectClassNotDefined));
    }
    let attribute_owners = match federation.federates.get(me) {
        None => return Err(bare_exception(HlaException::FederateNotExecutionMember)),
        Some(fs) => match fs.pub_sub.published_attrs.get(class) {
            None => return Err(bare_exception(HlaException::ObjectClassNotPublished)),
            Some(published) => owners_of(published, me),
        },
    };
    let handle = federation.next_object_id;
    federation.next_object_id = following(handle);
    let ghost renumbered = federation.renumbered@ || handle == u64::MAX;
    federation.renumbered = Ghost(renumbered);
    let name = match requested_name {
        Some(n) => {
            if is_instance_name_taken(federation, n.as_str()) {
                assert(instance_name_taken(fed, n@)) by {
                    let o = choose|o: u64| #[trigger]
                        federation@.object_instances.contains_key(o)
                            && federation@.object_instances[o].name == n@;
                    assert(fed.object_instances.contains_key(o));
                }
                return Err(exception_variant(HlaException::ObjectInstanceNameInUse, n.as_str()));
            }
            assert(!instance_name_taken(fed, n@)) by {
                if instance_name_taken(fed, n@) {
                    let o = choose|o: u64| #[trigger]
                        fed.object_instances.contains_key(o) && fed.object_instances[o].name == n@;
                    assert(federation@.object_instances.contains_key(o));
                }
            }
            n
        },
        None => joined("HLA", decimal(handle).as_str()),
    };
    let text = copy_text(name.as_str());
    federation.object_instances.insert(
        handle,
        ObjectInstance {
            handle,
            class,
            name,
            registrar: me,
            attribute_owners,
            attribute_regions: Table::new(),
        },
    );
    assert(registration_audience(federation@, class, me) =~= registration_audience(fed, class, me));
    notify_subscribers_of_registration(
        federation,
        conns,
        out,
        handle,
        class,
        text.as_str(),
        me,
    );
    Ok(handle)
}

/// An instance that was registered under a name of its own is found again by
/// that name, and its name by its handle.
pub proof fn a_registered_instance_is_found(
    fed: FederationView,
    conns: Map<u64, u64>,
    me: u32,
    class: Option<u32>,
    name: Seq<char>,
)
    requires
        fed.fresh(),
        registration(fed, conns, me, class, Some(name)).result is Ok,
    ensures
        ({
            let r = registration(fed, conns, me, class, Some(name));
            let h = r.result->Ok_0;
            &&& instance_handle_reply(r.fed, name) == answered(
                Service::GetObjectInstanceHandle,
                PayloadView::Handle(bytes_of_u64(h)),
            )
            &&& instance_name_reply(r.fed, Some(h)) == answered(
                Service::GetObjectInstanceName,
                PayloadView::Text(name),
            )
        }),
{
    let r = registration(fed, conns, me, class, Some(name));
    let h = fed.next_object_id;
    let all = instances_named(r.fed, name);
    assert(all =~= set![h]) by {
        assert forall|o: u64| all.contains(o) <==> o == h by {
            if all.contains(o) && o != h {
                assert(fed.object_instances.contains_key(o));
                assert(instance_name_taken(fed, name));
            }
        }
    }
    lemma_ascending(all);
    assert(ascending(all).contains(ascending(all)[0]));
}

/// A new instance is discovered by everybody who is connected and subscribes to
/// its class or to one that it derives from, but for the federate that registers
/// it.
pub proof fn a_new_instance_is_discovered_by_its_subscribers(
    fed: FederationView,
    conns: Map<u64, u64>,
    me: u32,
    class: u32,
    name: Option<Seq<char>>,
    f: u32,
)
    requires
        fed.fresh(),
        registration(fed, conns, me, Some(class), name).result is Ok,
        registration_audience(fed, class, me).contains(f),
        connection_of(conns, fed.federates, f) is Some,
    ensures
        ({
            let r = registration(fed, conns, me, Some(class), name);
            let h = r.result->Ok_0;
            &&& r.fed.federates[f].pub_sub.discovered_instances.contains(h)
            &&& r.sent.contains(
                OutboundView {
                    target: connection_of(conns, fed.federates, f)->0,
                    callback: discover_object_instance_view(
                        h,
                        class,
                        r.fed.object_instances[h].name,
                        me,
                    ),
                },
            )
        }),
{
    let r = registration(fed, conns, me, Some(class), name);
    let h = fed.next_object_id;
    let audience = registration_audience(fed, class, me);
    let there = FederationView {
        object_instances: r.fed.object_instances,
        next_object_id: r.fed.next_object_id,
        renumbered: r.fed.renumbered,
        ..fed
    };
    assert(fed.federates.contains_key(f));
    assert(fed.federates[f].knows_below(h));
    assert(unaware(there, audience, h).contains(f));
    assert(connection_of(conns, r.fed.federates, f) == connection_of(conns, fed.federates, f));
    deliveries_reach_exactly_the_members(
        conns,
        r.fed,
        unaware(there, audience, h),
        discover_object_instance_view(h, class, r.fed.object_instances[h].name, me),
    );
}

/// Until the numbers run out, every registration gives out a greater handle than
/// those before it, also where one in between was refused.
pub proof fn instance_handles_grow(
    fed: FederationView,
    conns: Map<u64, u64>,
    me: u32,
    class: Option<u32>,
    name: Option<Seq<char>>,
)
    requires
        fed.next_object_id < u64::MAX,
    ensures
        ({
            let r = registration(fed, conns, me, class, name);
            &&& r.fed.next_object_id >= fed.next_object_id
            &&& r.result is Ok ==> r.result->Ok_0 == fed.next_object_id && r.fed.next_object_id
                > fed.next_object_id
        }),
{
}

/// Whoever was told of an instance is not told of it again.
pub proof fn an_instance_is_discovered_once(
    fed: FederationView,
    conns: Map<u64, u64>,
    candidates: Set<u32>,
    instance: u64,
    class: u32,
    name: Seq<char>,
    producer: u32,
)
    ensures
        discoveries(
            with_awareness(fed, candidates, instance),
            conns,
            candidates,
            instance,
            class,
            name,
            producer,
        ).len() == 0,
{
    let aware_fed = with_awareness(fed, candidates, instance);
    assert(unaware(aware_fed, candidates, instance) =~= Set::<u32>::empty());
    deliveries_reach_exactly_the_members(
        conns,
        with_awareness(aware_fed, candidates, instance),
        unaware(aware_fed, candidates, instance),
        discover_object_instance_view(instance, class, name, producer),
    );
}

} // verus!

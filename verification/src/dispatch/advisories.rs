//! Advisories that tell publishers whether anybody listens.

use crate::connections::Connections;
use crate::federation::{Federation, FederationView};
use crate::handles::{FederateHandle, InteractionClassHandle, ObjectClassHandle};
use crate::routing::{
    deliver, deliveries, start_registration_for_object_class,
    start_registration_for_object_class_view, stop_registration_for_object_class,
    stop_registration_for_object_class_view, turn_interactions_off, turn_interactions_off_view,
    turn_interactions_on, turn_interactions_on_view, Outbox,
};
use crate::tables::{lemma_ascending, KeySet};
use vstd::prelude::*;

verus! {

/// The federates that publish a class and want to hear of its subscribers.
pub open spec fn class_publishers(
    fed: FederationView,
    class: u32,
    exclude: Option<u32>,
) -> Set<u32> {
    Set::new(
        |f: u32|
            fed.federates.contains_key(f) && Some(f) != exclude
                && fed.federates[f].switches.object_class_relevance_advisory
                && fed.federates[f].pub_sub.published_attrs.contains_key(class),
    )
}

/// The federates that publish an interaction class and want to hear of its
/// subscribers.
pub open spec fn interaction_publishers(
    fed: FederationView,
    class: u32,
    exclude: Option<u32>,
) -> Set<u32> {
    Set::new(
        |f: u32|
            fed.federates.contains_key(f) && Some(f) != exclude
                && fed.federates[f].switches.interaction_relevance_advisory
                && fed.federates[f].pub_sub.published_interactions.contains(class),
    )
}

fn is_excluded(f: u32, exclude: Option<u32>) -> (r: bool)
    ensures
        r == (Some(f) == exclude),
{
    match exclude {
        Some(x) => x == f,
        None => false,
    }
}

fn find_class_publishers(
    federation: &Federation,
    class: ObjectClassHandle,
    exclude: Option<FederateHandle>,
) -> (r: KeySet<u32>)
    ensures
        r@ == class_publishers(federation@, class, exclude),
{
    let keys = federation.federates.keys();
    let ghost fed = federation@;
    proof {
        lemma_ascending(fed.federates.dom());
    }
    let mut out: KeySet<u32> = KeySet::new();
    let mut i: usize = 0;
    while i < keys.len()
        invariant
            i <= keys@.len(),
            fed == federation@,
            forall|f: u32| #[trigger] keys@.contains(f) <==> fed.federates.contains_key(f),
            forall|f: u32| #[trigger]
                out@.contains(f) <==> class_publishers(fed, class, exclude).contains(f)
                    && exists|k: int| 0 <= k < i && keys@[k] == f,
        decreases keys@.len() - i,
    {
        let f = keys[i];
        assert(keys@.contains(keys@[i as int]));
        if let Some(fs) = federation.federates.get(f) {
            if !is_excluded(f, exclude) && fs.switches.object_class_relevance_advisory
                && fs.pub_sub.published_attrs.contains_key(class) {
                out.insert(f);
            }
        }
        i = i + 1;
    }
    assert(out@ =~= class_publishers(fed, class, exclude)) by {
        assert forall|f: u32| class_publishers(fed, class, exclude).contains(f) implies out@.contains(
            f,
        ) by {
            assert(keys@.contains(f));
            let k = keys@.index_of(f);
            assert(keys@[k] == f);
        }
    }
    out
}

fn find_interaction_publishers(
    federation: &Federation,
    class: InteractionClassHandle,
    exclude: Option<FederateHandle>,
) -> (r: KeySet<u32>)
    ensures
        r@ == interaction_publishers(federation@, class, exclude),
{
    let keys = federation.federates.keys();
    let ghost fed = federation@;
    proof {
        lemma_ascending(fed.federates.dom());
    }
    let mut out: KeySet<u32> = KeySet::new();
    let mut i: usize = 0;
    while i < keys.len()
        invariant
            i <= keys@.len(),
            fed == federation@,
            forall|f: u32| #[trigger] keys@.contains(f) <==> fed.federates.contains_key(f),
            forall|f: u32| #[trigger]
                out@.contains(f) <==> interaction_publishers(fed, class, exclude).contains(f)
                    && exists|k: int| 0 <= k < i && keys@[k] == f,
        decreases keys@.len() - i,
    {
        let f = keys[i];
        assert(keys@.contains(keys@[i as int]));
        if let Some(fs) = federation.federates.get(f) {
            if !is_excluded(f, exclude) && fs.switches.interaction_relevance_advisory
                && fs.pub_sub.published_interactions.contains(class) {
                out.insert(f);
            }
        }
        i = i + 1;
    }
    assert(out@ =~= interaction_publishers(fed, class, exclude)) by {
        assert forall|f: u32| interaction_publishers(fed, class, exclude).contains(
            f,
        ) implies out@.contains(f) by {
            assert(keys@.contains(f));
            let k = keys@.index_of(f);
            assert(keys@[k] == f);
        }
    }
    out
}

/// Whether some federate subscribes to some attribute of a class.
pub fn class_has_subscribers(federation: &Federation, class: ObjectClassHandle) -> (r: bool)
    requires
        federation.wf(),
    ensures
        r == federation@.subscriptions.class_in_use(class),
{
    federation.subscriptions.class_has_subscribers(class)
}

/// Whether some federate subscribes to an interaction class.
pub fn interaction_has_subscribers(
    federation: &Federation,
    class: InteractionClassHandle,
) -> (r: bool)
    requires
        federation.wf(),
    ensures
        r == federation@.subscriptions.interaction_in_use(class),
{
    federation.subscriptions.interaction_has_subscribers(class)
}

/// Tells the other publishers of a class that somebody subscribes to it.
pub fn emit_start_registration(
    federation: &Federation,
    conns: &Connections,
    out: &mut Outbox,
    class: ObjectClassHandle,
    exclude: FederateHandle,
)
    ensures
        final(out)@ == old(out)@ + deliveries(
            conns@,
            federation@,
            class_publishers(federation@, class, Some(exclude)),
            start_registration_for_object_class_view(class),
        ),
{
    let targets = find_class_publishers(federation, class, Some(exclude));
    deliver(out, conns, federation, &targets, start_registration_for_object_class(class));
}

/// Tells the publishers of a class that nobody subscribes to it any more.
pub fn emit_stop_registration(
    federation: &Federation,
    conns: &Connections,
    out: &mut Outbox,
    class: ObjectClassHandle,
)
    ensures
        final(out)@ == old(out)@ + deliveries(
            conns@,
            federation@,
            class_publishers(federation@, class, None),
            stop_registration_for_object_class_view(class),
        ),
{
    let targets = find_class_publishers(federation, class, None);
    deliver(out, conns, federation, &targets, stop_registration_for_object_class(class));
}

/// Tells the other publishers of an interaction class that somebody subscribes
/// to it.
pub fn emit_turn_interactions_on(
    federation: &Federation,
    conns: &Connections,
    out: &mut Outbox,
    class: InteractionClassHandle,
    exclude: FederateHandle,
)
    ensures
        final(out)@ == old(out)@ + deliveries(
            conns@,
            federation@,
            interaction_publishers(federation@, class, Some(exclude)),
            turn_interactions_on_view(class),
        ),
{
    let targets = find_interaction_publishers(federation, class, Some(exclude));
    deliver(out, conns, federation, &targets, turn_interactions_on(class));
}

/// Tells the publishers of an interaction class that nobody subscribes to it any
/// more.
pub fn emit_turn_interactions_off(
    federation: &Federation,
    conns: &Connections,
    out: &mut Outbox,
    class: InteractionClassHandle,
)
    ensures
        final(out)@ == old(out)@ + deliveries(
            conns@,
            federation@,
            interaction_publishers(federation@, class, None),
            turn_interactions_off_view(class),
        ),
{
    let targets = find_interaction_publishers(federation, class, None);
    deliver(out, conns, federation, &targets, turn_interactions_off(class));
}

} // verus!

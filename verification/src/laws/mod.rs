//! What federates can rely on: the services as they see them, by what is asked,
//! what is known before and after, and what each of them is sent.

pub mod agreement;
pub mod declaration;
pub mod exchange;
pub mod federations;
pub mod lookups;
pub mod models;
pub mod numbers;
pub mod ownership;
pub mod regions;
pub mod restore;
pub mod sessions;
pub mod time;
pub mod values;

use crate::callbacks::CallbackView;
use crate::dispatch::helpers::{all_handles, handles_in, listed, Outcome};
use crate::exception::HlaException;
use crate::federation::{FederateView, FederationView};
use crate::fom::chain;
use crate::handles::{bytes_of_u32, decode_encode_u32, encode_decode_u32, handle32};
use crate::messages::{PayloadView, ResponseView, Service};
use crate::routing::{connection_of, connections_of, copies, deliveries, handle_list, OutboundView};
use crate::subscriptions::lemma_handles_finite;
use crate::tables::{ascending, lemma_ascending};
use vstd::prelude::*;

verus! {

/// What a session is sent, in its order.
pub open spec fn received(sent: Seq<OutboundView>, session: u64) -> Seq<CallbackView>
    decreases sent.len(),
{
    if sent.len() == 0 {
        Seq::empty()
    } else {
        let rest = received(sent.drop_last(), session);
        if sent.last().target.session_id == session {
            rest.push(sent.last().callback)
        } else {
            rest
        }
    }
}

/// Whether every federate has a session of its own.
pub open spec fn own_sessions(federates: Map<u32, FederateView>) -> bool {
    forall|f: u32, g: u32| #[trigger]
        federates.contains_key(f) && #[trigger] federates.contains_key(g) && f != g
            ==> federates[f].session_id != federates[g].session_id
}

/// Whether a session is that of a federate.
pub open spec fn is_member(federates: Map<u32, FederateView>, session: u64) -> bool {
    exists|f: u32| #[trigger] federates.contains_key(f) && federates[f].session_id == session
}

/// Whether everything that is sent goes to the present connection of its session.
pub open spec fn well_addressed(sent: Seq<OutboundView>, conns: Map<u64, u64>) -> bool {
    forall|i: int|
        0 <= i < sent.len() ==> conns.contains_key((#[trigger] sent[i]).target.session_id)
            && sent[i].target.connection == conns[sent[i].target.session_id]
}

/// Whether each connected federate is sent what a function gives for it, and
/// nothing else is sent to anybody.
pub open spec fn tells(
    sent: Seq<OutboundView>,
    conns: Map<u64, u64>,
    federates: Map<u32, FederateView>,
    what: spec_fn(u32) -> Seq<CallbackView>,
) -> bool {
    &&& well_addressed(sent, conns)
    &&& forall|f: u32| #[trigger]
        federates.contains_key(f) && conns.contains_key(federates[f].session_id) ==> received(
            sent,
            federates[f].session_id,
        ) == what(f)
    &&& forall|s: u64|
        !is_member(federates, s) ==> (#[trigger] received(sent, s)) == Seq::<CallbackView>::empty()
}

/// Whether the federates of two states have the same sessions.
pub open spec fn same_sessions(a: Map<u32, FederateView>, b: Map<u32, FederateView>) -> bool {
    &&& forall|f: u32| #[trigger] a.contains_key(f) <==> b.contains_key(f)
    &&& forall|f: u32| #[trigger] a.contains_key(f) ==> a[f].session_id == b[f].session_id
}

/// Nothing, or one callback.
pub open spec fn only_if(condition: bool, callback: CallbackView) -> Seq<CallbackView> {
    if condition {
        seq![callback]
    } else {
        Seq::empty()
    }
}

pub(crate) proof fn lemma_received_add(a: Seq<OutboundView>, b: Seq<OutboundView>, s: u64)
    ensures
        received(a + b, s) == received(a, s) + received(b, s),
    decreases b.len(),
{
    if b.len() == 0 {
        assert(a + b =~= a);
        assert(received(a, s) + received(b, s) =~= received(a, s));
    } else {
        assert((a + b).drop_last() =~= a + b.drop_last());
        assert((a + b).last() == b.last());
        lemma_received_add(a, b.drop_last(), s);
        assert(received(a + b, s) =~= received(a, s) + received(b, s));
    }
}

proof fn lemma_received_copies(
    conns: Map<u64, u64>,
    federates: Map<u32, FederateView>,
    q: Seq<u32>,
    callback: CallbackView,
    s: u64,
)
    requires
        own_sessions(federates),
        q.no_duplicates(),
    ensures
        ({
            let got = received(copies(connections_of(conns, federates, q), callback), s);
            &&& forall|f: u32| #[trigger]
                federates.contains_key(f) && federates[f].session_id == s && q.contains(f)
                    && conns.contains_key(s) ==> got == seq![callback]
            &&& forall|f: u32| #[trigger]
                federates.contains_key(f) && federates[f].session_id == s && !q.contains(f)
                    ==> got == Seq::<CallbackView>::empty()
            &&& !conns.contains_key(s) ==> got == Seq::<CallbackView>::empty()
            &&& !is_member(federates, s) ==> got == Seq::<CallbackView>::empty()
        }),
    decreases q.len(),
{
    let all = copies(connections_of(conns, federates, q), callback);
    if q.len() > 0 {
        let rest = q.drop_last();
        let few = copies(connections_of(conns, federates, rest), callback);
        lemma_received_copies(conns, federates, rest, callback, s);
        assert forall|f: u32| rest.contains(f) <==> q.contains(f) && f != q.last() by {
            if rest.contains(f) {
                let k = rest.index_of(f);
                assert(q[k] == f);
            }
            if q.contains(f) && f != q.last() {
                let k = q.index_of(f);
                assert(rest[k] == f);
            }
        }
        assert(q.contains(q.last())) by {
            assert(q[q.len() - 1] == q.last());
        }
        match connection_of(conns, federates, q.last()) {
            Some(c) => {
                assert(all =~= few.push(OutboundView { target: c, callback }));
                assert(all.drop_last() =~= few);
                if c.session_id == s {
                    assert forall|f: u32| #[trigger]
                        federates.contains_key(f) && federates[f].session_id == s implies f
                        == q.last() by {
                        assert(federates.contains_key(q.last()));
                    }
                    assert(received(few, s) == Seq::<CallbackView>::empty());
                    assert(received(all, s) =~= seq![callback]);
                }
            },
            None => {
                assert(all =~= few);
            },
        }
    } else {
        assert(all =~= Seq::empty());
    }
}

proof fn lemma_addressed(
    conns: Map<u64, u64>,
    federates: Map<u32, FederateView>,
    q: Seq<u32>,
    callback: CallbackView,
)
    ensures
        well_addressed(copies(connections_of(conns, federates, q), callback), conns),
    decreases q.len(),
{
    let all = copies(connections_of(conns, federates, q), callback);
    if q.len() > 0 {
        let few = copies(connections_of(conns, federates, q.drop_last()), callback);
        lemma_addressed(conns, federates, q.drop_last(), callback);
        match connection_of(conns, federates, q.last()) {
            Some(c) => {
                assert(all =~= few.push(OutboundView { target: c, callback }));
            },
            None => {
                assert(all =~= few);
            },
        }
    }
}

/// A callback to a set of federates is sent once to each of them that is connected,
/// and to nobody else.
pub proof fn deliveries_tell_the_members(
    conns: Map<u64, u64>,
    before: Map<u32, FederateView>,
    fed: FederationView,
    set: Set<u32>,
    callback: CallbackView,
)
    requires
        own_sessions(before),
        same_sessions(before, fed.federates),
    ensures
        tells(
            deliveries(conns, fed, set, callback),
            conns,
            before,
            |f: u32| only_if(set.contains(f), callback),
        ),
{
    let sent = deliveries(conns, fed, set, callback);
    let q = ascending(set);
    lemma_handles_finite(set);
    lemma_ascending(set);
    assert(own_sessions(fed.federates)) by {
        assert forall|f: u32, g: u32| #[trigger]
            fed.federates.contains_key(f) && #[trigger] fed.federates.contains_key(g) && f
                != g implies fed.federates[f].session_id != fed.federates[g].session_id by {
            assert(before.contains_key(f) && before.contains_key(g));
        }
    }
    lemma_addressed(conns, fed.federates, q, callback);
    assert forall|f: u32| #[trigger]
        before.contains_key(f) && conns.contains_key(before[f].session_id) implies received(
        sent,
        before[f].session_id,
    ) == only_if(set.contains(f), callback) by {
        lemma_received_copies(conns, fed.federates, q, callback, before[f].session_id);
        assert(fed.federates.contains_key(f));
        assert(q.contains(f) <==> set.contains(f));
    }
    assert forall|s: u64| !is_member(before, s) implies (#[trigger] received(sent, s)) == Seq::<
        CallbackView,
    >::empty() by {
        lemma_received_copies(conns, fed.federates, q, callback, s);
        if is_member(fed.federates, s) {
            let f = choose|f: u32| #[trigger]
                fed.federates.contains_key(f) && fed.federates[f].session_id == s;
            assert(before.contains_key(f));
        }
    }
}

/// What is sent in two parts.
pub(crate) proof fn lemma_tells_both(
    a: Seq<OutboundView>,
    b: Seq<OutboundView>,
    conns: Map<u64, u64>,
    federates: Map<u32, FederateView>,
    first: spec_fn(u32) -> Seq<CallbackView>,
    second: spec_fn(u32) -> Seq<CallbackView>,
)
    requires
        tells(a, conns, federates, first),
        tells(b, conns, federates, second),
    ensures
        tells(a + b, conns, federates, |f: u32| first(f) + second(f)),
{
    let both = a + b;
    assert forall|i: int| 0 <= i < both.len() implies conns.contains_key(
        (#[trigger] both[i]).target.session_id,
    ) && both[i].target.connection == conns[both[i].target.session_id] by {
        if i < a.len() {
            assert(both[i] == a[i]);
        } else {
            assert(both[i] == b[i - a.len()]);
        }
    }
    assert forall|f: u32| #[trigger]
        federates.contains_key(f) && conns.contains_key(federates[f].session_id) implies received(
        both,
        federates[f].session_id,
    ) == first(f) + second(f) by {
        lemma_received_add(a, b, federates[f].session_id);
    }
    assert forall|s: u64| !is_member(federates, s) implies (#[trigger] received(both, s)) == Seq::<
        CallbackView,
    >::empty() by {
        lemma_received_add(a, b, s);
        assert(received(a, s) == Seq::<CallbackView>::empty());
        assert(received(b, s) == Seq::<CallbackView>::empty());
        assert(received(both, s) =~= Seq::empty());
    }
}

/// What is said in other words.
pub(crate) proof fn lemma_tells_likewise(
    sent: Seq<OutboundView>,
    conns: Map<u64, u64>,
    federates: Map<u32, FederateView>,
    one: spec_fn(u32) -> Seq<CallbackView>,
    other: spec_fn(u32) -> Seq<CallbackView>,
)
    requires
        tells(sent, conns, federates, one),
        forall|f: u32| #[trigger] federates.contains_key(f) ==> one(f) =~= other(f),
    ensures
        tells(sent, conns, federates, other),
{
}

/// One callback to the members of a set.
pub(crate) proof fn lemma_tells_set(
    conns: Map<u64, u64>,
    before: Map<u32, FederateView>,
    fed: FederationView,
    set: Set<u32>,
    callback: CallbackView,
    what: spec_fn(u32) -> Seq<CallbackView>,
)
    requires
        own_sessions(before),
        same_sessions(before, fed.federates),
        forall|f: u32| #[trigger] before.contains_key(f) ==> what(f) =~= only_if(set.contains(f), callback),
    ensures
        tells(deliveries(conns, fed, set, callback), conns, before, what),
{
    deliveries_tell_the_members(conns, before, fed, set, callback);
    lemma_tells_likewise(
        deliveries(conns, fed, set, callback),
        conns,
        before,
        |f: u32| only_if(set.contains(f), callback),
        what,
    );
}

/// What is sent in two parts, in other words.
pub(crate) proof fn lemma_tells_two(
    a: Seq<OutboundView>,
    b: Seq<OutboundView>,
    conns: Map<u64, u64>,
    federates: Map<u32, FederateView>,
    first: spec_fn(u32) -> Seq<CallbackView>,
    second: spec_fn(u32) -> Seq<CallbackView>,
    what: spec_fn(u32) -> Seq<CallbackView>,
)
    requires
        tells(a, conns, federates, first),
        tells(b, conns, federates, second),
        forall|f: u32| #[trigger] federates.contains_key(f) ==> what(f) =~= first(f) + second(f),
    ensures
        tells(a + b, conns, federates, what),
{
    lemma_tells_both(a, b, conns, federates, first, second);
    lemma_tells_likewise(a + b, conns, federates, |f: u32| first(f) + second(f), what);
}

/// Whether a request is refused with an exception, and nothing comes of it.
pub open spec fn refuses(o: Outcome, fed: FederationView, kind: HlaException) -> bool {
    &&& o.reply matches ResponseView::Exception(e) && e.exception == kind
    &&& o.fed == fed
    &&& o.sent.len() == 0
}

/// Whether a request is served, with nothing to tell in return.
pub open spec fn serves(o: Outcome, service: Service) -> bool {
    o.reply == (ResponseView::Reply { service, payload: PayloadView::Empty })
}

/// Whether bytes on the wire are the handle of a member of a set.
pub open spec fn is_one_of(b: Seq<u8>, set: Set<u32>) -> bool {
    exists|h: u32| set.contains(h) && b == #[trigger] bytes_of_u32(h)
}

/// Whether a list of handles on the wire holds exactly the members of a set, each
/// once.
pub open spec fn lists(l: Seq<Seq<u8>>, set: Set<u32>) -> bool {
    &&& l.no_duplicates()
    &&& forall|h: u32| set.contains(h) ==> l.contains(#[trigger] bytes_of_u32(h))
    &&& forall|i: int| 0 <= i < l.len() ==> is_one_of(#[trigger] l[i], set)
}

/// Handles of a set go on the wire each once.
pub proof fn handles_are_listed_once(set: Set<u32>)
    ensures
        lists(handle_list(ascending(set)), set),
{
    let q = ascending(set);
    let l = handle_list(q);
    lemma_handles_finite(set);
    lemma_ascending(set);
    assert forall|i: int, j: int| 0 <= i < l.len() && 0 <= j < l.len() && i != j implies l[i]
        != l[j] by {
        decode_encode_u32(q[i]);
        decode_encode_u32(q[j]);
        assert(q[i] != q[j]);
    }
    assert forall|h: u32| set.contains(h) implies l.contains(#[trigger] bytes_of_u32(h)) by {
        assert(q.contains(h));
        let k = q.index_of(h);
        assert(l[k] == bytes_of_u32(h));
    }
    assert forall|i: int| 0 <= i < l.len() implies is_one_of(#[trigger] l[i], set) by {
        assert(q.contains(q[i]));
        assert(l[i] == bytes_of_u32(q[i]));
    }
}

/// Whether a list of handles in a request names a handle.
pub open spec fn names(field: Option<Vec<Vec<u8>>>, h: u32) -> bool {
    field matches Some(l) && exists|i: int|
        0 <= i < l@.len() && (#[trigger] l@[i])@ == bytes_of_u32(h)
}

/// Whether every entry of a list in a request is a handle.
pub open spec fn names_handles_only(field: Option<Vec<Vec<u8>>>) -> bool {
    field matches Some(l) ==> forall|i: int| 0 <= i < l@.len() ==> (#[trigger] l@[i])@.len() == 4
}

pub(crate) proof fn lemma_names(field: Option<Vec<Vec<u8>>>, h: u32)
    ensures
        handles_in(listed(field)).contains(h) <==> names(field, h),
{
    let l = listed(field);
    decode_encode_u32(h);
    if handles_in(l).contains(h) {
        let i = choose|i: int| 0 <= i < l.len() && handle32(#[trigger] l[i]) == Some(h);
        encode_decode_u32(l[i]);
        assert(field->0@[i]@ == bytes_of_u32(h));
    }
    if names(field, h) {
        let i = choose|i: int|
            0 <= i < field->0@.len() && (#[trigger] field->0@[i])@ == bytes_of_u32(h);
        assert(l[i] == bytes_of_u32(h));
    }
}

pub(crate) proof fn lemma_names_only(field: Option<Vec<Vec<u8>>>)
    ensures
        all_handles(listed(field)) <==> names_handles_only(field),
{
    let l = listed(field);
    if names_handles_only(field) {
        assert forall|i: int| 0 <= i < l.len() implies (#[trigger] l[i]).len() == 4 by {
            assert(field->0@[i]@ == l[i]);
        }
    } else {
        let i = choose|i: int|
            0 <= i < field->0@.len() && (#[trigger] field->0@[i])@.len() != 4;
        assert(l[i] == field->0@[i]@);
    }
}

/// Whether a federate subscribes to an attribute at a class or at one that it derives
/// from.
pub open spec fn hears_of(fed: FederationView, f: u32, class: u32, attr: u32) -> bool {
    exists|c: u32|
        chain(fed.fom.object_classes, class).contains(c) && #[trigger]
        fed.subscriptions.attributes.contains((c, attr, f))
}

/// Whether a federate subscribes to an interaction class or to one that it derives
/// from.
pub open spec fn listens_to(fed: FederationView, f: u32, class: u32) -> bool {
    exists|c: u32|
        chain(fed.fom.interaction_classes, class).contains(c) && #[trigger]
        fed.subscriptions.interactions.contains((c, f))
}

} // verus!

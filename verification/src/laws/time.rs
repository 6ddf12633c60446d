//! Time: who may advance, what it is handed then, and who has to wait.

use crate::callbacks::CallbackView;
use crate::dispatch::calls::{
    coordination_outcome, exchange_outcome, lookup_reply, member_outcome, quiet_outcome,
};
use crate::dispatch::restore::SnapshotLoadView;
use crate::dispatch::time_mgmt::asking;
use crate::exception::HlaException;
use crate::federation::{FederateView, FederationView, TimeState, TsoView};
use crate::handles::{bytes_of_u64, field64};
use crate::laws::models::answers;
use crate::laws::{
    is_member, lemma_tells_likewise, lemma_tells_set, lemma_tells_two, only_if, own_sessions,
    received, refuses, same_sessions, serves, tells, well_addressed,
};
use crate::logical_time::{
    before, is_duration, is_finite, not_after, plus, plus_is_a_number, INFINITY,
};
use crate::messages::{AdvanceForm, CallRequest, PayloadView, Service};
use crate::routing::{connection_of, deliveries, OutboundView};
use crate::subscriptions::lemma_handles_finite;
use crate::tables::{ascending, lemma_ascending, lemma_ascending_is};
use crate::time::{
    after_all_grants, after_grants, after_round, due, due_messages_come_first, grantable_set,
    granted, grants, grants_change_federates_only, grants_do_not_lower_the_bound,
    grants_respect_the_bound, horizon, lemma_granted_wf, lemma_round_settles, lower_bound,
    lower_bound_is_least_horizon, messages_to, nobody_is_left_to_grant, pending_set, released,
    releases, sent_for_grants, sent_in_round, time_entry,
};
use vstd::prelude::*;

verus! {

/// Whether a number of the messages of a queue is due at a time: those before it, and no
/// others, have a time up to that one.
pub open spec fn are_due(q: Seq<TsoView>, t: u64, n: int) -> bool {
    &&& 0 <= n <= q.len()
    &&& forall|i: int| 0 <= i < n ==> not_after((#[trigger] q[i]).time, t)
    &&& forall|i: int| n <= i < q.len() ==> !not_after((#[trigger] q[i]).time, t)
}

/// Whether a federate is granted the time it asked for, and has no longer the messages
/// that are due.
pub open spec fn is_granted(fs: FederateView, next: FederateView, t: u64, n: int) -> bool {
    &&& fs.time.pending_advance == Some(t)
    &&& are_due(fs.tso_queue, t, n)
    &&& next == (FederateView {
        time: TimeState { current_time: t, pending_advance: None, ..fs.time },
        tso_queue: fs.tso_queue.skip(n),
        ..fs
    })
}

/// What messages have to say.
pub open spec fn contents(q: Seq<TsoView>) -> Seq<CallbackView> {
    q.map_values(|m: TsoView| m.callback)
}

/// What a federate is sent that was granted its time: the messages that it has no longer,
/// in their order, and then the grant.
pub open spec fn grant_call(fs: FederateView, next: FederateView) -> Seq<CallbackView> {
    if fs.time.pending_advance is Some && next.time.pending_advance is None {
        contents(fs.tso_queue.take(fs.tso_queue.len() - next.tso_queue.len())).push(
            CallbackView::TimeAdvanceGrant { time: bytes_of_u64(next.time.current_time) },
        )
    } else {
        Seq::empty()
    }
}

/// Whether a time is not after that which any federate that regulates time may still send
/// messages for.
pub open spec fn is_safe(federates: Map<u32, FederateView>, t: u64) -> bool {
    forall|g: u32| #[trigger]
        federates.contains_key(g) && federates[g].time.is_regulating ==> not_after(
            t,
            plus(federates[g].time.current_time, federates[g].time.lookahead),
        )
}

/// Whether some federate that regulates time may still send messages for before a time.
pub open spec fn is_held_back(federates: Map<u32, FederateView>, t: u64) -> bool {
    exists|g: u32| #[trigger]
        federates.contains_key(g) && federates[g].time.is_regulating && before(
            plus(federates[g].time.current_time, federates[g].time.lookahead),
            t,
        )
}

/// Whether a federate stays as it is or is granted its time, which is safe then if the
/// federate is constrained.
pub open spec fn advances_safely(a: FederationView, b: FederationView, f: u32) -> bool {
    let fs = a.federates[f];
    let next = b.federates[f];
    ||| next == fs
    ||| exists|t: u64, n: int| #[trigger]
        is_granted(fs, next, t, n) && (fs.time.is_constrained ==> is_safe(b.federates, t))
}

/// Whether a federate that still waits for a time is constrained, and held back.
pub open spec fn waits_rightly(federates: Map<u32, FederateView>, f: u32) -> bool {
    federates[f].time.pending_advance matches Some(t) ==> federates[f].time.is_constrained
        && is_held_back(federates, t)
}

/// Whether the federates of a state advanced as far as they safely can, and nothing else
/// changed.
pub open spec fn has_advanced(a: FederationView, b: FederationView) -> bool {
    &&& b == (FederationView { federates: b.federates, ..a })
    &&& forall|f: u32| #[trigger] b.federates.contains_key(f) <==> a.federates.contains_key(f)
    &&& forall|f: u32| #[trigger] a.federates.contains_key(f) ==> advances_safely(a, b, f)
    &&& forall|f: u32| #[trigger] b.federates.contains_key(f) ==> waits_rightly(b.federates, f)
}

proof fn lemma_safe(fed: FederationView, t: u64)
    requires
        fed.wf(),
        is_finite(t),
    ensures
        not_after(t, lower_bound(fed)) ==> is_safe(fed.federates, t),
        !not_after(t, lower_bound(fed)) ==> is_held_back(fed.federates, t),
{
    lower_bound_is_least_horizon(fed);
    if !not_after(t, lower_bound(fed)) {
        let g = choose|g: u32| #[trigger]
            fed.federates.contains_key(g) && fed.federates[g].time.is_regulating
                && horizon(fed.federates[g]) == lower_bound(fed);
        assert(fed.federates[g].wf());
        plus_is_a_number(fed.federates[g].time.current_time, fed.federates[g].time.lookahead);
    }
}

proof fn lemma_has_advanced(fed: FederationView)
    requires
        fed.wf(),
    ensures
        has_advanced(fed, after_all_grants(fed)),
{
    let end = after_all_grants(fed);
    grants_change_federates_only(fed);
    grants_do_not_lower_the_bound(fed);
    nobody_is_left_to_grant(fed);
    assert forall|f: u32| #[trigger]
        end.federates.contains_key(f) <==> fed.federates.contains_key(f) by {
        assert(end.federates.dom().contains(f) <==> fed.federates.dom().contains(f));
    }
    assert forall|f: u32| #[trigger] fed.federates.contains_key(f) implies advances_safely(
        fed,
        end,
        f,
    ) by {
        let fs = fed.federates[f];
        grants_respect_the_bound(fed, f);
        if end.federates[f] != fs {
            let t = fs.time.pending_advance->0;
            assert(fs.wf());
            due_messages_come_first(fs.tso_queue, t);
            lemma_safe(end, t);
            assert(is_granted(fs, end.federates[f], t, due(fs.tso_queue, t) as int));
        }
    }
    assert forall|f: u32| #[trigger] end.federates.contains_key(f) implies waits_rightly(
        end.federates,
        f,
    ) by {
        if end.federates[f].time.pending_advance is Some {
            let t = end.federates[f].time.pending_advance->0;
            assert(end.federates[f].wf());
            lemma_safe(end, t);
            assert(!grantable_set(end, lower_bound(end)).contains(f));
        }
    }
}

proof fn lemma_received_messages(
    conns: Map<u64, u64>,
    federates: Map<u32, FederateView>,
    f: u32,
    q: Seq<TsoView>,
    s: u64,
)
    requires
        federates.contains_key(f),
    ensures
        received(messages_to(conns, federates, f, q), s) == (if s == federates[f].session_id
            && conns.contains_key(s) {
            contents(q)
        } else {
            Seq::empty()
        }),
        well_addressed(messages_to(conns, federates, f, q), conns),
    decreases q.len(),
{
    let all = messages_to(conns, federates, f, q);
    if connection_of(conns, federates, f) is Some {
        if q.len() > 0 {
            let few = messages_to(conns, federates, f, q.drop_last());
            lemma_received_messages(conns, federates, f, q.drop_last(), s);
            assert(all.drop_last() =~= few);
            assert(contents(q) =~= contents(q.drop_last()).push(q.last().callback));
        } else {
            assert(contents(q) =~= Seq::empty());
        }
    }
}

/// What the granted of a list are handed, of what was kept for them.
spec fn kept_for(federates: Map<u32, FederateView>, q: Seq<u32>, f: u32) -> Seq<CallbackView> {
    if q.contains(f) {
        let queue = federates[f].tso_queue;
        contents(queue.take(due(queue, federates[f].time.pending_advance->0) as int))
    } else {
        Seq::empty()
    }
}

proof fn lemma_tells_releases(
    conns: Map<u64, u64>,
    federates: Map<u32, FederateView>,
    q: Seq<u32>,
)
    requires
        own_sessions(federates),
        q.no_duplicates(),
        forall|i: int| 0 <= i < q.len() ==> federates.contains_key(#[trigger] q[i]),
    ensures
        tells(
            releases(conns, federates, q),
            conns,
            federates,
            |f: u32| kept_for(federates, q, f),
        ),
    decreases q.len(),
{
    let what = |f: u32| kept_for(federates, q, f);
    if q.len() == 0 {
        assert(tells(Seq::empty(), conns, federates, what));
    } else {
        let rest = q.drop_last();
        let last = q.last();
        let t = federates[last].time.pending_advance->0;
        let queue = federates[last].tso_queue;
        let part = released(conns, federates, last, t);
        assert(federates.contains_key(q[q.len() - 1]));
        assert forall|i: int| 0 <= i < rest.len() implies federates.contains_key(
            #[trigger] rest[i],
        ) by {
            assert(federates.contains_key(q[i]));
        }
        lemma_tells_releases(conns, federates, rest);
        let one = |f: u32|
            if f == last {
                contents(queue.take(due(queue, t) as int))
            } else {
                Seq::empty()
            };
        assert(tells(part, conns, federates, one)) by {
            assert forall|s: u64| #[trigger] received(part, s) == (if s
                == federates[last].session_id && conns.contains_key(s) {
                contents(queue.take(due(queue, t) as int))
            } else {
                Seq::empty()
            }) by {
                lemma_received_messages(conns, federates, last, queue.take(due(queue, t) as int), s);
            }
            lemma_received_messages(conns, federates, last, queue.take(due(queue, t) as int), 0);
        }
        assert forall|f: u32| #[trigger] federates.contains_key(f) implies what(f) =~= kept_for(
            federates,
            rest,
            f,
        ) + one(f) by {
            lemma_last(q, f);
        }
        lemma_tells_two(
            releases(conns, federates, rest),
            part,
            conns,
            federates,
            |f: u32| kept_for(federates, rest, f),
            one,
            what,
        );
    }
}

proof fn lemma_last(q: Seq<u32>, f: u32)
    requires
        q.len() > 0,
        q.no_duplicates(),
    ensures
        q.contains(f) <==> q.drop_last().contains(f) || f == q.last(),
        !q.drop_last().contains(q.last()),
{
    let rest = q.drop_last();
    if q.contains(f) && f != q.last() {
        let i = q.index_of(f);
        assert(rest[i] == f);
    }
    if rest.contains(f) {
        let i = rest.index_of(f);
        assert(q[i] == f);
    }
    assert(q[q.len() - 1] == q.last());
    if rest.contains(q.last()) {
        let i = rest.index_of(q.last());
        assert(q[i] == q[q.len() - 1]);
    }
}

/// The grant that a federate of a list is sent.
spec fn grant_for(federates: Map<u32, FederateView>, q: Seq<u32>, f: u32) -> Seq<CallbackView> {
    only_if(
        q.contains(f),
        CallbackView::TimeAdvanceGrant { time: bytes_of_u64(federates[f].time.pending_advance->0) },
    )
}

proof fn lemma_tells_grants(
    fed: FederationView,
    conns: Map<u64, u64>,
    q: Seq<u32>,
)
    requires
        own_sessions(fed.federates),
        q.no_duplicates(),
    ensures
        tells(
            grants(conns, fed.federates, q),
            conns,
            fed.federates,
            |f: u32| grant_for(fed.federates, q, f),
        ),
    decreases q.len(),
{
    let what = |f: u32| grant_for(fed.federates, q, f);
    if q.len() == 0 {
        assert(tells(Seq::empty(), conns, fed.federates, what));
    } else {
        let rest = q.drop_last();
        let last = q.last();
        let grant = CallbackView::TimeAdvanceGrant {
            time: bytes_of_u64(fed.federates[last].time.pending_advance->0),
        };
        lemma_tells_grants(fed, conns, rest);
        let one = |f: u32| only_if(f == last, grant);
        lemma_tells_set(conns, fed.federates, fed, set![last], grant, one);
        assert forall|f: u32| #[trigger] fed.federates.contains_key(f) implies what(f)
            =~= grant_for(fed.federates, rest, f) + one(f) by {
            lemma_last(q, f);
        }
        lemma_tells_two(
            grants(conns, fed.federates, rest),
            deliveries(conns, fed, set![last], grant),
            conns,
            fed.federates,
            |f: u32| grant_for(fed.federates, rest, f),
            one,
            what,
        );
    }
}

proof fn lemma_tells_granted(fed: FederationView, conns: Map<u64, u64>, set: Set<u32>)
    requires
        fed.wf(),
        own_sessions(fed.federates),
        forall|f: u32| #[trigger]
            set.contains(f) ==> fed.federates.contains_key(f)
                && fed.federates[f].time.pending_advance is Some,
    ensures
        ({
            let q = ascending(set);
            let next = after_grants(fed.federates, set);
            tells(
                releases(conns, fed.federates, q) + grants(conns, fed.federates, q),
                conns,
                fed.federates,
                |f: u32| grant_call(fed.federates[f], next[f]),
            )
        }),
{
    let q = ascending(set);
    let next = after_grants(fed.federates, set);
    lemma_handles_finite(set);
    lemma_ascending(set);
    assert forall|i: int| 0 <= i < q.len() implies fed.federates.contains_key(
        #[trigger] q[i],
    ) by {
        assert(q.contains(q[i]));
    }
    lemma_tells_releases(conns, fed.federates, q);
    lemma_tells_grants(fed, conns, q);
    let what = |f: u32| grant_call(fed.federates[f], next[f]);
    assert forall|f: u32| #[trigger] fed.federates.contains_key(f) implies what(f) =~= kept_for(
        fed.federates,
        q,
        f,
    ) + grant_for(fed.federates, q, f) by {
        let fs = fed.federates[f];
        assert(fs.wf());
        if set.contains(f) {
            assert(q.contains(f));
            due_messages_come_first(fs.tso_queue, fs.time.pending_advance->0);
        } else {
            assert(!q.contains(f));
        }
    }
    lemma_tells_two(
        releases(conns, fed.federates, q),
        grants(conns, fed.federates, q),
        conns,
        fed.federates,
        |f: u32| kept_for(fed.federates, q, f),
        |f: u32| grant_for(fed.federates, q, f),
        what,
    );
}

proof fn lemma_same_members(
    sent: Seq<OutboundView>,
    conns: Map<u64, u64>,
    a: Map<u32, FederateView>,
    b: Map<u32, FederateView>,
    what: spec_fn(u32) -> Seq<CallbackView>,
)
    requires
        tells(sent, conns, b, what),
        same_sessions(a, b),
    ensures
        tells(sent, conns, a, what),
{
    assert forall|s: u64| !is_member(a, s) implies (#[trigger] received(sent, s)) == Seq::<
        CallbackView,
    >::empty() by {
        if is_member(b, s) {
            let f = choose|f: u32| #[trigger] b.contains_key(f) && b[f].session_id == s;
            assert(a.contains_key(f));
        }
    }
    assert forall|f: u32| #[trigger]
        a.contains_key(f) && conns.contains_key(a[f].session_id) implies received(
        sent,
        a[f].session_id,
    ) == what(f) by {
        assert(b.contains_key(f));
    }
}

proof fn lemma_grants_told(fed: FederationView, conns: Map<u64, u64>)
    requires
        fed.wf(),
        own_sessions(fed.federates),
    ensures
        tells(
            sent_for_grants(fed, conns),
            conns,
            fed.federates,
            |f: u32| grant_call(fed.federates[f], after_all_grants(fed).federates[f]),
        ),
    decreases pending_set(fed).len(),
{
    let bound = lower_bound(fed);
    let set = grantable_set(fed, bound);
    let end = after_all_grants(fed);
    let what = |f: u32| grant_call(fed.federates[f], end.federates[f]);
    if set == Set::<u32>::empty() {
        assert(tells(Seq::empty(), conns, fed.federates, what));
    } else {
        let mid = after_round(fed);
        lemma_tells_granted(fed, conns, set);
        let first = |f: u32| grant_call(fed.federates[f], mid.federates[f]);
        if before(bound, lower_bound(mid)) {
            lemma_round_settles(fed);
            lemma_grants_then_wf(fed, set);
            lemma_grants_told(mid, conns);
            let second = |f: u32| grant_call(mid.federates[f], end.federates[f]);
            lemma_same_members(
                sent_for_grants(mid, conns),
                conns,
                fed.federates,
                mid.federates,
                second,
            );
            lemma_has_advanced(mid);
            assert forall|f: u32| #[trigger] fed.federates.contains_key(f) implies what(f)
                =~= first(f) + second(f) by {
                lemma_one_grant(fed, mid, end, f);
            }
            lemma_tells_two(
                sent_in_round(fed, conns),
                sent_for_grants(mid, conns),
                conns,
                fed.federates,
                first,
                second,
                what,
            );
        }
    }
}

proof fn lemma_grants_then_wf(fed: FederationView, set: Set<u32>)
    requires
        fed.wf(),
        own_sessions(fed.federates),
        forall|f: u32| #[trigger]
            set.contains(f) ==> fed.federates.contains_key(f)
                && fed.federates[f].time.pending_advance is Some,
    ensures
        ({
            let next = FederationView { federates: after_grants(fed.federates, set), ..fed };
            &&& next.wf()
            &&& own_sessions(next.federates)
            &&& same_sessions(fed.federates, next.federates)
        }),
{
    let next = FederationView { federates: after_grants(fed.federates, set), ..fed };
    assert forall|f: u32| #[trigger] next.federates.contains_key(f) implies next.federates[f].handle
        == f && next.federates[f].wf() by {
        assert(fed.federates.contains_key(f));
        if set.contains(f) {
            lemma_granted_wf(fed.federates[f]);
        }
    }
    assert forall|f: u32, g: u32| #[trigger]
        next.federates.contains_key(f) && #[trigger] next.federates.contains_key(g) && f
            != g implies next.federates[f].session_id != next.federates[g].session_id by {
        assert(fed.federates.contains_key(f) && fed.federates.contains_key(g));
    }
}

proof fn lemma_one_grant(fed: FederationView, mid: FederationView, end: FederationView, f: u32)
    requires
        fed.federates.contains_key(f),
        mid.federates.contains_key(f),
        mid.federates[f] == fed.federates[f] || (fed.federates[f].time.pending_advance is Some
            && mid.federates[f].time.pending_advance is None),
        advances_safely(mid, end, f),
    ensures
        grant_call(fed.federates[f], end.federates[f]) == grant_call(
            fed.federates[f],
            mid.federates[f],
        ) + grant_call(mid.federates[f], end.federates[f]),
{
    let a = fed.federates[f];
    let b = mid.federates[f];
    let c = end.federates[f];
    if b == a {
        assert(grant_call(a, b) + grant_call(b, c) =~= grant_call(a, c));
    } else {
        assert(c == b);
        assert(grant_call(a, b) + grant_call(b, c) =~= grant_call(a, c));
    }
}

/// A federation in which a federate has another state of its time.
pub open spec fn in_state(fed: FederationView, me: u32, time: TimeState) -> FederationView {
    FederationView {
        federates: fed.federates.insert(me, FederateView { time, ..fed.federates[me] }),
        ..fed
    }
}

/// Whether, from a state on, the federates advance as far as they safely can, and each is
/// sent what comes with its grant, after something of its own.
pub open spec fn goes_on(
    mid: FederationView,
    end: FederationView,
    conns: Map<u64, u64>,
    sent: Seq<OutboundView>,
    ahead: spec_fn(u32) -> Seq<CallbackView>,
) -> bool {
    &&& has_advanced(mid, end)
    &&& tells(
        sent,
        conns,
        mid.federates,
        |f: u32| ahead(f) + grant_call(mid.federates[f], end.federates[f]),
    )
}

/// Nothing ahead of a grant.
pub open spec fn nothing() -> spec_fn(u32) -> Seq<CallbackView> {
    |f: u32| Seq::<CallbackView>::empty()
}

proof fn lemma_in_state(fed: FederationView, me: u32, time: TimeState)
    requires
        fed.wf(),
        own_sessions(fed.federates),
        fed.federates.contains_key(me),
        time.wf(),
        time.current_time == fed.federates[me].time.current_time,
    ensures
        in_state(fed, me, time).wf(),
        own_sessions(in_state(fed, me, time).federates),
{
    let mid = in_state(fed, me, time);
    assert forall|f: u32| #[trigger] mid.federates.contains_key(f) implies mid.federates[f].handle
        == f && mid.federates[f].wf() by {
        assert(fed.federates.contains_key(f));
    }
    assert forall|f: u32, g: u32| #[trigger]
        mid.federates.contains_key(f) && #[trigger] mid.federates.contains_key(g) && f
            != g implies mid.federates[f].session_id != mid.federates[g].session_id by {
        assert(fed.federates.contains_key(f) && fed.federates.contains_key(g));
    }
}

pub(crate) proof fn lemma_goes_on(mid: FederationView, conns: Map<u64, u64>)
    requires
        mid.wf(),
        own_sessions(mid.federates),
    ensures
        goes_on(mid, after_all_grants(mid), conns, sent_for_grants(mid, conns), nothing()),
{
    let end = after_all_grants(mid);
    lemma_has_advanced(mid);
    lemma_grants_told(mid, conns);
    lemma_tells_likewise(
        sent_for_grants(mid, conns),
        conns,
        mid.federates,
        |f: u32| grant_call(mid.federates[f], end.federates[f]),
        |f: u32| nothing()(f) + grant_call(mid.federates[f], end.federates[f]),
    );
}

/// A federate that asks for it regulates time from then on, with its lookahead, and is told
/// so. The others advance as far as that lets them.
pub proof fn a_federate_regulates_time_if_it_asks(
    fed: FederationView,
    conns: Map<u64, u64>,
    me: u32,
    lookahead: Option<Vec<u8>>,
    load: SnapshotLoadView,
)
    requires
        fed.wf(),
        own_sessions(fed.federates),
        fed.federates.contains_key(me),
    ensures
        ({
            let request = CallRequest::EnableTimeRegulation { lookahead };
            let o = member_outcome(fed, conns, me, request, load);
            let time = fed.federates[me].time;
            match field64(lookahead) {
                Some(d) if is_duration(d) => if time.is_regulating {
                    refuses(o, fed, HlaException::TimeRegulationAlreadyEnabled)
                } else {
                    &&& serves(o, Service::EnableTimeRegulation)
                    &&& goes_on(
                        in_state(
                            fed,
                            me,
                            TimeState { is_regulating: true, lookahead: d, ..time },
                        ),
                        o.fed,
                        conns,
                        o.sent,
                        |f: u32|
                            only_if(
                                f == me,
                                CallbackView::TimeRegulationEnabled {
                                    time: bytes_of_u64(time.current_time),
                                },
                            ),
                    )
                },
                _ => refuses(o, fed, HlaException::InvalidLookahead),
            }
        }),
{
    reveal(lookup_reply);
    reveal(quiet_outcome);
    reveal(exchange_outcome);
    reveal(coordination_outcome);
    let time = fed.federates[me].time;
    if let Some(d) = field64(lookahead) {
        if is_duration(d) && !time.is_regulating {
            let state = TimeState { is_regulating: true, lookahead: d, ..time };
            let mid = in_state(fed, me, state);
            let end = after_all_grants(mid);
            let enabled = CallbackView::TimeRegulationEnabled {
                time: bytes_of_u64(time.current_time),
            };
            let ahead = |f: u32| only_if(f == me, enabled);
            assert(fed.federates[me].wf());
            lemma_in_state(fed, me, state);
            lemma_goes_on(mid, conns);
            lemma_tells_set(conns, mid.federates, mid, set![me], enabled, ahead);
            lemma_tells_two(
                deliveries(conns, mid, set![me], enabled),
                sent_for_grants(mid, conns),
                conns,
                mid.federates,
                ahead,
                |f: u32| nothing()(f) + grant_call(mid.federates[f], end.federates[f]),
                |f: u32| ahead(f) + grant_call(mid.federates[f], end.federates[f]),
            );
        }
    }
}

/// A federate that asks for it regulates time no longer, and the others advance as far as
/// that lets them.
pub proof fn a_federate_stops_regulating_if_it_asks(
    fed: FederationView,
    conns: Map<u64, u64>,
    me: u32,
    load: SnapshotLoadView,
)
    requires
        fed.wf(),
        own_sessions(fed.federates),
        fed.federates.contains_key(me),
    ensures
        ({
            let o = member_outcome(fed, conns, me, CallRequest::DisableTimeRegulation, load);
            let time = fed.federates[me].time;
            if !time.is_regulating {
                refuses(o, fed, HlaException::TimeRegulationIsNotEnabled)
            } else {
                &&& serves(o, Service::DisableTimeRegulation)
                &&& goes_on(
                    in_state(fed, me, TimeState { is_regulating: false, ..time }),
                    o.fed,
                    conns,
                    o.sent,
                    nothing(),
                )
            }
        }),
{
    reveal(lookup_reply);
    reveal(quiet_outcome);
    reveal(exchange_outcome);
    reveal(coordination_outcome);
    let time = fed.federates[me].time;
    assert(fed.federates[me].wf());
    lemma_in_state(fed, me, TimeState { is_regulating: false, ..time });
    lemma_goes_on(in_state(fed, me, TimeState { is_regulating: false, ..time }), conns);
}

/// A federate that asks for it is constrained from then on, and is told so; nobody
/// advances for that.
pub proof fn a_federate_is_constrained_if_it_asks(
    fed: FederationView,
    conns: Map<u64, u64>,
    me: u32,
    load: SnapshotLoadView,
)
    requires
        own_sessions(fed.federates),
        fed.federates.contains_key(me),
    ensures
        ({
            let o = member_outcome(fed, conns, me, CallRequest::EnableTimeConstrained, load);
            let time = fed.federates[me].time;
            if time.is_constrained {
                refuses(o, fed, HlaException::TimeConstrainedAlreadyEnabled)
            } else {
                &&& serves(o, Service::EnableTimeConstrained)
                &&& o.fed == in_state(fed, me, TimeState { is_constrained: true, ..time })
                &&& tells(
                    o.sent,
                    conns,
                    fed.federates,
                    |f: u32|
                        only_if(
                            f == me,
                            CallbackView::TimeConstrainedEnabled {
                                time: bytes_of_u64(time.current_time),
                            },
                        ),
                )
            }
        }),
{
    reveal(lookup_reply);
    reveal(quiet_outcome);
    reveal(exchange_outcome);
    reveal(coordination_outcome);
    let time = fed.federates[me].time;
    let enabled = CallbackView::TimeConstrainedEnabled { time: bytes_of_u64(time.current_time) };
    lemma_tells_set(
        conns,
        fed.federates,
        in_state(fed, me, TimeState { is_constrained: true, ..time }),
        set![me],
        enabled,
        |f: u32| only_if(f == me, enabled),
    );
}

/// A federate that asks for it is constrained no longer, and advances if it waits.
pub proof fn a_federate_is_free_if_it_asks(
    fed: FederationView,
    conns: Map<u64, u64>,
    me: u32,
    load: SnapshotLoadView,
)
    requires
        fed.wf(),
        own_sessions(fed.federates),
        fed.federates.contains_key(me),
    ensures
        ({
            let o = member_outcome(fed, conns, me, CallRequest::DisableTimeConstrained, load);
            let time = fed.federates[me].time;
            if !time.is_constrained {
                refuses(o, fed, HlaException::TimeConstrainedIsNotEnabled)
            } else {
                &&& serves(o, Service::DisableTimeConstrained)
                &&& goes_on(
                    in_state(fed, me, TimeState { is_constrained: false, ..time }),
                    o.fed,
                    conns,
                    o.sent,
                    nothing(),
                )
            }
        }),
{
    reveal(lookup_reply);
    reveal(quiet_outcome);
    reveal(exchange_outcome);
    reveal(coordination_outcome);
    let time = fed.federates[me].time;
    assert(fed.federates[me].wf());
    lemma_in_state(fed, me, TimeState { is_constrained: false, ..time });
    lemma_goes_on(in_state(fed, me, TimeState { is_constrained: false, ..time }), conns);
}

/// A federate that regulates time has the lookahead it asks for, and the others advance as
/// far as that lets them.
pub proof fn a_federate_has_the_lookahead_it_asks_for(
    fed: FederationView,
    conns: Map<u64, u64>,
    me: u32,
    lookahead: Option<Vec<u8>>,
    load: SnapshotLoadView,
)
    requires
        fed.wf(),
        own_sessions(fed.federates),
        fed.federates.contains_key(me),
    ensures
        ({
            let request = CallRequest::ModifyLookahead { lookahead };
            let o = member_outcome(fed, conns, me, request, load);
            let time = fed.federates[me].time;
            match field64(lookahead) {
                Some(d) if is_duration(d) => if !time.is_regulating {
                    refuses(o, fed, HlaException::TimeRegulationIsNotEnabled)
                } else {
                    &&& serves(o, Service::ModifyLookahead)
                    &&& goes_on(
                        in_state(fed, me, TimeState { lookahead: d, ..time }),
                        o.fed,
                        conns,
                        o.sent,
                        nothing(),
                    )
                },
                _ => refuses(o, fed, HlaException::InvalidLookahead),
            }
        }),
{
    reveal(lookup_reply);
    reveal(quiet_outcome);
    reveal(exchange_outcome);
    reveal(coordination_outcome);
    let time = fed.federates[me].time;
    if let Some(d) = field64(lookahead) {
        if is_duration(d) {
            assert(fed.federates[me].wf());
            lemma_in_state(fed, me, TimeState { lookahead: d, ..time });
            lemma_goes_on(in_state(fed, me, TimeState { lookahead: d, ..time }), conns);
        }
    }
}

proof fn lemma_goes_on_alone(mid: FederationView, conns: Map<u64, u64>, me: u32)
    requires
        mid.wf(),
        own_sessions(mid.federates),
        mid.federates.contains_key(me),
        mid.federates[me].time.pending_advance is Some,
        !mid.federates[me].time.is_constrained,
    ensures
        ({
            let next = FederationView {
                federates: after_grants(mid.federates, set![me]),
                ..mid
            };
            goes_on(
                mid,
                after_all_grants(next),
                conns,
                releases(conns, mid.federates, seq![me]) + grants(conns, mid.federates, seq![me])
                    + sent_for_grants(next, conns),
                nothing(),
            )
        }),
{
    let set = set![me];
    let next = FederationView { federates: after_grants(mid.federates, set), ..mid };
    let end = after_all_grants(next);
    let fs = mid.federates[me];
    let t = fs.time.pending_advance->0;
    let alone = releases(conns, mid.federates, seq![me]) + grants(conns, mid.federates, seq![me]);
    assert(ascending(set) == seq![me]) by {
        lemma_ascending_is(seq![me]);
        assert(seq![me].to_set() =~= set);
    }
    lemma_tells_granted(mid, conns, set);
    lemma_grants_then_wf(mid, set);
    lemma_has_advanced(next);
    lemma_grants_told(next, conns);
    let first = |f: u32| grant_call(mid.federates[f], next.federates[f]);
    let second = |f: u32| grant_call(next.federates[f], end.federates[f]);
    lemma_same_members(sent_for_grants(next, conns), conns, mid.federates, next.federates, second);
    assert(fs.wf());
    due_messages_come_first(fs.tso_queue, t);
    assert(is_granted(fs, next.federates[me], t, due(fs.tso_queue, t) as int));
    assert forall|f: u32| #[trigger] mid.federates.contains_key(f) implies advances_safely(
        mid,
        end,
        f,
    ) by {
        assert(next.federates.contains_key(f));
        assert(advances_safely(next, end, f));
        if f == me {
            assert(end.federates[me] == next.federates[me]);
        }
    }
    assert forall|f: u32| #[trigger] end.federates.contains_key(f) <==> mid.federates.contains_key(
        f,
    ) by {
        assert(end.federates.contains_key(f) <==> next.federates.contains_key(f));
    }
    assert forall|f: u32| #[trigger] mid.federates.contains_key(f) implies (nothing()(f)
        + grant_call(mid.federates[f], end.federates[f])) =~= first(f) + second(f) by {
        assert(next.federates.contains_key(f));
        assert(advances_safely(next, end, f));
        lemma_one_grant(mid, next, end, f);
    }
    lemma_tells_two(
        alone,
        sent_for_grants(next, conns),
        conns,
        mid.federates,
        first,
        second,
        |f: u32| nothing()(f) + grant_call(mid.federates[f], end.federates[f]),
    );
}

/// A federate that asks to advance, and is not advancing already, waits for the time it
/// asks for, and then all federates advance as far as they safely can; one that is not
/// constrained advances at once. A time that has passed is refused.
pub proof fn a_federate_advances_when_it_is_safe(
    fed: FederationView,
    conns: Map<u64, u64>,
    me: u32,
    advance_form: AdvanceForm,
    time: Option<Vec<u8>>,
    load: SnapshotLoadView,
)
    requires
        fed.wf(),
        own_sessions(fed.federates),
        fed.federates.contains_key(me),
    ensures
        ({
            let request = CallRequest::TimeAdvance { advance_form, time };
            let o = member_outcome(fed, conns, me, request, load);
            let now = fed.federates[me].time;
            match field64(time) {
                None => refuses(o, fed, HlaException::InvalidLogicalTime),
                Some(t) => if !is_finite(t) {
                    refuses(o, fed, HlaException::LogicalTimeAlreadyPassed)
                } else if now.pending_advance is Some {
                    refuses(o, fed, HlaException::InTimeAdvancingState)
                } else if before(t, now.current_time) {
                    refuses(o, fed, HlaException::LogicalTimeAlreadyPassed)
                } else {
                    &&& serves(o, Service::TimeAdvanceRequest)
                    &&& goes_on(
                        in_state(fed, me, TimeState { pending_advance: Some(t), ..now }),
                        o.fed,
                        conns,
                        o.sent,
                        nothing(),
                    )
                    &&& !now.is_constrained ==> o.fed.federates[me].time == (TimeState {
                        current_time: t,
                        ..now
                    })
                },
            }
        }),
{
    reveal(lookup_reply);
    reveal(quiet_outcome);
    reveal(exchange_outcome);
    reveal(coordination_outcome);
    let request = CallRequest::TimeAdvance { advance_form, time };
    let o = member_outcome(fed, conns, me, request, load);
    let now = fed.federates[me].time;
    if let Some(t) = field64(time) {
        if is_finite(t) && now.pending_advance is None && !before(t, now.current_time) {
            let state = TimeState { pending_advance: Some(t), ..now };
            let mid = in_state(fed, me, state);
            assert(fed.federates[me].wf());
            lemma_in_state(fed, me, state);
            assert(mid == asking(fed, me, t));
            if now.is_constrained {
                lemma_goes_on(mid, conns);
            } else {
                lemma_goes_on_alone(mid, conns, me);
                assert(mid.federates.contains_key(me));
                assert(advances_safely(mid, o.fed, me));
                assert(waits_rightly(o.fed.federates, me));
            }
        }
    }
}

/// Who asks is told its own time and lookahead, and the time up to which no more messages
/// can come: the least that a federate that regulates time may still send messages for.
pub proof fn times_are_answered_as_they_are(
    fed: FederationView,
    conns: Map<u64, u64>,
    me: u32,
    load: SnapshotLoadView,
)
    requires
        fed.wf(),
        fed.federates.contains_key(me),
    ensures
        answers(
            member_outcome(fed, conns, me, CallRequest::QueryLogicalTime, load),
            fed,
            Service::QueryLogicalTime,
            PayloadView::Time(bytes_of_u64(fed.federates[me].time.current_time)),
        ),
        fed.federates[me].time.is_regulating ==> answers(
            member_outcome(fed, conns, me, CallRequest::QueryLookahead, load),
            fed,
            Service::QueryLookahead,
            PayloadView::Time(bytes_of_u64(fed.federates[me].time.lookahead)),
        ),
        !fed.federates[me].time.is_regulating ==> refuses(
            member_outcome(fed, conns, me, CallRequest::QueryLookahead, load),
            fed,
            HlaException::TimeRegulationIsNotEnabled,
        ),
        ({
            let galt = member_outcome(fed, conns, me, CallRequest::QueryGalt, load);
            let lits = member_outcome(fed, conns, me, CallRequest::QueryLits, load);
            exists|valid: bool, t: u64| #[trigger]
                is_limit(fed.federates, valid, t) && answers(
                    galt,
                    fed,
                    Service::QueryGalt,
                    PayloadView::TimeQuery {
                        logical_time_is_valid: valid,
                        logical_time: bytes_of_u64(t),
                    },
                ) && answers(
                    lits,
                    fed,
                    Service::QueryLits,
                    PayloadView::TimeQuery {
                        logical_time_is_valid: valid,
                        logical_time: bytes_of_u64(t),
                    },
                )
        }),
{
    reveal(lookup_reply);
    lower_bound_is_least_horizon(fed);
    let bound = lower_bound(fed);
    let valid = is_finite(bound);
    let t = if valid {
        bound
    } else {
        0
    };
    assert(is_limit(fed.federates, valid, t)) by {
        if valid {
            let g = choose|g: u32| #[trigger]
                fed.federates.contains_key(g) && fed.federates[g].time.is_regulating
                    && horizon(fed.federates[g]) == bound;
            assert(fed.federates.contains_key(g));
        } else {
            assert forall|g: u32| #[trigger]
                fed.federates.contains_key(g) && fed.federates[g].time.is_regulating implies !is_finite(
                plus(fed.federates[g].time.current_time, fed.federates[g].time.lookahead),
            ) by {
                assert(not_after(bound, horizon(fed.federates[g])));
                assert(fed.federates[g].wf());
                plus_is_a_number(
                    fed.federates[g].time.current_time,
                    fed.federates[g].time.lookahead,
                );
                if bound != INFINITY {
                    let h = choose|h: u32| #[trigger]
                        fed.federates.contains_key(h) && fed.federates[h].time.is_regulating
                            && horizon(fed.federates[h]) == bound;
                    assert(fed.federates[h].wf());
                    plus_is_a_number(
                        fed.federates[h].time.current_time,
                        fed.federates[h].time.lookahead,
                    );
                }
            }
        }
    }
}

/// Whether a time is the least that a federate that regulates time may still send messages
/// for; without one the time is zero, and does not count.
pub open spec fn is_limit(federates: Map<u32, FederateView>, valid: bool, t: u64) -> bool {
    if valid {
        &&& is_finite(t)
        &&& is_safe(federates, t)
        &&& exists|g: u32| #[trigger]
            federates.contains_key(g) && federates[g].time.is_regulating && plus(
                federates[g].time.current_time,
                federates[g].time.lookahead,
            ) == t
    } else {
        &&& t == 0
        &&& forall|g: u32| #[trigger]
            federates.contains_key(g) && federates[g].time.is_regulating ==> !is_finite(
                plus(federates[g].time.current_time, federates[g].time.lookahead),
            )
    }
}

/// An overview of the times of a federation shows, of a federate, its time, its lookahead,
/// whether it regulates time and whether it is constrained.
pub proof fn an_overview_shows_the_times(fed: FederationView, f: u32)
    ensures
        ({
            let (handle, (now, lookahead, regulating, constrained)) = time_entry(fed, f);
            let time = fed.federates[f].time;
            &&& handle == f
            &&& now == time.current_time
            &&& lookahead == time.lookahead
            &&& regulating == time.is_regulating
            &&& constrained == time.is_constrained
        }),
{
}

} // verus!

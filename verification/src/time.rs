//! Time management: the lower bound on time stamps, and the grants that it
//! allows.
//!
//! The lower bound is the least of the regulating federates' current times plus
//! their lookaheads; without regulating federates it is infinite. A constrained
//! federate that asked to advance is granted once the bound has reached the time
//! that it asked for. Before it is told of the grant it receives the messages
//! that waited for that time.

use crate::connections::Connections;
use crate::federation::{
    in_time_order, lemma_put_back, queue_view, FederateView, Federation, FederationView, TimeState,
    TsoMessage, TsoView,
};
use crate::handles::FederateHandle;
use crate::logical_time::{
    before, is_nan, not_after, plus, plus_is_a_number, plus_keeps_order, rank, stamp_before,
    stamp_not_after, stamp_plus, INFINITY,
};
use crate::routing::{
    connection_of, connections_of, copies, fan_out, fan_out_shared, live, live_connections,
    time_advance_grant, time_advance_grant_view, OutboundView, Outbox,
};
use crate::subscriptions::lemma_handles_finite;
use crate::tables::{ascending, lemma_ascending, lemma_ascending_is, KeySet};
use vstd::prelude::*;

verus! {

/// The earliest time stamp that a regulating federate may still send.
pub open spec fn horizon(fs: FederateView) -> u64 {
    plus(fs.time.current_time, fs.time.lookahead)
}

/// The least horizon of the regulating ones among listed federates.
pub open spec fn least_horizon(federates: Map<u32, FederateView>, q: Seq<u32>) -> u64
    decreases q.len(),
{
    if q.len() == 0 {
        INFINITY
    } else {
        let rest = least_horizon(federates, q.drop_last());
        let fs = federates[q.last()];
        if fs.time.is_regulating && before(horizon(fs), rest) {
            horizon(fs)
        } else {
            rest
        }
    }
}

/// The lower bound on time stamps of a federation.
pub open spec fn lower_bound(fed: FederationView) -> u64 {
    least_horizon(fed.federates, ascending(fed.federates.dom()))
}

/// Whether a federate that asked to advance may do so under a bound.
pub open spec fn grantable(fs: FederateView, bound: u64) -> bool {
    match fs.time.pending_advance {
        Some(t) => !fs.time.is_constrained || not_after(t, bound),
        None => false,
    }
}

/// The federates that may advance under a bound.
pub open spec fn grantable_set(fed: FederationView, bound: u64) -> Set<u32> {
    Set::new(|f: u32| fed.federates.contains_key(f) && grantable(fed.federates[f], bound))
}

/// The federates that asked to advance.
pub open spec fn pending_set(fed: FederationView) -> Set<u32> {
    Set::new(
        |f: u32|
            fed.federates.contains_key(f) && fed.federates[f].time.pending_advance is Some,
    )
}

/// The number of messages at the head of a queue that are due at a time.
pub open spec fn due(q: Seq<TsoView>, t: u64) -> nat
    decreases q.len(),
{
    if q.len() == 0 || !not_after(q[0].time, t) {
        0
    } else {
        1 + due(q.skip(1), t)
    }
}

/// A federate without the messages that are due at a time.
pub open spec fn drained(fs: FederateView, t: u64) -> FederateView {
    FederateView { tso_queue: fs.tso_queue.skip(due(fs.tso_queue, t) as int), ..fs }
}

/// Messages on their way to a federate.
pub open spec fn messages_to(
    conns: Map<u64, u64>,
    federates: Map<u32, FederateView>,
    f: u32,
    q: Seq<TsoView>,
) -> Seq<OutboundView> {
    match connection_of(conns, federates, f) {
        Some(target) => q.map_values(
            |m: TsoView| OutboundView { target, callback: m.callback },
        ),
        None => Seq::empty(),
    }
}

/// The messages of a federate that are due at a time, on their way to it.
pub open spec fn released(
    conns: Map<u64, u64>,
    federates: Map<u32, FederateView>,
    f: u32,
    t: u64,
) -> Seq<OutboundView> {
    let q = federates[f].tso_queue;
    messages_to(conns, federates, f, q.take(due(q, t) as int))
}

/// The time that a federate asked for.
pub open spec fn asked(fs: FederateView) -> u64 {
    fs.time.pending_advance->0
}

/// The time state after the advance that was asked for.
pub open spec fn advanced(time: TimeState) -> TimeState {
    TimeState { current_time: time.pending_advance->0, pending_advance: None, ..time }
}

/// A federate after the grant of what it asked for: it has received what was
/// due, and stands at the time that it asked for.
pub open spec fn granted(fs: FederateView) -> FederateView {
    FederateView { time: advanced(fs.time), ..drained(fs, asked(fs)) }
}

/// The federates after a grant to a set of them.
pub open spec fn after_grants(federates: Map<u32, FederateView>, set: Set<u32>) -> Map<
    u32,
    FederateView,
> {
    Map::new(
        |f: u32| federates.contains_key(f),
        |f: u32|
            if set.contains(f) {
                granted(federates[f])
            } else {
                federates[f]
            },
    )
}

/// The messages that listed federates receive before their grants.
pub open spec fn releases(
    conns: Map<u64, u64>,
    federates: Map<u32, FederateView>,
    q: Seq<u32>,
) -> Seq<OutboundView>
    decreases q.len(),
{
    if q.len() == 0 {
        Seq::empty()
    } else {
        releases(conns, federates, q.drop_last()) + released(
            conns,
            federates,
            q.last(),
            asked(federates[q.last()]),
        )
    }
}

/// The grants to listed federates.
pub open spec fn grants(
    conns: Map<u64, u64>,
    federates: Map<u32, FederateView>,
    q: Seq<u32>,
) -> Seq<OutboundView>
    decreases q.len(),
{
    if q.len() == 0 {
        Seq::empty()
    } else {
        grants(conns, federates, q.drop_last()) + copies(
            live(conns, federates, set![q.last()]),
            time_advance_grant_view(asked(federates[q.last()])),
        )
    }
}

/// The federation after every grant that its present bound allows.
pub open spec fn after_round(fed: FederationView) -> FederationView {
    FederationView {
        federates: after_grants(fed.federates, grantable_set(fed, lower_bound(fed))),
        ..fed
    }
}

/// What is sent for every grant that the present bound allows: first the
/// messages that are due, then the grants.
pub open spec fn sent_in_round(fed: FederationView, conns: Map<u64, u64>) -> Seq<OutboundView> {
    let q = ascending(grantable_set(fed, lower_bound(fed)));
    releases(conns, fed.federates, q) + grants(conns, fed.federates, q)
}

/// The federation after all grants: as long as the grants raise the bound, more
/// may follow.
pub open spec fn after_all_grants(fed: FederationView) -> FederationView
    decreases pending_set(fed).len(),
{
    let bound = lower_bound(fed);
    if grantable_set(fed, bound) == Set::<u32>::empty() {
        fed
    } else if before(bound, lower_bound(after_round(fed))) {
        proof {
            lemma_round_settles(fed);
        }
        after_all_grants(after_round(fed))
    } else {
        after_round(fed)
    }
}

/// What is sent for all grants.
pub open spec fn sent_for_grants(fed: FederationView, conns: Map<u64, u64>) -> Seq<OutboundView>
    decreases pending_set(fed).len(),
{
    let bound = lower_bound(fed);
    if grantable_set(fed, bound) == Set::<u32>::empty() {
        Seq::empty()
    } else if before(bound, lower_bound(after_round(fed))) {
        proof {
            lemma_round_settles(fed);
        }
        sent_in_round(fed, conns) + sent_for_grants(after_round(fed), conns)
    } else {
        sent_in_round(fed, conns)
    }
}

/// A round with a grant leaves fewer federates waiting.
pub proof fn lemma_round_settles(fed: FederationView)
    requires
        grantable_set(fed, lower_bound(fed)) != Set::<u32>::empty(),
    ensures
        pending_set(after_round(fed)).len() < pending_set(fed).len(),
{
    let g = grantable_set(fed, lower_bound(fed));
    let p0 = pending_set(fed);
    let p1 = pending_set(after_round(fed));
    lemma_handles_finite(p0);
    lemma_handles_finite(p1);
    let f = choose|f: u32| g.contains(f);
    if !g.contains(f) {
        assert(g =~= Set::empty());
    }
    assert(p0.contains(f) && !p1.contains(f));
    assert(p1.subset_of(p0.remove(f)));
    vstd::set_lib::lemma_len_subset(p1, p0.remove(f));
}

/// The lower bound on time stamps of a federation.
pub fn lbts(federation: &Federation) -> (r: u64)
    requires
        federation.wf(),
    ensures
        r == lower_bound(federation@),
{
    let keys = federation.federates.keys();
    let ghost federates = federation@.federates;
    proof {
        lemma_ascending(federates.dom());
    }
    let mut bound: u64 = INFINITY;
    let mut i: usize = 0;
    while i < keys.len()
        invariant
            i <= keys@.len(),
            federation.wf(),
            federates == federation@.federates,
            keys@ == ascending(federates.dom()),
            forall|f: u32| #[trigger] keys@.contains(f) <==> federates.contains_key(f),
            bound == least_horizon(federates, keys@.take(i as int)),
        decreases keys@.len() - i,
    {
        proof {
            assert(keys@.take(i + 1).drop_last() =~= keys@.take(i as int));
            assert(keys@.contains(keys@[i as int]));
        }
        if let Some(fs) = federation.federates.get(keys[i]) {
            if fs.time.is_regulating {
                let h: u64 = stamp_plus(fs.time.current_time, fs.time.lookahead);
                if stamp_before(h, bound) {
                    bound = h;
                }
            }
        }
        i = i + 1;
    }
    assert(keys@.take(i as int) =~= keys@);
    bound
}

/// The connections of a single federate.
pub proof fn lemma_live_single(conns: Map<u64, u64>, federates: Map<u32, FederateView>, f: u32)
    ensures
        live(conns, federates, set![f]) == (match connection_of(conns, federates, f) {
            Some(c) => seq![c],
            None => Seq::empty(),
        }),
{
    let q = seq![f];
    assert(q.to_set() =~= set![f]) by {
        assert(q[0] == f);
    }
    lemma_ascending_is(q);
    assert(q.drop_last() =~= Seq::<u32>::empty());
    assert(connections_of(conns, federates, q.drop_last()) =~= Seq::empty());
}

/// The number of messages that are due is found at the head of the queue.
proof fn lemma_due(q: Seq<TsoView>, t: u64, n: int)
    requires
        0 <= n <= q.len(),
        forall|i: int| 0 <= i < n ==> not_after((#[trigger] q[i]).time, t),
        n < q.len() ==> !not_after(q[n].time, t),
    ensures
        due(q, t) == n,
    decreases n,
{
    if n > 0 {
        assert(not_after(q[0].time, t));
        lemma_due(q.skip(1), t, n - 1);
    }
}

/// In a queue in time order exactly the messages at its head that are due at a
/// time have time stamps up to that time.
pub proof fn due_messages_come_first(q: Seq<TsoView>, t: u64)
    requires
        in_time_order(q),
    ensures
        due(q, t) <= q.len(),
        forall|i: int| 0 <= i < due(q, t) ==> not_after((#[trigger] q[i]).time, t),
        forall|i: int| due(q, t) <= i < q.len() ==> !not_after((#[trigger] q[i]).time, t),
    decreases q.len(),
{
    if q.len() > 0 && not_after(q[0].time, t) {
        let tail = q.skip(1);
        assert forall|i: int, j: int| 0 <= i <= j < tail.len() implies rank(
            (#[trigger] tail[i]).time,
        ) <= rank((#[trigger] tail[j]).time) by {
            assert(rank(q[i + 1].time) <= rank(q[j + 1].time));
        }
        due_messages_come_first(tail, t);
        assert forall|i: int| 0 <= i < due(q, t) implies not_after((#[trigger] q[i]).time, t) by {
            if i > 0 {
                assert(q[i] == tail[i - 1]);
            }
        }
        assert forall|i: int| due(q, t) <= i < q.len() implies !not_after(
            (#[trigger] q[i]).time,
            t,
        ) by {
            assert(q[i] == tail[i - 1]);
        }
    } else if q.len() > 0 {
        assert forall|i: int| 0 <= i < q.len() implies !not_after((#[trigger] q[i]).time, t) by {
            assert(rank(q[0].time) <= rank(q[i].time));
        }
    }
}

/// Sends a federate its messages that are due at a time, and takes them off its
/// queue.
pub fn drain_tso_up_to(
    federation: &mut Federation,
    conns: &Connections,
    out: &mut Outbox,
    federate: FederateHandle,
    up_to: u64,
)
    requires
        old(federation).wf(),
    ensures
        final(federation).wf(),
        old(federation)@.federates.contains_key(federate) ==> {
            &&& final(federation)@ == old(federation)@.with_federate(
                federate,
                drained(old(federation)@.federates[federate], up_to),
            )
            &&& final(out)@ == old(out)@ + released(
                conns@,
                old(federation)@.federates,
                federate,
                up_to,
            )
        },
        !old(federation)@.federates.contains_key(federate) ==> {
            &&& final(federation)@ == old(federation)@
            &&& final(out)@ == old(out)@
        },
{
    broadcast use lemma_put_back;

    let targets = live_connections(conns, &federation.federates, &KeySet::single(federate));
    let mut fs = match federation.federates.remove(federate) {
        Some(fs) => fs,
        None => {
            assert(federation@.federates =~= old(federation)@.federates);
            return;
        },
    };
    let ghost fs0 = fs@;
    let ghost q = fs0.tso_queue;
    let mut cut: usize = 0;
    while cut < fs.tso_queue.len() && stamp_not_after(fs.tso_queue[cut].time, up_to)
        invariant
            cut <= fs.tso_queue@.len(),
            q == queue_view(fs.tso_queue@),
            forall|i: int| 0 <= i < cut ==> not_after((#[trigger] q[i]).time, up_to),
        ensures
            cut <= fs.tso_queue@.len(),
            q == queue_view(fs.tso_queue@),
            forall|i: int| 0 <= i < cut ==> not_after((#[trigger] q[i]).time, up_to),
            cut < q.len() ==> !not_after(q[cut as int].time, up_to),
        decreases fs.tso_queue@.len() - cut,
    {
        cut = cut + 1;
    }
    proof {
        lemma_due(q, up_to, cut as int);
    }
    let ghost all = fs.tso_queue@;
    let mut messages: Vec<TsoMessage> = fs.tso_queue.split_off(cut);
    core::mem::swap(&mut messages, &mut fs.tso_queue);
    proof {
        assert(queue_view(fs.tso_queue@) =~= q.skip(cut as int));
        assert(queue_view(messages@) =~= q.take(cut as int));
        assert(fs@ =~= drained(fs0, up_to));
    }
    federation.federates.insert(federate, fs);
    let mut i: usize = 0;
    let ghost federates = old(federation)@.federates;
    let ghost due_now = q.take(cut as int);
    proof {
        lemma_live_single(conns@, federates, federate);
        assert(old(out)@ + messages_to(conns@, federates, federate, due_now.take(0)) =~= old(out)@);
    }
    while i < messages.len()
        invariant
            i <= messages@.len(),
            due_now == queue_view(messages@),
            targets@ == live(conns@, federates, set![federate]),
            targets@ == (match connection_of(conns@, federates, federate) {
                Some(c) => seq![c],
                None => Seq::empty(),
            }),
            out@ == old(out)@ + messages_to(conns@, federates, federate, due_now.take(i as int)),
        decreases messages@.len() - i,
    {
        fan_out_shared(out, &targets, &messages[i].callback);
        proof {
            let m = due_now[i as int];
            assert(due_now.take(i + 1) =~= due_now.take(i as int).push(m));
            assert(messages_to(conns@, federates, federate, due_now.take(i + 1)) =~= messages_to(
                conns@,
                federates,
                federate,
                due_now.take(i as int),
            ) + copies(targets@, m.callback));
            assert(out@ =~= old(out)@ + messages_to(
                conns@,
                federates,
                federate,
                due_now.take(i + 1),
            ));
        }
        i = i + 1;
    }
    proof {
        assert(due_now.take(i as int) =~= due_now);
        assert(federation@ =~= old(federation)@.with_federate(federate, drained(fs0, up_to)));
    }
}

/// The federates after a set of them received what was due before their grants.
spec fn after_releases(federates: Map<u32, FederateView>, set: Set<u32>) -> Map<u32, FederateView> {
    Map::new(
        |f: u32| federates.contains_key(f),
        |f: u32|
            if set.contains(f) {
                drained(federates[f], asked(federates[f]))
            } else {
                federates[f]
            },
    )
}

/// The federates between the releases to `all` and the grants to `done`.
spec fn between(
    federates: Map<u32, FederateView>,
    all: Set<u32>,
    done: Set<u32>,
) -> Map<u32, FederateView> {
    Map::new(
        |f: u32| federates.contains_key(f),
        |f: u32|
            if done.contains(f) {
                granted(federates[f])
            } else if all.contains(f) {
                drained(federates[f], asked(federates[f]))
            } else {
                federates[f]
            },
    )
}

/// A federate keeps a valid state when it is granted what it asked for.
pub proof fn lemma_granted_wf(fs: FederateView)
    requires
        fs.wf(),
        fs.time.pending_advance is Some,
    ensures
        granted(fs).wf(),
{
    let t = asked(fs);
    let q = fs.tso_queue;
    let n = due(q, t) as int;
    due_messages_come_first(q, t);
    let rest = q.skip(n);
    assert forall|i: int, j: int| 0 <= i <= j < rest.len() implies rank((#[trigger] rest[i]).time)
        <= rank((#[trigger] rest[j]).time) by {
        assert(rank(q[i + n].time) <= rank(q[j + n].time));
    }
    assert forall|i: int| 0 <= i < rest.len() implies before(t, (#[trigger] rest[i]).time) by {
        assert(rest[i] == q[i + n]);
        assert(!not_after(q[i + n].time, t));
    }
}

/// Grants listed federates what they asked for.
pub fn grant_listed(
    federation: &mut Federation,
    conns: &Connections,
    out: &mut Outbox,
    q: &Vec<u32>,
)
    requires
        old(federation).wf(),
        q@.no_duplicates(),
        forall|i: int|
            0 <= i < q@.len() ==> old(federation)@.federates.contains_key(#[trigger] q@[i]) && old(
                federation,
            )@.federates[q@[i]].time.pending_advance is Some,
    ensures
        final(federation).wf(),
        final(federation)@ == (FederationView {
            federates: after_grants(old(federation)@.federates, q@.to_set()),
            ..old(federation)@
        }),
        final(out)@ == old(out)@ + (releases(conns@, old(federation)@.federates, q@) + grants(
            conns@,
            old(federation)@.federates,
            q@,
        )),
{
    broadcast use lemma_put_back;

    let ghost f0 = old(federation)@.federates;
    let mut i: usize = 0;
    proof {
        assert(after_releases(f0, q@.take(0).to_set()) =~= f0);
        assert(old(out)@ + releases(conns@, f0, q@.take(0)) =~= old(out)@);
    }
    while i < q.len()
        invariant
            i <= q@.len(),
            federation.wf(),
            q@.no_duplicates(),
            f0 == old(federation)@.federates,
            forall|k: int|
                0 <= k < q@.len() ==> f0.contains_key(#[trigger] q@[k])
                    && f0[q@[k]].time.pending_advance is Some,
            federation@ == (FederationView {
                federates: after_releases(f0, q@.take(i as int).to_set()),
                ..old(federation)@
            }),
            out@ == old(out)@ + releases(conns@, f0, q@.take(i as int)),
        decreases q@.len() - i,
    {
        let f = q[i];
        let ghost before_f = q@.take(i as int);
        let ghost after_f = q@.take(i + 1);
        let ghost cur = federation@.federates;
        proof {
            assert(after_f =~= before_f.push(f));
            assert(after_f.drop_last() =~= before_f);
            assert(!before_f.contains(f)) by {
                if before_f.contains(f) {
                    let k = before_f.index_of(f);
                    assert(q@[k] == q@[i as int]);
                }
            }
            assert(f0.contains_key(q@[i as int]));
            assert(cur[f] == f0[f]);
            assert forall|g: u32| after_f.to_set().contains(g) <==> before_f.to_set().contains(g) || g
                == f by {
                broadcast use vstd::seq_lib::group_seq_properties;
            }
        }
        let t: u64 = match federation.federates.get(f) {
            Some(fs) => match fs.time.pending_advance {
                Some(t) => t,
                None => 0,
            },
            None => 0,
        };
        drain_tso_up_to(federation, conns, out, f, t);
        proof {
            assert(federation@.federates =~= after_releases(f0, after_f.to_set()));
            assert(released(conns@, cur, f, t) == released(conns@, f0, f, t));
            assert(out@ =~= old(out)@ + releases(conns@, f0, after_f));
        }
        i = i + 1;
    }
    let ghost all = q@.to_set();
    let ghost sent = releases(conns@, f0, q@);
    let mut j: usize = 0;
    proof {
        assert(q@.take(i as int) =~= q@);
        assert(after_releases(f0, all) =~= between(f0, all, q@.take(0).to_set()));
        assert(old(out)@ + sent + grants(conns@, f0, q@.take(0)) =~= old(out)@ + sent);
    }
    while j < q.len()
        invariant
            j <= q@.len(),
            federation.wf(),
            old(federation).wf(),
            q@.no_duplicates(),
            f0 == old(federation)@.federates,
            all == q@.to_set(),
            forall|k: int|
                0 <= k < q@.len() ==> f0.contains_key(#[trigger] q@[k])
                    && f0[q@[k]].time.pending_advance is Some,
            federation@ == (FederationView {
                federates: between(f0, all, q@.take(j as int).to_set()),
                ..old(federation)@
            }),
            out@ == old(out)@ + sent + grants(conns@, f0, q@.take(j as int)),
        decreases q@.len() - j,
    {
        let f = q[j];
        let ghost before_f = q@.take(j as int);
        let ghost after_f = q@.take(j + 1);
        let ghost cur = federation@.federates;
        proof {
            assert(after_f =~= before_f.push(f));
            assert(after_f.drop_last() =~= before_f);
            assert(!before_f.contains(f)) by {
                if before_f.contains(f) {
                    let k = before_f.index_of(f);
                    assert(q@[k] == q@[j as int]);
                }
            }
            assert(f0.contains_key(q@[j as int]));
            assert(all.contains(f));
            assert(cur[f] == drained(f0[f], asked(f0[f])));
            assert forall|g: u32| after_f.to_set().contains(g) <==> before_f.to_set().contains(g) || g
                == f by {
                broadcast use vstd::seq_lib::group_seq_properties;
            }
        }
        let targets = live_connections(conns, &federation.federates, &KeySet::single(f));
        if let Some(mut fs) = federation.federates.remove(f) {
            let t: u64 = match fs.time.pending_advance {
                Some(t) => t,
                None => 0,
            };
            fs.time.current_time = t;
            fs.time.pending_advance = None;
            assert(fs@ =~= granted(f0[f]));
            federation.federates.insert(f, fs);
            fan_out(out, &targets, time_advance_grant(t));
            proof {
                lemma_live_single(conns@, cur, f);
                lemma_live_single(conns@, f0, f);
                assert(connection_of(conns@, cur, f) == connection_of(conns@, f0, f));
                assert(out@ =~= old(out)@ + sent + grants(conns@, f0, after_f));
                assert(federation@.federates =~= between(f0, all, after_f.to_set()));
                lemma_granted_wf(f0[f]);
                assert(federation@.wf());
            }
        }
        j = j + 1;
    }
    proof {
        assert(q@.take(j as int) =~= q@);
        assert(between(f0, all, all) =~= after_grants(f0, all));
        assert(out@ =~= old(out)@ + (sent + grants(conns@, f0, q@)));
    }
}

/// Grants every federate that asked to advance and now may, as long as the
/// grants raise the bound.
pub fn try_grant_pending_advances(
    federation: &mut Federation,
    conns: &Connections,
    out: &mut Outbox,
)
    requires
        old(federation).wf(),
    ensures
        final(federation).wf(),
        final(federation)@ == after_all_grants(old(federation)@),
        final(out)@ == old(out)@ + sent_for_grants(old(federation)@, conns@),
    decreases pending_set(old(federation)@).len(),
{
    let bound = lbts(federation);
    let keys = federation.federates.keys();
    let ghost f0 = old(federation)@;
    let ghost g = grantable_set(f0, bound);
    proof {
        lemma_ascending(f0.federates.dom());
    }
    let mut q: Vec<u32> = Vec::new();
    let mut i: usize = 0;
    while i < keys.len()
        invariant
            i <= keys@.len(),
            *federation == *old(federation),
            f0 == federation@,
            g == grantable_set(f0, bound),
            keys@ == ascending(f0.federates.dom()),
            forall|f: u32| #[trigger] keys@.contains(f) <==> f0.federates.contains_key(f),
            forall|a: int, b: int| 0 <= a < b < keys@.len() ==> keys@[a] < keys@[b],
            forall|a: int, b: int| 0 <= a < b < q@.len() ==> q@[a] < q@[b],
            forall|a: int| 0 <= a < q@.len() ==> g.contains(#[trigger] q@[a]),
            forall|a: int|
                0 <= a < q@.len() ==> exists|b: int| 0 <= b < i && #[trigger] q@[a] == keys@[b],
            forall|b: int|
                0 <= b < i && g.contains(#[trigger] keys@[b]) ==> q@.contains(keys@[b]),
        decreases keys@.len() - i,
    {
        let f = keys[i];
        proof {
            assert(keys@.contains(keys@[i as int]));
        }
        let ghost q0 = q@;
        if let Some(fs) = federation.federates.get(f) {
            if let Some(t) = fs.time.pending_advance {
                if !fs.time.is_constrained || stamp_not_after(t, bound) {
                    q.push(f);
                    assert(q@[q0.len() as int] == f);
                }
            }
        }
        proof {
            assert forall|b: int| 0 <= b < i + 1 && g.contains(#[trigger] keys@[b]) implies q@.contains(
                keys@[b],
            ) by {
                if b < i {
                    let k = q0.index_of(keys@[b]);
                    assert(q@[k] == keys@[b]);
                }
            }
        }
        i = i + 1;
    }
    proof {
        assert(q@.to_set() =~= g) by {
            assert forall|f: u32| q@.to_set().contains(f) <==> g.contains(f) by {
                if g.contains(f) {
                    assert(keys@.contains(f));
                    let b = keys@.index_of(f);
                    assert(g.contains(keys@[b]));
                }
            }
        }
        lemma_ascending_is(q@);
    }
    if q.len() == 0 {
        proof {
            assert(g =~= Set::empty());
            assert(out@ =~= old(out)@ + Seq::<OutboundView>::empty());
        }
        return;
    }
    proof {
        assert(g.contains(q@[0]));
        assert(g != Set::<u32>::empty());
        lemma_round_settles(f0);
    }
    grant_listed(federation, conns, out, &q);
    assert(federation@ =~= after_round(f0));
    let new_bound = lbts(federation);
    if stamp_before(bound, new_bound) {
        try_grant_pending_advances(federation, conns, out);
        assert(out@ =~= old(out)@ + sent_for_grants(f0, conns@));
    }
}

/// The least horizon of listed federates is not above any of them, and is one
/// of them or infinite.
proof fn lemma_least_horizon(federates: Map<u32, FederateView>, q: Seq<u32>)
    requires
        forall|i: int|
            0 <= i < q.len() ==> federates.contains_key(#[trigger] q[i]) && federates[q[i]].time.wf(),
    ensures
        !is_nan(least_horizon(federates, q)),
        forall|f: u32| #[trigger]
            q.contains(f) && federates[f].time.is_regulating ==> not_after(
                least_horizon(federates, q),
                horizon(federates[f]),
            ),
        least_horizon(federates, q) == INFINITY || exists|f: u32| #[trigger]
            q.contains(f) && federates[f].time.is_regulating && horizon(federates[f])
                == least_horizon(federates, q),
    decreases q.len(),
{
    if q.len() > 0 {
        let front = q.drop_last();
        let last = q.last();
        lemma_least_horizon(federates, front);
        assert(federates.contains_key(q[q.len() - 1]));
        plus_is_a_number(federates[last].time.current_time, federates[last].time.lookahead);
        assert forall|f: u32| #[trigger] q.contains(f) && federates[f].time.is_regulating implies not_after(
            least_horizon(federates, q),
            horizon(federates[f]),
        ) by {
            let k = q.index_of(f);
            if k < q.len() - 1 {
                assert(front[k] == f);
                assert(front.contains(f));
            }
        }
        if federates[last].time.is_regulating && before(
            horizon(federates[last]),
            least_horizon(federates, front),
        ) {
            assert(q[q.len() - 1] == last);
            assert(q.contains(last));
        } else if least_horizon(federates, q) != INFINITY {
            let f = choose|f: u32| #[trigger]
                front.contains(f) && federates[f].time.is_regulating && horizon(federates[f])
                    == least_horizon(federates, front);
            let k = front.index_of(f);
            assert(q[k] == f);
            assert(q.contains(f));
        }
    }
}

/// The lower bound is not above the horizon of any regulating federate; it is
/// the horizon of one of them, or infinite where nobody regulates.
pub proof fn lower_bound_is_least_horizon(fed: FederationView)
    requires
        fed.wf(),
    ensures
        !is_nan(lower_bound(fed)),
        forall|f: u32| #[trigger]
            fed.federates.contains_key(f) && fed.federates[f].time.is_regulating ==> not_after(
                lower_bound(fed),
                horizon(fed.federates[f]),
            ),
        lower_bound(fed) == INFINITY || exists|f: u32| #[trigger]
            fed.federates.contains_key(f) && fed.federates[f].time.is_regulating && horizon(
                fed.federates[f],
            ) == lower_bound(fed),
{
    let q = ascending(fed.federates.dom());
    lemma_handles_finite(fed.federates.dom());
    lemma_ascending(fed.federates.dom());
    assert forall|i: int| 0 <= i < q.len() implies fed.federates.contains_key(#[trigger] q[i])
        && fed.federates[q[i]].time.wf() by {
        assert(q.contains(q[i]));
        assert(fed.federates.contains_key(q[i]));
    }
    lemma_least_horizon(fed.federates, q);
    if lower_bound(fed) != INFINITY {
        let f = choose|f: u32| #[trigger]
            q.contains(f) && fed.federates[f].time.is_regulating && horizon(fed.federates[f])
                == lower_bound(fed);
        assert(fed.federates.contains_key(f));
    }
    assert forall|f: u32| #[trigger]
        fed.federates.contains_key(f) && fed.federates[f].time.is_regulating implies not_after(
        lower_bound(fed),
        horizon(fed.federates[f]),
    ) by {
        assert(q.contains(f));
    }
}

/// A round of grants keeps the federation well formed.
proof fn lemma_round_wf(fed: FederationView)
    requires
        fed.wf(),
    ensures
        after_round(fed).wf(),
        after_round(fed).federates.dom() == fed.federates.dom(),
{
    let next = after_round(fed);
    assert forall|f: u32| #[trigger] next.federates.contains_key(f) implies next.federates[f].handle
        == f && next.federates[f].wf() by {
        assert(fed.federates.contains_key(f));
        if grantable_set(fed, lower_bound(fed)).contains(f) {
            lemma_granted_wf(fed.federates[f]);
        }
    }
    assert(next.federates.dom() =~= fed.federates.dom());
}

/// A round of grants does not lower the bound.
proof fn lemma_round_bound(fed: FederationView)
    requires
        fed.wf(),
    ensures
        not_after(lower_bound(fed), lower_bound(after_round(fed))),
{
    let next = after_round(fed);
    lemma_round_wf(fed);
    lower_bound_is_least_horizon(fed);
    lower_bound_is_least_horizon(next);
    if lower_bound(next) != INFINITY {
        let f = choose|f: u32| #[trigger]
            next.federates.contains_key(f) && next.federates[f].time.is_regulating && horizon(
                next.federates[f],
            ) == lower_bound(next);
        let old_time = fed.federates[f].time;
        let new_time = next.federates[f].time;
        assert(fed.federates.contains_key(f));
        assert(not_after(lower_bound(fed), horizon(fed.federates[f])));
        assert(not_after(old_time.current_time, new_time.current_time));
        plus_keeps_order(old_time.current_time, new_time.current_time, old_time.lookahead);
    }
}

/// Granting does not lower the bound on time stamps.
pub proof fn grants_do_not_lower_the_bound(fed: FederationView)
    requires
        fed.wf(),
    ensures
        after_all_grants(fed).wf(),
        after_all_grants(fed).federates.dom() == fed.federates.dom(),
        not_after(lower_bound(fed), lower_bound(after_all_grants(fed))),
    decreases pending_set(fed).len(),
{
    lower_bound_is_least_horizon(fed);
    lemma_round_wf(fed);
    lemma_round_bound(fed);
    if grantable_set(fed, lower_bound(fed)) != Set::<u32>::empty() && before(
        lower_bound(fed),
        lower_bound(after_round(fed)),
    ) {
        lemma_round_settles(fed);
        grants_do_not_lower_the_bound(after_round(fed));
    }
}

/// Granting goes on until nobody is left who may advance.
pub proof fn nobody_is_left_to_grant(fed: FederationView)
    requires
        fed.wf(),
    ensures
        grantable_set(after_all_grants(fed), lower_bound(after_all_grants(fed))) == Set::<
            u32,
        >::empty(),
    decreases pending_set(fed).len(),
{
    let bound = lower_bound(fed);
    let next = after_round(fed);
    if grantable_set(fed, bound) != Set::<u32>::empty() {
        lemma_round_wf(fed);
        lemma_round_bound(fed);
        if before(bound, lower_bound(next)) {
            lemma_round_settles(fed);
            nobody_is_left_to_grant(next);
        } else {
            let left = grantable_set(next, lower_bound(next));
            assert forall|f: u32| !left.contains(f) by {
                if left.contains(f) {
                    assert(fed.federates.contains_key(f));
                    assert(!grantable_set(fed, bound).contains(f));
                }
            }
            assert(left =~= Set::empty());
        }
    }
}

/// A federate either stays as it was or is granted exactly what it asked for;
/// where it is constrained, what it asked for does not exceed the bound.
pub proof fn grants_respect_the_bound(fed: FederationView, f: FederateHandle)
    requires
        fed.wf(),
        fed.federates.contains_key(f),
    ensures
        ({
            let fs = fed.federates[f];
            let next = after_all_grants(fed);
            &&& next.federates.contains_key(f)
            &&& next.federates[f] != fs ==> {
                &&& fs.time.pending_advance is Some
                &&& next.federates[f] == granted(fs)
                &&& fs.time.is_constrained ==> not_after(asked(fs), lower_bound(next))
            }
        }),
    decreases pending_set(fed).len(),
{
    let bound = lower_bound(fed);
    let next = after_round(fed);
    if grantable_set(fed, bound) != Set::<u32>::empty() {
        lemma_round_wf(fed);
        lemma_round_bound(fed);
        grants_do_not_lower_the_bound(fed);
        if before(bound, lower_bound(next)) {
            lemma_round_settles(fed);
            grants_respect_the_bound(next, f);
            grants_do_not_lower_the_bound(next);
        }
    }
}

/// Grants change nothing of a federation but the state of its federates.
pub proof fn grants_change_federates_only(fed: FederationView)
    ensures
        after_all_grants(fed) == (FederationView {
            federates: after_all_grants(fed).federates,
            ..fed
        }),
    decreases pending_set(fed).len(),
{
    if grantable_set(fed, lower_bound(fed)) != Set::<u32>::empty() && before(
        lower_bound(fed),
        lower_bound(after_round(fed)),
    ) {
        lemma_round_settles(fed);
        grants_change_federates_only(after_round(fed));
    }
}

/// Whether two states of a federate differ in its time and its queue at most.
pub open spec fn same_but_time(a: FederateView, b: FederateView) -> bool {
    b == (FederateView { time: b.time, tso_queue: b.tso_queue, ..a })
}

/// Grants let every federate stay, and change nothing of it but its time and its
/// queue.
pub proof fn grants_keep_the_members(fed: FederationView, f: FederateHandle)
    ensures
        after_all_grants(fed).federates.contains_key(f) <==> fed.federates.contains_key(f),
        fed.federates.contains_key(f) ==> same_but_time(
            fed.federates[f],
            after_all_grants(fed).federates[f],
        ),
    decreases pending_set(fed).len(),
{
    let bound = lower_bound(fed);
    let next = after_round(fed);
    if grantable_set(fed, bound) != Set::<u32>::empty() {
        assert(next.federates.contains_key(f) <==> fed.federates.contains_key(f));
        if fed.federates.contains_key(f) {
            assert(same_but_time(fed.federates[f], next.federates[f]));
        }
        if before(bound, lower_bound(next)) {
            lemma_round_settles(fed);
            grants_keep_the_members(next, f);
        }
    }
}

/// Whether nobody waits who may advance.
pub open spec fn settled(fed: FederationView) -> bool {
    grantable_set(fed, lower_bound(fed)) == Set::<u32>::empty()
}

/// Whether two states have the same federates, at the same times.
pub open spec fn same_times(a: FederationView, b: FederationView) -> bool {
    &&& a.federates.dom() =~= b.federates.dom()
    &&& forall|f: u32| #[trigger]
        a.federates.contains_key(f) ==> a.federates[f].time == b.federates[f].time
}

/// Whether two states have the same federates, with the same horizons.
pub open spec fn same_horizons(a: FederationView, b: FederationView) -> bool {
    &&& a.federates.dom() =~= b.federates.dom()
    &&& forall|f: u32| #[trigger]
        a.federates.contains_key(f) ==> horizon(a.federates[f]) == horizon(b.federates[f])
            && a.federates[f].time.is_regulating == b.federates[f].time.is_regulating
}

proof fn lemma_same_horizon(a: FederationView, b: FederationView, q: Seq<u32>)
    requires
        same_horizons(a, b),
        forall|i: int| 0 <= i < q.len() ==> a.federates.contains_key(#[trigger] q[i]),
    ensures
        least_horizon(a.federates, q) == least_horizon(b.federates, q),
    decreases q.len(),
{
    if q.len() > 0 {
        lemma_same_horizon(a, b, q.drop_last());
        assert(a.federates.contains_key(q[q.len() - 1]));
    }
}

/// The bound rests on the horizons of the federates alone.
pub proof fn lemma_same_bound(a: FederationView, b: FederationView)
    requires
        same_horizons(a, b),
    ensures
        lower_bound(a) == lower_bound(b),
{
    let q = ascending(a.federates.dom());
    lemma_handles_finite(a.federates.dom());
    lemma_ascending(a.federates.dom());
    assert forall|i: int| 0 <= i < q.len() implies a.federates.contains_key(#[trigger] q[i]) by {
        assert(q.contains(q[i]));
    }
    lemma_same_horizon(a, b, q);
}

/// Whether somebody waits in vain rests on the times of the federates alone.
pub proof fn lemma_same_times(a: FederationView, b: FederationView)
    requires
        same_times(a, b),
    ensures
        settled(a) ==> settled(b),
{
    lemma_same_bound(a, b);
    let bound = lower_bound(a);
    assert forall|f: u32| grantable_set(b, bound).contains(f) implies grantable_set(
        a,
        bound,
    ).contains(f) by {
        assert(a.federates.contains_key(f));
    }
    if settled(a) {
        assert(grantable_set(b, bound) =~= Set::empty());
    }
}

/// Whether every federate of a state is still there in another one, and its time
/// has not gone back.
pub open spec fn moves_forward(fed: FederationView, next: FederationView) -> bool {
    forall|f: u32| #[trigger]
        fed.federates.contains_key(f) ==> next.federates.contains_key(f) && not_after(
            fed.federates[f].time.current_time,
            next.federates[f].time.current_time,
        )
}

/// Grants do not turn the time of a federate back.
pub proof fn grants_move_forward(fed: FederationView)
    requires
        fed.wf(),
    ensures
        moves_forward(fed, after_all_grants(fed)),
{
    assert forall|f: u32| #[trigger]
        fed.federates.contains_key(f) implies after_all_grants(fed).federates.contains_key(f)
        && not_after(
        fed.federates[f].time.current_time,
        after_all_grants(fed).federates[f].time.current_time,
    ) by {
        grants_respect_the_bound(fed, f);
        assert(fed.federates[f].wf());
    }
}

/// A grant loses no message and brings none early: what was queued up to the
/// granted time is sent in its order, and the rest stays in the queue.
pub proof fn a_grant_delivers_what_is_due(
    conns: Map<u64, u64>,
    federates: Map<u32, FederateView>,
    f: u32,
)
    requires
        federates.contains_key(f),
        federates[f].wf(),
        federates[f].time.pending_advance is Some,
        connection_of(conns, federates, f) is Some,
    ensures
        ({
            let fs = federates[f];
            let sent = released(conns, federates, f, asked(fs));
            let left = granted(fs).tso_queue;
            &&& sent.len() + left.len() == fs.tso_queue.len()
            &&& forall|i: int|
                0 <= i < sent.len() ==> (#[trigger] sent[i]).callback == fs.tso_queue[i].callback
                    && sent[i].target == connection_of(conns, federates, f)->0 && not_after(
                    fs.tso_queue[i].time,
                    asked(fs),
                )
            &&& forall|i: int|
                0 <= i < left.len() ==> (#[trigger] left[i]) == fs.tso_queue[sent.len() + i]
                    && !not_after(left[i].time, asked(fs))
        }),
{
    due_messages_come_first(federates[f].tso_queue, asked(federates[f]));
}

/// The time management state of a federate: its time and lookahead, whether it
/// regulates and whether it is constrained.
pub open spec fn time_entry(fed: FederationView, f: u32) -> (u32, (u64, u64, bool, bool)) {
    let time = fed.federates[f].time;
    (f, (time.current_time, time.lookahead, time.is_regulating, time.is_constrained))
}

/// The time management state of every federate, by handle.
pub fn snapshot(federation: &Federation) -> (r: Vec<(u32, (u64, u64, bool, bool))>)
    ensures
        r@.len() == federation@.federates.dom().len(),
        forall|i: int|
            0 <= i < r@.len() ==> #[trigger] r@[i] == time_entry(
                federation@,
                ascending(federation@.federates.dom())[i],
            ),
{
    let keys = federation.federates.keys();
    proof {
        lemma_ascending(federation@.federates.dom());
    }
    let mut r: Vec<(u32, (u64, u64, bool, bool))> = Vec::new();
    let mut i: usize = 0;
    while i < keys.len()
        invariant
            i <= keys@.len(),
            r@.len() == i,
            forall|f: u32| #[trigger]
                keys@.contains(f) <==> federation@.federates.contains_key(f),
            forall|k: int| 0 <= k < i ==> #[trigger] r@[k] == time_entry(federation@, keys@[k]),
        decreases keys@.len() - i,
    {
        assert(keys@.contains(keys@[i as int]));
        if let Some(fs) = federation.federates.get(keys[i]) {
            let time = fs.time;
            r.push(
                (
                    keys[i],
                    (time.current_time, time.lookahead, time.is_regulating, time.is_constrained),
                ),
            );
        }
        i = i + 1;
    }
    r
}

} // verus!

//! Restores: who is told of them, and what a snapshot holds and gives back.

use crate::callbacks::CallbackView;
use crate::dispatch::calls::{
    coordination_outcome, exchange_outcome, file_wanted, lookup_reply, member_file, member_outcome,
    quiet_outcome,
};
use crate::dispatch::restore::{
    initiations, request_restore_outcome, restore_failed, restore_settled, restoring,
    SnapshotLoadView,
};
use crate::exception::HlaException;
use crate::federation::{
    FederateView, FederationView, InstanceView, RestoreStatus, RestoreView, SyncPointView,
};
use crate::handles::bytes_of_u32;
use crate::laws::{
    lemma_tells_set, lemma_tells_two, only_if, own_sessions, refuses, same_sessions, serves, tells,
};
use crate::messages::{CallRequest, Service};
use crate::node::NodeView;
use crate::persistence::{
    file_name_of, handle_named, handles_named, joined_among, names_of, namesakes, owned_by_joined,
    restored_instances, restored_next, restored_owners, restored_point, restored_points,
    saved_owners, SerInstanceView, SerSyncPointView,
};
use crate::routing::deliveries;
use crate::session::SessionContext;
use crate::subscriptions::lemma_handles_finite;
use crate::tables::{ascending, lemma_ascending, Key};
use vstd::prelude::*;

verus! {

/// What a federate is told when a restore begins.
pub open spec fn restore_call(
    fed: FederationView,
    me: u32,
    label: Seq<char>,
    f: u32,
) -> Seq<CallbackView> {
    only_if(f == me, CallbackView::RequestFederationRestoreSucceeded { label }) + seq![
        CallbackView::FederationRestoreBegun,
        CallbackView::InitiateFederateRestore {
            label,
            federate_name: fed.federates[f].name,
            post_restore_federate_handle: bytes_of_u32(f),
        },
    ]
}

proof fn lemma_initiations(
    conns: Map<u64, u64>,
    before: Map<u32, FederateView>,
    fed: FederationView,
    q: Seq<u32>,
    label: Seq<char>,
)
    requires
        own_sessions(before),
        same_sessions(before, fed.federates),
        q.no_duplicates(),
    ensures
        tells(
            initiations(conns, fed, q, label),
            conns,
            before,
            |f: u32|
                only_if(
                    q.contains(f),
                    CallbackView::InitiateFederateRestore {
                        label,
                        federate_name: fed.federates[f].name,
                        post_restore_federate_handle: bytes_of_u32(f),
                    },
                ),
        ),
    decreases q.len(),
{
    let call = |f: u32|
        CallbackView::InitiateFederateRestore {
            label,
            federate_name: fed.federates[f].name,
            post_restore_federate_handle: bytes_of_u32(f),
        };
    let what = |f: u32| only_if(q.contains(f), call(f));
    if q.len() == 0 {
        assert(tells(Seq::empty(), conns, before, what));
    } else {
        let rest = q.drop_last();
        let last = q.last();
        lemma_initiations(conns, before, fed, rest, label);
        let one = |f: u32| only_if(f == last, call(last));
        lemma_tells_set(conns, before, fed, set![last], call(last), one);
        assert forall|f: u32| #[trigger] before.contains_key(f) implies what(f) =~= only_if(
            rest.contains(f),
            call(f),
        ) + one(f) by {
            if q.contains(f) && f != last {
                let i = q.index_of(f);
                assert(rest[i] == f);
            }
            if rest.contains(f) {
                let i = rest.index_of(f);
                assert(q[i] == f);
            }
            assert(q[q.len() - 1] == last);
        }
        lemma_tells_two(
            initiations(conns, fed, rest, label),
            deliveries(conns, fed, set![last], call(last)),
            conns,
            before,
            |f: u32| only_if(rest.contains(f), call(f)),
            one,
            what,
        );
    }
}

proof fn lemma_restore_called(
    fed: FederationView,
    next: FederationView,
    conns: Map<u64, u64>,
    me: u32,
    label: Seq<char>,
)
    requires
        own_sessions(fed.federates),
        next.federates == fed.federates,
    ensures
        ({
            let granted = CallbackView::RequestFederationRestoreSucceeded { label };
            let all = fed.federates.dom();
            let sent = deliveries(conns, next, set![me], granted) + deliveries(
                conns,
                next,
                all,
                CallbackView::FederationRestoreBegun,
            ) + initiations(conns, next, ascending(all), label);
            tells(sent, conns, fed.federates, |f: u32| restore_call(fed, me, label, f))
        }),
{
    let all = fed.federates.dom();
    let granted = CallbackView::RequestFederationRestoreSucceeded { label };
    let begun = CallbackView::FederationRestoreBegun;
    let q = ascending(all);
    lemma_handles_finite(all);
    lemma_ascending(all);
    let first = |f: u32| only_if(f == me, granted);
    let second = |f: u32| seq![begun];
    let both = |f: u32| only_if(f == me, granted) + seq![begun];
    let third = |f: u32|
        only_if(
            q.contains(f),
            CallbackView::InitiateFederateRestore {
                label,
                federate_name: next.federates[f].name,
                post_restore_federate_handle: bytes_of_u32(f),
            },
        );
    lemma_tells_set(conns, fed.federates, next, set![me], granted, first);
    lemma_tells_set(conns, fed.federates, next, all, begun, second);
    lemma_tells_two(
        deliveries(conns, next, set![me], granted),
        deliveries(conns, next, all, begun),
        conns,
        fed.federates,
        first,
        second,
        both,
    );
    lemma_initiations(conns, fed.federates, next, q, label);
    lemma_tells_two(
        deliveries(conns, next, set![me], granted) + deliveries(conns, next, all, begun),
        initiations(conns, next, q, label),
        conns,
        fed.federates,
        both,
        third,
        |f: u32| restore_call(fed, me, label, f),
    );
}

proof fn lemma_restore_served(
    fed: FederationView,
    conns: Map<u64, u64>,
    me: u32,
    label: String,
    load: SnapshotLoadView,
)
    ensures
        member_outcome(fed, conns, me, CallRequest::RequestFederationRestore { label }, load)
            == request_restore_outcome(fed, conns, me, label@, load),
{
    reveal(lookup_reply);
    reveal(quiet_outcome);
    reveal(exchange_outcome);
    reveal(coordination_outcome);
}

/// A request for a restore, where the snapshot could be read or there is none, begins
/// one under its label, in which every federate still has to restore: who asked is told
/// that it is granted, and then every federate that it begins, and under which name and
/// handle it goes on. Where the snapshot cannot be read only who asked is told, and
/// nothing changes. A restore needs a label, and there is one at a time.
pub proof fn a_restore_is_begun_with_everybody(
    fed: FederationView,
    conns: Map<u64, u64>,
    me: u32,
    label: String,
    load: SnapshotLoadView,
)
    requires
        own_sessions(fed.federates),
    ensures
        ({
            let request = CallRequest::RequestFederationRestore { label };
            let o = member_outcome(fed, conns, me, request, load);
            &&& label@.len() == 0 ==> refuses(o, fed, HlaException::InvalidRestoreLabel)
            &&& label@.len() > 0 && load is Failed ==> {
                &&& serves(o, Service::RequestFederationRestore)
                &&& o.fed == fed
                &&& tells(
                    o.sent,
                    conns,
                    fed.federates,
                    |f: u32|
                        only_if(
                            f == me,
                            CallbackView::RequestFederationRestoreFailed { label: label@ },
                        ),
                )
            }
            &&& label@.len() > 0 && !(load is Failed) && fed.current_restore is Some ==> refuses(
                o,
                fed,
                HlaException::RestoreInProgress,
            )
            &&& label@.len() > 0 && !(load is Failed) && fed.current_restore is None ==> {
                &&& serves(o, Service::RequestFederationRestore)
                &&& o.fed.current_restore matches Some(restore) && restore.label == label@ && (
                forall|f: u32| #[trigger]
                    restore.statuses.contains_key(f) <==> fed.federates.contains_key(f)) && (forall|
                    f: u32,
                | #[trigger]
                    restore.statuses.contains_key(f) ==> restore.statuses[f]
                        == RestoreStatus::Initiated)
                &&& load is NotFound ==> o.fed == (FederationView {
                    current_restore: o.fed.current_restore,
                    ..fed
                })
                &&& load is Found ==> o.fed == (FederationView {
                    current_restore: o.fed.current_restore,
                    object_instances: o.fed.object_instances,
                    sync_points: o.fed.sync_points,
                    next_object_id: o.fed.next_object_id,
                    renumbered: o.fed.renumbered,
                    ..fed
                })
                &&& tells(
                    o.sent,
                    conns,
                    fed.federates,
                    |f: u32| restore_call(fed, me, label@, f),
                )
            }
        }),
{
    lemma_restore_served(fed, conns, me, label, load);
    if label@.len() > 0 && load is Failed {
        let failed = CallbackView::RequestFederationRestoreFailed { label: label@ };
        lemma_tells_set(
            conns,
            fed.federates,
            fed,
            set![me],
            failed,
            |f: u32| only_if(f == me, failed),
        );
    }
    if label@.len() > 0 && !(load is Failed) && fed.current_restore is None {
        lemma_restore_called(fed, restoring(fed, label@, load), conns, me, label@);
    }
}

/// The word of a federate on how its restore went.
pub open spec fn restore_word(successfully: bool) -> CallRequest {
    if successfully {
        CallRequest::FederateRestoreComplete
    } else {
        CallRequest::FederateRestoreNotComplete
    }
}

/// Whether every federate of a restore but one has said how it went.
pub open spec fn others_have_reported(restore: RestoreView, me: u32) -> bool {
    forall|f: u32| #[trigger]
        restore.statuses.contains_key(f) && f != me ==> restore.statuses[f]
            == RestoreStatus::Complete || restore.statuses[f] == RestoreStatus::NotComplete
}

/// Whether every federate of a restore but one is restored.
pub open spec fn others_are_restored(restore: RestoreView, me: u32) -> bool {
    forall|f: u32| #[trigger]
        restore.statuses.contains_key(f) && f != me ==> restore.statuses[f]
            == RestoreStatus::Complete
}

/// The report that ends a restore tells every federate that the federation is restored
/// if this report and all those before it are of success, and that it is not restored
/// otherwise. A report that others have still to follow is taken down, and nobody is
/// told.
pub proof fn a_restore_succeeds_if_everybody_restored(
    fed: FederationView,
    conns: Map<u64, u64>,
    me: u32,
    successfully: bool,
    load: SnapshotLoadView,
)
    requires
        own_sessions(fed.federates),
        fed.current_restore is Some,
    ensures
        ({
            let o = member_outcome(fed, conns, me, restore_word(successfully), load);
            let restore = fed.current_restore->0;
            &&& serves(
                o,
                if successfully {
                    Service::FederateRestoreComplete
                } else {
                    Service::FederateRestoreNotComplete
                },
            )
            &&& others_have_reported(restore, me) ==> {
                &&& o.fed == (FederationView { current_restore: None, ..fed })
                &&& tells(
                    o.sent,
                    conns,
                    fed.federates,
                    |f: u32|
                        seq![
                            if successfully && others_are_restored(restore, me) {
                                CallbackView::FederationRestored
                            } else {
                                CallbackView::FederationNotRestored { reason: 0 }
                            },
                        ],
                )
            }
            &&& !others_have_reported(restore, me) ==> {
                &&& o.fed.current_restore matches Some(next) && next.label == restore.label
                    && next.statuses == restore.statuses.insert(
                    me,
                    if successfully {
                        RestoreStatus::Complete
                    } else {
                        RestoreStatus::NotComplete
                    },
                )
                &&& o.fed == (FederationView { current_restore: o.fed.current_restore, ..fed })
                &&& o.sent.len() == 0
            }
        }),
{
    reveal(lookup_reply);
    reveal(quiet_outcome);
    reveal(exchange_outcome);
    reveal(coordination_outcome);
    let o = member_outcome(fed, conns, me, restore_word(successfully), load);
    let restore = fed.current_restore->0;
    let report = if successfully {
        RestoreStatus::Complete
    } else {
        RestoreStatus::NotComplete
    };
    let after = restore.statuses.insert(me, report);
    let all_restored = successfully && others_are_restored(restore, me);
    assert(after.contains_key(me));
    assert(restore_settled(after) <==> others_have_reported(restore, me)) by {
        if restore_settled(after) {
            assert forall|f: u32| #[trigger]
                restore.statuses.contains_key(f) && f != me implies restore.statuses[f]
                == RestoreStatus::Complete || restore.statuses[f] == RestoreStatus::NotComplete by {
                assert(after.contains_key(f));
            }
        }
    }
    if restore_settled(after) {
        assert(restore_failed(after) <==> !all_restored) by {
            if all_restored && restore_failed(after) {
                let f = choose|f: u32| #[trigger]
                    after.contains_key(f) && after[f] == RestoreStatus::NotComplete;
                assert(restore.statuses.contains_key(f));
            }
            if !all_restored && successfully {
                let f = choose|f: u32| #[trigger]
                    restore.statuses.contains_key(f) && f != me && restore.statuses[f]
                        != RestoreStatus::Complete;
                assert(after.contains_key(f));
            }
        }
        let word = if all_restored {
            CallbackView::FederationRestored
        } else {
            CallbackView::FederationNotRestored { reason: 0 }
        };
        lemma_tells_set(
            conns,
            fed.federates,
            o.fed,
            fed.federates.dom(),
            word,
            |f: u32|
                seq![
                    if successfully && others_are_restored(restore, me) {
                        CallbackView::FederationRestored
                    } else {
                        CallbackView::FederationNotRestored { reason: 0 }
                    },
                ],
        );
    }
}

/// Without a restore there is nothing to report on and nothing to give up. A restore
/// that is given up is gone without a word.
pub proof fn a_restore_is_given_up_silently(
    fed: FederationView,
    conns: Map<u64, u64>,
    me: u32,
    successfully: bool,
    load: SnapshotLoadView,
)
    ensures
        fed.current_restore is None ==> refuses(
            member_outcome(fed, conns, me, restore_word(successfully), load),
            fed,
            HlaException::RestoreNotInProgress,
        ),
        ({
            let o = member_outcome(fed, conns, me, CallRequest::AbortFederationRestore, load);
            &&& fed.current_restore is None ==> refuses(o, fed, HlaException::RestoreNotInProgress)
            &&& fed.current_restore is Some ==> {
                &&& serves(o, Service::AbortFederationRestore)
                &&& o.fed == (FederationView { current_restore: None, ..fed })
                &&& o.sent.len() == 0
            }
        }),
{
    reveal(lookup_reply);
    reveal(quiet_outcome);
    reveal(exchange_outcome);
    reveal(coordination_outcome);
}

/// Whether somebody has a name.
pub open spec fn somebody_is(federates: Map<u32, FederateView>, name: Seq<char>) -> bool {
    exists|f: u32| #[trigger] federates.contains_key(f) && federates[f].name == name
}

/// Whether a federate has a name, and no federate with a greater handle has it too.
pub open spec fn stands_for(
    federates: Map<u32, FederateView>,
    f: u32,
    name: Seq<char>,
) -> bool {
    &&& federates.contains_key(f)
    &&& federates[f].name == name
    &&& forall|g: u32| #[trigger]
        federates.contains_key(g) && federates[g].name == name ==> g <= f
}

proof fn lemma_named(federates: Map<u32, FederateView>, name: Seq<char>)
    ensures
        match handle_named(federates, name) {
            Some(f) => stands_for(federates, f, name),
            None => !somebody_is(federates, name),
        },
        handle_named(federates, name) is Some <==> somebody_is(federates, name),
        forall|f: u32| #[trigger]
            stands_for(federates, f, name) <==> handle_named(federates, name) == Some(f),
{
    let set = namesakes(federates, name);
    let q = ascending(set);
    lemma_handles_finite(set);
    lemma_ascending(set);
    if q.len() > 0 {
        let f = q.last();
        assert(q.contains(q[q.len() - 1]));
        assert forall|g: u32| #[trigger]
            federates.contains_key(g) && federates[g].name == name implies g <= f by {
            assert(set.contains(g));
            assert(q.contains(g));
            let i = q.index_of(g);
            if i < q.len() - 1 {
                assert(q[i].number() < q[q.len() - 1].number());
            }
        }
    }
    assert forall|f: u32| federates.contains_key(f) && federates[f].name == name implies q.len()
        > 0 by {
        assert(set.contains(f));
        assert(q.contains(f));
    }
}

/// Whether an entry of a list gives an attribute, with the name of somebody.
pub open spec fn gives_owner(
    federates: Map<u32, FederateView>,
    l: Seq<(u32, Seq<char>)>,
    i: int,
    attr: u32,
) -> bool {
    0 <= i < l.len() && l[i].0 == attr && somebody_is(federates, l[i].1)
}

/// Whether an attribute has the owner that the last entry for it names.
pub open spec fn owner_is_given(
    federates: Map<u32, FederateView>,
    l: Seq<(u32, Seq<char>)>,
    owners: Map<u32, u32>,
    attr: u32,
) -> bool {
    &&& owners.contains_key(attr) <==> exists|i: int| gives_owner(federates, l, i, attr)
    &&& forall|i: int| #[trigger]
        gives_owner(federates, l, i, attr) && (forall|j: int|
            i < j ==> !#[trigger] gives_owner(federates, l, j, attr)) ==> stands_for(
            federates,
            owners[attr],
            l[i].1,
        )
}

proof fn lemma_owner_given(
    federates: Map<u32, FederateView>,
    l: Seq<(u32, Seq<char>)>,
    attr: u32,
)
    ensures
        owner_is_given(federates, l, restored_owners(federates, l), attr),
    decreases l.len(),
{
    let owners = restored_owners(federates, l);
    if l.len() > 0 {
        let few = l.drop_last();
        let rest = restored_owners(federates, few);
        let last = l.len() - 1;
        lemma_owner_given(federates, few, attr);
        lemma_named(federates, l.last().1);
        assert forall|i: int| i < last implies gives_owner(federates, l, i, attr) == gives_owner(
            federates,
            few,
            i,
            attr,
        ) by {
            if 0 <= i {
                assert(few[i] == l[i]);
            }
        }
        if gives_owner(federates, l, last, attr) {
            assert(owners.contains_key(attr));
        } else {
            if exists|i: int| gives_owner(federates, l, i, attr) {
                let i = choose|i: int| gives_owner(federates, l, i, attr);
                assert(gives_owner(federates, few, i, attr));
            }
            if rest.contains_key(attr) {
                let i = choose|i: int| gives_owner(federates, few, i, attr);
                assert(gives_owner(federates, l, i, attr));
            }
            assert(owners.contains_key(attr) == rest.contains_key(attr));
        }
        assert forall|i: int| #[trigger]
            gives_owner(federates, l, i, attr) && (forall|j: int|
                i < j ==> !#[trigger] gives_owner(federates, l, j, attr)) implies stands_for(
            federates,
            owners[attr],
            l[i].1,
        ) by {
            if i < last {
                assert(!gives_owner(federates, l, last, attr));
                assert(gives_owner(federates, few, i, attr));
                assert forall|j: int| i < j implies !#[trigger] gives_owner(
                    federates,
                    few,
                    j,
                    attr,
                ) by {
                    assert(!gives_owner(federates, l, j, attr));
                }
                assert(few[i] == l[i]);
            }
        }
    }
}

/// Whether an entry of a list gives an instance whose registrar has the name of
/// somebody.
pub open spec fn gives_instance(
    federates: Map<u32, FederateView>,
    l: Seq<SerInstanceView>,
    i: int,
    h: u64,
) -> bool {
    0 <= i < l.len() && l[i].handle == h && somebody_is(federates, l[i].registrar_name)
}

/// Whether an instance is as a saved one gives it: its class, its name, the registrar and
/// the owners that are named.
pub open spec fn is_given(
    federates: Map<u32, FederateView>,
    ser: SerInstanceView,
    inst: InstanceView,
) -> bool {
    &&& inst.handle == ser.handle
    &&& inst.class == ser.class
    &&& inst.name == ser.name
    &&& stands_for(federates, inst.registrar, ser.registrar_name)
    &&& inst.attribute_regions.dom() == Set::<u32>::empty()
    &&& forall|attr: u32| #[trigger]
        owner_is_given(federates, ser.attribute_owners, inst.attribute_owners, attr)
}

proof fn lemma_instance_given(
    federates: Map<u32, FederateView>,
    l: Seq<SerInstanceView>,
    h: u64,
)
    ensures
        ({
            let all = restored_instances(federates, l);
            &&& all.contains_key(h) <==> exists|i: int| gives_instance(federates, l, i, h)
            &&& forall|i: int| #[trigger]
                gives_instance(federates, l, i, h) && (forall|j: int|
                    i < j ==> !#[trigger] gives_instance(federates, l, j, h)) ==> is_given(
                    federates,
                    l[i],
                    all[h],
                )
        }),
    decreases l.len(),
{
    let all = restored_instances(federates, l);
    if l.len() > 0 {
        let few = l.drop_last();
        let rest = restored_instances(federates, few);
        let last = l.len() - 1;
        lemma_instance_given(federates, few, h);
        lemma_named(federates, l.last().registrar_name);
        assert forall|i: int| i < last implies gives_instance(federates, l, i, h)
            == gives_instance(federates, few, i, h) by {
            if 0 <= i {
                assert(few[i] == l[i]);
            }
        }
        if gives_instance(federates, l, last, h) {
            assert(all.contains_key(h));
            assert forall|attr: u32| owner_is_given(
                federates,
                l.last().attribute_owners,
                all[h].attribute_owners,
                attr,
            ) by {
                lemma_owner_given(federates, l.last().attribute_owners, attr);
            }
            assert(is_given(federates, l.last(), all[h]));
        } else {
            if exists|i: int| gives_instance(federates, l, i, h) {
                let i = choose|i: int| gives_instance(federates, l, i, h);
                assert(gives_instance(federates, few, i, h));
            }
            if rest.contains_key(h) {
                let i = choose|i: int| gives_instance(federates, few, i, h);
                assert(gives_instance(federates, l, i, h));
            }
            assert(all.contains_key(h) == rest.contains_key(h));
        }
        assert forall|i: int| #[trigger]
            gives_instance(federates, l, i, h) && (forall|j: int|
                i < j ==> !#[trigger] gives_instance(federates, l, j, h)) implies is_given(
            federates,
            l[i],
            all[h],
        ) by {
            if i < last {
                assert(!gives_instance(federates, l, last, h));
                assert(gives_instance(federates, few, i, h));
                assert forall|j: int| i < j implies !#[trigger] gives_instance(
                    federates,
                    few,
                    j,
                    h,
                ) by {
                    assert(!gives_instance(federates, l, j, h));
                }
                assert(few[i] == l[i]);
            }
        }
    }
}

/// A snapshot that is restored gives exactly the instances that it holds and whose
/// registrar, by name, is a federate: each with the class and the name it was saved with,
/// and with those of its owners who are federates. Of two instances with one handle the
/// later counts.
pub proof fn a_restore_gives_the_instances_of_the_snapshot(
    fed: FederationView,
    conns: Map<u64, u64>,
    me: u32,
    label: String,
    load: SnapshotLoadView,
    h: u64,
    i: int,
)
    requires
        label@.len() > 0,
        fed.current_restore is None,
        load is Found,
    ensures
        ({
            let request = CallRequest::RequestFederationRestore { label };
            let all = member_outcome(fed, conns, me, request, load).fed.object_instances;
            let l = load->Found_0.instances;
            &&& all.contains_key(h) <==> exists|i: int| gives_instance(fed.federates, l, i, h)
            &&& gives_instance(fed.federates, l, i, h) && (forall|j: int|
                i < j ==> !#[trigger] gives_instance(fed.federates, l, j, h)) ==> is_given(
                fed.federates,
                l[i],
                all[h],
            )
        }),
{
    lemma_restore_served(fed, conns, me, label, load);
    lemma_instance_given(fed.federates, load->Found_0.instances, h);
}

proof fn lemma_next_number(
    federates: Map<u32, FederateView>,
    l: Seq<SerInstanceView>,
    next: u64,
)
    requires
        forall|i: int| 0 <= i < l.len() ==> (#[trigger] l[i]).handle < u64::MAX,
    ensures
        ({
            let n = restored_next(federates, l, next);
            &&& n >= next
            &&& forall|i: int, h: u64| #[trigger] gives_instance(federates, l, i, h) ==> h < n
            &&& n == next || exists|i: int, h: u64| #[trigger]
                gives_instance(federates, l, i, h) && n == h + 1
        }),
    decreases l.len(),
{
    if l.len() > 0 {
        let few = l.drop_last();
        let last = l.len() - 1;
        assert forall|i: int| 0 <= i < few.len() implies (#[trigger] few[i]).handle < u64::MAX by {
            assert(l[i] == few[i]);
        }
        lemma_next_number(federates, few, next);
        lemma_named(federates, l.last().registrar_name);
        let m = restored_next(federates, few, next);
        let n = restored_next(federates, l, next);
        assert(l[last].handle < u64::MAX);
        assert forall|i: int, h: u64| #[trigger] gives_instance(federates, l, i, h) implies h
            < n by {
            if i < last {
                assert(few[i] == l[i]);
                assert(gives_instance(federates, few, i, h));
            }
        }
        if n != m {
            assert(gives_instance(federates, l, last, l[last].handle));
        } else if n != next {
            let (i, h) = choose|i: int, h: u64| #[trigger]
                gives_instance(federates, few, i, h) && n == h + 1;
            assert(few[i] == l[i]);
            assert(gives_instance(federates, l, i, h));
        }
    }
}

/// The number of the next instance goes up, by a restore, just as far as is needed to be
/// greater than those of all the instances that came back.
pub proof fn new_instances_come_after_restored_ones(
    fed: FederationView,
    conns: Map<u64, u64>,
    me: u32,
    label: String,
    load: SnapshotLoadView,
)
    requires
        label@.len() > 0,
        fed.current_restore is None,
        load is Found,
        forall|i: int|
            0 <= i < load->Found_0.instances.len() ==> (
            #[trigger] load->Found_0.instances[i]).handle < u64::MAX,
    ensures
        ({
            let request = CallRequest::RequestFederationRestore { label };
            let next = member_outcome(fed, conns, me, request, load).fed;
            let n = next.next_object_id;
            &&& n >= fed.next_object_id
            &&& forall|h: u64| #[trigger] next.object_instances.contains_key(h) ==> h < n
            &&& n > fed.next_object_id ==> next.object_instances.contains_key((n - 1) as u64)
        }),
{
    lemma_restore_served(fed, conns, me, label, load);
    let l = load->Found_0.instances;
    let request = CallRequest::RequestFederationRestore { label };
    let next = member_outcome(fed, conns, me, request, load).fed;
    lemma_next_number(fed.federates, l, fed.next_object_id);
    assert forall|h: u64| #[trigger] next.object_instances.contains_key(h) implies h
        < next.next_object_id by {
        lemma_instance_given(fed.federates, l, h);
    }
    if next.next_object_id > fed.next_object_id {
        let (i, h) = choose|i: int, h: u64| #[trigger]
            gives_instance(fed.federates, l, i, h) && next.next_object_id == h + 1;
        lemma_instance_given(fed.federates, l, h);
    }
}

/// Whether an entry of a list has a label.
pub open spec fn gives_point(l: Seq<SerSyncPointView>, i: int, label: Seq<char>) -> bool {
    0 <= i < l.len() && l[i].label == label
}

/// Whether one of some names stands for a federate.
pub open spec fn is_named(
    federates: Map<u32, FederateView>,
    names: Seq<Seq<char>>,
    f: u32,
) -> bool {
    exists|i: int| 0 <= i < names.len() && stands_for(federates, f, #[trigger] names[i])
}

/// Whether a synchronization point is as a saved one gives it, with nobody's report.
pub open spec fn point_is_given(
    federates: Map<u32, FederateView>,
    ser: SerSyncPointView,
    point: SyncPointView,
) -> bool {
    &&& point.label == ser.label
    &&& point.tag == ser.tag
    &&& forall|f: u32| #[trigger]
        point.participants.contains(f) <==> is_named(federates, ser.participants, f)
    &&& point.achieved == Set::<u32>::empty()
    &&& point.failed_to_sync == Set::<u32>::empty()
}

proof fn lemma_handles_named(federates: Map<u32, FederateView>, ser: SerSyncPointView)
    ensures
        point_is_given(federates, ser, restored_point(federates, ser)),
{
    let names = ser.participants;
    assert forall|f: u32| #[trigger]
        handles_named(federates, names).contains(f) <==> is_named(federates, names, f) by {
        if handles_named(federates, names).contains(f) {
            let i = choose|i: int|
                0 <= i < names.len() && handle_named(federates, #[trigger] names[i]) == Some(f);
            lemma_named(federates, names[i]);
            assert(stands_for(federates, f, names[i]));
        }
        if is_named(federates, names, f) {
            let i = choose|i: int|
                0 <= i < names.len() && stands_for(federates, f, #[trigger] names[i]);
            lemma_named(federates, names[i]);
        }
    }
}

proof fn lemma_last_point(
    federates: Map<u32, FederateView>,
    l: Seq<SerSyncPointView>,
    label: Seq<char>,
)
    requires
        l.len() > 0,
    ensures
        ({
            let all = restored_points(federates, l).values;
            let rest = restored_points(federates, l.drop_last()).values;
            if l.last().label == label {
                all.contains_key(label) && all[label] == restored_point(federates, l.last())
            } else {
                all.contains_key(label) == rest.contains_key(label) && all[label] == rest[label]
            }
        }),
{
}

proof fn lemma_point_there(
    federates: Map<u32, FederateView>,
    l: Seq<SerSyncPointView>,
    label: Seq<char>,
)
    ensures
        restored_points(federates, l).values.contains_key(label) <==> exists|i: int|
            gives_point(l, i, label),
    decreases l.len(),
{
    if l.len() > 0 {
        let few = l.drop_last();
        lemma_last_point(federates, l, label);
        lemma_point_there(federates, few, label);
        if l.last().label == label {
            assert(gives_point(l, l.len() - 1, label));
        } else if exists|i: int| gives_point(l, i, label) {
            let i = choose|i: int| gives_point(l, i, label);
            assert(gives_point(few, i, label));
        } else if exists|i: int| gives_point(few, i, label) {
            let i = choose|i: int| gives_point(few, i, label);
            assert(gives_point(l, i, label));
        }
    }
}

proof fn lemma_point_given(
    federates: Map<u32, FederateView>,
    l: Seq<SerSyncPointView>,
    label: Seq<char>,
    i: int,
)
    requires
        gives_point(l, i, label),
        forall|j: int| i < j ==> !#[trigger] gives_point(l, j, label),
    ensures
        restored_points(federates, l).values[label] == restored_point(federates, l[i]),
    decreases l.len(),
{
    let few = l.drop_last();
    lemma_last_point(federates, l, label);
    if i < l.len() - 1 {
        assert(!gives_point(l, l.len() - 1, label));
        assert forall|j: int| i < j implies !#[trigger] gives_point(few, j, label) by {
            assert(!gives_point(l, j, label));
        }
        lemma_point_given(federates, few, label, i);
    }
}

/// A snapshot that is restored gives exactly the synchronization points that it holds, each
/// with its tag, with those of its participants who are federates, and with nobody's
/// report. Of two points with one label the later counts.
pub proof fn a_restore_gives_the_points_of_the_snapshot(
    fed: FederationView,
    conns: Map<u64, u64>,
    me: u32,
    label: String,
    load: SnapshotLoadView,
    point: Seq<char>,
    i: int,
)
    requires
        label@.len() > 0,
        fed.current_restore is None,
        load is Found,
    ensures
        ({
            let request = CallRequest::RequestFederationRestore { label };
            let all = member_outcome(fed, conns, me, request, load).fed.sync_points.values;
            let l = load->Found_0.sync_points;
            &&& all.contains_key(point) <==> exists|i: int| gives_point(l, i, point)
            &&& gives_point(l, i, point) && (forall|j: int|
                i < j ==> !#[trigger] gives_point(l, j, point)) ==> point_is_given(
                fed.federates,
                l[i],
                all[point],
            )
        }),
{
    lemma_restore_served(fed, conns, me, label, load);
    let l = load->Found_0.sync_points;
    lemma_point_there(fed.federates, l, point);
    if gives_point(l, i, point) && (forall|j: int| i < j ==> !#[trigger] gives_point(l, j, point)) {
        lemma_point_given(fed.federates, l, point, i);
        lemma_handles_named(fed.federates, l[i]);
    }
}

/// Whether a list names the owners of an instance: each attribute that a federate owns,
/// once, with the name of that federate.
pub open spec fn names_owners(
    federates: Map<u32, FederateView>,
    owners: Map<u32, u32>,
    l: Seq<(u32, Seq<char>)>,
) -> bool {
    &&& forall|i: int|
        0 <= i < l.len() ==> owners.contains_key((#[trigger] l[i]).0) && federates.contains_key(
            owners[l[i].0],
        ) && l[i].1 == federates[owners[l[i].0]].name
    &&& forall|attr: u32| #[trigger]
        owners.contains_key(attr) && federates.contains_key(owners[attr]) ==> exists|i: int|
            0 <= i < l.len() && (#[trigger] l[i]).0 == attr
    &&& forall|i: int, j: int| 0 <= i < l.len() && 0 <= j < l.len() && i != j ==> l[i].0 != l[j].0
}

/// Whether a saved instance is an instance as it stands.
pub open spec fn is_saved(
    federates: Map<u32, FederateView>,
    inst: InstanceView,
    ser: SerInstanceView,
) -> bool {
    &&& ser.handle == inst.handle
    &&& ser.class == inst.class
    &&& ser.name == inst.name
    &&& ser.registrar_name == (if federates.contains_key(inst.registrar) {
        federates[inst.registrar].name
    } else {
        "<unknown>"@
    })
    &&& names_owners(federates, inst.attribute_owners, ser.attribute_owners)
}

/// Whether a saved synchronization point is a point as it stands, with the names of its
/// participants that are federates.
pub open spec fn point_is_saved(
    federates: Map<u32, FederateView>,
    point: SyncPointView,
    ser: SerSyncPointView,
) -> bool {
    &&& ser.label == point.label
    &&& ser.tag == point.tag
    &&& forall|i: int|
        0 <= i < ser.participants.len() ==> is_name_of_one(
            federates,
            point.participants,
            #[trigger] ser.participants[i],
        )
    &&& forall|f: u32| #[trigger]
        point.participants.contains(f) && federates.contains_key(f) ==> ser.participants.contains(
            federates[f].name,
        )
}

/// Whether a name is that of a federate in a set.
pub open spec fn is_name_of_one(
    federates: Map<u32, FederateView>,
    set: Set<u32>,
    name: Seq<char>,
) -> bool {
    exists|f: u32| #[trigger]
        set.contains(f) && federates.contains_key(f) && federates[f].name == name
}

pub(crate) proof fn lemma_instances_finite(s: Set<u64>)
    ensures
        s.finite(),
{
    let full = Set::<u64>::full();
    assert(full =~= Set::range_inclusive(u64::MIN, u64::MAX));
    <u64 as vstd::set_lib::FiniteRange>::range_properties(u64::MIN, u64::MAX);
    vstd::set_lib::lemma_set_subset_finite(full, s);
}

proof fn lemma_names_owners(federates: Map<u32, FederateView>, owners: Map<u32, u32>)
    ensures
        names_owners(federates, owners, saved_owners(federates, owners)),
{
    let set = owned_by_joined(federates, owners);
    let q = ascending(set);
    let l = saved_owners(federates, owners);
    lemma_handles_finite(set);
    lemma_ascending(set);
    assert forall|i: int| 0 <= i < l.len() implies owners.contains_key((#[trigger] l[i]).0)
        && federates.contains_key(owners[l[i].0]) && l[i].1 == federates[owners[l[i].0]].name by {
        assert(q.contains(q[i]));
    }
    assert forall|attr: u32| #[trigger]
        owners.contains_key(attr) && federates.contains_key(owners[attr]) implies exists|i: int|
        0 <= i < l.len() && (#[trigger] l[i]).0 == attr by {
        assert(set.contains(attr));
        assert(q.contains(attr));
        let i = q.index_of(attr);
        assert(l[i].0 == attr);
    }
    assert forall|i: int, j: int|
        0 <= i < l.len() && 0 <= j < l.len() && i != j implies l[i].0 != l[j].0 by {
        assert(q[i] != q[j]);
    }
}

/// The snapshot of a save that succeeds is handed out under the name of the file that a
/// restore of the label reads, and holds the federation as it stands: each instance and
/// each synchronization point, once, in their order.
pub proof fn a_snapshot_holds_the_federation(
    fed: FederationView,
    me: u32,
    h: u64,
    label: Seq<char>,
    i: int,
)
    requires
        member_file(fed, me, CallRequest::FederateSaveComplete) is Some,
        fed.sync_points.order.no_duplicates(),
        forall|l: Seq<char>| #[trigger]
            fed.sync_points.order.contains(l) <==> fed.sync_points.values.contains_key(l),
        forall|h: u64| #[trigger]
            fed.object_instances.contains_key(h) ==> fed.object_instances[h].handle == h,
        forall|l: Seq<char>| #[trigger]
            fed.sync_points.values.contains_key(l) ==> fed.sync_points.values[l].label == l,
    ensures
        ({
            let file = member_file(fed, me, CallRequest::FederateSaveComplete)->0;
            let snap = file.snapshot;
            let order = fed.sync_points.order;
            &&& fed.last_save_label matches Some(saved) && file.file_name == file_name_of(
                fed.name,
                saved,
            )
            &&& snap.federation_name == fed.name
            &&& 0 <= i < snap.instances.len() ==> {
                let ser = snap.instances[i];
                &&& fed.object_instances.contains_key(ser.handle)
                &&& is_saved(fed.federates, fed.object_instances[ser.handle], ser)
                &&& forall|j: int| i < j < snap.instances.len() ==> ser.handle < (
                #[trigger] snap.instances[j]).handle
            }
            &&& fed.object_instances.contains_key(h) ==> exists|i: int|
                0 <= i < snap.instances.len() && (#[trigger] snap.instances[i]).handle == h
            &&& snap.sync_points.len() == order.len()
            &&& 0 <= i < order.len() ==> point_is_saved(
                fed.federates,
                fed.sync_points.values[order[i]],
                snap.sync_points[i],
            )
        }),
{
    let file = member_file(fed, me, CallRequest::FederateSaveComplete)->0;
    let snap = file.snapshot;
    let order = fed.sync_points.order;
    let all = fed.object_instances.dom();
    let q = ascending(all);
    lemma_instances_finite(all);
    lemma_ascending(all);
    assert forall|j: int| 0 <= j < q.len() implies fed.object_instances.contains_key(
        #[trigger] q[j],
    ) && snap.instances[j].handle == q[j] by {
        assert(q.contains(q[j]));
    }
    if 0 <= i < snap.instances.len() {
        let inst = fed.object_instances[q[i]];
        lemma_names_owners(fed.federates, inst.attribute_owners);
        assert(fed.object_instances.contains_key(q[i]));
        assert forall|j: int| i < j < snap.instances.len() implies snap.instances[i].handle < (
        #[trigger] snap.instances[j]).handle by {
            assert(q[i].number() < q[j].number());
            assert(fed.object_instances.contains_key(q[j]));
        }
    }
    if fed.object_instances.contains_key(h) {
        assert(q.contains(h));
        let j = q.index_of(h);
        assert(q[j] == h);
        assert(snap.instances[j].handle == h);
    }
    if 0 <= i < order.len() {
        let point = fed.sync_points.values[order[i]];
        let there = joined_among(fed.federates, point.participants);
        let p = ascending(there);
        let ser = snap.sync_points[i];
        lemma_handles_finite(there);
        lemma_ascending(there);
        assert(ser.participants == names_of(fed.federates, p));
        assert forall|j: int| 0 <= j < ser.participants.len() implies is_name_of_one(
            fed.federates,
            point.participants,
            #[trigger] ser.participants[j],
        ) by {
            assert(p.contains(p[j]));
            assert(there.contains(p[j]));
            assert(point.participants.contains(p[j]));
        }
        assert forall|f: u32| #[trigger]
            point.participants.contains(f) && fed.federates.contains_key(
                f,
            ) implies ser.participants.contains(fed.federates[f].name) by {
            assert(there.contains(f));
            assert(p.contains(f));
            let j = p.index_of(f);
            assert(ser.participants[j] == fed.federates[f].name);
        }
    }
}

/// A restore reads the file that a save of the same federation under the same label
/// handed out.
pub proof fn a_restore_reads_what_a_save_wrote(
    fed: FederationView,
    me: u32,
    node: NodeView,
    ctx: SessionContext,
    label: String,
)
    requires
        member_file(fed, me, CallRequest::FederateSaveComplete) is Some,
        fed.last_save_label == Some(label@),
        label@.len() > 0,
        ctx.membership is Some,
        node.federations.contains_key(ctx.membership->0.federation),
        node.federations[ctx.membership->0.federation].name == fed.name,
    ensures
        file_wanted(node, ctx, CallRequest::RequestFederationRestore { label }) == Some(
            member_file(fed, me, CallRequest::FederateSaveComplete)->0.file_name,
        ),
{
}

} // verus!

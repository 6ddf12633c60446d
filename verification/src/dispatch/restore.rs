//! Restoring a federation.

use crate::connections::Connections;
use crate::dispatch::helpers::{refusal, refuse_bare, silent, Outcome};
use crate::exception::{bare, HlaException};
use crate::federation::{
    FederateView, Federation, FederationView, RestoreOperation, RestoreStatus, RestoreView,
};
use crate::handles::FederateHandle;
use crate::messages::{done, reply, CallResponse, Service};
use crate::persistence::{restored, FederationSnapshot, SnapshotView};
use crate::routing::{
    deliver, deliveries, federation_not_restored, federation_not_restored_view,
    federation_restore_begun, federation_restore_begun_view, federation_restored,
    federation_restored_view, initiate_federate_restore, initiate_federate_restore_view,
    request_federation_restore_failed, request_federation_restore_failed_view,
    request_federation_restore_succeeded, request_federation_restore_succeeded_view, OutboundView,
    Outbox,
};
use crate::tables::{ascending, lemma_ascending, KeySet, Table};
use crate::text::copy_text;
use vstd::prelude::*;

verus! {

/// What came of reading a snapshot.
#[derive(Debug)]
pub enum SnapshotLoad {
    Found(FederationSnapshot),
    /// There is no snapshot under the label.
    NotFound,
    /// The snapshot could not be read.
    Failed,
}

/// The mathematical content of [`SnapshotLoad`].
#[verifier::ext_equal]
pub enum SnapshotLoadView {
    Found(SnapshotView),
    NotFound,
    Failed,
}

impl View for SnapshotLoad {
    type V = SnapshotLoadView;

    open spec fn view(&self) -> SnapshotLoadView {
        match self {
            SnapshotLoad::Found(s) => SnapshotLoadView::Found(s@),
            SnapshotLoad::NotFound => SnapshotLoadView::NotFound,
            SnapshotLoad::Failed => SnapshotLoadView::Failed,
        }
    }
}

/// The restore that has just been requested.
pub open spec fn initiated_restore(
    federates: Map<u32, FederateView>,
    label: Seq<char>,
) -> RestoreView {
    RestoreView {
        label,
        statuses: Map::new(|f: u32| federates.contains_key(f), |f: u32| RestoreStatus::Initiated),
    }
}

/// The calls on federates to restore themselves, each with its name and handle.
pub open spec fn initiations(
    conns: Map<u64, u64>,
    fed: FederationView,
    q: Seq<u32>,
    label: Seq<char>,
) -> Seq<OutboundView>
    decreases q.len(),
{
    if q.len() == 0 {
        Seq::empty()
    } else {
        initiations(conns, fed, q.drop_last(), label) + deliveries(
            conns,
            fed,
            set![q.last()],
            initiate_federate_restore_view(label, fed.federates[q.last()].name, q.last()),
        )
    }
}

/// The federation after a restore was begun. Without a snapshot its state stays
/// as it is.
pub open spec fn restoring(
    fed: FederationView,
    label: Seq<char>,
    load: SnapshotLoadView,
) -> FederationView {
    FederationView {
        current_restore: Some(initiated_restore(fed.federates, label)),
        ..match load {
            SnapshotLoadView::Found(snap) => restored(fed, snap),
            _ => fed,
        }
    }
}

/// What the request for a restore does.
pub open spec fn request_restore_outcome(
    fed: FederationView,
    conns: Map<u64, u64>,
    me: u32,
    label: Seq<char>,
    load: SnapshotLoadView,
) -> Outcome {
    if label.len() == 0 {
        refusal(fed, bare(HlaException::InvalidRestoreLabel))
    } else if load is Failed {
        Outcome {
            fed,
            reply: done(Service::RequestFederationRestore),
            sent: deliveries(
                conns,
                fed,
                set![me],
                request_federation_restore_failed_view(label),
            ),
        }
    } else if fed.current_restore is Some {
        refusal(fed, bare(HlaException::RestoreInProgress))
    } else {
        let next = restoring(fed, label, load);
        Outcome {
            fed: next,
            reply: done(Service::RequestFederationRestore),
            sent: deliveries(
                conns,
                next,
                set![me],
                request_federation_restore_succeeded_view(label),
            ) + deliveries(
                conns,
                next,
                fed.federates.dom(),
                federation_restore_begun_view(),
            ) + initiations(conns, next, ascending(fed.federates.dom()), label),
        }
    }
}

fn initiate_restore(federation: &Federation, label: &str) -> (r: RestoreOperation)
    ensures
        r@ == initiated_restore(federation@.federates, label@),
{
    let keys = federation.federates.keys();
    let ghost federates = federation@.federates;
    proof {
        lemma_ascending(federates.dom());
    }
    let mut statuses: Table<u32, RestoreStatus> = Table::new();
    let mut i: usize = 0;
    while i < keys.len()
        invariant
            i <= keys@.len(),
            forall|f: u32| #[trigger]
                statuses@.contains_key(f) <==> exists|k: int| 0 <= k < i && keys@[k] == f,
            forall|f: u32| #[trigger]
                statuses@.contains_key(f) ==> statuses@[f] == RestoreStatus::Initiated,
        decreases keys@.len() - i,
    {
        let ghost seen = statuses@;
        statuses.insert(keys[i], RestoreStatus::Initiated);
        assert forall|f: u32| #[trigger] statuses@.contains_key(f) <==> exists|k: int|
            0 <= k < i + 1 && keys@[k] == f by {
            if seen.contains_key(f) {
                let k = choose|k: int| 0 <= k < i && keys@[k] == f;
                assert(0 <= k < i + 1 && keys@[k] == f);
            }
            if f == keys@[i as int] {
                assert(0 <= i < i + 1 && keys@[i as int] == f);
            }
        }
        i = i + 1;
    }
    assert(statuses@ =~= initiated_restore(federates, label@).statuses) by {
        assert forall|f: u32| statuses@.contains_key(f) <==> federates.contains_key(f) by {
            if statuses@.contains_key(f) {
                let k = choose|k: int| 0 <= k < i && keys@[k] == f;
                assert(keys@.contains(f));
            }
            if federates.contains_key(f) {
                assert(keys@.contains(f));
                let k = keys@.index_of(f);
                assert(keys@[k] == f);
            }
        }
    }
    RestoreOperation { label: copy_text(label), statuses }
}

/// Starts a restore, puts the snapshot in place and tells everybody.
pub fn request_federation_restore(
    federation: &mut Federation,
    conns: &Connections,
    out: &mut Outbox,
    me: FederateHandle,
    label: &str,
    load: &SnapshotLoad,
) -> (r: CallResponse)
    requires
        old(federation).wf(),
    ensures
        final(federation).wf(),
        ({
            let o = request_restore_outcome(old(federation)@, conns@, me, label@, load@);
            &&& final(federation)@ == o.fed
            &&& r@ == o.reply
            &&& final(out)@ == old(out)@ + o.sent
        }),
{
    assert(old(out)@ + Seq::empty() =~= old(out)@);
    if label.is_empty() {
        return refuse_bare(HlaException::InvalidRestoreLabel);
    }
    let ghost fed = federation@;
    let requester: KeySet<u32> = KeySet::single(me);
    if let SnapshotLoad::Failed = load {
        deliver(out, conns, federation, &requester, request_federation_restore_failed(label));
        return reply(Service::RequestFederationRestore);
    }
    if federation.current_restore.is_some() {
        return refuse_bare(HlaException::RestoreInProgress);
    }
    let operation = initiate_restore(federation, label);
    federation.current_restore = Some(operation);
    assert(federation@.wf()) by {
        assert(federation@.federates == fed.federates);
        assert(federation@.object_instances == fed.object_instances);
        assert(federation@.regions == fed.regions);
        assert(federation@.sync_points == fed.sync_points);
    }
    if let SnapshotLoad::Found(snap) = load {
        federation.apply_snapshot(snap);
    }
    let ghost next = restoring(fed, label@, load@);
    assert(federation@ =~= next);
    deliver(out, conns, federation, &requester, request_federation_restore_succeeded(label));
    let keys = federation.federates.keys();
    let everybody = federation.federates.key_set();
    deliver(out, conns, federation, &everybody, federation_restore_begun());
    proof {
        lemma_ascending(next.federates.dom());
    }
    let ghost before = out@;
    let mut i: usize = 0;
    assert(before + initiations(conns@, next, keys@.take(0), label@) =~= before);
    while i < keys.len()
        invariant
            i <= keys@.len(),
            federation@ == next,
            forall|f: u32| #[trigger] keys@.contains(f) <==> next.federates.contains_key(f),
            out@ == before + initiations(conns@, next, keys@.take(i as int), label@),
        decreases keys@.len() - i,
    {
        let f = keys[i];
        proof {
            assert(keys@.contains(keys@[i as int]));
            assert(keys@.take(i + 1).drop_last() =~= keys@.take(i as int));
            assert(keys@.take(i + 1).last() == f);
        }
        if let Some(fs) = federation.federates.get(f) {
            let callback = initiate_federate_restore(label, fs.name.as_str(), f);
            let one: KeySet<u32> = KeySet::single(f);
            deliver(out, conns, federation, &one, callback);
        }
        assert(out@ =~= before + initiations(conns@, next, keys@.take(i + 1), label@));
        i = i + 1;
    }
    assert(keys@.take(i as int) =~= keys@);
    assert(out@ =~= old(out)@ + request_restore_outcome(fed, conns@, me, label@, load@).sent);
    reply(Service::RequestFederationRestore)
}

/// Whether every federate has finished, with or without success.
pub open spec fn restore_settled(statuses: Map<u32, RestoreStatus>) -> bool {
    forall|f: u32| #[trigger]
        statuses.contains_key(f) ==> statuses[f] == RestoreStatus::Complete || statuses[f]
            == RestoreStatus::NotComplete
}

/// Whether a federate could not restore.
pub open spec fn restore_failed(statuses: Map<u32, RestoreStatus>) -> bool {
    exists|f: u32| #[trigger]
        statuses.contains_key(f) && statuses[f] == RestoreStatus::NotComplete
}

/// Whether everybody has finished, and whether somebody failed.
fn survey(statuses: &Table<u32, RestoreStatus>) -> (r: (bool, bool))
    ensures
        r.0 == restore_settled(statuses@),
        r.1 == restore_failed(statuses@),
{
    let keys = statuses.keys();
    proof {
        lemma_ascending(statuses@.dom());
    }
    let mut settled = true;
    let mut failed = false;
    let mut i: usize = 0;
    while i < keys.len()
        invariant
            i <= keys@.len(),
            forall|f: u32| #[trigger] keys@.contains(f) <==> statuses@.contains_key(f),
            settled == forall|k: int|
                0 <= k < i ==> statuses@[#[trigger] keys@[k]] == RestoreStatus::Complete
                    || statuses@[keys@[k]] == RestoreStatus::NotComplete,
            failed == exists|k: int|
                0 <= k < i && statuses@[#[trigger] keys@[k]] == RestoreStatus::NotComplete,
        decreases keys@.len() - i,
    {
        assert(keys@.contains(keys@[i as int]));
        if let Some(s) = statuses.get(keys[i]) {
            assert(statuses@[keys@[i as int]] == *s);
            match *s {
                RestoreStatus::Complete => {},
                RestoreStatus::NotComplete => {
                    failed = true;
                },
                _ => {
                    settled = false;
                },
            }
        }
        i = i + 1;
    }
    proof {
        if settled {
            assert forall|f: u32| #[trigger] statuses@.contains_key(f) implies statuses@[f]
                == RestoreStatus::Complete || statuses@[f] == RestoreStatus::NotComplete by {
                assert(keys@.contains(f));
                let k = keys@.index_of(f);
                assert(keys@[k] == f);
            }
        } else {
            let k = choose|k: int|
                0 <= k < i && !(statuses@[#[trigger] keys@[k]] == RestoreStatus::Complete
                    || statuses@[keys@[k]] == RestoreStatus::NotComplete);
            assert(keys@.contains(keys@[k]));
            assert(statuses@.contains_key(keys@[k]));
        }
        if failed {
            let k = choose|k: int|
                0 <= k < i && statuses@[#[trigger] keys@[k]] == RestoreStatus::NotComplete;
            assert(keys@.contains(keys@[k]));
            assert(statuses@.contains_key(keys@[k]));
        }
        if restore_failed(statuses@) {
            let f = choose|f: u32| #[trigger]
                statuses@.contains_key(f) && statuses@[f] == RestoreStatus::NotComplete;
            assert(keys@.contains(f));
            let k = keys@.index_of(f);
            assert(keys@[k] == f);
        }
    }
    (settled, failed)
}

/// The status of a federate that has finished.
pub open spec fn restore_report(successfully: bool) -> RestoreStatus {
    if successfully {
        RestoreStatus::Complete
    } else {
        RestoreStatus::NotComplete
    }
}

/// What a federate's word that it has finished restoring does. The last one
/// ends the restore, and everybody is told how it went.
pub open spec fn restore_progress_outcome(
    fed: FederationView,
    conns: Map<u64, u64>,
    me: u32,
    successfully: bool,
) -> Outcome {
    match fed.current_restore {
        None => refusal(fed, bare(HlaException::RestoreNotInProgress)),
        Some(restore) => {
            let statuses = restore.statuses.insert(me, restore_report(successfully));
            let service = if successfully {
                Service::FederateRestoreComplete
            } else {
                Service::FederateRestoreNotComplete
            };
            if restore_settled(statuses) {
                let next = FederationView { current_restore: None, ..fed };
                Outcome {
                    fed: next,
                    reply: done(service),
                    sent: deliveries(
                        conns,
                        next,
                        fed.federates.dom(),
                        if restore_failed(statuses) {
                            federation_not_restored_view(0)
                        } else {
                            federation_restored_view()
                        },
                    ),
                }
            } else {
                silent(
                    FederationView {
                        current_restore: Some(RestoreView { statuses, ..restore }),
                        ..fed
                    },
                    service,
                )
            }
        },
    }
}

/// Takes note that a federate has finished restoring.
pub fn federate_restore_progressed(
    federation: &mut Federation,
    conns: &Connections,
    out: &mut Outbox,
    me: FederateHandle,
    successfully: bool,
) -> (r: CallResponse)
    requires
        old(federation).wf(),
    ensures
        final(federation).wf(),
        ({
            let o = restore_progress_outcome(old(federation)@, conns@, me, successfully);
            &&& final(federation)@ == o.fed
            &&& r@ == o.reply
            &&& final(out)@ == old(out)@ + o.sent
        }),
{
    assert(old(out)@ + Seq::empty() =~= old(out)@);
    match federation.current_restore.take() {
        None => refuse_bare(HlaException::RestoreNotInProgress),
        Some(mut restore) => {
            let status = if successfully {
                RestoreStatus::Complete
            } else {
                RestoreStatus::NotComplete
            };
            restore.statuses.insert(me, status);
            let (settled, failed) = survey(&restore.statuses);
            if settled {
                let everybody = federation.federates.key_set();
                if failed {
                    deliver(out, conns, federation, &everybody, federation_not_restored(0));
                } else {
                    deliver(out, conns, federation, &everybody, federation_restored());
                }
            } else {
                federation.current_restore = Some(restore);
            }
            if successfully {
                reply(Service::FederateRestoreComplete)
            } else {
                reply(Service::FederateRestoreNotComplete)
            }
        },
    }
}

/// What the abort of a restore does.
pub open spec fn abort_restore_outcome(fed: FederationView) -> Outcome {
    if fed.current_restore is None {
        refusal(fed, bare(HlaException::RestoreNotInProgress))
    } else {
        silent(FederationView { current_restore: None, ..fed }, Service::AbortFederationRestore)
    }
}

/// Gives up a restore.
pub fn abort_federation_restore(federation: &mut Federation) -> (r: CallResponse)
    requires
        old(federation).wf(),
    ensures
        final(federation).wf(),
        final(federation)@ == abort_restore_outcome(old(federation)@).fed,
        r@ == abort_restore_outcome(old(federation)@).reply,
{
    if federation.current_restore.is_none() {
        return refuse_bare(HlaException::RestoreNotInProgress);
    }
    federation.current_restore = None;
    reply(Service::AbortFederationRestore)
}

/// A restore that is in progress ends with the last report that is missing, and
/// with no other.
pub proof fn a_restore_ends_with_the_last_report(
    fed: FederationView,
    conns: Map<u64, u64>,
    me: u32,
    successfully: bool,
)
    requires
        fed.current_restore is Some,
    ensures
        ({
            let statuses = fed.current_restore->0.statuses;
            let o = restore_progress_outcome(fed, conns, me, successfully);
            o.fed.current_restore is None <==> (forall|f: u32|
                f != me && #[trigger] statuses.contains_key(f) ==> statuses[f]
                    == RestoreStatus::Complete || statuses[f] == RestoreStatus::NotComplete)
        }),
{
    let statuses = fed.current_restore->0.statuses;
    let after = statuses.insert(me, restore_report(successfully));
    if restore_settled(after) {
        assert forall|f: u32| f != me && #[trigger] statuses.contains_key(f) implies statuses[f]
            == RestoreStatus::Complete || statuses[f] == RestoreStatus::NotComplete by {
            assert(after.contains_key(f));
        }
    }
}

} // verus!

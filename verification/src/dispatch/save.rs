//! Saving a federation.

use crate::connections::Connections;
use crate::dispatch::helpers::{refusal, refuse_bare, silent, Outcome};
use crate::exception::{bare, HlaException};
use crate::federation::{
    FederateView, Federation, FederationView, SaveOperation, SaveStatus, SaveView,
};
use crate::handles::FederateHandle;
use crate::messages::{done, reply, CallResponse, Service};
use crate::persistence::{
    file_name_of, snapshot_of, snapshot_path, FederationSnapshot, SnapshotView,
};
use crate::routing::{
    deliver, deliveries, federation_not_saved, federation_not_saved_view, federation_saved,
    federation_saved_view, initiate_federate_save, initiate_federate_save_view, Outbox,
};
use crate::tables::{lemma_ascending, Table};
use crate::text::copy_text;
use vstd::prelude::*;

verus! {

/// A snapshot that is to be written, and the name of its file.
#[derive(Debug)]
pub struct SnapshotFile {
    pub file_name: String,
    pub snapshot: FederationSnapshot,
}

/// The mathematical content of [`SnapshotFile`].
#[verifier::ext_equal]
pub struct SnapshotFileView {
    pub file_name: Seq<char>,
    pub snapshot: SnapshotView,
}

impl View for SnapshotFile {
    type V = SnapshotFileView;

    open spec fn view(&self) -> SnapshotFileView {
        SnapshotFileView { file_name: self.file_name@, snapshot: self.snapshot@ }
    }
}

/// The content of an optional snapshot file.
pub open spec fn file_view(f: Option<SnapshotFile>) -> Option<SnapshotFileView> {
    match f {
        Some(f) => Some(f@),
        None => None,
    }
}

/// The save that has just been requested.
pub open spec fn initiated_save(
    federates: Map<u32, FederateView>,
    label: Seq<char>,
) -> SaveView {
    SaveView {
        label,
        statuses: Map::new(|f: u32| federates.contains_key(f), |f: u32| SaveStatus::Initiated),
    }
}

/// What the request for a save does.
pub open spec fn request_save_outcome(
    fed: FederationView,
    conns: Map<u64, u64>,
    label: Seq<char>,
) -> Outcome {
    if label.len() == 0 {
        refusal(fed, bare(HlaException::InvalidSaveLabel))
    } else if fed.current_save is Some {
        refusal(fed, bare(HlaException::SaveInProgress))
    } else {
        let next = FederationView {
            current_save: Some(initiated_save(fed.federates, label)),
            last_save_label: Some(label),
            ..fed
        };
        Outcome {
            fed: next,
            reply: done(Service::RequestFederationSave),
            sent: deliveries(
                conns,
                next,
                fed.federates.dom(),
                initiate_federate_save_view(label),
            ),
        }
    }
}

fn initiate_save(federation: &Federation, label: &str) -> (r: SaveOperation)
    ensures
        r@ == initiated_save(federation@.federates, label@),
{
    let keys = federation.federates.keys();
    let ghost federates = federation@.federates;
    proof {
        lemma_ascending(federates.dom());
    }
    let mut statuses: Table<u32, SaveStatus> = Table::new();
    let mut i: usize = 0;
    while i < keys.len()
        invariant
            i <= keys@.len(),
            forall|f: u32| #[trigger]
                statuses@.contains_key(f) <==> exists|k: int| 0 <= k < i && keys@[k] == f,
            forall|f: u32| #[trigger]
                statuses@.contains_key(f) ==> statuses@[f] == SaveStatus::Initiated,
        decreases keys@.len() - i,
    {
        let ghost seen = statuses@;
        statuses.insert(keys[i], SaveStatus::Initiated);
        assert forall|f: u32| #[trigger] statuses@.contains_key(f) <==> exists|k: int|
            0 <= k < i + 1 && keys@[k] == f by {
            if seen.contains_key(f) {
                let k = choose|k: int| 0 <= k < i && keys@[k] == f;
                assert(0 <= k < i + 1 && keys@[k] == f);
            }
            if f == keys@[i as int] {
                assert(0 <= i < i + 1 && keys@[i as int] == f);
            }
        }
        i = i + 1;
    }
    assert(statuses@ =~= initiated_save(federates, label@).statuses) by {
        assert forall|f: u32| statuses@.contains_key(f) <==> federates.contains_key(f) by {
            if statuses@.contains_key(f) {
                let k = choose|k: int| 0 <= k < i && keys@[k] == f;
                assert(keys@.contains(f));
            }
            if federates.contains_key(f) {
                assert(keys@.contains(f));
                let k = keys@.index_of(f);
                assert(keys@[k] == f);
            }
        }
    }
    SaveOperation { label: copy_text(label), statuses }
}

/// Starts a save and tells everybody.
pub fn request_federation_save(
    federation: &mut Federation,
    conns: &Connections,
    out: &mut Outbox,
    label: &str,
) -> (r: CallResponse)
    requires
        old(federation).wf(),
    ensures
        final(federation).wf(),
        ({
            let o = request_save_outcome(old(federation)@, conns@, label@);
            &&& final(federation)@ == o.fed
            &&& r@ == o.reply
            &&& final(out)@ == old(out)@ + o.sent
        }),
{
    assert(old(out)@ + Seq::empty() =~= old(out)@);
    if label.is_empty() {
        return refuse_bare(HlaException::InvalidSaveLabel);
    }
    if federation.current_save.is_some() {
        return refuse_bare(HlaException::SaveInProgress);
    }
    let save = initiate_save(federation, label);
    federation.current_save = Some(save);
    federation.last_save_label = Some(copy_text(label));
    let everybody = federation.federates.key_set();
    deliver(out, conns, federation, &everybody, initiate_federate_save(label));
    reply(Service::RequestFederationSave)
}

/// The federation with another status for a federate in the save.
pub open spec fn with_save_status(
    fed: FederationView,
    me: u32,
    status: SaveStatus,
) -> FederationView {
    FederationView {
        current_save: match fed.current_save {
            Some(s) => Some(SaveView { statuses: s.statuses.insert(me, status), ..s }),
            None => None,
        },
        ..fed
    }
}

/// What a federate's word that it begins to save does.
pub open spec fn save_begun_outcome(fed: FederationView, me: u32) -> Outcome {
    match fed.current_save {
        None => refusal(fed, bare(HlaException::SaveNotInProgress)),
        Some(save) => if !save.statuses.contains_key(me) {
            refusal(fed, bare(HlaException::FederateNotInSaveSet))
        } else if save.statuses[me] != SaveStatus::Initiated {
            refusal(fed, bare(HlaException::FederateNotInSaveInitiated))
        } else {
            silent(with_save_status(fed, me, SaveStatus::BegunSave), Service::FederateSaveBegun)
        },
    }
}

/// Takes note that a federate begins to save.
pub fn federate_save_begun(federation: &mut Federation, me: FederateHandle) -> (r: CallResponse)
    requires
        old(federation).wf(),
    ensures
        final(federation).wf(),
        final(federation)@ == save_begun_outcome(old(federation)@, me).fed,
        r@ == save_begun_outcome(old(federation)@, me).reply,
{
    match federation.current_save.take() {
        None => refuse_bare(HlaException::SaveNotInProgress),
        Some(mut save) => {
            let status: Option<SaveStatus> = match save.statuses.get(me) {
                Some(s) => Some(*s),
                None => None,
            };
            match status {
                None => {
                    federation.current_save = Some(save);
                    refuse_bare(HlaException::FederateNotInSaveSet)
                },
                Some(SaveStatus::Initiated) => {
                    save.statuses.insert(me, SaveStatus::BegunSave);
                    federation.current_save = Some(save);
                    reply(Service::FederateSaveBegun)
                },
                Some(_) => {
                    federation.current_save = Some(save);
                    refuse_bare(HlaException::FederateNotInSaveInitiated)
                },
            }
        },
    }
}

/// Whether every federate has finished, with or without success.
pub open spec fn save_settled(statuses: Map<u32, SaveStatus>) -> bool {
    forall|f: u32| #[trigger]
        statuses.contains_key(f) ==> statuses[f] == SaveStatus::SaveComplete || statuses[f]
            == SaveStatus::SaveNotComplete
}

/// Whether a federate could not save.
pub open spec fn save_failed(statuses: Map<u32, SaveStatus>) -> bool {
    exists|f: u32| #[trigger]
        statuses.contains_key(f) && statuses[f] == SaveStatus::SaveNotComplete
}

/// Whether everybody has finished, and whether somebody failed.
fn survey(statuses: &Table<u32, SaveStatus>) -> (r: (bool, bool))
    ensures
        r.0 == save_settled(statuses@),
        r.1 == save_failed(statuses@),
{
    let keys = statuses.keys();
    proof {
        lemma_ascending(statuses@.dom());
    }
    let mut settled = true;
    let mut failed = false;
    let mut i: usize = 0;
    while i < keys.len()
        invariant
            i <= keys@.len(),
            forall|f: u32| #[trigger] keys@.contains(f) <==> statuses@.contains_key(f),
            settled == forall|k: int|
                0 <= k < i ==> statuses@[#[trigger] keys@[k]] == SaveStatus::SaveComplete
                    || statuses@[keys@[k]] == SaveStatus::SaveNotComplete,
            failed == exists|k: int|
                0 <= k < i && statuses@[#[trigger] keys@[k]] == SaveStatus::SaveNotComplete,
        decreases keys@.len() - i,
    {
        assert(keys@.contains(keys@[i as int]));
        if let Some(s) = statuses.get(keys[i]) {
            assert(statuses@[keys@[i as int]] == *s);
            match *s {
                SaveStatus::SaveComplete => {},
                SaveStatus::SaveNotComplete => {
                    failed = true;
                },
                _ => {
                    settled = false;
                },
            }
        }
        i = i + 1;
    }
    proof {
        if settled {
            assert forall|f: u32| #[trigger] statuses@.contains_key(f) implies statuses@[f]
                == SaveStatus::SaveComplete || statuses@[f] == SaveStatus::SaveNotComplete by {
                assert(keys@.contains(f));
                let k = keys@.index_of(f);
                assert(keys@[k] == f);
            }
        } else {
            let k = choose|k: int|
                0 <= k < i && !(statuses@[#[trigger] keys@[k]] == SaveStatus::SaveComplete
                    || statuses@[keys@[k]] == SaveStatus::SaveNotComplete);
            assert(keys@.contains(keys@[k]));
            assert(statuses@.contains_key(keys@[k]));
        }
        if failed {
            let k = choose|k: int|
                0 <= k < i && statuses@[#[trigger] keys@[k]] == SaveStatus::SaveNotComplete;
            assert(keys@.contains(keys@[k]));
            assert(statuses@.contains_key(keys@[k]));
        }
        if save_failed(statuses@) {
            let f = choose|f: u32| #[trigger]
                statuses@.contains_key(f) && statuses@[f] == SaveStatus::SaveNotComplete;
            assert(keys@.contains(f));
            let k = keys@.index_of(f);
            assert(keys@[k] == f);
        }
    }
    (settled, failed)
}

/// The status of a federate that has finished.
pub open spec fn save_report(successfully: bool) -> SaveStatus {
    if successfully {
        SaveStatus::SaveComplete
    } else {
        SaveStatus::SaveNotComplete
    }
}

/// What a federate's word that it has finished saving does. The last one ends
/// the save, and everybody is told how it went.
pub open spec fn save_progress_outcome(
    fed: FederationView,
    conns: Map<u64, u64>,
    me: u32,
    successfully: bool,
) -> Outcome {
    match fed.current_save {
        None => refusal(fed, bare(HlaException::SaveNotInProgress)),
        Some(save) => {
            let statuses = save.statuses.insert(me, save_report(successfully));
            let service = if successfully {
                Service::FederateSaveComplete
            } else {
                Service::FederateSaveNotComplete
            };
            if save_settled(statuses) {
                let next = FederationView { current_save: None, ..fed };
                Outcome {
                    fed: next,
                    reply: done(service),
                    sent: deliveries(
                        conns,
                        next,
                        fed.federates.dom(),
                        if save_failed(statuses) {
                            federation_not_saved_view(0)
                        } else {
                            federation_saved_view()
                        },
                    ),
                }
            } else {
                silent(with_save_status(fed, me, save_report(successfully)), service)
            }
        },
    }
}

/// The snapshot that is to be written when a federate has finished saving: that
/// of the federation, where with this the save has succeeded.
pub open spec fn save_progress_file(
    fed: FederationView,
    me: u32,
    successfully: bool,
) -> Option<SnapshotFileView> {
    match (fed.current_save, fed.last_save_label) {
        (Some(save), Some(label)) => {
            let statuses = save.statuses.insert(me, save_report(successfully));
            if save_settled(statuses) && !save_failed(statuses) {
                Some(
                    SnapshotFileView {
                        file_name: file_name_of(fed.name, label),
                        snapshot: snapshot_of(fed),
                    },
                )
            } else {
                None
            }
        },
        _ => None,
    }
}

/// Takes note that a federate has finished saving. Where that ends the save
/// with success, the snapshot is handed out to be written.
pub fn federate_save_progressed(
    federation: &mut Federation,
    conns: &Connections,
    out: &mut Outbox,
    me: FederateHandle,
    successfully: bool,
) -> (r: (CallResponse, Option<SnapshotFile>))
    requires
        old(federation).wf(),
    ensures
        final(federation).wf(),
        ({
            let o = save_progress_outcome(old(federation)@, conns@, me, successfully);
            &&& final(federation)@ == o.fed
            &&& r.0@ == o.reply
            &&& final(out)@ == old(out)@ + o.sent
        }),
        file_view(r.1) == save_progress_file(old(federation)@, me, successfully),
{
    assert(old(out)@ + Seq::empty() =~= old(out)@);
    let ghost fed = federation@;
    match federation.current_save.take() {
        None => (refuse_bare(HlaException::SaveNotInProgress), None),
        Some(mut save) => {
            let status = if successfully {
                SaveStatus::SaveComplete
            } else {
                SaveStatus::SaveNotComplete
            };
            save.statuses.insert(me, status);
            let (settled, failed) = survey(&save.statuses);
            let mut file: Option<SnapshotFile> = None;
            if settled {
                let everybody = federation.federates.key_set();
                if failed {
                    deliver(out, conns, federation, &everybody, federation_not_saved(0));
                } else {
                    file = persist_federation_snapshot_on_success(federation);
                    deliver(out, conns, federation, &everybody, federation_saved());
                }
                assert(snapshot_of(federation@) == snapshot_of(fed));
            } else {
                federation.current_save = Some(save);
            }
            if successfully {
                (reply(Service::FederateSaveComplete), file)
            } else {
                (reply(Service::FederateSaveNotComplete), file)
            }
        },
    }
}

/// The snapshot of the federation under the label of the last save.
fn persist_federation_snapshot_on_success(federation: &Federation) -> (r: Option<SnapshotFile>)
    requires
        federation.wf(),
    ensures
        file_view(r) == (match federation@.last_save_label {
            Some(label) => Some(
                SnapshotFileView {
                    file_name: file_name_of(federation@.name, label),
                    snapshot: snapshot_of(federation@),
                },
            ),
            None => None,
        }),
{
    match &federation.last_save_label {
        Some(label) => Some(
            SnapshotFile {
                file_name: snapshot_path(federation.name.as_str(), label.as_str()),
                snapshot: federation.snapshot(),
            },
        ),
        None => None,
    }
}

/// What the abort of a save does.
pub open spec fn abort_save_outcome(fed: FederationView) -> Outcome {
    if fed.current_save is None {
        refusal(fed, bare(HlaException::SaveNotInProgress))
    } else {
        silent(FederationView { current_save: None, ..fed }, Service::AbortFederationSave)
    }
}

/// Gives up a save.
pub fn abort_federation_save(federation: &mut Federation) -> (r: CallResponse)
    requires
        old(federation).wf(),
    ensures
        final(federation).wf(),
        final(federation)@ == abort_save_outcome(old(federation)@).fed,
        r@ == abort_save_outcome(old(federation)@).reply,
{
    if federation.current_save.is_none() {
        return refuse_bare(HlaException::SaveNotInProgress);
    }
    federation.current_save = None;
    reply(Service::AbortFederationSave)
}

/// A save that is in progress ends with the last report that is missing, and
/// with no other. The snapshot is written exactly if with it everybody has
/// reported success.
pub proof fn a_save_ends_with_the_last_report(
    fed: FederationView,
    conns: Map<u64, u64>,
    me: u32,
    successfully: bool,
)
    requires
        fed.current_save is Some,
        fed.last_save_label is Some,
    ensures
        ({
            let statuses = fed.current_save->0.statuses;
            let o = save_progress_outcome(fed, conns, me, successfully);
            &&& o.fed.current_save is None <==> (forall|f: u32|
                f != me && #[trigger] statuses.contains_key(f) ==> statuses[f]
                    == SaveStatus::SaveComplete || statuses[f] == SaveStatus::SaveNotComplete)
            &&& save_progress_file(fed, me, successfully) is Some <==> successfully && (forall|
                f: u32,
            |
                f != me && #[trigger] statuses.contains_key(f) ==> statuses[f]
                    == SaveStatus::SaveComplete)
        }),
{
    let statuses = fed.current_save->0.statuses;
    let after = statuses.insert(me, save_report(successfully));
    assert(after.contains_key(me));
    assert forall|f: u32| f != me implies (statuses.contains_key(f) <==> after.contains_key(f)) && (
    statuses.contains_key(f) ==> statuses[f] == after[f]) by {}
    if save_settled(after) {
        assert forall|f: u32| f != me && #[trigger] statuses.contains_key(f) implies statuses[f]
            == SaveStatus::SaveComplete || statuses[f] == SaveStatus::SaveNotComplete by {
            assert(after.contains_key(f));
        }
    }
    if save_settled(after) && !save_failed(after) {
        assert forall|f: u32| f != me && #[trigger] statuses.contains_key(f) implies statuses[f]
            == SaveStatus::SaveComplete by {
            assert(after.contains_key(f));
        }
    }
}

} // verus!

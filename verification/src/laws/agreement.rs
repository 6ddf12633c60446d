//! What federates agree on: synchronization points, saves and restores.

use crate::callbacks::CallbackView;
use crate::dispatch::calls::{
    coordination_outcome, exchange_outcome, lookup_reply, member_file, member_outcome,
    quiet_outcome,
};
use crate::dispatch::handle_lookup::wire;
use crate::dispatch::helpers::{handles_in, listed};
use crate::dispatch::restore::SnapshotLoadView;
use crate::dispatch::save::{save_failed, save_settled};
use crate::dispatch::time_mgmt::lemma_time_services_keep;
use crate::exception::HlaException;
use crate::federation::{FederationView, SaveStatus, SaveView, SyncPointView};
use crate::handles::field64;
use crate::laws::{
    handles_are_listed_once, lemma_names, lemma_tells_likewise, lemma_tells_set, lemma_tells_two,
    lists, names, only_if, own_sessions, refuses, serves, tells,
};
use crate::messages::{CallRequest, Service};
use crate::routing::{deliveries, handle_list};
use crate::tables::ascending;
use vstd::prelude::*;

verus! {

/// Whether two states differ in their synchronization points at most.
pub open spec fn only_points_differ(a: FederationView, b: FederationView) -> bool {
    b == (FederationView { sync_points: b.sync_points, ..a })
}

/// Whether a synchronization point with a label may be registered by a request, for
/// the named federates or for all.
pub open spec fn registers_point(
    request: CallRequest,
    label: Seq<char>,
    tag: Seq<u8>,
    fed: FederationView,
    participants: Set<u32>,
) -> bool {
    match request {
        CallRequest::RegisterFederationSynchronizationPoint {
            synchronization_point_label,
            user_supplied_tag,
        } => {
            &&& synchronization_point_label@ == label
            &&& user_supplied_tag@ == tag
            &&& forall|f: u32| participants.contains(f) <==> #[trigger] fed.federates.contains_key(f)
        },
        CallRequest::RegisterFederationSynchronizationPointWithSet {
            synchronization_point_label,
            user_supplied_tag,
            synchronization_set,
        } => {
            &&& synchronization_point_label@ == label
            &&& user_supplied_tag@ == tag
            &&& if exists|f: u32| names(synchronization_set, f) {
                forall|f: u32| #[trigger]
                    participants.contains(f) <==> names(synchronization_set, f)
            } else {
                forall|f: u32|
                    participants.contains(f) <==> #[trigger] fed.federates.contains_key(f)
            }
        },
        _ => false,
    }
}

/// A new synchronization point is there under its label, waiting for those that were
/// named, or for everybody where nobody was. Who registers it is told that it
/// succeeded, and then every participant hears of the point and its tag. All else,
/// the other points too, is as it was.
pub proof fn a_new_point_is_announced_to_its_participants(
    fed: FederationView,
    conns: Map<u64, u64>,
    me: u32,
    request: CallRequest,
    load: SnapshotLoadView,
    label: Seq<char>,
    tag: Seq<u8>,
    participants: Set<u32>,
)
    requires
        own_sessions(fed.federates),
        registers_point(request, label, tag, fed, participants),
        label.len() > 0,
        !fed.sync_points.values.contains_key(label),
    ensures
        ({
            let o = member_outcome(fed, conns, me, request, load);
            let points = o.fed.sync_points;
            &&& serves(o, Service::RegisterFederationSynchronizationPoint)
            &&& only_points_differ(fed, o.fed)
            &&& points.order == fed.sync_points.order.push(label)
            &&& forall|l: Seq<char>|
                l != label ==> ((#[trigger] points.values.contains_key(l))
                    <==> fed.sync_points.values.contains_key(l))
            &&& forall|l: Seq<char>|
                l != label && #[trigger] fed.sync_points.values.contains_key(l)
                    ==> points.values[l] == fed.sync_points.values[l]
            &&& points.values.contains_key(label)
            &&& points.values[label].label == label
            &&& points.values[label].tag == tag
            &&& points.values[label].participants == participants
            &&& points.values[label].achieved == Set::<u32>::empty()
            &&& points.values[label].failed_to_sync == Set::<u32>::empty()
            &&& tells(
                o.sent,
                conns,
                fed.federates,
                |f: u32|
                    only_if(
                        f == me,
                        CallbackView::SynchronizationPointRegistrationSucceeded {
                            synchronization_point_label: label,
                        },
                    ) + only_if(
                        participants.contains(f),
                        CallbackView::AnnounceSynchronizationPoint {
                            synchronization_point_label: label,
                            user_supplied_tag: tag,
                        },
                    ),
            )
        }),
{
    reveal(lookup_reply);
    reveal(quiet_outcome);
    reveal(exchange_outcome);
    reveal(coordination_outcome);
    let o = member_outcome(fed, conns, me, request, load);
    if let CallRequest::RegisterFederationSynchronizationPointWithSet {
        synchronization_set,
        ..
    } = request {
        let set = handles_in(listed(synchronization_set));
        assert forall|f: u32| set.contains(f) <==> names(synchronization_set, f) by {
            lemma_names(synchronization_set, f);
        }
        if exists|f: u32| names(synchronization_set, f) {
            let f = choose|f: u32| names(synchronization_set, f);
            assert(set.contains(f));
            assert(participants =~= set);
        } else {
            assert(set =~= Set::empty());
            assert(participants =~= fed.federates.dom());
        }
    } else {
        assert(participants =~= fed.federates.dom());
    }
    let succeeded = CallbackView::SynchronizationPointRegistrationSucceeded {
        synchronization_point_label: label,
    };
    let announced = CallbackView::AnnounceSynchronizationPoint {
        synchronization_point_label: label,
        user_supplied_tag: tag,
    };
    let a = deliveries(conns, o.fed, set![me], succeeded);
    let b = deliveries(conns, o.fed, participants, announced);
    let first = |f: u32| only_if(f == me, succeeded);
    let second = |f: u32| only_if(participants.contains(f), announced);
    lemma_tells_set(conns, fed.federates, o.fed, set![me], succeeded, first);
    lemma_tells_set(conns, fed.federates, o.fed, participants, announced, second);
    lemma_tells_two(
        a,
        b,
        conns,
        fed.federates,
        first,
        second,
        |f: u32| only_if(f == me, succeeded) + only_if(participants.contains(f), announced),
    );
}

/// A label that is taken is refused to who asks for it, and a point needs a label;
/// neither changes anything.
pub proof fn a_point_needs_a_label_of_its_own(
    fed: FederationView,
    conns: Map<u64, u64>,
    me: u32,
    request: CallRequest,
    load: SnapshotLoadView,
    label: Seq<char>,
    tag: Seq<u8>,
    participants: Set<u32>,
)
    requires
        own_sessions(fed.federates),
        registers_point(request, label, tag, fed, participants),
    ensures
        ({
            let o = member_outcome(fed, conns, me, request, load);
            &&& label.len() == 0 ==> refuses(
                o,
                fed,
                HlaException::InvalidSynchronizationPointLabel,
            )
            &&& label.len() > 0 && fed.sync_points.values.contains_key(label) ==> {
                &&& serves(o, Service::RegisterFederationSynchronizationPoint)
                &&& o.fed == fed
                &&& tells(
                    o.sent,
                    conns,
                    fed.federates,
                    |f: u32|
                        only_if(
                            f == me,
                            CallbackView::SynchronizationPointRegistrationFailed {
                                synchronization_point_label: label,
                                reason: 0,
                            },
                        ),
                )
            }
        }),
{
    reveal(lookup_reply);
    reveal(quiet_outcome);
    reveal(exchange_outcome);
    reveal(coordination_outcome);
    let failed = CallbackView::SynchronizationPointRegistrationFailed {
        synchronization_point_label: label,
        reason: 0,
    };
    lemma_tells_set(
        conns,
        fed.federates,
        fed,
        set![me],
        failed,
        |f: u32| only_if(f == me, failed),
    );
}

/// Whether with the report of one federate every participant of a point has
/// reported.
pub open spec fn last_to_report(point: SyncPointView, me: u32) -> bool {
    forall|f: u32| #[trigger]
        point.participants.contains(f) ==> f == me || point.achieved.contains(f)
}

/// A report on a synchronization point that others have still to reach is taken
/// down, and nobody hears of it. The one that completes the point ends it: every
/// participant, who reports last too, is told that the federation is synchronized,
/// and which of them have reported failure. No other point is touched.
pub proof fn a_completed_point_is_told_to_all_its_participants(
    fed: FederationView,
    conns: Map<u64, u64>,
    me: u32,
    label: String,
    successfully: bool,
    load: SnapshotLoadView,
)
    requires
        fed.wf(),
        own_sessions(fed.federates),
        fed.sync_points.values.contains_key(label@),
        fed.sync_points.values[label@].participants.contains(me),
    ensures
        ({
            let request = CallRequest::SynchronizationPointAchieved {
                synchronization_point_label: label,
                successfully,
            };
            let o = member_outcome(fed, conns, me, request, load);
            let point = fed.sync_points.values[label@];
            let points = o.fed.sync_points.values;
            let failed = if successfully {
                point.failed_to_sync
            } else {
                point.failed_to_sync.insert(me)
            };
            let list = handle_list(ascending(failed));
            &&& serves(o, Service::SynchronizationPointAchieved)
            &&& only_points_differ(fed, o.fed)
            &&& forall|l: Seq<char>|
                l != label@ ==> ((#[trigger] points.contains_key(l))
                    <==> fed.sync_points.values.contains_key(l))
            &&& forall|l: Seq<char>|
                l != label@ && #[trigger] fed.sync_points.values.contains_key(l) ==> points[l]
                    == fed.sync_points.values[l]
            &&& points.contains_key(label@) <==> !last_to_report(point, me)
            &&& points.contains_key(label@) ==> {
                &&& points[label@].label == point.label
                &&& points[label@].tag == point.tag
                &&& points[label@].participants == point.participants
                &&& points[label@].achieved == point.achieved.insert(me)
                &&& points[label@].failed_to_sync == failed
                &&& o.fed.sync_points.order == fed.sync_points.order
                &&& o.sent.len() == 0
            }
            &&& last_to_report(point, me) ==> lists(list, failed) && tells(
                o.sent,
                conns,
                fed.federates,
                |f: u32|
                    only_if(
                        point.participants.contains(f),
                        CallbackView::FederationSynchronized {
                            synchronization_point_label: label@,
                            failed_to_sync_set: list,
                        },
                    ),
            )
        }),
{
    reveal(lookup_reply);
    reveal(quiet_outcome);
    reveal(exchange_outcome);
    reveal(coordination_outcome);
    let request = CallRequest::SynchronizationPointAchieved {
        synchronization_point_label: label,
        successfully,
    };
    let o = member_outcome(fed, conns, me, request, load);
    let point = fed.sync_points.values[label@];
    assert(fed.sync_points.has(label@));
    assert(point.wf());
    let failed = if successfully {
        point.failed_to_sync
    } else {
        point.failed_to_sync.insert(me)
    };
    let list = handle_list(ascending(failed));
    handles_are_listed_once(failed);
    if last_to_report(point, me) {
        assert(point.achieved.insert(me) =~= point.participants);
        let synchronized = CallbackView::FederationSynchronized {
            synchronization_point_label: label@,
            failed_to_sync_set: list,
        };
        lemma_tells_set(
            conns,
            fed.federates,
            o.fed,
            point.participants,
            synchronized,
            |f: u32| only_if(point.participants.contains(f), synchronized),
        );
    } else {
        let f = choose|f: u32| #[trigger]
            point.participants.contains(f) && !(f == me || point.achieved.contains(f));
        assert(!point.achieved.insert(me).contains(f));
    }
}

/// A report on a label that is not announced is refused, and so is one of a federate
/// that does not take part.
pub proof fn only_participants_report(
    fed: FederationView,
    conns: Map<u64, u64>,
    me: u32,
    label: String,
    successfully: bool,
    load: SnapshotLoadView,
)
    ensures
        ({
            let request = CallRequest::SynchronizationPointAchieved {
                synchronization_point_label: label,
                successfully,
            };
            let o = member_outcome(fed, conns, me, request, load);
            let points = fed.sync_points.values;
            &&& !points.contains_key(label@) ==> refuses(
                o,
                fed,
                HlaException::SynchronizationPointLabelNotAnnounced,
            )
            &&& points.contains_key(label@) && !points[label@].participants.contains(me) ==> refuses(
                o,
                fed,
                HlaException::FederateNotInSynchronizationGroup,
            )
        }),
{
    reveal(lookup_reply);
    reveal(quiet_outcome);
    reveal(exchange_outcome);
    reveal(coordination_outcome);
}

/// Whether two states differ in the save that is in progress, and in the label of the
/// last one, at most.
pub open spec fn only_save_differs(a: FederationView, b: FederationView) -> bool {
    b == (FederationView {
        current_save: b.current_save,
        last_save_label: b.last_save_label,
        ..a
    })
}

/// A request for a save begins one, under its label, in which every federate still
/// has to save, and tells every federate to do so. A save needs a label, and there is
/// one at a time.
pub proof fn a_save_is_begun_with_everybody(
    fed: FederationView,
    conns: Map<u64, u64>,
    me: u32,
    with_time: bool,
    label: String,
    load: SnapshotLoadView,
)
    requires
        own_sessions(fed.federates),
    ensures
        ({
            let request = CallRequest::RequestFederationSave { with_time, label };
            let o = member_outcome(fed, conns, me, request, load);
            &&& label@.len() == 0 ==> refuses(o, fed, HlaException::InvalidSaveLabel)
            &&& label@.len() > 0 && fed.current_save is Some ==> refuses(
                o,
                fed,
                HlaException::SaveInProgress,
            )
            &&& label@.len() > 0 && fed.current_save is None ==> {
                &&& serves(o, Service::RequestFederationSave)
                &&& only_save_differs(fed, o.fed)
                &&& o.fed.last_save_label == Some(label@)
                &&& o.fed.current_save matches Some(save) && save.label == label@ && (forall|
                    f: u32,
                | #[trigger]
                    save.statuses.contains_key(f) <==> fed.federates.contains_key(f)) && (forall|
                    f: u32,
                | #[trigger]
                    save.statuses.contains_key(f) ==> save.statuses[f] == SaveStatus::Initiated)
                &&& tells(
                    o.sent,
                    conns,
                    fed.federates,
                    |f: u32| seq![CallbackView::InitiateFederateSave { label: label@ }],
                )
            }
        }),
{
    reveal(lookup_reply);
    reveal(quiet_outcome);
    reveal(exchange_outcome);
    reveal(coordination_outcome);
    let request = CallRequest::RequestFederationSave { with_time, label };
    let o = member_outcome(fed, conns, me, request, load);
    if label@.len() > 0 && fed.current_save is None {
        let initiate = CallbackView::InitiateFederateSave { label: label@ };
        lemma_tells_set(
            conns,
            fed.federates,
            o.fed,
            fed.federates.dom(),
            initiate,
            |f: u32| seq![initiate],
        );
    }
}

/// The word of a federate that it begins to save is taken down where it has still to
/// begin, and nobody is told.
pub proof fn a_federate_begins_to_save_once(
    fed: FederationView,
    conns: Map<u64, u64>,
    me: u32,
    load: SnapshotLoadView,
)
    ensures
        ({
            let o = member_outcome(fed, conns, me, CallRequest::FederateSaveBegun, load);
            match fed.current_save {
                None => refuses(o, fed, HlaException::SaveNotInProgress),
                Some(save) => {
                    &&& !save.statuses.contains_key(me) ==> refuses(
                        o,
                        fed,
                        HlaException::FederateNotInSaveSet,
                    )
                    &&& save.statuses.contains_key(me) && save.statuses[me]
                        != SaveStatus::Initiated ==> refuses(
                        o,
                        fed,
                        HlaException::FederateNotInSaveInitiated,
                    )
                    &&& save.statuses.contains_key(me) && save.statuses[me]
                        == SaveStatus::Initiated ==> {
                        &&& serves(o, Service::FederateSaveBegun)
                        &&& o.sent.len() == 0
                        &&& o.fed == (FederationView {
                            current_save: Some(
                                SaveView {
                                    label: save.label,
                                    statuses: save.statuses.insert(me, SaveStatus::BegunSave),
                                },
                            ),
                            ..fed
                        })
                    }
                },
            }
        }),
{
    reveal(lookup_reply);
    reveal(quiet_outcome);
    reveal(exchange_outcome);
    reveal(coordination_outcome);
}

/// The word of a federate on how its save went.
pub open spec fn save_word(successfully: bool) -> CallRequest {
    if successfully {
        CallRequest::FederateSaveComplete
    } else {
        CallRequest::FederateSaveNotComplete
    }
}

/// Whether every federate of a save but one has said how it went.
pub open spec fn others_have_finished(save: SaveView, me: u32) -> bool {
    forall|f: u32| #[trigger]
        save.statuses.contains_key(f) && f != me ==> save.statuses[f] == SaveStatus::SaveComplete
            || save.statuses[f] == SaveStatus::SaveNotComplete
}

/// Whether every federate of a save but one has saved.
pub open spec fn others_have_saved(save: SaveView, me: u32) -> bool {
    forall|f: u32| #[trigger]
        save.statuses.contains_key(f) && f != me ==> save.statuses[f] == SaveStatus::SaveComplete
}

/// Whether the label of the save in progress is known as that of the last one.
pub open spec fn save_is_labelled(fed: FederationView) -> bool {
    fed.current_save matches Some(save) ==> fed.last_save_label == Some(save.label)
}

/// Whether two states have the same save in progress, and the same label of the last one.
pub open spec fn same_save(a: FederationView, b: FederationView) -> bool {
    &&& a.current_save == b.current_save
    &&& a.last_save_label == b.last_save_label
}

#[verifier::spinoff_prover]
#[verifier::rlimit(60)]
proof fn lemma_quiet_labelled(fed: FederationView, me: u32, request: CallRequest)
    requires
        save_is_labelled(fed),
    ensures
        quiet_outcome(fed, me, request) matches Some(o) ==> save_is_labelled(o.fed),
{
    reveal(quiet_outcome);
}

#[verifier::spinoff_prover]
#[verifier::rlimit(60)]
proof fn lemma_exchange_keeps_save(
    fed: FederationView,
    conns: Map<u64, u64>,
    me: u32,
    request: CallRequest,
)
    ensures
        exchange_outcome(fed, conns, me, request) is Some ==> same_save(
            exchange_outcome(fed, conns, me, request)->0.fed,
            fed,
        ),
{
    reveal(exchange_outcome);
}

#[verifier::spinoff_prover]
#[verifier::rlimit(60)]
proof fn lemma_coordination_keeps_save(
    fed: FederationView,
    conns: Map<u64, u64>,
    me: u32,
    request: CallRequest,
    load: SnapshotLoadView,
)
    ensures
        !(request is RequestFederationSave) && coordination_outcome(fed, conns, me, request, load)
            is Some ==> same_save(
            coordination_outcome(fed, conns, me, request, load)->0.fed,
            fed,
        ),
{
    reveal(coordination_outcome);
    match request {
        CallRequest::EnableTimeRegulation { lookahead } => {
            lemma_time_services_keep(fed, conns, me, wire(lookahead), None);
        },
        CallRequest::ModifyLookahead { lookahead } => {
            lemma_time_services_keep(fed, conns, me, None, field64(lookahead));
        },
        CallRequest::TimeAdvance { time, .. } => {
            lemma_time_services_keep(fed, conns, me, wire(time), None);
        },
        CallRequest::DisableTimeRegulation => {
            lemma_time_services_keep(fed, conns, me, None, None);
        },
        CallRequest::DisableTimeConstrained => {
            lemma_time_services_keep(fed, conns, me, None, None);
        },
        _ => {},
    }
}

/// Whatever is asked for, the label of the save in progress stays known.
pub proof fn a_save_keeps_its_label(
    fed: FederationView,
    conns: Map<u64, u64>,
    me: u32,
    request: CallRequest,
    load: SnapshotLoadView,
)
    requires
        save_is_labelled(fed),
    ensures
        save_is_labelled(member_outcome(fed, conns, me, request, load).fed),
{
    lemma_quiet_labelled(fed, me, request);
    lemma_exchange_keeps_save(fed, conns, me, request);
    lemma_coordination_keeps_save(fed, conns, me, request, load);
    if request is RequestFederationSave {
        reveal(lookup_reply);
        reveal(quiet_outcome);
        reveal(exchange_outcome);
        reveal(coordination_outcome);
    }
}

/// The report that ends a save tells every federate that the federation is saved if
/// this report and all those before it are of success, and that it is not saved
/// otherwise; it is told to be saved exactly when a snapshot is handed out. A report
/// that others have still to follow is taken down, and nobody is told.
pub proof fn a_save_succeeds_if_everybody_saved(
    fed: FederationView,
    conns: Map<u64, u64>,
    me: u32,
    successfully: bool,
    load: SnapshotLoadView,
)
    requires
        own_sessions(fed.federates),
        fed.current_save is Some,
    ensures
        ({
            let request = save_word(successfully);
            let o = member_outcome(fed, conns, me, request, load);
            let save = fed.current_save->0;
            let all_saved = successfully && others_have_saved(save, me);
            &&& serves(
                o,
                if successfully {
                    Service::FederateSaveComplete
                } else {
                    Service::FederateSaveNotComplete
                },
            )
            &&& others_have_finished(save, me) ==> {
                &&& o.fed == (FederationView { current_save: None, ..fed })
                &&& tells(
                    o.sent,
                    conns,
                    fed.federates,
                    |f: u32|
                        seq![
                            if all_saved {
                                CallbackView::FederationSaved
                            } else {
                                CallbackView::FederationNotSaved { reason: 0 }
                            },
                        ],
                )
                &&& save_is_labelled(fed) ==> (member_file(fed, me, request) is Some
                    <==> all_saved)
            }
            &&& !others_have_finished(save, me) ==> {
                &&& o.fed.current_save matches Some(next) && next.label == save.label
                    && next.statuses == save.statuses.insert(
                    me,
                    if successfully {
                        SaveStatus::SaveComplete
                    } else {
                        SaveStatus::SaveNotComplete
                    },
                )
                &&& o.fed == (FederationView { current_save: o.fed.current_save, ..fed })
                &&& o.sent.len() == 0
                &&& member_file(fed, me, request) is None
            }
        }),
{
    let request = save_word(successfully);
    let o = member_outcome(fed, conns, me, request, load);
    let save = fed.current_save->0;
    let report = if successfully {
        SaveStatus::SaveComplete
    } else {
        SaveStatus::SaveNotComplete
    };
    let after = save.statuses.insert(me, report);
    let all_saved = successfully && others_have_saved(save, me);
    assert(after.contains_key(me));
    assert(save_settled(after) <==> others_have_finished(save, me)) by {
        if save_settled(after) {
            assert forall|f: u32| #[trigger]
                save.statuses.contains_key(f) && f != me implies save.statuses[f]
                == SaveStatus::SaveComplete || save.statuses[f] == SaveStatus::SaveNotComplete by {
                assert(after.contains_key(f));
            }
        }
    }
    if save_settled(after) {
        assert(save_failed(after) <==> !all_saved) by {
            if all_saved && save_failed(after) {
                let f = choose|f: u32| #[trigger]
                    after.contains_key(f) && after[f] == SaveStatus::SaveNotComplete;
                assert(save.statuses.contains_key(f));
            }
            if !all_saved && successfully {
                let f = choose|f: u32| #[trigger]
                    save.statuses.contains_key(f) && f != me && save.statuses[f]
                        != SaveStatus::SaveComplete;
                assert(after.contains_key(f));
            }
        }
        let word = if all_saved {
            CallbackView::FederationSaved
        } else {
            CallbackView::FederationNotSaved { reason: 0 }
        };
        lemma_tells_set(
            conns,
            fed.federates,
            o.fed,
            fed.federates.dom(),
            word,
            |f: u32| seq![word],
        );
        lemma_tells_likewise(
            o.sent,
            conns,
            fed.federates,
            |f: u32| seq![word],
            |f: u32|
                seq![
                    if all_saved {
                        CallbackView::FederationSaved
                    } else {
                        CallbackView::FederationNotSaved { reason: 0 }
                    },
                ],
        );
    }
}

/// Without a save there is nothing to report on and nothing to give up. A save that is
/// given up is gone without a word.
pub proof fn a_save_is_given_up_silently(
    fed: FederationView,
    conns: Map<u64, u64>,
    me: u32,
    successfully: bool,
    load: SnapshotLoadView,
)
    ensures
        fed.current_save is None ==> refuses(
            member_outcome(fed, conns, me, save_word(successfully), load),
            fed,
            HlaException::SaveNotInProgress,
        ) && member_file(fed, me, save_word(successfully)) is None,
        ({
            let o = member_outcome(fed, conns, me, CallRequest::AbortFederationSave, load);
            &&& fed.current_save is None ==> refuses(o, fed, HlaException::SaveNotInProgress)
            &&& fed.current_save is Some ==> {
                &&& serves(o, Service::AbortFederationSave)
                &&& o.fed == (FederationView { current_save: None, ..fed })
                &&& o.sent.len() == 0
            }
        }),
{
    reveal(lookup_reply);
    reveal(quiet_outcome);
    reveal(exchange_outcome);
    reveal(coordination_outcome);
}

} // verus!

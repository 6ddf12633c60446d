//! Synchronization points.

use crate::connections::Connections;
use crate::dispatch::helpers::{refusal, refuse, silent, Outcome};
use crate::exception::{exception_variant, raised, ExceptionView, HlaException};
use crate::federation::{Federation, FederationView, SyncPoint, SyncPointView};
use crate::handles::FederateHandle;
use crate::messages::{done, reply, CallResponse, Service};
use crate::routing::{
    announce_synchronization_point, announce_synchronization_point_view, deliver, deliveries,
    federation_synchronized, federation_synchronized_view,
    synchronization_point_registration_failed, synchronization_point_registration_failed_view,
    synchronization_point_registration_succeeded, synchronization_point_registration_succeeded_view,
    Outbox,
};
use crate::tables::KeySet;
use crate::text::{copy_bytes, copy_text, decimal, decimal_of};
use vstd::prelude::*;

verus! {

/// The reason why a registration fails: the label is not unique.
pub const LABEL_NOT_UNIQUE: i32 = 0;

/// The participants of a new synchronization point: those that were named, or
/// everybody where nobody was.
pub open spec fn participants_of(fed: FederationView, subset: Option<Set<u32>>) -> Set<u32> {
    match subset {
        Some(s) if s != Set::<u32>::empty() => s,
        _ => fed.federates.dom(),
    }
}

/// What registering a synchronization point does.
pub open spec fn register_point_outcome(
    fed: FederationView,
    conns: Map<u64, u64>,
    me: u32,
    label: Seq<char>,
    tag: Seq<u8>,
    subset: Option<Set<u32>>,
) -> Outcome {
    if label.len() == 0 {
        refusal(
            fed,
            raised(HlaException::InvalidSynchronizationPointLabel, "label must not be empty"@),
        )
    } else if fed.sync_points.has(label) {
        Outcome {
            fed,
            reply: done(Service::RegisterFederationSynchronizationPoint),
            sent: deliveries(
                conns,
                fed,
                set![me],
                synchronization_point_registration_failed_view(label, LABEL_NOT_UNIQUE),
            ),
        }
    } else {
        let participants = participants_of(fed, subset);
        let next = FederationView {
            sync_points: fed.sync_points.put(
                label,
                SyncPointView {
                    label,
                    tag,
                    participants,
                    achieved: Set::empty(),
                    failed_to_sync: Set::empty(),
                },
            ),
            ..fed
        };
        Outcome {
            fed: next,
            reply: done(Service::RegisterFederationSynchronizationPoint),
            sent: deliveries(
                conns,
                next,
                set![me],
                synchronization_point_registration_succeeded_view(label),
            ) + deliveries(
                conns,
                next,
                participants,
                announce_synchronization_point_view(label, tag),
            ),
        }
    }
}

/// The members of an optional set.
pub open spec fn subset_view(subset: Option<KeySet<u32>>) -> Option<Set<u32>> {
    match subset {
        Some(s) => Some(s@),
        None => None,
    }
}

/// Registers a synchronization point and announces it to its participants.
pub fn register_synchronization_point(
    federation: &mut Federation,
    conns: &Connections,
    out: &mut Outbox,
    me: FederateHandle,
    label: &str,
    tag: &[u8],
    subset: &Option<KeySet<u32>>,
) -> (r: CallResponse)
    requires
        old(federation).wf(),
    ensures
        final(federation).wf(),
        ({
            let o = register_point_outcome(
                old(federation)@,
                conns@,
                me,
                label@,
                tag@,
                subset_view(*subset),
            );
            &&& final(federation)@ == o.fed
            &&& r@ == o.reply
            &&& final(out)@ == old(out)@ + o.sent
        }),
{
    assert(old(out)@ + Seq::empty() =~= old(out)@);
    let ghost fed = federation@;
    if label.is_empty() {
        return refuse(
            exception_variant(
                HlaException::InvalidSynchronizationPointLabel,
                "label must not be empty",
            ),
        );
    }
    let registrant: KeySet<u32> = KeySet::single(me);
    if federation.sync_points.contains(label) {
        deliver(
            out,
            conns,
            federation,
            &registrant,
            synchronization_point_registration_failed(label, LABEL_NOT_UNIQUE),
        );
        return reply(Service::RegisterFederationSynchronizationPoint);
    }
    let participants = match subset {
        Some(s) => {
            if s.is_empty() {
                federation.federates.key_set()
            } else {
                s.copy()
            }
        },
        None => federation.federates.key_set(),
    };
    federation.sync_points.insert(
        label,
        SyncPoint {
            label: copy_text(label),
            tag: copy_bytes(tag),
            participants: participants.copy(),
            achieved: KeySet::new(),
            failed_to_sync: KeySet::new(),
        },
    );
    proof {
        assert forall|l: Seq<char>| #[trigger]
            federation@.sync_points.has(l) implies federation@.sync_points.at(l).label == l
            && federation@.sync_points.at(l).wf() by {
            if l != label@ {
                assert(fed.sync_points.has(l));
            }
        }
    }
    deliver(
        out,
        conns,
        federation,
        &registrant,
        synchronization_point_registration_succeeded(label),
    );
    deliver(out, conns, federation, &participants, announce_synchronization_point(label, tag));
    assert(out@ =~= old(out)@ + register_point_outcome(
        fed,
        conns@,
        me,
        label@,
        tag@,
        subset_view(*subset),
    ).sent);
    reply(Service::RegisterFederationSynchronizationPoint)
}

/// A synchronization point after a participant has reported.
pub open spec fn reported(point: SyncPointView, me: u32, successfully: bool) -> SyncPointView {
    SyncPointView {
        achieved: point.achieved.insert(me),
        failed_to_sync: if successfully {
            point.failed_to_sync
        } else {
            point.failed_to_sync.insert(me)
        },
        ..point
    }
}

/// The exception for a federate that does not take part in a synchronization
/// point.
pub open spec fn outsider(me: u32, label: Seq<char>) -> ExceptionView {
    raised(
        HlaException::FederateNotInSynchronizationGroup,
        "federate "@ + decimal_of(me as nat) + " not in sync set for "@ + label,
    )
}

/// What a report on a synchronization point does. With the last report the point
/// is gone, and its participants are told who failed.
pub open spec fn achieve_point_outcome(
    fed: FederationView,
    conns: Map<u64, u64>,
    me: u32,
    label: Seq<char>,
    successfully: bool,
) -> Outcome {
    if !fed.sync_points.has(label) {
        refusal(fed, raised(HlaException::SynchronizationPointLabelNotAnnounced, label))
    } else if !fed.sync_points.at(label).participants.contains(me) {
        refusal(fed, outsider(me, label))
    } else {
        let point = reported(fed.sync_points.at(label), me, successfully);
        if point.achieved == point.participants {
            let next = FederationView { sync_points: fed.sync_points.without(label), ..fed };
            Outcome {
                fed: next,
                reply: done(Service::SynchronizationPointAchieved),
                sent: deliveries(
                    conns,
                    next,
                    point.participants,
                    federation_synchronized_view(label, point.failed_to_sync),
                ),
            }
        } else {
            silent(
                FederationView { sync_points: fed.sync_points.put(label, point), ..fed },
                Service::SynchronizationPointAchieved,
            )
        }
    }
}

fn outsider_text(me: FederateHandle, label: &str) -> (r: String)
    ensures
        r@ == "federate "@ + decimal_of(me as nat) + " not in sync set for "@ + label@,
{
    let mut text = copy_text("federate ");
    text.append(decimal(me as u64).as_str());
    text.append(" not in sync set for ");
    text.append(label);
    text
}

/// Takes note that a participant has reached a synchronization point.
pub fn synchronization_point_achieved(
    federation: &mut Federation,
    conns: &Connections,
    out: &mut Outbox,
    me: FederateHandle,
    label: &str,
    successfully: bool,
) -> (r: CallResponse)
    requires
        old(federation).wf(),
    ensures
        final(federation).wf(),
        ({
            let o = achieve_point_outcome(old(federation)@, conns@, me, label@, successfully);
            &&& final(federation)@ == o.fed
            &&& r@ == o.reply
            &&& final(out)@ == old(out)@ + o.sent
        }),
{
    assert(old(out)@ + Seq::empty() =~= old(out)@);
    let ghost fed = federation@;
    let synced: bool = match federation.sync_points.get(label) {
        None => {
            return refuse(
                exception_variant(HlaException::SynchronizationPointLabelNotAnnounced, label),
            );
        },
        Some(point) => {
            if !point.participants.contains(me) {
                return refuse(
                    exception_variant(
                        HlaException::FederateNotInSynchronizationGroup,
                        outsider_text(me, label).as_str(),
                    ),
                );
            }
            let mut achieved = point.achieved.copy();
            achieved.insert(me);
            let complete = achieved.len() == point.participants.len();
            proof {
                assert(fed.sync_points.has(label@));
                assert(achieved@.subset_of(point.participants@));
                if complete {
                    vstd::set_lib::lemma_subset_equality(achieved@, point.participants@);
                }
            }
            complete
        },
    };
    let ghost after = reported(fed.sync_points.at(label@), me, successfully);
    assert(synced == (after.achieved == after.participants));
    if synced {
        if let Some(mut point) = federation.sync_points.remove(label) {
            point.achieved.insert(me);
            if !successfully {
                point.failed_to_sync.insert(me);
            }
            assert(point@ =~= after);
            proof {
                assert forall|l: Seq<char>| #[trigger]
                    federation@.sync_points.has(l) implies federation@.sync_points.at(l).label == l
                    && federation@.sync_points.at(l).wf() by {
                    assert(fed.sync_points.has(l));
                }
            }
            deliver(
                out,
                conns,
                federation,
                &point.participants,
                federation_synchronized(label, &point.failed_to_sync),
            );
        }
    } else {
        if let Some(point) = federation.sync_points.get_mut(label) {
            point.achieved.insert(me);
            if !successfully {
                point.failed_to_sync.insert(me);
            }
            assert(point@ =~= after);
        }
        proof {
            assert forall|l: Seq<char>| #[trigger]
                federation@.sync_points.has(l) implies federation@.sync_points.at(l).label == l
                && federation@.sync_points.at(l).wf() by {
                assert(fed.sync_points.has(l));
            }
        }
    }
    reply(Service::SynchronizationPointAchieved)
}

/// A synchronization point is complete, and gone, exactly when with this report
/// every participant has reported. The others then learn who failed.
pub proof fn a_point_is_complete_when_all_have_reported(
    fed: FederationView,
    conns: Map<u64, u64>,
    me: u32,
    label: Seq<char>,
    successfully: bool,
)
    requires
        fed.wf(),
        fed.sync_points.has(label),
        fed.sync_points.at(label).participants.contains(me),
    ensures
        ({
            let point = fed.sync_points.at(label);
            let o = achieve_point_outcome(fed, conns, me, label, successfully);
            !o.fed.sync_points.has(label) <==> (forall|f: u32| #[trigger]
                point.participants.contains(f) && f != me ==> point.achieved.contains(f))
        }),
{
    let point = fed.sync_points.at(label);
    let after = reported(point, me, successfully);
    if forall|f: u32| #[trigger]
        point.participants.contains(f) && f != me ==> point.achieved.contains(f) {
        assert(after.achieved =~= after.participants);
    } else {
        let f = choose|f: u32| #[trigger]
            point.participants.contains(f) && f != me && !point.achieved.contains(f);
        assert(!after.achieved.contains(f));
    }
}

} // verus!

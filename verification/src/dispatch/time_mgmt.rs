//! Time management services.

use crate::connections::Connections;
use crate::dispatch::handle_lookup::wire;
use crate::dispatch::helpers::{refusal, refuse, refuse_bare, Outcome};
use crate::exception::{
    bare, exception_variant, raised, Details, DetailsView, ExceptionData, ExceptionView,
    HlaException,
};
use crate::federation::{lemma_put_back, FederateView, Federation, FederationView, TimeState};
use crate::handles::{bytes_of_u64, field64, handle64, read_field64, FederateHandle};
use crate::logical_time::{
    before, is_duration, is_finite, not_after, stamp_before, stamp_is_duration, stamp_is_finite,
};
use crate::messages::{
    answered, done, refused, reply, reply_with, CallResponse, Payload, PayloadView, ResponseView,
    Service,
};
use crate::routing::{
    decode_logical_time, decode_logical_time_interval, deliver, deliveries, encode_logical_time,
    encode_logical_time_interval, time_constrained_enabled, time_constrained_enabled_view,
    time_regulation_enabled, time_regulation_enabled_view, Outbox,
};
use crate::tables::KeySet;
use crate::time::{
    after_all_grants, after_grants, grant_listed, grantable_set, grants,
    grants_change_federates_only, grants_keep_the_members, grants_move_forward, lbts,
    lemma_granted_wf, lemma_same_bound, lower_bound, moves_forward, nobody_is_left_to_grant,
    releases, same_but_time, same_horizons, sent_for_grants, settled, try_grant_pending_advances,
};
use vstd::prelude::*;

verus! {

/// The exception that names the time stamp which was refused.
pub open spec fn refused_stamp(kind: HlaException, t: u64) -> ExceptionView {
    ExceptionView { exception: kind, details: DetailsView::Stamp(t) }
}

fn refuse_stamp(kind: HlaException, t: u64) -> (r: CallResponse)
    ensures
        r@ == refused(refused_stamp(kind, t)),
{
    refuse(ExceptionData { exception: kind, details: Details::Stamp(t) })
}

/// The federation with another time management state of a federate.
pub open spec fn with_time(fed: FederationView, me: u32, time: TimeState) -> FederationView {
    fed.with_federate(me, FederateView { time, ..fed.federates[me] })
}

fn set_time(federation: &mut Federation, me: FederateHandle, time: TimeState)
    requires
        old(federation).wf(),
        old(federation)@.federates.contains_key(me),
        time.wf(),
        time.current_time == old(federation)@.federates[me].time.current_time,
    ensures
        final(federation).wf(),
        final(federation)@ == with_time(old(federation)@, me, time),
{
    broadcast use lemma_put_back;

    if let Some(mut fs) = federation.federates.remove(me) {
        fs.time = time;
        federation.federates.insert(me, fs);
    }
}

/// What enabling time regulation does. Pending advances are looked at again.
pub open spec fn enable_regulation_outcome(
    fed: FederationView,
    conns: Map<u64, u64>,
    me: u32,
    lookahead: Option<Seq<u8>>,
) -> Outcome {
    match lookahead {
        None => refusal(fed, raised(HlaException::InvalidLookahead, "missing"@)),
        Some(b) => match handle64(b) {
            None => refusal(fed, bare(HlaException::InvalidLookahead)),
            Some(d) => if !is_duration(d) {
                refusal(fed, refused_stamp(HlaException::InvalidLookahead, d))
            } else if !fed.federates.contains_key(me) {
                refusal(fed, bare(HlaException::FederateNotExecutionMember))
            } else if fed.federates[me].time.is_regulating {
                refusal(fed, bare(HlaException::TimeRegulationAlreadyEnabled))
            } else {
                let time = fed.federates[me].time;
                let next = with_time(
                    fed,
                    me,
                    TimeState { is_regulating: true, lookahead: d, ..time },
                );
                Outcome {
                    fed: after_all_grants(next),
                    reply: done(Service::EnableTimeRegulation),
                    sent: deliveries(
                        conns,
                        next,
                        set![me],
                        time_regulation_enabled_view(time.current_time),
                    ) + sent_for_grants(next, conns),
                }
            },
        },
    }
}

/// Lets a federate regulate the time of others.
pub fn enable_time_regulation(
    federation: &mut Federation,
    conns: &Connections,
    out: &mut Outbox,
    me: FederateHandle,
    lookahead: &Option<Vec<u8>>,
) -> (r: CallResponse)
    requires
        old(federation).wf(),
    ensures
        final(federation).wf(),
        ({
            let o = enable_regulation_outcome(old(federation)@, conns@, me, wire(*lookahead));
            &&& final(federation)@ == o.fed
            &&& r@ == o.reply
            &&& final(out)@ == old(out)@ + o.sent
        }),
{
    assert(old(out)@ + Seq::empty() =~= old(out)@);
    let ghost fed = federation@;
    let interval = match lookahead {
        Some(b) => match decode_logical_time_interval(b.as_slice()) {
            Ok(d) => d,
            Err(_) => return refuse_bare(HlaException::InvalidLookahead),
        },
        None => return refuse(exception_variant(HlaException::InvalidLookahead, "missing")),
    };
    if !stamp_is_duration(interval) {
        return refuse_stamp(HlaException::InvalidLookahead, interval);
    }
    let time = match federation.federates.get(me) {
        Some(fs) => fs.time,
        None => return refuse_bare(HlaException::FederateNotExecutionMember),
    };
    if time.is_regulating {
        return refuse_bare(HlaException::TimeRegulationAlreadyEnabled);
    }
    assert(fed.federates.contains_key(me));
    set_time(federation, me, TimeState { is_regulating: true, lookahead: interval, ..time });
    let one: KeySet<u32> = KeySet::single(me);
    deliver(out, conns, federation, &one, time_regulation_enabled(time.current_time));
    try_grant_pending_advances(federation, conns, out);
    assert(out@ =~= old(out)@ + enable_regulation_outcome(fed, conns@, me, wire(*lookahead)).sent);
    reply(Service::EnableTimeRegulation)
}

/// What disabling time regulation does. Pending advances are looked at again.
pub open spec fn disable_regulation_outcome(
    fed: FederationView,
    conns: Map<u64, u64>,
    me: u32,
) -> Outcome {
    if !fed.federates.contains_key(me) {
        refusal(fed, bare(HlaException::FederateNotExecutionMember))
    } else if !fed.federates[me].time.is_regulating {
        refusal(fed, bare(HlaException::TimeRegulationIsNotEnabled))
    } else {
        let next = with_time(
            fed,
            me,
            TimeState { is_regulating: false, ..fed.federates[me].time },
        );
        Outcome {
            fed: after_all_grants(next),
            reply: done(Service::DisableTimeRegulation),
            sent: sent_for_grants(next, conns),
        }
    }
}

/// Lets a federate regulate the time of others no longer.
pub fn disable_time_regulation(
    federation: &mut Federation,
    conns: &Connections,
    out: &mut Outbox,
    me: FederateHandle,
) -> (r: CallResponse)
    requires
        old(federation).wf(),
    ensures
        final(federation).wf(),
        ({
            let o = disable_regulation_outcome(old(federation)@, conns@, me);
            &&& final(federation)@ == o.fed
            &&& r@ == o.reply
            &&& final(out)@ == old(out)@ + o.sent
        }),
{
    assert(old(out)@ + Seq::empty() =~= old(out)@);
    let time = match federation.federates.get(me) {
        Some(fs) => fs.time,
        None => return refuse_bare(HlaException::FederateNotExecutionMember),
    };
    if !time.is_regulating {
        return refuse_bare(HlaException::TimeRegulationIsNotEnabled);
    }
    assert(federation@.federates.contains_key(me));
    set_time(federation, me, TimeState { is_regulating: false, ..time });
    try_grant_pending_advances(federation, conns, out);
    reply(Service::DisableTimeRegulation)
}

/// What enabling the constraint of time does.
pub open spec fn enable_constrained_outcome(
    fed: FederationView,
    conns: Map<u64, u64>,
    me: u32,
) -> Outcome {
    if !fed.federates.contains_key(me) {
        refusal(fed, bare(HlaException::FederateNotExecutionMember))
    } else if fed.federates[me].time.is_constrained {
        refusal(fed, bare(HlaException::TimeConstrainedAlreadyEnabled))
    } else {
        let time = fed.federates[me].time;
        let next = with_time(fed, me, TimeState { is_constrained: true, ..time });
        Outcome {
            fed: next,
            reply: done(Service::EnableTimeConstrained),
            sent: deliveries(
                conns,
                next,
                set![me],
                time_constrained_enabled_view(time.current_time),
            ),
        }
    }
}

/// Lets a federate be constrained by the time of others.
pub fn enable_time_constrained(
    federation: &mut Federation,
    conns: &Connections,
    out: &mut Outbox,
    me: FederateHandle,
) -> (r: CallResponse)
    requires
        old(federation).wf(),
    ensures
        final(federation).wf(),
        ({
            let o = enable_constrained_outcome(old(federation)@, conns@, me);
            &&& final(federation)@ == o.fed
            &&& r@ == o.reply
            &&& final(out)@ == old(out)@ + o.sent
        }),
{
    assert(old(out)@ + Seq::empty() =~= old(out)@);
    let time = match federation.federates.get(me) {
        Some(fs) => fs.time,
        None => return refuse_bare(HlaException::FederateNotExecutionMember),
    };
    if time.is_constrained {
        return refuse_bare(HlaException::TimeConstrainedAlreadyEnabled);
    }
    assert(federation@.federates.contains_key(me));
    set_time(federation, me, TimeState { is_constrained: true, ..time });
    let one: KeySet<u32> = KeySet::single(me);
    deliver(out, conns, federation, &one, time_constrained_enabled(time.current_time));
    reply(Service::EnableTimeConstrained)
}

/// What disabling the constraint of time does. Pending advances are looked at
/// again: its own waits for nobody any more.
pub open spec fn disable_constrained_outcome(
    fed: FederationView,
    conns: Map<u64, u64>,
    me: u32,
) -> Outcome {
    if !fed.federates.contains_key(me) {
        refusal(fed, bare(HlaException::FederateNotExecutionMember))
    } else if !fed.federates[me].time.is_constrained {
        refusal(fed, bare(HlaException::TimeConstrainedIsNotEnabled))
    } else {
        let next = with_time(
            fed,
            me,
            TimeState { is_constrained: false, ..fed.federates[me].time },
        );
        Outcome {
            fed: after_all_grants(next),
            reply: done(Service::DisableTimeConstrained),
            sent: sent_for_grants(next, conns),
        }
    }
}

/// Lets a federate be constrained by the time of others no longer.
pub fn disable_time_constrained(
    federation: &mut Federation,
    conns: &Connections,
    out: &mut Outbox,
    me: FederateHandle,
) -> (r: CallResponse)
    requires
        old(federation).wf(),
    ensures
        final(federation).wf(),
        ({
            let o = disable_constrained_outcome(old(federation)@, conns@, me);
            &&& final(federation)@ == o.fed
            &&& r@ == o.reply
            &&& final(out)@ == old(out)@ + o.sent
        }),
{
    assert(old(out)@ + Seq::empty() =~= old(out)@);
    let time = match federation.federates.get(me) {
        Some(fs) => fs.time,
        None => return refuse_bare(HlaException::FederateNotExecutionMember),
    };
    if !time.is_constrained {
        return refuse_bare(HlaException::TimeConstrainedIsNotEnabled);
    }
    assert(federation@.federates.contains_key(me));
    set_time(federation, me, TimeState { is_constrained: false, ..time });
    try_grant_pending_advances(federation, conns, out);
    reply(Service::DisableTimeConstrained)
}

/// The federation in which a federate asks to advance to a time.
pub open spec fn asking(fed: FederationView, me: u32, t: u64) -> FederationView {
    with_time(fed, me, TimeState { pending_advance: Some(t), ..fed.federates[me].time })
}

/// What asking to advance does. A federate that is not constrained advances at
/// once; the others as soon as the bound allows it.
pub open spec fn advance_outcome(
    fed: FederationView,
    conns: Map<u64, u64>,
    me: u32,
    stamp: Option<Seq<u8>>,
) -> Outcome {
    match stamp {
        None => refusal(fed, raised(HlaException::InvalidLogicalTime, "missing"@)),
        Some(b) => match handle64(b) {
            None => refusal(fed, bare(HlaException::InvalidLogicalTime)),
            Some(t) => if !is_finite(t) {
                refusal(fed, refused_stamp(HlaException::LogicalTimeAlreadyPassed, t))
            } else if !fed.federates.contains_key(me) {
                refusal(fed, bare(HlaException::FederateNotExecutionMember))
            } else if fed.federates[me].time.pending_advance is Some {
                refusal(fed, bare(HlaException::InTimeAdvancingState))
            } else if before(t, fed.federates[me].time.current_time) {
                refusal(fed, bare(HlaException::LogicalTimeAlreadyPassed))
            } else {
                let asked = asking(fed, me, t);
                if fed.federates[me].time.is_constrained {
                    Outcome {
                        fed: after_all_grants(asked),
                        reply: done(Service::TimeAdvanceRequest),
                        sent: sent_for_grants(asked, conns),
                    }
                } else {
                    let next = FederationView {
                        federates: after_grants(asked.federates, set![me]),
                        ..asked
                    };
                    Outcome {
                        fed: after_all_grants(next),
                        reply: done(Service::TimeAdvanceRequest),
                        sent: releases(conns, asked.federates, seq![me]) + grants(
                            conns,
                            asked.federates,
                            seq![me],
                        ) + sent_for_grants(next, conns),
                    }
                }
            },
        },
    }
}

/// Lets a federate ask to advance to a time.
pub fn time_advance_request(
    federation: &mut Federation,
    conns: &Connections,
    out: &mut Outbox,
    me: FederateHandle,
    stamp: &Option<Vec<u8>>,
) -> (r: CallResponse)
    requires
        old(federation).wf(),
    ensures
        final(federation).wf(),
        ({
            let o = advance_outcome(old(federation)@, conns@, me, wire(*stamp));
            &&& final(federation)@ == o.fed
            &&& r@ == o.reply
            &&& final(out)@ == old(out)@ + o.sent
        }),
{
    assert(old(out)@ + Seq::empty() =~= old(out)@);
    let ghost fed = federation@;
    let requested = match stamp {
        Some(b) => match decode_logical_time(b.as_slice()) {
            Ok(t) => t,
            Err(_) => return refuse_bare(HlaException::InvalidLogicalTime),
        },
        None => return refuse(exception_variant(HlaException::InvalidLogicalTime, "missing")),
    };
    if !stamp_is_finite(requested) {
        return refuse_stamp(HlaException::LogicalTimeAlreadyPassed, requested);
    }
    let time = match federation.federates.get(me) {
        Some(fs) => fs.time,
        None => return refuse_bare(HlaException::FederateNotExecutionMember),
    };
    if time.pending_advance.is_some() {
        return refuse_bare(HlaException::InTimeAdvancingState);
    }
    if stamp_before(requested, time.current_time) {
        return refuse_bare(HlaException::LogicalTimeAlreadyPassed);
    }
    assert(fed.federates.contains_key(me));
    assert(fed.federates[me].wf());
    set_time(federation, me, TimeState { pending_advance: Some(requested), ..time });
    if !time.is_constrained {
        let mut own: Vec<u32> = Vec::new();
        own.push(me);
        proof {
            assert(own@ =~= seq![me]);
            assert(own@.to_set() =~= set![me]) by {
                assert(own@[0] == me);
            }
        }
        grant_listed(federation, conns, out, &own);
    }
    try_grant_pending_advances(federation, conns, out);
    assert(out@ =~= old(out)@ + advance_outcome(fed, conns@, me, wire(*stamp)).sent);
    reply(Service::TimeAdvanceRequest)
}

/// The response to a query for the time of a federate.
pub open spec fn logical_time_reply(fed: FederationView, me: u32) -> ResponseView {
    if fed.federates.contains_key(me) {
        answered(
            Service::QueryLogicalTime,
            PayloadView::Time(bytes_of_u64(fed.federates[me].time.current_time)),
        )
    } else {
        refused(bare(HlaException::FederateNotExecutionMember))
    }
}

/// The time of a federate.
pub fn query_logical_time(federation: &Federation, me: FederateHandle) -> (r: CallResponse)
    ensures
        r@ == logical_time_reply(federation@, me),
{
    match federation.federates.get(me) {
        Some(fs) => reply_with(
            Service::QueryLogicalTime,
            Payload::Time(encode_logical_time(fs.time.current_time)),
        ),
        None => refuse_bare(HlaException::FederateNotExecutionMember),
    }
}

/// What changing the lookahead of a federate does. Pending advances are looked at
/// again.
pub open spec fn modify_lookahead_outcome(
    fed: FederationView,
    conns: Map<u64, u64>,
    me: u32,
    lookahead: Option<u64>,
) -> Outcome {
    match lookahead {
        Some(d) if is_duration(d) => if !fed.federates.contains_key(me) {
            refusal(fed, bare(HlaException::FederateNotExecutionMember))
        } else if !fed.federates[me].time.is_regulating {
            refusal(fed, bare(HlaException::TimeRegulationIsNotEnabled))
        } else {
            let next = with_time(fed, me, TimeState { lookahead: d, ..fed.federates[me].time });
            Outcome {
                fed: after_all_grants(next),
                reply: done(Service::ModifyLookahead),
                sent: sent_for_grants(next, conns),
            }
        },
        _ => refusal(fed, bare(HlaException::InvalidLookahead)),
    }
}

/// Changes the lookahead of a federate.
pub fn modify_lookahead(
    federation: &mut Federation,
    conns: &Connections,
    out: &mut Outbox,
    me: FederateHandle,
    lookahead: &Option<Vec<u8>>,
) -> (r: CallResponse)
    requires
        old(federation).wf(),
    ensures
        final(federation).wf(),
        ({
            let o = modify_lookahead_outcome(old(federation)@, conns@, me, field64(*lookahead));
            &&& final(federation)@ == o.fed
            &&& r@ == o.reply
            &&& final(out)@ == old(out)@ + o.sent
        }),
{
    assert(old(out)@ + Seq::empty() =~= old(out)@);
    let interval = match read_field64(lookahead) {
        Some(d) => d,
        None => return refuse_bare(HlaException::InvalidLookahead),
    };
    if !stamp_is_duration(interval) {
        return refuse_bare(HlaException::InvalidLookahead);
    }
    let time = match federation.federates.get(me) {
        Some(fs) => fs.time,
        None => return refuse_bare(HlaException::FederateNotExecutionMember),
    };
    if !time.is_regulating {
        return refuse_bare(HlaException::TimeRegulationIsNotEnabled);
    }
    assert(federation@.federates.contains_key(me));
    set_time(federation, me, TimeState { lookahead: interval, ..time });
    try_grant_pending_advances(federation, conns, out);
    reply(Service::ModifyLookahead)
}

/// What a query for the bound answers: no time is valid while nobody regulates.
pub open spec fn bound_payload(fed: FederationView) -> PayloadView {
    let bound = lower_bound(fed);
    PayloadView::TimeQuery {
        logical_time_is_valid: is_finite(bound),
        logical_time: bytes_of_u64(
            if is_finite(bound) {
                bound
            } else {
                0
            },
        ),
    }
}

fn query_bound(federation: &Federation, service: Service) -> (r: CallResponse)
    requires
        federation.wf(),
    ensures
        r@ == answered(service, bound_payload(federation@)),
{
    let bound = lbts(federation);
    let valid = stamp_is_finite(bound);
    let time: u64 = if valid {
        bound
    } else {
        0
    };
    reply_with(
        service,
        Payload::TimeQuery {
            logical_time_is_valid: valid,
            logical_time: encode_logical_time(time),
        },
    )
}

/// The least time stamp that may still come.
pub fn query_lits(federation: &Federation) -> (r: CallResponse)
    requires
        federation.wf(),
    ensures
        r@ == answered(Service::QueryLits, bound_payload(federation@)),
{
    query_bound(federation, Service::QueryLits)
}

/// The greatest time that can be had.
pub fn query_galt(federation: &Federation) -> (r: CallResponse)
    requires
        federation.wf(),
    ensures
        r@ == answered(Service::QueryGalt, bound_payload(federation@)),
{
    query_bound(federation, Service::QueryGalt)
}

/// The response to a query for the lookahead of a federate.
pub open spec fn lookahead_reply(fed: FederationView, me: u32) -> ResponseView {
    if !fed.federates.contains_key(me) {
        refused(bare(HlaException::FederateNotExecutionMember))
    } else if !fed.federates[me].time.is_regulating {
        refused(bare(HlaException::TimeRegulationIsNotEnabled))
    } else {
        answered(
            Service::QueryLookahead,
            PayloadView::Time(bytes_of_u64(fed.federates[me].time.lookahead)),
        )
    }
}

/// The lookahead of a federate.
pub fn query_lookahead(federation: &Federation, me: FederateHandle) -> (r: CallResponse)
    ensures
        r@ == lookahead_reply(federation@, me),
{
    match federation.federates.get(me) {
        Some(fs) => {
            if fs.time.is_regulating {
                reply_with(
                    Service::QueryLookahead,
                    Payload::Time(encode_logical_time_interval(fs.time.lookahead)),
                )
            } else {
                refuse_bare(HlaException::TimeRegulationIsNotEnabled)
            }
        },
        None => refuse_bare(HlaException::FederateNotExecutionMember),
    }
}

/// Whether two states differ in their federates at most.
pub open spec fn same_but_federates(a: FederationView, b: FederationView) -> bool {
    b == (FederationView { federates: b.federates, ..a })
}

/// The services of time management change nothing of a federation but its
/// federates.
pub proof fn lemma_time_services_keep(
    fed: FederationView,
    conns: Map<u64, u64>,
    me: u32,
    field: Option<Seq<u8>>,
    lookahead: Option<u64>,
)
    ensures
        same_but_federates(fed, enable_regulation_outcome(fed, conns, me, field).fed),
        same_but_federates(fed, disable_regulation_outcome(fed, conns, me).fed),
        same_but_federates(fed, enable_constrained_outcome(fed, conns, me).fed),
        same_but_federates(fed, disable_constrained_outcome(fed, conns, me).fed),
        same_but_federates(fed, modify_lookahead_outcome(fed, conns, me, lookahead).fed),
        same_but_federates(fed, advance_outcome(fed, conns, me, field).fed),
{
    let time = fed.federates[me].time;
    grants_change_federates_only(
        with_time(fed, me, TimeState { is_regulating: false, ..time }),
    );
    grants_change_federates_only(
        with_time(fed, me, TimeState { is_constrained: false, ..time }),
    );
    if lookahead is Some {
        grants_change_federates_only(
            with_time(fed, me, TimeState { lookahead: lookahead->0, ..time }),
        );
    }
    if field is Some && handle64(field->0) is Some {
        let t = handle64(field->0)->0;
        grants_change_federates_only(
            with_time(fed, me, TimeState { is_regulating: true, lookahead: t, ..time }),
        );
        let asked = asking(fed, me, t);
        grants_change_federates_only(asked);
        grants_change_federates_only(
            FederationView { federates: after_grants(asked.federates, set![me]), ..asked },
        );
    }
}

/// The services of time management keep every federate, and what it has declared
/// and was told.
pub proof fn lemma_time_services_keep_members(
    fed: FederationView,
    conns: Map<u64, u64>,
    me: u32,
    field: Option<Seq<u8>>,
    lookahead: Option<u64>,
    f: u32,
)
    ensures
        same_member(fed, enable_regulation_outcome(fed, conns, me, field).fed, f),
        same_member(fed, disable_regulation_outcome(fed, conns, me).fed, f),
        same_member(fed, enable_constrained_outcome(fed, conns, me).fed, f),
        same_member(fed, disable_constrained_outcome(fed, conns, me).fed, f),
        same_member(fed, modify_lookahead_outcome(fed, conns, me, lookahead).fed, f),
        same_member(fed, advance_outcome(fed, conns, me, field).fed, f),
{
    let time = fed.federates[me].time;
    grants_keep_the_members(
        with_time(fed, me, TimeState { is_regulating: false, ..time }),
        f,
    );
    grants_keep_the_members(
        with_time(fed, me, TimeState { is_constrained: false, ..time }),
        f,
    );
    if lookahead is Some {
        grants_keep_the_members(
            with_time(fed, me, TimeState { lookahead: lookahead->0, ..time }),
            f,
        );
    }
    if field is Some && handle64(field->0) is Some {
        let t = handle64(field->0)->0;
        grants_keep_the_members(
            with_time(fed, me, TimeState { is_regulating: true, lookahead: t, ..time }),
            f,
        );
        let asked = asking(fed, me, t);
        grants_keep_the_members(asked, f);
        grants_keep_the_members(
            FederationView { federates: after_grants(asked.federates, set![me]), ..asked },
            f,
        );
    }
}

/// Whether a federate is in both of two states or in neither, and differs in its
/// time and its queue at most.
pub open spec fn same_member(a: FederationView, b: FederationView, f: u32) -> bool {
    &&& b.federates.contains_key(f) <==> a.federates.contains_key(f)
    &&& a.federates.contains_key(f) ==> same_but_time(a.federates[f], b.federates[f])
}

proof fn lemma_forward_chain(a: FederationView, b: FederationView, c: FederationView)
    requires
        moves_forward(a, b),
        moves_forward(b, c),
    ensures
        moves_forward(a, c),
{
    assert forall|f: u32| #[trigger] a.federates.contains_key(f) implies c.federates.contains_key(f)
        && not_after(
        a.federates[f].time.current_time,
        c.federates[f].time.current_time,
    ) by {
        assert(b.federates.contains_key(f));
    }
}

/// A new time management state of a federate at the same time, and the grants
/// that follow, turn no time back.
proof fn lemma_state_forward(fed: FederationView, me: u32, time: TimeState)
    requires
        fed.wf(),
        fed.federates.contains_key(me),
        time.wf(),
        time.current_time == fed.federates[me].time.current_time,
    ensures
        with_time(fed, me, time).wf(),
        moves_forward(fed, with_time(fed, me, time)),
        moves_forward(fed, after_all_grants(with_time(fed, me, time))),
{
    let next = with_time(fed, me, time);
    assert(fed.federates[me].wf());
    assert forall|f: u32| #[trigger] next.federates.contains_key(f) implies next.federates[f].handle
        == f && next.federates[f].wf() by {
        assert(fed.federates.contains_key(f));
    }
    assert(next.wf());
    grants_move_forward(next);
    lemma_forward_chain(fed, next, after_all_grants(next));
}

/// To change whether a federate regulates turns no time back.
pub proof fn lemma_regulation_forward(
    fed: FederationView,
    conns: Map<u64, u64>,
    me: u32,
    lookahead: Option<Seq<u8>>,
)
    requires
        fed.wf(),
    ensures
        moves_forward(fed, enable_regulation_outcome(fed, conns, me, lookahead).fed),
        moves_forward(fed, disable_regulation_outcome(fed, conns, me).fed),
{
    assert(moves_forward(fed, fed));
    if fed.federates.contains_key(me) {
        let time = fed.federates[me].time;
        lemma_state_forward(fed, me, TimeState { is_regulating: false, ..time });
        if lookahead is Some && handle64(lookahead->0) is Some && is_duration(
            handle64(lookahead->0)->0,
        ) {
            let d = handle64(lookahead->0)->0;
            lemma_state_forward(fed, me, TimeState { is_regulating: true, lookahead: d, ..time });
        }
    }
}

/// To give up the constraint, or to change the lookahead, turns no time back.
pub proof fn lemma_release_forward(
    fed: FederationView,
    conns: Map<u64, u64>,
    me: u32,
    lookahead: Option<u64>,
)
    requires
        fed.wf(),
    ensures
        moves_forward(fed, disable_constrained_outcome(fed, conns, me).fed),
        moves_forward(fed, modify_lookahead_outcome(fed, conns, me, lookahead).fed),
{
    assert(moves_forward(fed, fed));
    if fed.federates.contains_key(me) {
        let time = fed.federates[me].time;
        lemma_state_forward(fed, me, TimeState { is_constrained: false, ..time });
        if lookahead is Some && is_duration(lookahead->0) {
            lemma_state_forward(fed, me, TimeState { lookahead: lookahead->0, ..time });
        }
    }
}

/// To ask for an advance turns no time back.
pub proof fn lemma_advance_forward(
    fed: FederationView,
    conns: Map<u64, u64>,
    me: u32,
    stamp: Option<Seq<u8>>,
)
    requires
        fed.wf(),
    ensures
        moves_forward(fed, advance_outcome(fed, conns, me, stamp).fed),
{
    assert(moves_forward(fed, fed));
    let o = advance_outcome(fed, conns, me, stamp);
    if o.reply == done(Service::TimeAdvanceRequest) {
        let t = handle64(stamp->0)->0;
        assert(fed.federates[me].wf());
        lemma_state_forward(
            fed,
            me,
            TimeState { pending_advance: Some(t), ..fed.federates[me].time },
        );
        if !fed.federates[me].time.is_constrained {
            let asked = asking(fed, me, t);
            let next = FederationView {
                federates: after_grants(asked.federates, set![me]),
                ..asked
            };
            lemma_granted_wf(asked.federates[me]);
            assert forall|f: u32| #[trigger]
                next.federates.contains_key(f) implies next.federates[f].handle == f
                && next.federates[f].wf() by {
                assert(asked.federates.contains_key(f));
            }
            assert(next.wf());
            grants_move_forward(next);
            assert(moves_forward(asked, next));
            lemma_forward_chain(fed, asked, next);
            lemma_forward_chain(fed, next, after_all_grants(next));
        }
    }
}

/// After a service of time management nobody waits who may advance, if it was so
/// before.
pub proof fn lemma_time_services_settle(
    fed: FederationView,
    conns: Map<u64, u64>,
    me: u32,
    field: Option<Seq<u8>>,
    lookahead: Option<u64>,
)
    requires
        fed.wf(),
        settled(fed),
    ensures
        settled(enable_regulation_outcome(fed, conns, me, field).fed),
        settled(disable_regulation_outcome(fed, conns, me).fed),
        settled(enable_constrained_outcome(fed, conns, me).fed),
        settled(disable_constrained_outcome(fed, conns, me).fed),
        settled(modify_lookahead_outcome(fed, conns, me, lookahead).fed),
        settled(advance_outcome(fed, conns, me, field).fed),
{
    if fed.federates.contains_key(me) {
        let time = fed.federates[me].time;
        assert(fed.federates[me].wf());
        lemma_settles(fed, me, TimeState { is_regulating: false, ..time });
        lemma_settles(fed, me, TimeState { is_constrained: false, ..time });
        lemma_constraint_settles(fed, me);
        if lookahead is Some && is_duration(lookahead->0) {
            lemma_settles(fed, me, TimeState { lookahead: lookahead->0, ..time });
        }
        if field is Some && handle64(field->0) is Some {
            let t = handle64(field->0)->0;
            if is_duration(t) {
                lemma_settles(fed, me, TimeState { is_regulating: true, lookahead: t, ..time });
            }
            if is_finite(t) && !before(t, time.current_time) {
                lemma_advance_settles(fed, me, t);
            }
        }
    }
}

proof fn lemma_settles(fed: FederationView, me: u32, time: TimeState)
    requires
        fed.wf(),
        fed.federates.contains_key(me),
        time.wf(),
        time.current_time == fed.federates[me].time.current_time,
    ensures
        settled(after_all_grants(with_time(fed, me, time))),
{
    lemma_state_forward(fed, me, time);
    nobody_is_left_to_grant(with_time(fed, me, time));
}

proof fn lemma_constraint_settles(fed: FederationView, me: u32)
    requires
        fed.federates.contains_key(me),
        !fed.federates[me].time.is_constrained ==> settled(fed),
    ensures
        !fed.federates[me].time.is_constrained ==> settled(
            with_time(fed, me, TimeState { is_constrained: true, ..fed.federates[me].time }),
        ),
{
    if !fed.federates[me].time.is_constrained {
        let next = with_time(
            fed,
            me,
            TimeState { is_constrained: true, ..fed.federates[me].time },
        );
        assert(same_horizons(fed, next)) by {
            assert(fed.federates.dom() =~= next.federates.dom());
        }
        lemma_same_bound(fed, next);
        let bound = lower_bound(fed);
        assert forall|f: u32| !grantable_set(next, bound).contains(f) by {
            assert(!grantable_set(fed, bound).contains(f));
        }
        assert(grantable_set(next, bound) =~= Set::empty());
    }
}

proof fn lemma_advance_settles(fed: FederationView, me: u32, t: u64)
    requires
        fed.wf(),
        fed.federates.contains_key(me),
        is_finite(t),
        !before(t, fed.federates[me].time.current_time),
    ensures
        settled(after_all_grants(asking(fed, me, t))),
        settled(
            after_all_grants(
                FederationView {
                    federates: after_grants(asking(fed, me, t).federates, set![me]),
                    ..asking(fed, me, t)
                },
            ),
        ),
{
    assert(fed.federates[me].wf());
    let time = TimeState { pending_advance: Some(t), ..fed.federates[me].time };
    lemma_settles(fed, me, time);
    lemma_state_forward(fed, me, time);
    let asked = asking(fed, me, t);
    let next = FederationView { federates: after_grants(asked.federates, set![me]), ..asked };
    lemma_granted_wf(asked.federates[me]);
    assert forall|f: u32| #[trigger] next.federates.contains_key(f) implies next.federates[f].handle
        == f && next.federates[f].wf() by {
        assert(asked.federates.contains_key(f));
    }
    assert(next.wf());
    nobody_is_left_to_grant(next);
}

} // verus!

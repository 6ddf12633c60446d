//! Creating, changing and deleting regions.

use crate::callbacks::byte_lists;
use crate::dispatch::helpers::{
    handles_in, listed, read_handles, refusal, refuse, refuse_bare, silent, Outcome,
};
use crate::dispatch::object_mgmt::{following, next_number};
use crate::exception::{bare, exception_variant, raised, HlaException};
use crate::federation::{lemma_put_back, Federation, FederationView, Region, RegionView};
use crate::handles::{
    bytes_of_u64, decode_u64, encode_u64, field32, field64, handle64, read_field32, read_field64,
    FederateHandle,
};
use crate::messages::{
    answered, done, reply, reply_with, CallResponse, Payload, PayloadView, RangeBounds,
    ResponseView, Service,
};
use crate::messages::refused;
use crate::tables::{lemma_ascending, KeySet, Table};
use vstd::prelude::*;

verus! {

/// The bounds of a new region: the whole range in each of its dimensions.
pub open spec fn full_ranges(dimensions: Set<u32>) -> Map<u32, (u32, u32)> {
    Map::new(|d: u32| dimensions.contains(d), |d: u32| (0u32, u32::MAX))
}

fn make_full_ranges(dimensions: &KeySet<u32>) -> (r: Table<u32, (u32, u32)>)
    ensures
        r@ == full_ranges(dimensions@),
{
    let members = dimensions.members();
    proof {
        lemma_ascending(dimensions@);
    }
    let mut ranges: Table<u32, (u32, u32)> = Table::new();
    let mut i: usize = 0;
    while i < members.len()
        invariant
            i <= members@.len(),
            forall|d: u32| #[trigger]
                ranges@.contains_key(d) <==> exists|k: int| 0 <= k < i && members@[k] == d,
            forall|d: u32| #[trigger] ranges@.contains_key(d) ==> ranges@[d] == (0u32, u32::MAX),
        decreases members@.len() - i,
    {
        ranges.insert(members[i], (0, u32::MAX));
        i = i + 1;
    }
    assert(ranges@ =~= full_ranges(dimensions@)) by {
        assert forall|d: u32| ranges@.contains_key(d) <==> dimensions@.contains(d) by {
            if dimensions@.contains(d) {
                assert(members@.contains(d));
                let k = members@.index_of(d);
                assert(members@[k] == d);
            }
            if ranges@.contains_key(d) {
                assert(members@.contains(d));
            }
        }
    }
    ranges
}

/// What creating a region does.
pub open spec fn create_region_outcome(
    fed: FederationView,
    me: u32,
    dimensions: Seq<Seq<u8>>,
) -> Outcome {
    let handle = fed.next_region_id;
    let ranges = full_ranges(handles_in(dimensions));
    Outcome {
        fed: FederationView {
            regions: fed.regions.insert(
                handle,
                RegionView { handle, owner: me, committed: ranges, staged: ranges },
            ),
            next_region_id: next_number(handle),
            ..fed
        },
        reply: answered(Service::CreateRegion, PayloadView::Handle(bytes_of_u64(handle))),
        sent: Seq::empty(),
    }
}

/// Creates a region with some dimensions.
pub fn create_region(
    federation: &mut Federation,
    me: FederateHandle,
    dimensions: &Option<Vec<Vec<u8>>>,
) -> (r: CallResponse)
    requires
        old(federation).wf(),
    ensures
        final(federation).wf(),
        final(federation)@ == create_region_outcome(old(federation)@, me, listed(*dimensions)).fed,
        r@ == create_region_outcome(old(federation)@, me, listed(*dimensions)).reply,
{
    let set = read_handles(dimensions);
    let handle = federation.next_region_id;
    federation.next_region_id = following(handle);
    federation.regions.insert(
        handle,
        Region {
            handle,
            owner: me,
            committed: make_full_ranges(&set),
            staged: make_full_ranges(&set),
        },
    );
    reply_with(Service::CreateRegion, Payload::Handle(encode_u64(handle)))
}

/// A region whose staged bounds are in force.
pub open spec fn committed(region: RegionView) -> RegionView {
    RegionView { committed: region.staged, ..region }
}

/// The regions after those in a list were committed one after the other, up to
/// the first that belongs to somebody else.
pub open spec fn after_commits(
    regions: Map<u64, RegionView>,
    me: u32,
    l: Seq<Seq<u8>>,
) -> Map<u64, RegionView>
    decreases l.len(),
{
    if l.len() == 0 {
        regions
    } else {
        let rest = l.drop_first();
        match handle64(l[0]) {
            Some(h) if regions.contains_key(h) => if regions[h].owner != me {
                regions
            } else {
                after_commits(regions.insert(h, committed(regions[h])), me, rest)
            },
            _ => after_commits(regions, me, rest),
        }
    }
}

/// Whether a list names a region of somebody else.
pub open spec fn names_foreign_region(
    regions: Map<u64, RegionView>,
    me: u32,
    l: Seq<Seq<u8>>,
) -> bool {
    exists|i: int|
        0 <= i < l.len() && {
            let h = handle64(#[trigger] l[i]);
            h is Some && regions.contains_key(h->0) && regions[h->0].owner != me
        }
}

/// What committing regions does.
pub open spec fn commit_regions_outcome(
    fed: FederationView,
    me: u32,
    l: Seq<Seq<u8>>,
) -> Outcome {
    Outcome {
        fed: FederationView { regions: after_commits(fed.regions, me, l), ..fed },
        reply: if names_foreign_region(fed.regions, me, l) {
            refused(bare(HlaException::RegionNotCreatedByThisFederate))
        } else {
            done(Service::CommitRegionModifications)
        },
        sent: Seq::empty(),
    }
}

fn copy_ranges(ranges: &Table<u32, (u32, u32)>) -> (r: Table<u32, (u32, u32)>)
    ensures
        r@ == ranges@,
{
    let keys = ranges.keys();
    proof {
        lemma_ascending(ranges@.dom());
    }
    let mut copy: Table<u32, (u32, u32)> = Table::new();
    let mut i: usize = 0;
    while i < keys.len()
        invariant
            i <= keys@.len(),
            forall|d: u32| #[trigger] keys@.contains(d) <==> ranges@.contains_key(d),
            forall|d: u32| #[trigger]
                copy@.contains_key(d) <==> exists|k: int| 0 <= k < i && keys@[k] == d,
            forall|d: u32| #[trigger]
                copy@.contains_key(d) ==> ranges@.contains_key(d) && copy@[d] == ranges@[d],
        decreases keys@.len() - i,
    {
        assert(keys@.contains(keys@[i as int]));
        if let Some(bounds) = ranges.get(keys[i]) {
            copy.insert(keys[i], *bounds);
        }
        i = i + 1;
    }
    assert(copy@ =~= ranges@) by {
        assert forall|d: u32| ranges@.contains_key(d) implies copy@.contains_key(d) by {
            assert(keys@.contains(d));
            let k = keys@.index_of(d);
            assert(keys@[k] == d);
        }
    }
    copy
}

/// Puts the staged bounds of regions in force.
pub fn commit_region_modifications(
    federation: &mut Federation,
    me: FederateHandle,
    regions: &Option<Vec<Vec<u8>>>,
) -> (r: CallResponse)
    requires
        old(federation).wf(),
    ensures
        final(federation).wf(),
        final(federation)@ == commit_regions_outcome(old(federation)@, me, listed(*regions)).fed,
        r@ == commit_regions_outcome(old(federation)@, me, listed(*regions)).reply,
{
    broadcast use lemma_put_back;

    let ghost l = listed(*regions);
    let ghost fed = federation@;
    if let Some(list) = regions {
        let mut i: usize = 0;
        assert(l.skip(0) =~= l);
        while i < list.len()
            invariant
                i <= list@.len(),
                l == byte_lists(list@),
                l == listed(*regions),
                l.len() == list@.len(),
                fed == old(federation)@,
                fed.wf(),
                federation.wf(),
                federation@ == (FederationView { regions: federation@.regions, ..fed }),
                federation@.regions.dom() == fed.regions.dom(),
                forall|h: u64| #[trigger]
                    fed.regions.contains_key(h) ==> federation@.regions[h].owner
                        == fed.regions[h].owner,
                after_commits(fed.regions, me, l) == after_commits(
                    federation@.regions,
                    me,
                    l.skip(i as int),
                ),
                forall|k: int|
                    0 <= k < i ==> {
                        let h = handle64(#[trigger] l[k]);
                        !(h is Some && fed.regions.contains_key(h->0) && fed.regions[h->0].owner
                            != me)
                    },
            decreases list@.len() - i,
        {
            proof {
                assert(l.skip(i as int)[0] == l[i as int]);
                assert(l.skip(i as int).drop_first() =~= l.skip(i + 1));
                assert(l[i as int] == list@[i as int]@);
            }
            let ghost before = federation@.regions;
            let mine: Option<(u64, Table<u32, (u32, u32)>)> = match decode_u64(
                list[i].as_slice(),
                HlaException::InvalidRegion,
            ) {
                Ok(h) => match federation.regions.get(h) {
                    Some(region) => {
                        if region.owner != me {
                            assert(fed.regions.dom().contains(h));
                            return refuse_bare(HlaException::RegionNotCreatedByThisFederate);
                        }
                        Some((h, copy_ranges(&region.staged)))
                    },
                    None => None,
                },
                Err(_) => None,
            };
            if let Some((h, ranges)) = mine {
                if let Some(mut region) = federation.regions.remove(h) {
                    region.committed = ranges;
                    federation.regions.insert(h, region);
                    proof {
                        assert(federation@.regions =~= before.insert(h, committed(before[h])));
                        assert(federation@.regions.dom() =~= fed.regions.dom());
                        assert forall|g: u64| #[trigger]
                            federation@.regions.contains_key(g) implies federation@.regions[g].handle
                            == g by {
                            assert(before.contains_key(g));
                        }
                        assert(federation@.federates == fed.federates);
                        assert(federation@.object_instances == fed.object_instances);
                        assert(federation@.sync_points == fed.sync_points);
                    }
                }
            }
            i = i + 1;
        }
        assert(l.skip(i as int) =~= Seq::empty());
    }
    reply(Service::CommitRegionModifications)
}

/// What deleting a region does.
pub open spec fn delete_region_outcome(
    fed: FederationView,
    me: u32,
    region: Option<u64>,
) -> Outcome {
    match region {
        Some(h) if fed.regions.contains_key(h) => if fed.regions[h].owner == me {
            silent(
                FederationView { regions: fed.regions.remove(h), ..fed },
                Service::DeleteRegion,
            )
        } else {
            refusal(fed, bare(HlaException::RegionNotCreatedByThisFederate))
        },
        _ => refusal(fed, bare(HlaException::InvalidRegion)),
    }
}

/// Deletes a region.
pub fn delete_region(
    federation: &mut Federation,
    me: FederateHandle,
    region: &Option<Vec<u8>>,
) -> (r: CallResponse)
    requires
        old(federation).wf(),
    ensures
        final(federation).wf(),
        final(federation)@ == delete_region_outcome(old(federation)@, me, field64(*region)).fed,
        r@ == delete_region_outcome(old(federation)@, me, field64(*region)).reply,
{
    let handle = match read_field64(region) {
        Some(h) => h,
        None => return refuse_bare(HlaException::InvalidRegion),
    };
    match federation.regions.get(handle) {
        None => return refuse_bare(HlaException::InvalidRegion),
        Some(region) => {
            if region.owner != me {
                return refuse_bare(HlaException::RegionNotCreatedByThisFederate);
            }
        },
    }
    federation.regions.remove(handle);
    reply(Service::DeleteRegion)
}

/// The bounds in force of a region in a dimension; the whole range where it has
/// none.
pub open spec fn range_bounds(region: RegionView, dimension: u32) -> RangeBounds {
    if region.committed.contains_key(dimension) {
        RangeBounds {
            lower: region.committed[dimension].0,
            upper: region.committed[dimension].1,
        }
    } else {
        RangeBounds { lower: 0, upper: u32::MAX }
    }
}

/// The response to a query for bounds.
pub open spec fn range_bounds_reply(
    fed: FederationView,
    region: Option<u64>,
    dimension: Option<u32>,
) -> ResponseView {
    match (region, dimension) {
        (None, _) => refused(bare(HlaException::InvalidRegion)),
        (Some(_), None) => refused(bare(HlaException::InvalidDimension)),
        (Some(h), Some(d)) => if !fed.regions.contains_key(h) {
            refused(bare(HlaException::InvalidRegion))
        } else {
            answered(
                Service::GetRangeBounds,
                PayloadView::Range(range_bounds(fed.regions[h], d)),
            )
        },
    }
}

/// The bounds in force of a region in a dimension.
pub fn get_range_bounds(
    federation: &Federation,
    region: &Option<Vec<u8>>,
    dimension: &Option<Vec<u8>>,
) -> (r: CallResponse)
    ensures
        r@ == range_bounds_reply(federation@, field64(*region), field32(*dimension)),
{
    let handle = match read_field64(region) {
        Some(h) => h,
        None => return refuse_bare(HlaException::InvalidRegion),
    };
    let dim = match read_field32(dimension) {
        Some(d) => d,
        None => return refuse_bare(HlaException::InvalidDimension),
    };
    let bounds = match federation.regions.get(handle) {
        None => return refuse_bare(HlaException::InvalidRegion),
        Some(region) => match region.committed.get(dim) {
            Some(b) => RangeBounds { lower: b.0, upper: b.1 },
            None => RangeBounds { lower: 0, upper: u32::MAX },
        },
    };
    reply_with(Service::GetRangeBounds, Payload::Range(bounds))
}

/// What setting the bounds of a region in a dimension does: they are staged.
pub open spec fn set_range_bounds_outcome(
    fed: FederationView,
    me: u32,
    region: Option<u64>,
    dimension: Option<u32>,
    bounds: Option<RangeBounds>,
) -> Outcome {
    match (region, dimension, bounds) {
        (None, _, _) => refusal(fed, bare(HlaException::InvalidRegion)),
        (Some(_), None, _) => refusal(fed, bare(HlaException::InvalidDimension)),
        (Some(_), Some(_), None) => refusal(
            fed,
            raised(HlaException::InvalidRangeBound, "missing"@),
        ),
        (Some(h), Some(d), Some(b)) => if b.lower > b.upper {
            refusal(fed, raised(HlaException::InvalidRangeBound, "lower > upper"@))
        } else if !fed.regions.contains_key(h) {
            refusal(fed, bare(HlaException::InvalidRegion))
        } else if fed.regions[h].owner != me {
            refusal(fed, bare(HlaException::RegionNotCreatedByThisFederate))
        } else {
            silent(
                FederationView {
                    regions: fed.regions.insert(
                        h,
                        RegionView {
                            staged: fed.regions[h].staged.insert(d, (b.lower, b.upper)),
                            ..fed.regions[h]
                        },
                    ),
                    ..fed
                },
                Service::SetRangeBounds,
            )
        },
    }
}

/// Stages the bounds of a region in a dimension.
pub fn set_range_bounds(
    federation: &mut Federation,
    me: FederateHandle,
    region: &Option<Vec<u8>>,
    dimension: &Option<Vec<u8>>,
    bounds: &Option<RangeBounds>,
) -> (r: CallResponse)
    requires
        old(federation).wf(),
    ensures
        final(federation).wf(),
        ({
            let o = set_range_bounds_outcome(
                old(federation)@,
                me,
                field64(*region),
                field32(*dimension),
                *bounds,
            );
            &&& final(federation)@ == o.fed
            &&& r@ == o.reply
        }),
{
    broadcast use lemma_put_back;

    let handle = match read_field64(region) {
        Some(h) => h,
        None => return refuse_bare(HlaException::InvalidRegion),
    };
    let dim = match read_field32(dimension) {
        Some(d) => d,
        None => return refuse_bare(HlaException::InvalidDimension),
    };
    let wanted = match bounds {
        Some(b) => {
            if b.lower > b.upper {
                return refuse(exception_variant(HlaException::InvalidRangeBound, "lower > upper"));
            }
            (b.lower, b.upper)
        },
        None => return refuse(exception_variant(HlaException::InvalidRangeBound, "missing")),
    };
    match federation.regions.get(handle) {
        None => return refuse_bare(HlaException::InvalidRegion),
        Some(region) => {
            if region.owner != me {
                return refuse_bare(HlaException::RegionNotCreatedByThisFederate);
            }
        },
    }
    if let Some(mut region) = federation.regions.remove(handle) {
        region.staged.insert(dim, wanted);
        federation.regions.insert(handle, region);
    }
    reply(Service::SetRangeBounds)
}

/// Bounds that were set are in force after a commit, and not before.
pub proof fn bounds_take_effect_on_commit(
    fed: FederationView,
    me: u32,
    region: u64,
    dimension: u32,
    bounds: RangeBounds,
)
    requires
        fed.regions.contains_key(region),
        fed.regions[region].owner == me,
        bounds.lower <= bounds.upper,
    ensures
        ({
            let set = set_range_bounds_outcome(
                fed,
                me,
                Some(region),
                Some(dimension),
                Some(bounds),
            ).fed;
            let done = commit_regions_outcome(set, me, seq![bytes_of_u64(region)]).fed;
            &&& range_bounds(set.regions[region], dimension) == range_bounds(
                fed.regions[region],
                dimension,
            )
            &&& range_bounds(done.regions[region], dimension) == bounds
        }),
{
    crate::handles::decode_encode_u64(region);
    let set = set_range_bounds_outcome(
        fed,
        me,
        Some(region),
        Some(dimension),
        Some(bounds),
    ).fed;
    let l = seq![bytes_of_u64(region)];
    assert(l.drop_first() =~= Seq::<Seq<u8>>::empty());
    reveal_with_fuel(after_commits, 2);
    assert(after_commits(set.regions, me, l) == set.regions.insert(
        region,
        committed(set.regions[region]),
    ));
}

} // verus!

//! Matching of regions.

use crate::federation::{Federation, FederationView, InstanceView, Region, RegionView};
use crate::handles::{AttributeHandle, FederateHandle, ObjectInstanceHandle, RegionHandle};
use crate::subscriptions::{pair, pair_key};
use crate::tables::{lemma_ascending, KeySet};
use vstd::prelude::*;

verus! {

/// Whether two regions overlap: their committed ranges meet in every dimension
/// that both have.
pub open spec fn overlap(a: RegionView, b: RegionView) -> bool {
    forall|d: u32| #[trigger]
        a.committed.contains_key(d) && b.committed.contains_key(d) ==> a.committed[d].0
            <= b.committed[d].1 && b.committed[d].0 <= a.committed[d].1
}

/// Whether a region of one set overlaps a region of the other. An empty set is
/// unrestricted and meets every other.
pub open spec fn sets_overlap(fed: FederationView, a: Set<u64>, b: Set<u64>) -> bool {
    ||| a == Set::<u64>::empty()
    ||| b == Set::<u64>::empty()
    ||| exists|p: u64, s: u64| #[trigger]
        a.contains(p) && #[trigger] b.contains(s) && fed.regions.contains_key(p)
            && fed.regions.contains_key(s) && overlap(fed.regions[p], fed.regions[s])
}

/// The regions of an attribute of an instance.
pub open spec fn regions_of(inst: InstanceView, attr: u32) -> Set<u64> {
    if inst.attribute_regions.contains_key(attr) {
        inst.attribute_regions[attr]
    } else {
        Set::empty()
    }
}

/// The regions that a federate's subscription to an attribute is restricted to.
pub open spec fn subscribed_regions(
    fed: FederationView,
    f: u32,
    class: u32,
    attr: u32,
) -> Set<u64> {
    let m = fed.federates[f].pub_sub.subscribed_attrs_regions;
    if m.contains_key(pair_key(class, attr)) {
        m[pair_key(class, attr)]
    } else {
        Set::empty()
    }
}

/// Whether an update of an attribute of an instance concerns a subscriber.
pub open spec fn concerns(fed: FederationView, f: u32, inst: InstanceView, attr: u32) -> bool {
    ||| regions_of(inst, attr) == Set::<u64>::empty()
    ||| fed.federates.contains_key(f) && sets_overlap(
        fed,
        regions_of(inst, attr),
        subscribed_regions(fed, f, inst.class, attr),
    )
}

/// Overlap of regions does not depend on their order.
pub proof fn overlap_is_symmetric(a: RegionView, b: RegionView)
    ensures
        overlap(a, b) == overlap(b, a),
{
    assert(overlap(a, b) ==> overlap(b, a)) by {
        if overlap(a, b) {
            assert forall|d: u32| #[trigger]
                b.committed.contains_key(d) && a.committed.contains_key(d) implies b.committed[d].0
                <= a.committed[d].1 && a.committed[d].0 <= b.committed[d].1 by {
                assert(a.committed.contains_key(d));
            }
        }
    }
    assert(overlap(b, a) ==> overlap(a, b)) by {
        if overlap(b, a) {
            assert forall|d: u32| #[trigger]
                a.committed.contains_key(d) && b.committed.contains_key(d) implies a.committed[d].0
                <= b.committed[d].1 && b.committed[d].0 <= a.committed[d].1 by {
                assert(b.committed.contains_key(d));
            }
        }
    }
}

/// Overlap of sets of regions does not depend on their order.
pub proof fn sets_overlap_is_symmetric(fed: FederationView, a: Set<u64>, b: Set<u64>)
    ensures
        sets_overlap(fed, a, b) == sets_overlap(fed, b, a),
{
    assert forall|p: u64, s: u64| overlap(fed.regions[p], fed.regions[s]) == overlap(
        fed.regions[s],
        fed.regions[p],
    ) by {
        overlap_is_symmetric(fed.regions[p], fed.regions[s]);
    }
    if exists|p: u64, s: u64| #[trigger]
        a.contains(p) && #[trigger] b.contains(s) && fed.regions.contains_key(p)
            && fed.regions.contains_key(s) && overlap(fed.regions[p], fed.regions[s]) {
        let (p, s) = choose|p: u64, s: u64| #[trigger]
            a.contains(p) && #[trigger] b.contains(s) && fed.regions.contains_key(p)
                && fed.regions.contains_key(s) && overlap(fed.regions[p], fed.regions[s]);
        assert(b.contains(s) && a.contains(p) && overlap(fed.regions[s], fed.regions[p]));
    }
    if exists|p: u64, s: u64| #[trigger]
        b.contains(p) && #[trigger] a.contains(s) && fed.regions.contains_key(p)
            && fed.regions.contains_key(s) && overlap(fed.regions[p], fed.regions[s]) {
        let (p, s) = choose|p: u64, s: u64| #[trigger]
            b.contains(p) && #[trigger] a.contains(s) && fed.regions.contains_key(p)
                && fed.regions.contains_key(s) && overlap(fed.regions[p], fed.regions[s]);
        assert(a.contains(s) && b.contains(p) && overlap(fed.regions[s], fed.regions[p]));
    }
}

fn regions_meet(a: &Region, b: &Region) -> (r: bool)
    ensures
        r == overlap(a@, b@),
{
    let keys = a.committed.keys();
    proof {
        lemma_ascending(a@.committed.dom());
    }
    let mut i: usize = 0;
    while i < keys.len()
        invariant
            i <= keys@.len(),
            forall|d: u32| #[trigger] keys@.contains(d) <==> a@.committed.contains_key(d),
            forall|k: int|
                0 <= k < i && b@.committed.contains_key(#[trigger] keys@[k])
                    ==> a@.committed[keys@[k]].0 <= b@.committed[keys@[k]].1
                    && b@.committed[keys@[k]].0 <= a@.committed[keys@[k]].1,
        decreases keys@.len() - i,
    {
        let d = keys[i];
        assert(keys@.contains(keys@[i as int]));
        if let Some(ra) = a.committed.get(d) {
            if let Some(rb) = b.committed.get(d) {
                let meet = ra.0 <= rb.1 && rb.0 <= ra.1;
                if !meet {
                    assert(a@.committed.contains_key(d) && b@.committed.contains_key(d));
                    return false;
                }
            }
        }
        i = i + 1;
    }
    assert forall|d: u32| #[trigger]
        a@.committed.contains_key(d) && b@.committed.contains_key(d) implies a@.committed[d].0
        <= b@.committed[d].1 && b@.committed[d].0 <= a@.committed[d].1 by {
        assert(keys@.contains(d));
        let k = keys@.index_of(d);
        assert(keys@[k] == d);
    }
    true
}

/// Whether a region of one set overlaps a region of the other.
pub fn regions_overlap_any(
    federation: &Federation,
    pub_regions: &KeySet<RegionHandle>,
    sub_regions: &KeySet<RegionHandle>,
) -> (r: bool)
    ensures
        r == sets_overlap(federation@, pub_regions@, sub_regions@),
{
    if pub_regions.is_empty() || sub_regions.is_empty() {
        return true;
    }
    let ps = pub_regions.members();
    let ss = sub_regions.members();
    let ghost fed = federation@;
    proof {
        lemma_ascending(pub_regions@);
        lemma_ascending(sub_regions@);
    }
    let mut i: usize = 0;
    while i < ps.len()
        invariant
            i <= ps@.len(),
            fed == federation@,
            forall|x: u64| #[trigger] ps@.contains(x) <==> pub_regions@.contains(x),
            forall|x: u64| #[trigger] ss@.contains(x) <==> sub_regions@.contains(x),
            forall|a: int, b: int|
                0 <= a < i && 0 <= b < ss@.len() && fed.regions.contains_key(#[trigger] ps@[a])
                    && fed.regions.contains_key(#[trigger] ss@[b]) ==> !overlap(
                    fed.regions[ps@[a]],
                    fed.regions[ss@[b]],
                ),
        decreases ps@.len() - i,
    {
        let mut j: usize = 0;
        while j < ss.len()
            invariant
                i < ps@.len(),
                j <= ss@.len(),
                fed == federation@,
                forall|x: u64| #[trigger] ps@.contains(x) <==> pub_regions@.contains(x),
                forall|x: u64| #[trigger] ss@.contains(x) <==> sub_regions@.contains(x),
                forall|b: int|
                    0 <= b < j && fed.regions.contains_key(ps@[i as int])
                        && fed.regions.contains_key(#[trigger] ss@[b]) ==> !overlap(
                        fed.regions[ps@[i as int]],
                        fed.regions[ss@[b]],
                    ),
            decreases ss@.len() - j,
        {
            if let Some(rp) = federation.regions.get(ps[i]) {
                if let Some(rs) = federation.regions.get(ss[j]) {
                    if regions_meet(rp, rs) {
                        proof {
                            assert(ps@.contains(ps@[i as int]));
                            assert(ss@.contains(ss@[j as int]));
                            assert(pub_regions@.contains(ps@[i as int]) && sub_regions@.contains(
                                ss@[j as int],
                            ));
                        }
                        return true;
                    }
                }
            }
            j = j + 1;
        }
        i = i + 1;
    }
    proof {
        if exists|p: u64, s: u64| #[trigger]
            pub_regions@.contains(p) && #[trigger] sub_regions@.contains(s)
                && fed.regions.contains_key(p) && fed.regions.contains_key(s) && overlap(
                fed.regions[p],
                fed.regions[s],
            ) {
            let (p, s) = choose|p: u64, s: u64| #[trigger]
                pub_regions@.contains(p) && #[trigger] sub_regions@.contains(s)
                    && fed.regions.contains_key(p) && fed.regions.contains_key(s) && overlap(
                    fed.regions[p],
                    fed.regions[s],
                );
            assert(ps@.contains(p) && ss@.contains(s));
            let a = ps@.index_of(p);
            let b = ss@.index_of(s);
            assert(ps@[a] == p && ss@[b] == s);
        }
    }
    false
}

/// Those of the subscribers whom an update of an attribute of an instance
/// concerns.
pub fn filter_subscribers_by_regions(
    federation: &Federation,
    subscribers: &KeySet<FederateHandle>,
    instance: ObjectInstanceHandle,
    attr: AttributeHandle,
) -> (r: KeySet<FederateHandle>)
    ensures
        r@ == (if federation@.object_instances.contains_key(instance) {
            subscribers@.filter(
                |f: u32|
                    concerns(federation@, f, federation@.object_instances[instance], attr),
            )
        } else {
            Set::empty()
        }),
{
    let ghost fed = federation@;
    let mut out: KeySet<u32> = KeySet::new();
    let inst = match federation.object_instances.get(instance) {
        Some(i) => i,
        None => return out,
    };
    let ghost keep = subscribers@.filter(|f: u32| concerns(fed, f, inst@, attr));
    let pub_regions = match inst.attribute_regions.get(attr) {
        Some(s) => s.copy(),
        None => KeySet::new(),
    };
    assert(pub_regions@ == regions_of(inst@, attr));
    if pub_regions.is_empty() {
        assert(keep =~= subscribers@);
        return subscribers.copy();
    }
    let members = subscribers.members();
    proof {
        lemma_ascending(subscribers@);
    }
    let mut i: usize = 0;
    while i < members.len()
        invariant
            i <= members@.len(),
            fed == federation@,
            pub_regions@ == regions_of(inst@, attr),
            pub_regions@ != Set::<u64>::empty(),
            forall|x: u32| #[trigger] members@.contains(x) <==> subscribers@.contains(x),
            keep == subscribers@.filter(|f: u32| concerns(fed, f, inst@, attr)),
            forall|f: u32| #[trigger]
                out@.contains(f) <==> keep.contains(f) && exists|k: int|
                    0 <= k < i && members@[k] == f,
        decreases members@.len() - i,
    {
        let f = members[i];
        assert(members@.contains(members@[i as int]));
        if let Some(fs) = federation.federates.get(f) {
            let key = pair(inst.class, attr);
            let sub_regions = match fs.pub_sub.subscribed_attrs_regions.get(key) {
                Some(s) => s.copy(),
                None => KeySet::new(),
            };
            assert(sub_regions@ == subscribed_regions(fed, f, inst@.class, attr));
            if regions_overlap_any(federation, &pub_regions, &sub_regions) {
                out.insert(f);
            }
        }
        i = i + 1;
    }
    assert(out@ =~= keep) by {
        assert forall|f: u32| keep.contains(f) implies out@.contains(f) by {
            assert(members@.contains(f));
            let k = members@.index_of(f);
            assert(members@[k] == f);
        }
    }
    out
}

/// Without regions on one side everything matches: updates without regions concern
/// every subscriber, and subscribers without regions are concerned by every update.
pub proof fn without_regions_everything_matches(
    fed: FederationView,
    f: u32,
    inst: InstanceView,
    attr: u32,
)
    requires
        fed.federates.contains_key(f),
        regions_of(inst, attr) == Set::<u64>::empty() || subscribed_regions(
            fed,
            f,
            inst.class,
            attr,
        ) == Set::<u64>::empty(),
    ensures
        concerns(fed, f, inst, attr),
{
}

} // verus!

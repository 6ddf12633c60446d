//! Snapshots of federations, for saving and restoring.
//!
//! A snapshot holds the object instances with their owners and the
//! synchronization points. Federates stand in it by name, because they may have
//! other handles when it is restored. Object model, declarations, regions, time
//! management and waiting messages are not part of it.

use crate::federation::{
    FederateSession, FederateView, Federation, FederationView, InstanceView, ObjectInstance,
    SyncPoint, SyncPointView,
};
use crate::dispatch::object_mgmt::{following, next_number};
use crate::names::{NameTable, NamedView};
use crate::tables::{ascending, lemma_ascending, KeySet, Table};
use crate::text::{copy_bytes, copy_text, same_text};
use vstd::prelude::*;
use vstd::string::StrSliceExecFns;

verus! {

/// An object instance in a snapshot.
#[derive(Debug)]
pub struct SerInstance {
    pub handle: u64,
    pub class: u32,
    pub name: String,
    pub registrar_name: String,
    /// The attributes that have an owner, each with the owner's name.
    pub attribute_owners: Vec<(u32, String)>,
}

/// The mathematical content of [`SerInstance`].
#[verifier::ext_equal]
pub struct SerInstanceView {
    pub handle: u64,
    pub class: u32,
    pub name: Seq<char>,
    pub registrar_name: Seq<char>,
    pub attribute_owners: Seq<(u32, Seq<char>)>,
}

/// Attributes with the names of their owners.
pub open spec fn owner_list(l: Seq<(u32, String)>) -> Seq<(u32, Seq<char>)> {
    l.map_values(|p: (u32, String)| (p.0, p.1@))
}

impl View for SerInstance {
    type V = SerInstanceView;

    open spec fn view(&self) -> SerInstanceView {
        SerInstanceView {
            handle: self.handle,
            class: self.class,
            name: self.name@,
            registrar_name: self.registrar_name@,
            attribute_owners: owner_list(self.attribute_owners@),
        }
    }
}

/// A synchronization point in a snapshot.
#[derive(Debug)]
pub struct SerSyncPoint {
    pub label: String,
    pub tag: Vec<u8>,
    /// The names of the participants.
    pub participants: Vec<String>,
}

/// The mathematical content of [`SerSyncPoint`].
#[verifier::ext_equal]
pub struct SerSyncPointView {
    pub label: Seq<char>,
    pub tag: Seq<u8>,
    pub participants: Seq<Seq<char>>,
}

/// The contents of texts.
pub open spec fn texts(l: Seq<String>) -> Seq<Seq<char>> {
    l.map_values(|s: String| s@)
}

impl View for SerSyncPoint {
    type V = SerSyncPointView;

    open spec fn view(&self) -> SerSyncPointView {
        SerSyncPointView {
            label: self.label@,
            tag: self.tag@,
            participants: texts(self.participants@),
        }
    }
}

/// A snapshot of a federation.
#[derive(Debug)]
pub struct FederationSnapshot {
    pub federation_name: String,
    pub instances: Vec<SerInstance>,
    pub sync_points: Vec<SerSyncPoint>,
}

/// The mathematical content of [`FederationSnapshot`].
#[verifier::ext_equal]
pub struct SnapshotView {
    pub federation_name: Seq<char>,
    pub instances: Seq<SerInstanceView>,
    pub sync_points: Seq<SerSyncPointView>,
}

/// The contents of saved instances.
pub open spec fn instance_views(l: Seq<SerInstance>) -> Seq<SerInstanceView> {
    l.map_values(|i: SerInstance| i@)
}

/// The contents of saved synchronization points.
pub open spec fn point_views(l: Seq<SerSyncPoint>) -> Seq<SerSyncPointView> {
    l.map_values(|p: SerSyncPoint| p@)
}

impl View for FederationSnapshot {
    type V = SnapshotView;

    open spec fn view(&self) -> SnapshotView {
        SnapshotView {
            federation_name: self.federation_name@,
            instances: instance_views(self.instances@),
            sync_points: point_views(self.sync_points@),
        }
    }
}

/// The name under which the registrar of an instance is saved.
pub open spec fn saved_registrar(federates: Map<u32, FederateView>, f: u32) -> Seq<char> {
    if federates.contains_key(f) {
        federates[f].name
    } else {
        "<unknown>"@
    }
}

/// The attributes whose owner is joined.
pub open spec fn owned_by_joined(
    federates: Map<u32, FederateView>,
    owners: Map<u32, u32>,
) -> Set<u32> {
    Set::new(|a: u32| owners.contains_key(a) && federates.contains_key(owners[a]))
}

/// The attributes whose owner is joined, with the owners' names.
pub open spec fn saved_owners(
    federates: Map<u32, FederateView>,
    owners: Map<u32, u32>,
) -> Seq<(u32, Seq<char>)> {
    owner_names(federates, owners, ascending(owned_by_joined(federates, owners)))
}

/// Attributes with the names of their owners.
pub open spec fn owner_names(
    federates: Map<u32, FederateView>,
    owners: Map<u32, u32>,
    attrs: Seq<u32>,
) -> Seq<(u32, Seq<char>)> {
    attrs.map_values(|a: u32| (a, federates[owners[a]].name))
}

/// What is saved of an instance.
pub open spec fn saved_instance(
    federates: Map<u32, FederateView>,
    inst: InstanceView,
) -> SerInstanceView {
    SerInstanceView {
        handle: inst.handle,
        class: inst.class,
        name: inst.name,
        registrar_name: saved_registrar(federates, inst.registrar),
        attribute_owners: saved_owners(federates, inst.attribute_owners),
    }
}

/// Those of the federates who are joined.
pub open spec fn joined_among(federates: Map<u32, FederateView>, set: Set<u32>) -> Set<u32> {
    Set::new(|f: u32| set.contains(f) && federates.contains_key(f))
}

/// What is saved of a synchronization point.
pub open spec fn saved_point(
    federates: Map<u32, FederateView>,
    point: SyncPointView,
) -> SerSyncPointView {
    SerSyncPointView {
        label: point.label,
        tag: point.tag,
        participants: names_of(
            federates,
            ascending(joined_among(federates, point.participants)),
        ),
    }
}

/// The names of federates.
pub open spec fn names_of(federates: Map<u32, FederateView>, q: Seq<u32>) -> Seq<Seq<char>> {
    q.map_values(|f: u32| federates[f].name)
}

/// The snapshot of a federation.
pub open spec fn snapshot_of(fed: FederationView) -> SnapshotView {
    SnapshotView {
        federation_name: fed.name,
        instances: saved_instances(fed, ascending(fed.object_instances.dom())),
        sync_points: saved_points(fed, fed.sync_points.order),
    }
}

/// What is saved of instances.
pub open spec fn saved_instances(fed: FederationView, q: Seq<u64>) -> Seq<SerInstanceView> {
    q.map_values(|o: u64| saved_instance(fed.federates, fed.object_instances[o]))
}

/// What is saved of synchronization points.
pub open spec fn saved_points(fed: FederationView, q: Seq<Seq<char>>) -> Seq<SerSyncPointView> {
    q.map_values(|l: Seq<char>| saved_point(fed.federates, fed.sync_points.at(l)))
}

fn save_owners(
    federates: &Table<u32, FederateSession>,
    owners: &Table<u32, u32>,
) -> (r: Vec<(u32, String)>)
    ensures
        owner_list(r@) == saved_owners(federates@, owners@),
{
    let mut owned: KeySet<u32> = KeySet::new();
    let keys = owners.keys();
    proof {
        lemma_ascending(owners@.dom());
    }
    let ghost wanted = owned_by_joined(federates@, owners@);
    let mut i: usize = 0;
    while i < keys.len()
        invariant
            i <= keys@.len(),
            wanted == owned_by_joined(federates@, owners@),
            forall|a: u32| #[trigger] keys@.contains(a) <==> owners@.contains_key(a),
            forall|a: u32| #[trigger]
                owned@.contains(a) <==> wanted.contains(a) && exists|k: int|
                    0 <= k < i && keys@[k] == a,
        decreases keys@.len() - i,
    {
        let a = keys[i];
        assert(keys@.contains(keys@[i as int]));
        if let Some(f) = owners.get(a) {
            if federates.contains_key(*f) {
                owned.insert(a);
            }
        }
        i = i + 1;
    }
    assert(owned@ =~= wanted) by {
        assert forall|a: u32| wanted.contains(a) implies owned@.contains(a) by {
            assert(keys@.contains(a));
            let k = keys@.index_of(a);
            assert(keys@[k] == a);
        }
    }
    let members = owned.members();
    proof {
        lemma_ascending(wanted);
    }
    let mut out: Vec<(u32, String)> = Vec::new();
    let mut j: usize = 0;
    while j < members.len()
        invariant
            j <= members@.len(),
            wanted == owned_by_joined(federates@, owners@),
            forall|a: u32| #[trigger] members@.contains(a) <==> wanted.contains(a),
            owner_list(out@) == owner_names(federates@, owners@, members@.take(j as int)),
        decreases members@.len() - j,
    {
        let a = members[j];
        let ghost seen = out@;
        assert(members@.contains(members@[j as int]));
        if let Some(f) = owners.get(a) {
            if let Some(fs) = federates.get(*f) {
                out.push((a, copy_text(fs.name.as_str())));
            }
        }
        proof {
            let pair = (a, federates@[owners@[a]].name);
            assert(owner_list(out@) =~= owner_list(seen).push(pair));
            assert(owner_names(federates@, owners@, members@.take(j + 1)) =~= owner_names(
                federates@,
                owners@,
                members@.take(j as int),
            ).push(pair));
        }
        j = j + 1;
    }
    assert(members@.take(j as int) =~= members@);
    out
}

fn save_instance(
    federates: &Table<u32, FederateSession>,
    inst: &ObjectInstance,
) -> (r: SerInstance)
    ensures
        r@ == saved_instance(federates@, inst@),
{
    let registrar_name = match federates.get(inst.registrar) {
        Some(fs) => copy_text(fs.name.as_str()),
        None => copy_text("<unknown>"),
    };
    SerInstance {
        handle: inst.handle,
        class: inst.class,
        name: copy_text(inst.name.as_str()),
        registrar_name,
        attribute_owners: save_owners(federates, &inst.attribute_owners),
    }
}

fn save_point(federates: &Table<u32, FederateSession>, point: &SyncPoint) -> (r: SerSyncPoint)
    ensures
        r@ == saved_point(federates@, point@),
{
    let all = point.participants.members();
    proof {
        lemma_ascending(point.participants@);
    }
    let ghost wanted = joined_among(federates@, point.participants@);
    let mut joined: KeySet<u32> = KeySet::new();
    let mut i: usize = 0;
    while i < all.len()
        invariant
            i <= all@.len(),
            wanted == joined_among(federates@, point.participants@),
            forall|f: u32| #[trigger] all@.contains(f) <==> point.participants@.contains(f),
            forall|f: u32| #[trigger]
                joined@.contains(f) <==> wanted.contains(f) && exists|k: int|
                    0 <= k < i && all@[k] == f,
        decreases all@.len() - i,
    {
        let f = all[i];
        assert(all@.contains(all@[i as int]));
        if federates.contains_key(f) {
            joined.insert(f);
        }
        i = i + 1;
    }
    assert(joined@ =~= wanted) by {
        assert forall|f: u32| wanted.contains(f) implies joined@.contains(f) by {
            assert(all@.contains(f));
            let k = all@.index_of(f);
            assert(all@[k] == f);
        }
    }
    let members = joined.members();
    proof {
        lemma_ascending(wanted);
    }
    let mut names: Vec<String> = Vec::new();
    let mut j: usize = 0;
    while j < members.len()
        invariant
            j <= members@.len(),
            wanted == joined_among(federates@, point.participants@),
            forall|f: u32| #[trigger] members@.contains(f) <==> wanted.contains(f),
            texts(names@) == names_of(federates@, members@.take(j as int)),
        decreases members@.len() - j,
    {
        let f = members[j];
        let ghost seen = names@;
        assert(members@.contains(members@[j as int]));
        if let Some(fs) = federates.get(f) {
            names.push(copy_text(fs.name.as_str()));
        }
        proof {
            assert(texts(names@) =~= texts(seen).push(federates@[f].name));
            assert(names_of(federates@, members@.take(j + 1)) =~= names_of(
                federates@,
                members@.take(j as int),
            ).push(federates@[f].name));
        }
        j = j + 1;
    }
    assert(members@.take(j as int) =~= members@);
    SerSyncPoint {
        label: copy_text(point.label.as_str()),
        tag: copy_bytes(point.tag.as_slice()),
        participants: names,
    }
}

/// The joined federates with a name.
pub open spec fn namesakes(federates: Map<u32, FederateView>, name: Seq<char>) -> Set<u32> {
    Set::new(|f: u32| federates.contains_key(f) && federates[f].name == name)
}

/// The joined federate that stands for a name in a snapshot: where several have
/// the name, that with the greatest handle.
pub open spec fn handle_named(federates: Map<u32, FederateView>, name: Seq<char>) -> Option<u32> {
    let all = ascending(namesakes(federates, name));
    if all.len() == 0 {
        None
    } else {
        Some(all.last())
    }
}

/// The joined federates with a name, in ascending order.
pub fn find_namesakes(federates: &Table<u32, FederateSession>, name: &str) -> (r: Vec<u32>)
    ensures
        r@ == ascending(namesakes(federates@, name@)),
        namesakes(federates@, name@).finite(),
{
    let keys = federates.keys();
    proof {
        lemma_ascending(federates@.dom());
    }
    let ghost wanted = namesakes(federates@, name@);
    let mut found: KeySet<u32> = KeySet::new();
    let mut i: usize = 0;
    while i < keys.len()
        invariant
            i <= keys@.len(),
            wanted == namesakes(federates@, name@),
            forall|f: u32| #[trigger] keys@.contains(f) <==> federates@.contains_key(f),
            forall|f: u32| #[trigger]
                found@.contains(f) <==> wanted.contains(f) && exists|k: int|
                    0 <= k < i && keys@[k] == f,
        decreases keys@.len() - i,
    {
        let f = keys[i];
        assert(keys@.contains(keys@[i as int]));
        if let Some(fs) = federates.get(f) {
            if same_text(fs.name.as_str(), name) {
                found.insert(f);
            }
        }
        i = i + 1;
    }
    assert(found@ =~= wanted) by {
        assert forall|f: u32| wanted.contains(f) implies found@.contains(f) by {
            assert(keys@.contains(f));
            let k = keys@.index_of(f);
            assert(keys@[k] == f);
        }
    }
    found.members()
}

fn find_handle_named(federates: &Table<u32, FederateSession>, name: &str) -> (r: Option<u32>)
    ensures
        r == handle_named(federates@, name@),
{
    let all = find_namesakes(federates, name);
    if all.len() == 0 {
        None
    } else {
        Some(all[all.len() - 1])
    }
}

/// The owners that a snapshot gives to attributes; those who are not joined own
/// nothing.
pub open spec fn restored_owners(
    federates: Map<u32, FederateView>,
    l: Seq<(u32, Seq<char>)>,
) -> Map<u32, u32>
    decreases l.len(),
{
    if l.len() == 0 {
        Map::empty()
    } else {
        let rest = restored_owners(federates, l.drop_last());
        match handle_named(federates, l.last().1) {
            Some(h) => rest.insert(l.last().0, h),
            None => rest,
        }
    }
}

/// The instance that a snapshot gives back, with this registrar.
pub open spec fn restored_instance(
    federates: Map<u32, FederateView>,
    ser: SerInstanceView,
    registrar: u32,
) -> InstanceView {
    InstanceView {
        handle: ser.handle,
        class: ser.class,
        name: ser.name,
        registrar,
        attribute_owners: restored_owners(federates, ser.attribute_owners),
        attribute_regions: Map::empty(),
    }
}

/// The instances that a snapshot gives back: those whose registrar is joined.
pub open spec fn restored_instances(
    federates: Map<u32, FederateView>,
    l: Seq<SerInstanceView>,
) -> Map<u64, InstanceView>
    decreases l.len(),
{
    if l.len() == 0 {
        Map::empty()
    } else {
        let rest = restored_instances(federates, l.drop_last());
        match handle_named(federates, l.last().registrar_name) {
            Some(h) => rest.insert(l.last().handle, restored_instance(federates, l.last(), h)),
            None => rest,
        }
    }
}

/// The next instance number, past those of the instances that are given back.
pub open spec fn restored_next(
    federates: Map<u32, FederateView>,
    l: Seq<SerInstanceView>,
    next: u64,
) -> u64
    decreases l.len(),
{
    if l.len() == 0 {
        next
    } else {
        let n = restored_next(federates, l.drop_last(), next);
        if handle_named(federates, l.last().registrar_name) is Some && n <= l.last().handle {
            next_number(l.last().handle)
        } else {
            n
        }
    }
}

/// Whether an instance of a snapshot has the last number that there is.
pub open spec fn takes_last_number(l: Seq<SerInstanceView>) -> bool {
    exists|i: int| 0 <= i < l.len() && (#[trigger] l[i]).handle == u64::MAX
}

/// The joined federates that stand for names.
pub open spec fn handles_named(
    federates: Map<u32, FederateView>,
    names: Seq<Seq<char>>,
) -> Set<u32> {
    Set::new(
        |f: u32|
            exists|i: int|
                0 <= i < names.len() && handle_named(federates, #[trigger] names[i]) == Some(f),
    )
}

/// The synchronization point that a snapshot gives back: nobody has achieved it.
pub open spec fn restored_point(
    federates: Map<u32, FederateView>,
    ser: SerSyncPointView,
) -> SyncPointView {
    SyncPointView {
        label: ser.label,
        tag: ser.tag,
        participants: handles_named(federates, ser.participants),
        achieved: Set::empty(),
        failed_to_sync: Set::empty(),
    }
}

/// The synchronization points that a snapshot gives back.
pub open spec fn restored_points(
    federates: Map<u32, FederateView>,
    l: Seq<SerSyncPointView>,
) -> NamedView<SyncPointView>
    decreases l.len(),
{
    if l.len() == 0 {
        NamedView::empty()
    } else {
        restored_points(federates, l.drop_last()).put(
            l.last().label,
            restored_point(federates, l.last()),
        )
    }
}

/// The federation after a snapshot was restored in it.
pub open spec fn restored(fed: FederationView, snap: SnapshotView) -> FederationView {
    FederationView {
        object_instances: restored_instances(fed.federates, snap.instances),
        next_object_id: restored_next(fed.federates, snap.instances, fed.next_object_id),
        renumbered: fed.renumbered || takes_last_number(snap.instances),
        sync_points: restored_points(fed.federates, snap.sync_points),
        ..fed
    }
}

fn restore_owners(
    federates: &Table<u32, FederateSession>,
    l: &Vec<(u32, String)>,
) -> (r: Table<u32, u32>)
    ensures
        r@ == restored_owners(federates@, owner_list(l@)),
{
    let mut out: Table<u32, u32> = Table::new();
    let ghost all = owner_list(l@);
    let mut i: usize = 0;
    while i < l.len()
        invariant
            i <= l@.len(),
            all == owner_list(l@),
            out@ == restored_owners(federates@, all.take(i as int)),
        decreases l@.len() - i,
    {
        proof {
            assert(all.take(i + 1).drop_last() =~= all.take(i as int));
            assert(all.take(i + 1).last() == all[i as int]);
        }
        if let Some(h) = find_handle_named(federates, l[i].1.as_str()) {
            out.insert(l[i].0, h);
        }
        i = i + 1;
    }
    assert(all.take(i as int) =~= all);
    out
}

fn restore_participants(
    federates: &Table<u32, FederateSession>,
    names: &Vec<String>,
) -> (r: KeySet<u32>)
    ensures
        r@ == handles_named(federates@, texts(names@)),
{
    let mut out: KeySet<u32> = KeySet::new();
    let ghost all = texts(names@);
    let mut i: usize = 0;
    while i < names.len()
        invariant
            i <= names@.len(),
            all == texts(names@),
            forall|f: u32| #[trigger]
                out@.contains(f) <==> exists|k: int|
                    0 <= k < i && handle_named(federates@, #[trigger] all[k]) == Some(f),
        decreases names@.len() - i,
    {
        let ghost seen = out@;
        let found = find_handle_named(federates, names[i].as_str());
        assert(found == handle_named(federates@, all[i as int]));
        if let Some(h) = found {
            out.insert(h);
        }
        assert forall|f: u32| #[trigger] out@.contains(f) <==> exists|k: int|
            0 <= k < i + 1 && handle_named(federates@, #[trigger] all[k]) == Some(f) by {
            if seen.contains(f) {
                let k = choose|k: int|
                    0 <= k < i && handle_named(federates@, #[trigger] all[k]) == Some(f);
                assert(0 <= k < i + 1 && handle_named(federates@, all[k]) == Some(f));
            }
        }
        i = i + 1;
    }
    assert(out@ =~= handles_named(federates@, all));
    out
}

impl Federation {
    /// The snapshot of this federation.
    pub fn snapshot(&self) -> (r: FederationSnapshot)
        requires
            self.wf(),
        ensures
            r@ == snapshot_of(self@),
    {
        let ghost fed = self@;
        let keys = self.object_instances.keys();
        proof {
            lemma_ascending(fed.object_instances.dom());
        }
        let mut instances: Vec<SerInstance> = Vec::new();
        let mut i: usize = 0;
        while i < keys.len()
            invariant
                i <= keys@.len(),
                fed == self@,
                forall|o: u64| #[trigger] keys@.contains(o) <==> fed.object_instances.contains_key(o),
                instance_views(instances@) == saved_instances(fed, keys@.take(i as int)),
            decreases keys@.len() - i,
        {
            let ghost seen = instances@;
            assert(keys@.contains(keys@[i as int]));
            if let Some(inst) = self.object_instances.get(keys[i]) {
                instances.push(save_instance(&self.federates, inst));
            }
            proof {
                let next = saved_instance(fed.federates, fed.object_instances[keys@[i as int]]);
                assert(instance_views(instances@) =~= instance_views(seen).push(next));
                assert(saved_instances(fed, keys@.take(i + 1)) =~= saved_instances(
                    fed,
                    keys@.take(i as int),
                ).push(next));
            }
            i = i + 1;
        }
        assert(keys@.take(i as int) =~= keys@);
        let labels = self.sync_points.names();
        proof {
            self.sync_points.lemma_order();
        }
        let mut points: Vec<SerSyncPoint> = Vec::new();
        let mut j: usize = 0;
        while j < labels.len()
            invariant
                j <= labels@.len(),
                fed == self@,
                self.wf(),
                labels@.map_values(|s: String| s@) == fed.sync_points.order,
                forall|n: Seq<char>| #[trigger]
                    fed.sync_points.order.contains(n) <==> fed.sync_points.has(n),
                point_views(points@) == saved_points(fed, fed.sync_points.order.take(j as int)),
            decreases labels@.len() - j,
        {
            let ghost seen = points@;
            proof {
                assert(labels@.map_values(|s: String| s@)[j as int] == labels@[j as int]@);
                assert(fed.sync_points.order.contains(fed.sync_points.order[j as int]));
            }
            if let Some(point) = self.sync_points.get(labels[j].as_str()) {
                points.push(save_point(&self.federates, point));
            }
            proof {
                let next = saved_point(
                    fed.federates,
                    fed.sync_points.at(fed.sync_points.order[j as int]),
                );
                assert(point_views(points@) =~= point_views(seen).push(next));
                assert(saved_points(fed, fed.sync_points.order.take(j + 1)) =~= saved_points(
                    fed,
                    fed.sync_points.order.take(j as int),
                ).push(next));
            }
            j = j + 1;
        }
        assert(fed.sync_points.order.take(j as int) =~= fed.sync_points.order);
        FederationSnapshot {
            federation_name: copy_text(self.name.as_str()),
            instances,
            sync_points: points,
        }
    }

    /// Puts the instances and synchronization points of a snapshot in the place
    /// of those that there are.
    pub fn apply_snapshot(&mut self, snap: &FederationSnapshot)
        requires
            old(self).wf(),
        ensures
            final(self).wf(),
            final(self)@ == restored(old(self)@, snap@),
    {
        let ghost fed = self@;
        let ghost federates = fed.federates;
        let ghost all = instance_views(snap.instances@);
        let mut instances: Table<u64, ObjectInstance> = Table::new();
        let mut next: u64 = self.next_object_id;
        let mut i: usize = 0;
        while i < snap.instances.len()
            invariant
                i <= snap.instances@.len(),
                *self == *old(self),
                federates == self@.federates,
                all == instance_views(snap.instances@),
                instances@ == restored_instances(federates, all.take(i as int)),
                next == restored_next(federates, all.take(i as int), self.next_object_id),
                forall|o: u64| #[trigger]
                    instances@.contains_key(o) ==> instances@[o].handle == o,
            decreases snap.instances@.len() - i,
        {
            let ser = &snap.instances[i];
            proof {
                assert(all.take(i + 1).drop_last() =~= all.take(i as int));
                assert(all.take(i + 1).last() == ser@);
            }
            if let Some(registrar) = find_handle_named(
                &self.federates,
                ser.registrar_name.as_str(),
            ) {
                let inst = ObjectInstance {
                    handle: ser.handle,
                    class: ser.class,
                    name: copy_text(ser.name.as_str()),
                    registrar,
                    attribute_owners: restore_owners(&self.federates, &ser.attribute_owners),
                    attribute_regions: Table::new(),
                };
                assert(inst@ =~= restored_instance(federates, ser@, registrar));
                instances.insert(ser.handle, inst);
                if next <= ser.handle {
                    next = following(ser.handle);
                }
            }
            i = i + 1;
        }
        assert(all.take(i as int) =~= all);
        let ghost saved = point_views(snap.sync_points@);
        let mut points: NameTable<SyncPoint> = NameTable::new();
        let mut j: usize = 0;
        while j < snap.sync_points.len()
            invariant
                j <= snap.sync_points@.len(),
                *self == *old(self),
                federates == self@.federates,
                saved == point_views(snap.sync_points@),
                points.wf(),
                points@ == restored_points(federates, saved.take(j as int)),
                forall|l: Seq<char>| #[trigger]
                    points@.has(l) ==> points@.at(l).label == l && points@.at(l).wf(),
            decreases snap.sync_points@.len() - j,
        {
            let ser = &snap.sync_points[j];
            proof {
                assert(saved.take(j + 1).drop_last() =~= saved.take(j as int));
                assert(saved.take(j + 1).last() == ser@);
            }
            let point = SyncPoint {
                label: copy_text(ser.label.as_str()),
                tag: copy_bytes(ser.tag.as_slice()),
                participants: restore_participants(&self.federates, &ser.participants),
                achieved: KeySet::new(),
                failed_to_sync: KeySet::new(),
            };
            assert(point@ =~= restored_point(federates, ser@));
            let ghost seen = points@;
            points.insert(ser.label.as_str(), point);
            assert forall|l: Seq<char>| #[trigger] points@.has(l) implies points@.at(l).label == l
                && points@.at(l).wf() by {
                if l != ser.label@ {
                    assert(seen.has(l));
                }
            }
            j = j + 1;
        }
        assert(saved.take(j as int) =~= saved);
        self.object_instances = instances;
        self.next_object_id = next;
        let ghost renumbered = self.renumbered@ || takes_last_number(all);
        self.renumbered = Ghost(renumbered);
        self.sync_points = points;
    }
}

/// A text with every path separator turned into an underscore.
pub open spec fn without_separators(s: Seq<char>) -> Seq<char> {
    s.map_values(
        |c: char|
            if c == '/' || c == '\\' {
                '_'
            } else {
                c
            },
    )
}

/// What an underscore in the name of a file stands for: a slash, a backslash or an
/// underscore.
pub open spec fn mark_of(c: char) -> Seq<char> {
    if c == '/' {
        seq!['s']
    } else if c == '\\' {
        seq!['b']
    } else if c == '_' {
        seq!['u']
    } else {
        Seq::empty()
    }
}

/// What the underscores stand for that a text has without its separators, from the
/// first to the last.
pub open spec fn marks(s: Seq<char>) -> Seq<char>
    decreases s.len(),
{
    if s.len() == 0 {
        Seq::empty()
    } else {
        marks(s.drop_last()) + mark_of(s.last())
    }
}

/// A federation and a label as the beginning of the name of a file.
pub open spec fn file_stem(federation: Seq<char>, label: Seq<char>) -> Seq<char> {
    without_separators(federation) + "__"@ + without_separators(label)
}

/// Whether a federation and a label can be read off their stem. Of all pairs with
/// one stem there is at most one: the label begins after the first two underscores
/// in a row, those before stand for slashes, and those after for backslashes.
pub open spec fn is_plain(federation: Seq<char>, label: Seq<char>) -> bool {
    &&& !federation.contains('\\') && !federation.contains('_')
    &&& !label.contains('/') && !label.contains('_')
    &&& forall|i: int|
        0 <= i < federation.len() && #[trigger] federation[i] == '/' ==> i + 1 < federation.len()
            && federation[i + 1] != '/'
    &&& label.len() > 0 ==> label.last() != '~'
}

/// The name of the file that holds the snapshot of a federation under a label. For
/// pairs that cannot be read off their stem it says, between tildes, what the
/// underscores stand for, with a `j` where the label begins.
pub open spec fn file_name_of(federation: Seq<char>, label: Seq<char>) -> Seq<char> {
    if is_plain(federation, label) {
        file_stem(federation, label) + ".json"@
    } else {
        file_stem(federation, label) + "~"@ + marks(federation) + "j"@ + marks(label) + "~.json"@
    }
}

fn replace_separators(s: &str) -> (r: String)
    ensures
        r@ == without_separators(s@),
{
    let n: usize = s.unicode_len();
    let mut out = String::new();
    let mut i: usize = 0;
    while i < n
        invariant
            i <= n,
            n == s@.len(),
            out@ == without_separators(s@.take(i as int)),
        decreases n - i,
    {
        let c = s.get_char(i);
        if c == '/' || c == '\\' {
            out.push('_');
        } else {
            out.push(c);
        }
        assert(out@ =~= without_separators(s@.take(i + 1)));
        i = i + 1;
    }
    assert(s@.take(i as int) =~= s@);
    out
}

fn has_plain_name(federation: &str, label: &str) -> (r: bool)
    ensures
        r == is_plain(federation@, label@),
{
    let n: usize = federation.unicode_len();
    let mut i: usize = 0;
    while i < n
        invariant
            i <= n,
            n == federation@.len(),
            forall|k: int|
                0 <= k < i ==> (#[trigger] federation@[k]) != '\\' && federation@[k] != '_',
            forall|k: int|
                0 <= k < i && #[trigger] federation@[k] == '/' ==> k + 1 < n && federation@[k + 1]
                    != '/',
        decreases n - i,
    {
        let c = federation.get_char(i);
        if c == '\\' || c == '_' {
            assert(federation@.contains(c));
            return false;
        }
        if c == '/' && (i + 1 == n || federation.get_char(i + 1) == '/') {
            assert(federation@[i as int] == '/');
            return false;
        }
        i = i + 1;
    }
    let m: usize = label.unicode_len();
    let mut j: usize = 0;
    while j < m
        invariant
            j <= m,
            m == label@.len(),
            forall|k: int| 0 <= k < j ==> (#[trigger] label@[k]) != '/' && label@[k] != '_',
        decreases m - j,
    {
        let c = label.get_char(j);
        if c == '/' || c == '_' {
            assert(label@.contains(c));
            return false;
        }
        j = j + 1;
    }
    m == 0 || label.get_char(m - 1) != '~'
}

fn write_marks(out: &mut String, s: &str)
    ensures
        final(out)@ == old(out)@ + marks(s@),
{
    let n: usize = s.unicode_len();
    let mut i: usize = 0;
    assert(old(out)@ + marks(s@.take(0)) =~= old(out)@);
    while i < n
        invariant
            i <= n,
            n == s@.len(),
            out@ == old(out)@ + marks(s@.take(i as int)),
        decreases n - i,
    {
        let c = s.get_char(i);
        assert(s@.take(i + 1).drop_last() =~= s@.take(i as int));
        if c == '/' {
            out.push('s');
        } else if c == '\\' {
            out.push('b');
        } else if c == '_' {
            out.push('u');
        }
        assert(out@ =~= old(out)@ + marks(s@.take(i + 1)));
        i = i + 1;
    }
    assert(s@.take(i as int) =~= s@);
}

/// The name of the file that holds the snapshot of a federation under a label,
/// in the directory for saves.
pub fn snapshot_path(federation: &str, label: &str) -> (r: String)
    ensures
        r@ == file_name_of(federation@, label@),
{
    let mut r = replace_separators(federation);
    r.append("__");
    r.append(replace_separators(label).as_str());
    if !has_plain_name(federation, label) {
        r.append("~");
        write_marks(&mut r, federation);
        r.append("j");
        write_marks(&mut r, label);
        r.append("~.json");
    } else {
        r.append(".json");
    }
    r
}

/// Marks are letters of three kinds.
proof fn lemma_marks(s: Seq<char>)
    ensures
        forall|i: int|
            0 <= i < marks(s).len() ==> (#[trigger] marks(s)[i]) == 's' || marks(s)[i] == 'b'
                || marks(s)[i] == 'u',
    decreases s.len(),
{
    if s.len() > 0 {
        lemma_marks(s.drop_last());
        let rest = marks(s.drop_last());
        assert forall|i: int| 0 <= i < marks(s).len() implies (#[trigger] marks(s)[i]) == 's'
            || marks(s)[i] == 'b' || marks(s)[i] == 'u' by {
            if i < rest.len() {
                assert(marks(s)[i] == rest[i]);
            }
        }
    }
}

/// A text is known by what it is without its separators, and by its marks.
proof fn lemma_marks_tell(a: Seq<char>, b: Seq<char>)
    requires
        without_separators(a) == without_separators(b),
        marks(a) == marks(b),
    ensures
        a == b,
    decreases a.len(),
{
    assert(without_separators(a).len() == a.len() && without_separators(b).len() == b.len());
    if a.len() > 0 {
        let x = a.last();
        let y = b.last();
        let a0 = a.drop_last();
        let b0 = b.drop_last();
        assert(without_separators(a)[a.len() - 1] == without_separators(b)[b.len() - 1]);
        assert(without_separators(a0) =~= without_separators(a).drop_last());
        assert(without_separators(b0) =~= without_separators(b).drop_last());
        if mark_of(x).len() > 0 {
            assert(mark_of(y).len() == 1);
            assert(marks(a).last() == mark_of(x)[0]);
            assert(marks(b).last() == mark_of(y)[0]);
            assert(marks(a0) =~= marks(a).drop_last());
            assert(marks(b0) =~= marks(b).drop_last());
        } else {
            assert(mark_of(y).len() == 0);
            assert(marks(a0) =~= marks(a));
            assert(marks(b0) =~= marks(b));
        }
        lemma_marks_tell(a0, b0);
        assert(a =~= a0.push(x));
        assert(b =~= b0.push(y));
    } else {
        assert(a =~= b);
    }
}

/// The more underscores a text has without its separators, the more marks: one
/// that goes on with an underscore where another one ends has more.
proof fn lemma_marks_grow(a: Seq<char>, b: Seq<char>)
    requires
        a.len() < b.len(),
        forall|i: int|
            0 <= i < a.len() ==> #[trigger] without_separators(a)[i] == without_separators(b)[i],
        without_separators(b)[a.len() as int] == '_',
    ensures
        marks(a).len() < marks(b).len(),
    decreases b.len(),
{
    let b0 = b.drop_last();
    assert forall|i: int| 0 <= i < b0.len() implies #[trigger] without_separators(b0)[i]
        == without_separators(b)[i] by {}
    if a.len() == b0.len() {
        assert(without_separators(a) =~= without_separators(b0));
        lemma_marks_counted(a, b0);
        assert(mark_of(b.last()).len() == 1);
    } else {
        lemma_marks_grow(a, b0);
    }
}

/// The number of marks rests on the underscores alone.
proof fn lemma_marks_counted(a: Seq<char>, b: Seq<char>)
    requires
        without_separators(a) == without_separators(b),
    ensures
        marks(a).len() == marks(b).len(),
    decreases a.len(),
{
    assert(without_separators(a).len() == a.len() && without_separators(b).len() == b.len());
    if a.len() > 0 {
        assert(without_separators(a)[a.len() - 1] == without_separators(b)[b.len() - 1]);
        assert(without_separators(a.drop_last()) =~= without_separators(a).drop_last());
        assert(without_separators(b.drop_last()) =~= without_separators(b).drop_last());
        lemma_marks_counted(a.drop_last(), b.drop_last());
    }
}

/// Pairs with one stem, of which the first has the shorter federation.
proof fn lemma_shorter_federation(
    f1: Seq<char>,
    l1: Seq<char>,
    f2: Seq<char>,
    l2: Seq<char>,
)
    requires
        file_stem(f1, l1) == file_stem(f2, l2),
        f1.len() < f2.len(),
    ensures
        forall|i: int|
            0 <= i < f1.len() ==> #[trigger] without_separators(f1)[i] == without_separators(f2)[i],
        without_separators(f2)[f1.len() as int] == '_',
        f1.len() + 1 < f2.len() ==> without_separators(f2)[f1.len() as int + 1] == '_',
{
    reveal_strlit("__");
    let a = file_stem(f1, l1);
    let b = file_stem(f2, l2);
    assert forall|i: int| 0 <= i < f1.len() implies #[trigger] without_separators(f1)[i]
        == without_separators(f2)[i] by {
        assert(a[i] == b[i]);
    }
    assert(a[f1.len() as int] == '_' && b[f1.len() as int] == without_separators(
        f2,
    )[f1.len() as int]);
    assert(a[f1.len() as int + 1] == '_');
    assert(b[f1.len() as int + 1] == a[f1.len() as int + 1]);
}

/// Pairs with one stem whose federations are equally long.
proof fn lemma_same_split(f1: Seq<char>, l1: Seq<char>, f2: Seq<char>, l2: Seq<char>)
    requires
        file_stem(f1, l1) == file_stem(f2, l2),
        f1.len() == f2.len(),
    ensures
        without_separators(f1) == without_separators(f2),
        without_separators(l1) == without_separators(l2),
{
    reveal_strlit("__");
    let a = file_stem(f1, l1);
    let b = file_stem(f2, l2);
    assert(without_separators(f1) =~= a.take(f1.len() as int));
    assert(without_separators(f2) =~= b.take(f2.len() as int));
    assert(without_separators(l1) =~= a.skip(f1.len() as int + 2));
    assert(without_separators(l2) =~= b.skip(f2.len() as int + 2));
}

proof fn lemma_plain_pairs_differ(f1: Seq<char>, l1: Seq<char>, f2: Seq<char>, l2: Seq<char>)
    requires
        is_plain(f1, l1),
        is_plain(f2, l2),
        file_stem(f1, l1) == file_stem(f2, l2),
    ensures
        f1 == f2,
        l1 == l2,
{
    if f1.len() < f2.len() {
        lemma_shorter_federation(f1, l1, f2, l2);
        assert(f2.contains(f2[f1.len() as int]));
        assert(f2[f1.len() as int] == '/');
        assert(f2.contains(f2[f1.len() as int + 1]));
    } else if f2.len() < f1.len() {
        lemma_shorter_federation(f2, l2, f1, l1);
        assert(f1.contains(f1[f2.len() as int]));
        assert(f1[f2.len() as int] == '/');
        assert(f1.contains(f1[f2.len() as int + 1]));
    } else {
        lemma_same_split(f1, l1, f2, l2);
        assert forall|i: int| 0 <= i < f1.len() implies f1[i] == f2[i] by {
            assert(without_separators(f1)[i] == without_separators(f2)[i]);
            assert(f1.contains(f1[i]) && f2.contains(f2[i]));
        }
        assert(f1 =~= f2);
        assert(without_separators(l1).len() == without_separators(l2).len());
        assert forall|i: int| 0 <= i < l1.len() implies l1[i] == l2[i] by {
            assert(without_separators(l1)[i] == without_separators(l2)[i]);
            assert(l1.contains(l1[i]) && l2.contains(l2[i]));
        }
        assert(l1 =~= l2);
    }
}

proof fn lemma_marked_pairs_differ(f1: Seq<char>, l1: Seq<char>, f2: Seq<char>, l2: Seq<char>)
    requires
        file_stem(f1, l1) == file_stem(f2, l2),
        marks(f1) + "j"@ + marks(l1) == marks(f2) + "j"@ + marks(l2),
    ensures
        f1 == f2,
        l1 == l2,
{
    reveal_strlit("j");
    let a = marks(f1) + "j"@ + marks(l1);
    let b = marks(f2) + "j"@ + marks(l2);
    lemma_marks(f1);
    lemma_marks(f2);
    assert(a[marks(f1).len() as int] == 'j' && b[marks(f2).len() as int] == 'j');
    if marks(f1).len() < marks(f2).len() {
        assert(b[marks(f1).len() as int] == marks(f2)[marks(f1).len() as int]);
    }
    if marks(f2).len() < marks(f1).len() {
        assert(a[marks(f2).len() as int] == marks(f1)[marks(f2).len() as int]);
    }
    assert(marks(f1) =~= a.take(marks(f1).len() as int));
    assert(marks(f2) =~= b.take(marks(f2).len() as int));
    assert(marks(l1) =~= a.skip(marks(f1).len() as int + 1));
    assert(marks(l2) =~= b.skip(marks(f2).len() as int + 1));
    if f1.len() < f2.len() {
        lemma_shorter_federation(f1, l1, f2, l2);
        lemma_marks_grow(f1, f2);
    } else if f2.len() < f1.len() {
        lemma_shorter_federation(f2, l2, f1, l1);
        lemma_marks_grow(f2, f1);
    } else {
        lemma_same_split(f1, l1, f2, l2);
        lemma_marks_tell(f1, f2);
        lemma_marks_tell(l1, l2);
    }
}

/// The tail of a name tells where it begins: at the last tilde but one.
proof fn lemma_tail(s1: Seq<char>, m1: Seq<char>, s2: Seq<char>, m2: Seq<char>)
    requires
        !m1.contains('~'),
        !m2.contains('~'),
        s1 + "~"@ + m1 + "~.json"@ == s2 + "~"@ + m2 + "~.json"@,
    ensures
        s1 == s2,
        m1 == m2,
{
    reveal_strlit("~");
    reveal_strlit("~.json");
    let a = s1 + "~"@ + m1 + "~.json"@;
    let b = s2 + "~"@ + m2 + "~.json"@;
    assert(a.len() == s1.len() + m1.len() + 7 && b.len() == s2.len() + m2.len() + 7);
    assert(a[s1.len() as int] == '~' && b[s2.len() as int] == '~');
    if s1.len() < s2.len() {
        assert(a[s2.len() as int] == m1[s2.len() - s1.len() - 1]);
        assert(m1.contains('~'));
    }
    if s2.len() < s1.len() {
        assert(b[s1.len() as int] == m2[s1.len() - s2.len() - 1]);
        assert(m2.contains('~'));
    }
    assert(s1 =~= a.take(s1.len() as int));
    assert(s2 =~= b.take(s2.len() as int));
    assert(m1 =~= a.subrange(s1.len() as int + 1, a.len() - 6));
    assert(m2 =~= b.subrange(s2.len() as int + 1, b.len() - 6));
}

/// The marks of a federation and a label hold no tilde.
proof fn lemma_no_tilde(f: Seq<char>, l: Seq<char>)
    ensures
        !(marks(f) + "j"@ + marks(l)).contains('~'),
{
    reveal_strlit("j");
    lemma_marks(f);
    lemma_marks(l);
    let m = marks(f) + "j"@ + marks(l);
    assert forall|i: int| 0 <= i < m.len() implies m[i] != '~' by {
        if i < marks(f).len() {
            assert(m[i] == marks(f)[i]);
        } else if i > marks(f).len() {
            assert(m[i] == marks(l)[i - marks(f).len() - 1]);
        }
    }
}

/// A plain name has no tilde before its ending.
proof fn lemma_plain_ending(f: Seq<char>, l: Seq<char>)
    requires
        is_plain(f, l),
    ensures
        file_name_of(f, l).len() >= 6,
        file_name_of(f, l)[file_name_of(f, l).len() - 6] != '~',
{
    reveal_strlit("__");
    reveal_strlit(".json");
    let n = file_name_of(f, l);
    let stem = file_stem(f, l);
    assert(n[n.len() - 6] == stem[stem.len() - 1]);
    if l.len() > 0 {
        assert(stem[stem.len() - 1] == without_separators(l)[l.len() - 1]);
    } else {
        assert(stem[stem.len() - 1] == '_');
    }
}

/// Every federation and label have a file of their own: the save of one pair never
/// takes the place of another's.
pub proof fn every_pair_has_its_own_file(
    f1: Seq<char>,
    l1: Seq<char>,
    f2: Seq<char>,
    l2: Seq<char>,
)
    ensures
        file_name_of(f1, l1) == file_name_of(f2, l2) ==> f1 == f2 && l1 == l2,
{
    reveal_strlit(".json");
    reveal_strlit("~.json");
    let a = file_name_of(f1, l1);
    let b = file_name_of(f2, l2);
    if a == b {
        let s1 = file_stem(f1, l1);
        let s2 = file_stem(f2, l2);
        let m1 = marks(f1) + "j"@ + marks(l1);
        let m2 = marks(f2) + "j"@ + marks(l2);
        if !is_plain(f1, l1) {
            assert(a =~= s1 + "~"@ + m1 + "~.json"@);
            assert(a[a.len() - 6] == '~');
        }
        if !is_plain(f2, l2) {
            assert(b =~= s2 + "~"@ + m2 + "~.json"@);
            assert(b[b.len() - 6] == '~');
        }
        if is_plain(f1, l1) {
            lemma_plain_ending(f1, l1);
        }
        if is_plain(f2, l2) {
            lemma_plain_ending(f2, l2);
        }
        if is_plain(f1, l1) && is_plain(f2, l2) {
            assert(s1 =~= a.take(a.len() - 5));
            assert(s2 =~= b.take(b.len() - 5));
            lemma_plain_pairs_differ(f1, l1, f2, l2);
        } else {
            lemma_no_tilde(f1, l1);
            lemma_no_tilde(f2, l2);
            lemma_tail(s1, m1, s2, m2);
            lemma_marked_pairs_differ(f1, l1, f2, l2);
        }
    }
}

/// The file of a snapshot lies directly in the directory for saves, whatever
/// the federation and the label are called: its name has no path separator.
pub proof fn snapshot_files_stay_in_their_directory(federation: Seq<char>, label: Seq<char>)
    ensures
        !file_name_of(federation, label).contains('/'),
        !file_name_of(federation, label).contains('\\'),
{
    reveal_strlit("__");
    reveal_strlit(".json");
    reveal_strlit("~");
    reveal_strlit("j");
    reveal_strlit("~.json");
    lemma_marks(federation);
    lemma_marks(label);
    let name = file_name_of(federation, label);
    let a = without_separators(federation);
    let b = without_separators(label);
    let stem = file_stem(federation, label);
    assert forall|i: int| 0 <= i < stem.len() implies stem[i] != '/' && stem[i] != '\\' by {
        if i < a.len() {
            assert(stem[i] == a[i]);
        } else if i < a.len() + 2 {
            assert(stem[i] == "__"@[i - a.len()]);
        } else {
            assert(stem[i] == b[i - a.len() - 2]);
        }
    }
    let m = marks(federation);
    let n = marks(label);
    assert forall|i: int| 0 <= i < name.len() implies name[i] != '/' && name[i] != '\\' by {
        let k = i - stem.len();
        if k < 0 {
            assert(name[i] == stem[i]);
        } else if is_plain(federation, label) {
            assert(name[i] == ".json"@[k]);
        } else if k == 0 {
            assert(name[i] == "~"@[0]);
        } else if k < 1 + m.len() {
            assert(name[i] == m[k - 1]);
        } else if k == 1 + m.len() {
            assert(name[i] == "j"@[0]);
        } else if k < 2 + m.len() + n.len() {
            assert(name[i] == n[k - 2 - m.len()]);
        } else {
            assert(name[i] == "~.json"@[k - 2 - m.len() - n.len()]);
        }
    }
}

proof fn lemma_restored_owners(
    federates: Map<u32, FederateView>,
    saved: Map<u32, FederateView>,
    owners: Map<u32, u32>,
    q: Seq<u32>,
)
    requires
        q.no_duplicates(),
    ensures
        ({
            let m = restored_owners(federates, owner_names(saved, owners, q));
            forall|a: u32| #[trigger]
                m.contains_key(a) <==> q.contains(a) && handle_named(
                    federates,
                    saved[owners[a]].name,
                ) is Some
        }),
        ({
            let m = restored_owners(federates, owner_names(saved, owners, q));
            forall|a: u32| #[trigger]
                m.contains_key(a) ==> Some(m[a]) == handle_named(federates, saved[owners[a]].name)
        }),
    decreases q.len(),
{
    if q.len() > 0 {
        let rest = q.drop_last();
        let l = owner_names(saved, owners, q);
        assert(l.drop_last() =~= owner_names(saved, owners, rest));
        lemma_restored_owners(federates, saved, owners, rest);
        assert(l.last() == (q.last(), saved[owners[q.last()]].name));
        let m = restored_owners(federates, l);
        let m0 = restored_owners(federates, owner_names(saved, owners, rest));
        let found = handle_named(federates, saved[owners[q.last()]].name);
        assert(m == match found {
            Some(h) => m0.insert(q.last(), h),
            None => m0,
        });
        assert forall|a: u32| q.contains(a) <==> rest.contains(a) || a == q.last() by {
            if q.contains(a) && a != q.last() {
                let k = q.index_of(a);
                assert(rest[k] == a);
            }
            if rest.contains(a) {
                let k = rest.index_of(a);
                assert(q[k] == a);
            }
        }
        assert(!rest.contains(q.last())) by {
            if rest.contains(q.last()) {
                let k = rest.index_of(q.last());
                assert(q[k] == q[q.len() - 1]);
            }
        }
    }
}

proof fn lemma_restored_instances(
    federates: Map<u32, FederateView>,
    saved: FederationView,
    q: Seq<u64>,
    next: u64,
)
    requires
        q.no_duplicates(),
        forall|i: int|
            0 <= i < q.len() ==> saved.object_instances[#[trigger] q[i]].handle == q[i],
    ensures
        ({
            let m = restored_instances(federates, saved_instances(saved, q));
            forall|o: u64| #[trigger]
                m.contains_key(o) <==> q.contains(o) && handle_named(
                    federates,
                    saved_registrar(saved.federates, saved.object_instances[o].registrar),
                ) is Some
        }),
        ({
            let m = restored_instances(federates, saved_instances(saved, q));
            forall|o: u64| #[trigger]
                m.contains_key(o) ==> m[o] == restored_instance(
                    federates,
                    saved_instance(saved.federates, saved.object_instances[o]),
                    handle_named(
                        federates,
                        saved_registrar(saved.federates, saved.object_instances[o].registrar),
                    )->0,
                )
        }),
        (forall|i: int| 0 <= i < q.len() ==> #[trigger] q[i] < u64::MAX) ==> {
            let m = restored_instances(federates, saved_instances(saved, q));
            let n = restored_next(federates, saved_instances(saved, q), next);
            n >= next && forall|o: u64| #[trigger] m.contains_key(o) ==> o < n
        },
    decreases q.len(),
{
    if q.len() > 0 {
        let rest = q.drop_last();
        let l = saved_instances(saved, q);
        assert(l.drop_last() =~= saved_instances(saved, rest));
        assert forall|i: int| 0 <= i < rest.len() implies saved.object_instances[#[trigger] rest[i]].handle
            == rest[i] by {
            assert(rest[i] == q[i]);
        }
        lemma_restored_instances(federates, saved, rest, next);
        assert forall|o: u64| q.contains(o) <==> rest.contains(o) || o == q.last() by {
            if q.contains(o) && o != q.last() {
                let k = q.index_of(o);
                assert(rest[k] == o);
            }
            if rest.contains(o) {
                let k = rest.index_of(o);
                assert(q[k] == o);
            }
        }
        assert(!rest.contains(q.last())) by {
            if rest.contains(q.last()) {
                let k = rest.index_of(q.last());
                assert(q[k] == q[q.len() - 1]);
            }
        }
        assert(q[q.len() - 1] == q.last());
        assert(l.last() == saved_instance(saved.federates, saved.object_instances[q.last()]));
        let m = restored_instances(federates, l);
        let m0 = restored_instances(federates, saved_instances(saved, rest));
        let found = handle_named(federates, l.last().registrar_name);
        assert(m == match found {
            Some(h) => m0.insert(q.last(), restored_instance(federates, l.last(), h)),
            None => m0,
        });
        if forall|i: int| 0 <= i < q.len() ==> #[trigger] q[i] < u64::MAX {
            assert forall|i: int| 0 <= i < rest.len() implies #[trigger] rest[i] < u64::MAX by {
                assert(rest[i] == q[i]);
            }
        }
    }
}

/// Restoring what was saved, in the same federation or in another one, gives
/// every instance back whose registrar has a namesake there, and no other. It
/// has its handle, class and name; the namesakes of its registrar and owners
/// take their places.
pub proof fn a_restore_gives_back_the_instances(
    saved: FederationView,
    later: FederationView,
    o: u64,
)
    requires
        saved.wf(),
        saved.object_instances.dom().finite(),
        saved.object_instances.contains_key(o)
            ==> saved.object_instances[o].attribute_owners.dom().finite(),
    ensures
        ({
            let back = restored(later, snapshot_of(saved)).object_instances;
            let inst = saved.object_instances[o];
            let registrar = handle_named(
                later.federates,
                saved_registrar(saved.federates, inst.registrar),
            );
            &&& back.contains_key(o) <==> saved.object_instances.contains_key(o) && registrar is Some
            &&& back.contains_key(o) ==> {
                &&& back[o].handle == o
                &&& back[o].class == inst.class
                &&& back[o].name == inst.name
                &&& back[o].registrar == registrar->0
                &&& back[o].attribute_regions == Map::<u32, Set<u64>>::empty()
                &&& forall|a: u32| #[trigger]
                    back[o].attribute_owners.contains_key(a) <==> {
                        &&& inst.attribute_owners.contains_key(a)
                        &&& saved.federates.contains_key(inst.attribute_owners[a])
                        &&& handle_named(
                            later.federates,
                            saved.federates[inst.attribute_owners[a]].name,
                        ) is Some
                    }
                &&& forall|a: u32| #[trigger]
                    back[o].attribute_owners.contains_key(a) ==> Some(back[o].attribute_owners[a])
                        == handle_named(
                        later.federates,
                        saved.federates[inst.attribute_owners[a]].name,
                    )
            }
        }),
{
    let q = ascending(saved.object_instances.dom());
    lemma_ascending(saved.object_instances.dom());
    assert forall|i: int| 0 <= i < q.len() implies saved.object_instances[#[trigger] q[i]].handle
        == q[i] by {
        assert(q.contains(q[i]));
        assert(saved.object_instances.contains_key(q[i]));
    }
    lemma_restored_instances(later.federates, saved, q, later.next_object_id);
    assert(q.contains(o) <==> saved.object_instances.dom().contains(o));
    let back = restored(later, snapshot_of(saved)).object_instances;
    if back.contains_key(o) {
        let owners = saved.object_instances[o].attribute_owners;
        let wanted = owned_by_joined(saved.federates, owners);
        assert(wanted.subset_of(owners.dom()));
        vstd::set_lib::lemma_set_subset_finite(owners.dom(), wanted);
        lemma_ascending(wanted);
        lemma_restored_owners(later.federates, saved.federates, owners, ascending(wanted));
        assert forall|a: u32| ascending(wanted).contains(a) <==> wanted.contains(a) by {}
    }
}

/// After a restore, new instances get numbers above those of the instances that
/// were given back.
pub proof fn a_restore_does_not_reuse_numbers(saved: FederationView, later: FederationView, o: u64)
    requires
        saved.wf(),
        saved.object_instances.dom().finite(),
        forall|p: u64| #[trigger] saved.object_instances.contains_key(p) ==> p < u64::MAX,
        restored(later, snapshot_of(saved)).object_instances.contains_key(o),
    ensures
        o < restored(later, snapshot_of(saved)).next_object_id,
        later.next_object_id <= restored(later, snapshot_of(saved)).next_object_id,
{
    let q = ascending(saved.object_instances.dom());
    lemma_ascending(saved.object_instances.dom());
    assert forall|i: int| 0 <= i < q.len() implies saved.object_instances[#[trigger] q[i]].handle
        == q[i] && q[i] < u64::MAX by {
        assert(q.contains(q[i]));
        assert(saved.object_instances.contains_key(q[i]));
    }
    lemma_restored_instances(later.federates, saved, q, later.next_object_id);
}

proof fn lemma_restored_points(
    federates: Map<u32, FederateView>,
    saved: FederationView,
    q: Seq<Seq<char>>,
)
    requires
        q.no_duplicates(),
        forall|i: int| 0 <= i < q.len() ==> saved.sync_points.at(#[trigger] q[i]).label == q[i],
    ensures
        ({
            let back = restored_points(federates, saved_points(saved, q));
            &&& back.order == q
            &&& forall|l: Seq<char>| #[trigger] back.has(l) <==> q.contains(l)
            &&& forall|l: Seq<char>| #[trigger]
                back.has(l) ==> back.at(l) == restored_point(
                    federates,
                    saved_point(saved.federates, saved.sync_points.at(l)),
                )
        }),
    decreases q.len(),
{
    if q.len() > 0 {
        let rest = q.drop_last();
        let l = saved_points(saved, q);
        assert(l.drop_last() =~= saved_points(saved, rest));
        assert forall|i: int| 0 <= i < rest.len() implies saved.sync_points.at(
            #[trigger] rest[i],
        ).label == rest[i] by {
            assert(rest[i] == q[i]);
        }
        lemma_restored_points(federates, saved, rest);
        assert forall|x: Seq<char>| q.contains(x) <==> rest.contains(x) || x == q.last() by {
            if q.contains(x) && x != q.last() {
                let k = q.index_of(x);
                assert(rest[k] == x);
            }
            if rest.contains(x) {
                let k = rest.index_of(x);
                assert(q[k] == x);
            }
        }
        assert(!rest.contains(q.last())) by {
            if rest.contains(q.last()) {
                let k = rest.index_of(q.last());
                assert(q[k] == q[q.len() - 1]);
            }
        }
        assert(q[q.len() - 1] == q.last());
        assert(l.last() == saved_point(saved.federates, saved.sync_points.at(q.last())));
        let back = restored_points(federates, l);
        let back0 = restored_points(federates, saved_points(saved, rest));
        assert(back == back0.put(q.last(), restored_point(federates, l.last())));
        assert(rest.push(q.last()) =~= q);
        assert(!back0.has(q.last()));
        assert(back.order == q);
        assert forall|x: Seq<char>| #[trigger] back.has(x) <==> q.contains(x) by {
            assert(back.has(x) <==> back0.has(x) || x == q.last());
        }
        assert forall|x: Seq<char>| #[trigger] back.has(x) implies back.at(x) == restored_point(
            federates,
            saved_point(saved.federates, saved.sync_points.at(x)),
        ) by {
            if x != q.last() {
                assert(back0.has(x));
            }
        }
    } else {
        assert(q =~= Seq::<Seq<char>>::empty());
    }
}

/// Restoring what was saved gives back the synchronization points with their
/// tags, in the same order. The namesakes of the participants take their places,
/// and nobody has achieved a point yet.
pub proof fn a_restore_gives_back_the_sync_points(
    saved: FederationView,
    later: FederationView,
    label: Seq<char>,
)
    requires
        saved.wf(),
        saved.sync_points.order.no_duplicates(),
        forall|l: Seq<char>| #[trigger]
            saved.sync_points.order.contains(l) <==> saved.sync_points.has(l),
        saved.sync_points.has(label) ==> saved.sync_points.at(label).participants.finite(),
    ensures
        ({
            let back = restored(later, snapshot_of(saved)).sync_points;
            let point = saved.sync_points.at(label);
            &&& back.order == saved.sync_points.order
            &&& back.has(label) <==> saved.sync_points.has(label)
            &&& back.has(label) ==> {
                &&& back.at(label).label == label
                &&& back.at(label).tag == point.tag
                &&& back.at(label).achieved == Set::<u32>::empty()
                &&& back.at(label).failed_to_sync == Set::<u32>::empty()
                &&& forall|f: u32| #[trigger]
                    back.at(label).participants.contains(f) <==> exists|p: u32| #[trigger]
                        point.participants.contains(p) && saved.federates.contains_key(p)
                            && handle_named(later.federates, saved.federates[p].name) == Some(f)
            }
        }),
{
    let q = saved.sync_points.order;
    assert forall|i: int| 0 <= i < q.len() implies saved.sync_points.at(#[trigger] q[i]).label
        == q[i] by {
        assert(q.contains(q[i]));
        assert(saved.sync_points.has(q[i]));
    }
    lemma_restored_points(later.federates, saved, q);
    let back = restored(later, snapshot_of(saved)).sync_points;
    assert(q.contains(label) <==> saved.sync_points.has(label));
    if back.has(label) {
        let point = saved.sync_points.at(label);
        let wanted = joined_among(saved.federates, point.participants);
        assert(wanted.subset_of(point.participants));
        vstd::set_lib::lemma_set_subset_finite(point.participants, wanted);
        lemma_ascending(wanted);
        let members = ascending(wanted);
        let names = names_of(saved.federates, members);
        assert forall|f: u32| #[trigger] back.at(label).participants.contains(f) <==> exists|p: u32|
            #[trigger]
            point.participants.contains(p) && saved.federates.contains_key(p) && handle_named(
                later.federates,
                saved.federates[p].name,
            ) == Some(f) by {
            if back.at(label).participants.contains(f) {
                let i = choose|i: int|
                    0 <= i < names.len() && handle_named(later.federates, #[trigger] names[i])
                        == Some(f);
                assert(members.contains(members[i]));
                assert(wanted.contains(members[i]));
                assert(point.participants.contains(members[i]));
            }
            if exists|p: u32| #[trigger]
                point.participants.contains(p) && saved.federates.contains_key(p) && handle_named(
                    later.federates,
                    saved.federates[p].name,
                ) == Some(f) {
                let p = choose|p: u32| #[trigger]
                    point.participants.contains(p) && saved.federates.contains_key(p)
                        && handle_named(later.federates, saved.federates[p].name) == Some(f);
                assert(wanted.contains(p));
                assert(members.contains(p));
                let i = members.index_of(p);
                assert(names[i] == saved.federates[p].name);
            }
        }
    }
}

/// A federate whose name nobody else has stands for itself in a snapshot.
pub proof fn a_federate_is_its_own_namesake(federates: Map<u32, FederateView>, f: u32)
    requires
        federates.contains_key(f),
        forall|g: u32| #[trigger]
            federates.contains_key(g) && federates[g].name == federates[f].name ==> g == f,
    ensures
        handle_named(federates, federates[f].name) == Some(f),
{
    let s = namesakes(federates, federates[f].name);
    assert(s =~= set![f]);
    lemma_ascending(s);
    assert(ascending(s).contains(ascending(s)[0]));
    assert(ascending(s).len() == 1);
}

} // verus!

//! The state of a federation.

use crate::callbacks::{CallbackRequest, CallbackView};
use crate::fom::{FomView, MergedFom};
use crate::handles::{
    AttributeHandle, DimensionHandle, FederateHandle, InteractionClassHandle, ObjectClassHandle,
    ObjectInstanceHandle, RegionHandle,
};
use crate::logical_time::{before, is_duration, is_finite, is_nan, not_after, rank};
use crate::names::{NameTable, NamedView};
use crate::subscriptions::{SubscriptionMatrix, SubscriptionView};
use crate::tables::{KeySet, Table};
use std::sync::Arc;
use vstd::prelude::*;

verus! {

/// `Arc::clone` of std makes another pointer to the same value.
#[verifier::external_body]
pub(crate) fn share<T>(a: &Arc<T>) -> (r: Arc<T>)
    ensures
        r == *a,
{
    Arc::clone(a)
}

/// What becomes of the objects and attributes of a federate that resigns.
#[derive(Copy, Clone, Debug, PartialEq, Eq, Structural)]
pub enum ResignAction {
    UnconditionallyDivestAttributes,
    DeleteObjects,
    CancelPendingOwnershipAcquisitions,
    DeleteObjectsThenDivest,
    CancelThenDeleteThenDivest,
    NoAction,
}

/// An object instance.
pub struct ObjectInstance {
    pub handle: ObjectInstanceHandle,
    pub class: ObjectClassHandle,
    pub name: String,
    /// The federate that registered the instance and alone may delete it.
    pub registrar: FederateHandle,
    /// The owner of each owned attribute.
    pub attribute_owners: Table<u32, u32>,
    /// The regions of each attribute; none means that the attribute is
    /// unrestricted.
    pub attribute_regions: Table<u32, KeySet<u64>>,
}

/// The mathematical content of [`ObjectInstance`].
#[verifier::ext_equal]
pub struct InstanceView {
    pub handle: ObjectInstanceHandle,
    pub class: ObjectClassHandle,
    pub name: Seq<char>,
    pub registrar: FederateHandle,
    pub attribute_owners: Map<AttributeHandle, FederateHandle>,
    pub attribute_regions: Map<AttributeHandle, Set<RegionHandle>>,
}

impl View for ObjectInstance {
    type V = InstanceView;

    open spec fn view(&self) -> InstanceView {
        InstanceView {
            handle: self.handle,
            class: self.class,
            name: self.name@,
            registrar: self.registrar,
            attribute_owners: self.attribute_owners@,
            attribute_regions: self.attribute_regions@,
        }
    }
}

/// What a federate publishes, subscribes to and knows.
pub struct PubSubState {
    /// The published attributes of each published object class.
    pub published_attrs: Table<u32, KeySet<u32>>,
    /// The subscribed attributes of each subscribed object class.
    pub subscribed_attrs: Table<u32, KeySet<u32>>,
    pub published_interactions: KeySet<u32>,
    pub subscribed_interactions: KeySet<u32>,
    /// The instances that the federate was told about.
    pub discovered_instances: KeySet<u64>,
    /// The regions that a subscription to an attribute of a class is restricted
    /// to; the key joins class and attribute. No entry means unrestricted.
    pub subscribed_attrs_regions: Table<u64, KeySet<u64>>,
    /// The interaction classes wanted when directed at instances of a class.
    pub subscribed_directed_interactions: Table<u32, KeySet<u32>>,
    /// The interaction classes that may be directed at instances of a class.
    pub published_directed_interactions: Table<u32, KeySet<u32>>,
}

/// The mathematical content of [`PubSubState`].
#[verifier::ext_equal]
pub struct PubSubView {
    pub published_attrs: Map<ObjectClassHandle, Set<AttributeHandle>>,
    pub subscribed_attrs: Map<ObjectClassHandle, Set<AttributeHandle>>,
    pub published_interactions: Set<InteractionClassHandle>,
    pub subscribed_interactions: Set<InteractionClassHandle>,
    pub discovered_instances: Set<ObjectInstanceHandle>,
    pub subscribed_attrs_regions: Map<u64, Set<RegionHandle>>,
    pub subscribed_directed_interactions: Map<ObjectClassHandle, Set<InteractionClassHandle>>,
    pub published_directed_interactions: Map<ObjectClassHandle, Set<InteractionClassHandle>>,
}

impl View for PubSubState {
    type V = PubSubView;

    open spec fn view(&self) -> PubSubView {
        PubSubView {
            published_attrs: self.published_attrs@,
            subscribed_attrs: self.subscribed_attrs@,
            published_interactions: self.published_interactions@,
            subscribed_interactions: self.subscribed_interactions@,
            discovered_instances: self.discovered_instances@,
            subscribed_attrs_regions: self.subscribed_attrs_regions@,
            subscribed_directed_interactions: self.subscribed_directed_interactions@,
            published_directed_interactions: self.published_directed_interactions@,
        }
    }
}

impl PubSubView {
    /// The state of a federate that has just joined.
    pub open spec fn empty() -> Self {
        PubSubView {
            published_attrs: Map::empty(),
            subscribed_attrs: Map::empty(),
            published_interactions: Set::empty(),
            subscribed_interactions: Set::empty(),
            discovered_instances: Set::empty(),
            subscribed_attrs_regions: Map::empty(),
            subscribed_directed_interactions: Map::empty(),
            published_directed_interactions: Map::empty(),
        }
    }
}

impl PubSubState {
    /// The state of a federate that has just joined.
    pub fn new() -> (r: Self)
        ensures
            r@ == PubSubView::empty(),
    {
        PubSubState {
            published_attrs: Table::new(),
            subscribed_attrs: Table::new(),
            published_interactions: KeySet::new(),
            subscribed_interactions: KeySet::new(),
            discovered_instances: KeySet::new(),
            subscribed_attrs_regions: Table::new(),
            subscribed_directed_interactions: Table::new(),
            published_directed_interactions: Table::new(),
        }
    }
}

/// The advisory and reporting switches of a federate.
#[derive(Copy, Clone, Debug, PartialEq, Eq, Structural)]
pub struct Switches {
    pub object_class_relevance_advisory: bool,
    pub attribute_relevance_advisory: bool,
    pub attribute_scope_advisory: bool,
    pub interaction_relevance_advisory: bool,
    pub convey_region_designator_sets: bool,
    pub service_reporting: bool,
    pub exception_reporting: bool,
    pub send_service_reports_to_file: bool,
    pub auto_provide: bool,
    pub delay_subscription_evaluation: bool,
    pub advisories_use_known_class: bool,
    pub allow_relaxed_ddm: bool,
    pub non_regulated_grant: bool,
    pub automatic_resign_directive: ResignAction,
}

/// The switches of a federate that has set none.
pub open spec fn default_switches() -> Switches {
    Switches {
        object_class_relevance_advisory: true,
        attribute_relevance_advisory: true,
        attribute_scope_advisory: true,
        interaction_relevance_advisory: true,
        convey_region_designator_sets: false,
        service_reporting: false,
        exception_reporting: false,
        send_service_reports_to_file: false,
        auto_provide: false,
        delay_subscription_evaluation: false,
        advisories_use_known_class: false,
        allow_relaxed_ddm: true,
        non_regulated_grant: false,
        automatic_resign_directive: ResignAction::NoAction,
    }
}

impl Default for Switches {
    fn default() -> (r: Self)
        ensures
            r == default_switches(),
    {
        Switches {
            object_class_relevance_advisory: true,
            attribute_relevance_advisory: true,
            attribute_scope_advisory: true,
            interaction_relevance_advisory: true,
            convey_region_designator_sets: false,
            service_reporting: false,
            exception_reporting: false,
            send_service_reports_to_file: false,
            auto_provide: false,
            delay_subscription_evaluation: false,
            advisories_use_known_class: false,
            allow_relaxed_ddm: true,
            non_regulated_grant: false,
            automatic_resign_directive: ResignAction::NoAction,
        }
    }
}

/// A message that waits until its receiver has advanced to its time.
pub struct TsoMessage {
    pub time: u64,
    pub callback: Arc<CallbackRequest>,
}

/// The mathematical content of [`TsoMessage`].
#[verifier::ext_equal]
pub struct TsoView {
    pub time: u64,
    pub callback: CallbackView,
}

impl View for TsoMessage {
    type V = TsoView;

    open spec fn view(&self) -> TsoView {
        TsoView { time: self.time, callback: self.callback@ }
    }
}

/// The time management state of a federate. It joins at time zero, neither
/// regulating nor constrained.
#[derive(Copy, Clone, Debug, PartialEq, Eq, Structural)]
pub struct TimeState {
    pub is_regulating: bool,
    pub is_constrained: bool,
    /// The time that the federate was last granted.
    pub current_time: u64,
    /// While it regulates, the federate sends no message with a time stamp below
    /// its current time plus this interval.
    pub lookahead: u64,
    /// The time that the federate has asked for and not been granted yet.
    pub pending_advance: Option<u64>,
}

/// The time management state of a federate that has just joined.
pub open spec fn initial_time() -> TimeState {
    TimeState {
        is_regulating: false,
        is_constrained: false,
        current_time: 0,
        lookahead: 0,
        pending_advance: None,
    }
}

impl TimeState {
    /// Times are finite and not below zero, and a federate asks to advance
    /// forward.
    pub open spec fn wf(self) -> bool {
        &&& is_duration(self.current_time)
        &&& is_duration(self.lookahead)
        &&& match self.pending_advance {
            Some(t) => is_finite(t) && not_after(self.current_time, t),
            None => true,
        }
    }
}

impl Default for TimeState {
    fn default() -> (r: Self)
        ensures
            r == initial_time(),
    {
        TimeState {
            is_regulating: false,
            is_constrained: false,
            current_time: 0,
            lookahead: 0,
            pending_advance: None,
        }
    }
}

/// A joined federate.
pub struct FederateSession {
    pub handle: FederateHandle,
    pub name: String,
    pub federate_type: String,
    /// The session of the federate.
    pub session_id: u64,
    pub pub_sub: PubSubState,
    pub time: TimeState,
    pub switches: Switches,
    /// Messages that the federate may not see yet, in time order.
    pub tso_queue: Vec<TsoMessage>,
}

/// The mathematical content of [`FederateSession`].
#[verifier::ext_equal]
pub struct FederateView {
    pub handle: FederateHandle,
    pub name: Seq<char>,
    pub federate_type: Seq<char>,
    pub session_id: u64,
    pub pub_sub: PubSubView,
    pub time: TimeState,
    pub switches: Switches,
    pub tso_queue: Seq<TsoView>,
}

/// The contents of queued messages.
pub open spec fn queue_view(q: Seq<TsoMessage>) -> Seq<TsoView> {
    q.map_values(|m: TsoMessage| m@)
}

impl View for FederateSession {
    type V = FederateView;

    open spec fn view(&self) -> FederateView {
        FederateView {
            handle: self.handle,
            name: self.name@,
            federate_type: self.federate_type@,
            session_id: self.session_id,
            pub_sub: self.pub_sub@,
            time: self.time,
            switches: self.switches,
            tso_queue: queue_view(self.tso_queue@),
        }
    }
}

/// Whether queued messages are in time order.
pub open spec fn in_time_order(q: Seq<TsoView>) -> bool {
    &&& forall|i: int| 0 <= i < q.len() ==> !is_nan((#[trigger] q[i]).time)
    &&& forall|i: int, j: int|
        0 <= i <= j < q.len() ==> rank((#[trigger] q[i]).time) <= rank((#[trigger] q[j]).time)
}

impl FederateView {
    /// The times are valid, the queue is in time order, and every message in it
    /// lies in the federate's future.
    pub open spec fn wf(self) -> bool {
        &&& self.time.wf()
        &&& in_time_order(self.tso_queue)
        &&& forall|i: int|
            0 <= i < self.tso_queue.len() ==> before(
                self.time.current_time,
                (#[trigger] self.tso_queue[i]).time,
            )
    }

    /// Whether every instance that the federate was told about has a handle below a
    /// number.
    pub open spec fn knows_below(self, n: u64) -> bool {
        forall|o: u64| #[trigger] self.pub_sub.discovered_instances.contains(o) ==> o < n
    }
}

/// The time coordinator of a federation.
pub struct TimeCoordinator {}

/// How far a federate has come in a save.
#[derive(Copy, Clone, Debug, PartialEq, Eq, Structural)]
#[non_exhaustive]
pub enum SaveStatus {
    Initiated,
    BegunSave,
    SaveComplete,
    SaveNotComplete,
}

impl View for SaveStatus {
    type V = SaveStatus;

    open spec fn view(&self) -> SaveStatus {
        *self
    }
}

/// How far a federate has come in a restore.
#[derive(Copy, Clone, Debug, PartialEq, Eq, Structural)]
#[non_exhaustive]
pub enum RestoreStatus {
    Initiated,
    Complete,
    NotComplete,
}

impl View for RestoreStatus {
    type V = RestoreStatus;

    open spec fn view(&self) -> RestoreStatus {
        *self
    }
}

/// A restore in progress.
pub struct RestoreOperation {
    pub label: String,
    pub statuses: Table<u32, RestoreStatus>,
}

/// The mathematical content of [`RestoreOperation`].
#[verifier::ext_equal]
pub struct RestoreView {
    pub label: Seq<char>,
    pub statuses: Map<FederateHandle, RestoreStatus>,
}

impl View for RestoreOperation {
    type V = RestoreView;

    open spec fn view(&self) -> RestoreView {
        RestoreView { label: self.label@, statuses: self.statuses@ }
    }
}

/// A save in progress.
pub struct SaveOperation {
    pub label: String,
    pub statuses: Table<u32, SaveStatus>,
}

/// The mathematical content of [`SaveOperation`].
#[verifier::ext_equal]
pub struct SaveView {
    pub label: Seq<char>,
    pub statuses: Map<FederateHandle, SaveStatus>,
}

impl View for SaveOperation {
    type V = SaveView;

    open spec fn view(&self) -> SaveView {
        SaveView { label: self.label@, statuses: self.statuses@ }
    }
}

/// A region of the routing space. The committed bounds are those in force; the
/// staged ones take their place when they are committed.
pub struct Region {
    pub handle: RegionHandle,
    pub owner: FederateHandle,
    pub committed: Table<u32, (u32, u32)>,
    pub staged: Table<u32, (u32, u32)>,
}

/// The mathematical content of [`Region`].
#[verifier::ext_equal]
pub struct RegionView {
    pub handle: RegionHandle,
    pub owner: FederateHandle,
    pub committed: Map<DimensionHandle, (u32, u32)>,
    pub staged: Map<DimensionHandle, (u32, u32)>,
}

impl View for Region {
    type V = RegionView;

    open spec fn view(&self) -> RegionView {
        RegionView {
            handle: self.handle,
            owner: self.owner,
            committed: self.committed@,
            staged: self.staged@,
        }
    }
}

/// A synchronization point that is not achieved yet by all participants.
pub struct SyncPoint {
    pub label: String,
    pub tag: Vec<u8>,
    pub participants: KeySet<u32>,
    pub achieved: KeySet<u32>,
    pub failed_to_sync: KeySet<u32>,
}

/// The mathematical content of [`SyncPoint`].
#[verifier::ext_equal]
pub struct SyncPointView {
    pub label: Seq<char>,
    pub tag: Seq<u8>,
    pub participants: Set<FederateHandle>,
    pub achieved: Set<FederateHandle>,
    pub failed_to_sync: Set<FederateHandle>,
}

impl View for SyncPoint {
    type V = SyncPointView;

    open spec fn view(&self) -> SyncPointView {
        SyncPointView {
            label: self.label@,
            tag: self.tag@,
            participants: self.participants@,
            achieved: self.achieved@,
            failed_to_sync: self.failed_to_sync@,
        }
    }
}

impl SyncPointView {
    /// Only participants achieve the point, and those who failed are among those
    /// who have reported.
    pub open spec fn wf(self) -> bool {
        &&& self.achieved.subset_of(self.participants)
        &&& self.failed_to_sync.subset_of(self.achieved)
    }
}

/// A federation execution.
pub struct Federation {
    pub name: String,
    /// Tells apart federations that had the same name at different times.
    pub serial: u64,
    pub fom: Arc<MergedFom>,
    pub federates: Table<u32, FederateSession>,
    pub object_instances: Table<u64, ObjectInstance>,
    pub subscriptions: SubscriptionMatrix,
    pub time_coordinator: TimeCoordinator,
    pub sync_points: NameTable<SyncPoint>,
    pub regions: Table<u64, Region>,
    pub next_region_id: u64,
    /// The save in progress; there is at most one.
    pub current_save: Option<SaveOperation>,
    /// The restore in progress; there is at most one.
    pub current_restore: Option<RestoreOperation>,
    /// The label of the save that was requested last.
    pub last_save_label: Option<String>,
    pub next_object_id: u64,
    pub next_federate_id: u32,
    /// Whether the numbers of federates or instances have run out and begun again.
    pub renumbered: Ghost<bool>,
}

/// The mathematical content of [`Federation`].
#[verifier::ext_equal]
pub struct FederationView {
    pub name: Seq<char>,
    pub serial: u64,
    pub fom: FomView,
    pub federates: Map<FederateHandle, FederateView>,
    pub object_instances: Map<ObjectInstanceHandle, InstanceView>,
    pub subscriptions: SubscriptionView,
    pub sync_points: NamedView<SyncPointView>,
    pub regions: Map<RegionHandle, RegionView>,
    pub next_region_id: u64,
    pub current_save: Option<SaveView>,
    pub current_restore: Option<RestoreView>,
    pub last_save_label: Option<Seq<char>>,
    pub next_object_id: u64,
    pub next_federate_id: u32,
    pub renumbered: bool,
}

impl View for Federation {
    type V = FederationView;

    open spec fn view(&self) -> FederationView {
        FederationView {
            name: self.name@,
            serial: self.serial,
            fom: self.fom@,
            federates: self.federates@,
            object_instances: self.object_instances@,
            subscriptions: self.subscriptions@,
            sync_points: self.sync_points@,
            regions: self.regions@,
            next_region_id: self.next_region_id,
            current_save: match self.current_save {
                Some(s) => Some(s@),
                None => None,
            },
            current_restore: match self.current_restore {
                Some(s) => Some(s@),
                None => None,
            },
            last_save_label: match self.last_save_label {
                Some(s) => Some(s@),
                None => None,
            },
            next_object_id: self.next_object_id,
            next_federate_id: self.next_federate_id,
            renumbered: self.renumbered@,
        }
    }
}

impl FederationView {
    /// Every entry stands under its own handle or label, and every federate and
    /// synchronization point is well formed.
    pub open spec fn wf(self) -> bool {
        &&& forall|f: u32| #[trigger]
            self.federates.contains_key(f) ==> self.federates[f].handle == f
                && self.federates[f].wf()
        &&& forall|o: u64| #[trigger]
            self.object_instances.contains_key(o) ==> self.object_instances[o].handle == o
        &&& forall|r: u64| #[trigger]
            self.regions.contains_key(r) ==> self.regions[r].handle == r
        &&& forall|l: Seq<char>| #[trigger]
            self.sync_points.has(l) ==> self.sync_points.at(l).label == l
                && self.sync_points.at(l).wf()
    }

    /// Whether the numbers that are issued next are fresh: every federate has a
    /// smaller handle, and so has every instance that is there or that a federate
    /// was told about. It is so until the numbers run out and begin again.
    pub open spec fn fresh(self) -> bool {
        &&& forall|o: u64| #[trigger]
            self.object_instances.contains_key(o) ==> o < self.next_object_id
        &&& forall|f: u32| #[trigger]
            self.federates.contains_key(f) ==> f < self.next_federate_id
                && self.federates[f].knows_below(self.next_object_id)
    }

    /// A federation that nobody has joined yet.
    pub open spec fn new(name: Seq<char>, serial: u64, fom: FomView) -> Self {
        FederationView {
            name,
            serial,
            fom,
            federates: Map::empty(),
            object_instances: Map::empty(),
            subscriptions: SubscriptionView::empty(),
            sync_points: NamedView::empty(),
            regions: Map::empty(),
            next_region_id: 1,
            current_save: None,
            current_restore: None,
            last_save_label: None,
            next_object_id: 1,
            next_federate_id: 1,
            renumbered: false,
        }
    }

    /// The federation with another state for one federate.
    pub open spec fn with_federate(self, f: FederateHandle, fs: FederateView) -> Self {
        FederationView { federates: self.federates.insert(f, fs), ..self }
    }
}

impl Federation {
    /// The tables are well formed, and so is what they hold.
    pub open spec fn wf(&self) -> bool {
        &&& self.subscriptions.wf()
        &&& self.sync_points.wf()
        &&& self@.wf()
    }

    /// A federation that nobody has joined yet.
    pub fn new(name: String, serial: u64, fom: Arc<MergedFom>) -> (r: Self)
        ensures
            r.wf(),
            r@ == FederationView::new(name@, serial, fom@),
    {
        Federation {
            name,
            serial,
            fom,
            federates: Table::new(),
            object_instances: Table::new(),
            subscriptions: SubscriptionMatrix::new(),
            time_coordinator: TimeCoordinator {  },
            sync_points: NameTable::new(),
            regions: Table::new(),
            next_region_id: 1,
            current_save: None,
            current_restore: None,
            last_save_label: None,
            next_object_id: 1,
            next_federate_id: 1,
            renumbered: Ghost(false),
        }
    }
}

/// Taking an entry out and putting another one in its place replaces it.
pub broadcast proof fn lemma_put_back<K, V>(m: Map<K, V>, k: K, v: V)
    ensures
        #[trigger] m.remove(k).insert(k, v) == m.insert(k, v),
{
    assert(m.remove(k).insert(k, v) =~= m.insert(k, v));
}

} // verus!

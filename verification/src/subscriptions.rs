//! Who subscribes to what.

use crate::handles::{
    AttributeHandle, FederateHandle, InteractionClassHandle, ObjectClassHandle,
};
use crate::tables::{ascending, lemma_ascending, KeySet, Table};
use vstd::prelude::*;

verus! {

/// The subscriptions of a federation: which federate subscribes to which
/// attribute of which object class, and which to which interaction class.
#[verifier::ext_equal]
pub struct SubscriptionView {
    pub attributes: Set<(ObjectClassHandle, AttributeHandle, FederateHandle)>,
    pub interactions: Set<(InteractionClassHandle, FederateHandle)>,
}

impl SubscriptionView {
    /// No subscriptions.
    pub open spec fn empty() -> Self {
        SubscriptionView { attributes: Set::empty(), interactions: Set::empty() }
    }

    /// The attributes of a class that a federate subscribes to.
    pub open spec fn attributes_of(self, class: u32, federate: u32) -> Set<u32> {
        Set::new(|a: u32| self.attributes.contains((class, a, federate)))
    }

    /// The federates that subscribe to an attribute of a class.
    pub open spec fn subscribers_of(self, class: u32, attr: u32) -> Set<u32> {
        Set::new(|f: u32| self.attributes.contains((class, attr, f)))
    }

    /// Whether a federate subscribes to some attribute of a class.
    pub open spec fn subscribes_to_class(self, class: u32, federate: u32) -> bool {
        exists|a: u32| self.attributes.contains((class, a, federate))
    }

    /// The federates that subscribe to some attribute of a class.
    pub open spec fn class_subscribers(self, class: u32) -> Set<u32> {
        Set::new(|f: u32| self.subscribes_to_class(class, f))
    }

    /// Whether some federate subscribes to some attribute of a class.
    pub open spec fn class_in_use(self, class: u32) -> bool {
        exists|a: u32, f: u32| self.attributes.contains((class, a, f))
    }

    /// The federates that subscribe to an interaction class.
    pub open spec fn interaction_subscribers(self, class: u32) -> Set<u32> {
        Set::new(|f: u32| self.interactions.contains((class, f)))
    }

    /// Whether some federate subscribes to an interaction class.
    pub open spec fn interaction_in_use(self, class: u32) -> bool {
        exists|f: u32| self.interactions.contains((class, f))
    }
}

/// A class and an attribute as one key.
pub open spec fn pair_key(class: u32, attr: u32) -> u64 {
    (class * 0x1_0000_0000 + attr) as u64
}

/// The class and the attribute can be read off their key.
pub broadcast proof fn lemma_pair_key(class: u32, attr: u32)
    ensures
        (#[trigger] pair_key(class, attr)) / 0x1_0000_0000 == class,
        pair_key(class, attr) % 0x1_0000_0000 == attr,
{
}

/// A class and an attribute as one key.
pub fn pair(class: u32, attr: u32) -> (r: u64)
    ensures
        r == pair_key(class, attr),
{
    class as u64 * 0x1_0000_0000 + attr as u64
}

/// The subscription matrix of a federation.
///
/// Beside the subscriptions themselves it counts, for each object class and
/// federate, the attributes of the class that the federate subscribes to, so
/// that the subscribers of a class are found without walking all attributes.
pub struct SubscriptionMatrix {
    by_attribute: Table<u64, KeySet<u32>>,
    by_interaction: Table<u32, KeySet<u32>>,
    class_subscribers: Table<u32, Table<u32, u64>>,
}

impl View for SubscriptionMatrix {
    type V = SubscriptionView;

    closed spec fn view(&self) -> SubscriptionView {
        SubscriptionView {
            attributes: Set::new(
                |t: (u32, u32, u32)|
                    self.by_attribute@.contains_key(pair_key(t.0, t.1)) && self.by_attribute@[pair_key(
                        t.0,
                        t.1,
                    )].contains(t.2),
            ),
            interactions: Set::new(
                |t: (u32, u32)|
                    self.by_interaction@.contains_key(t.0) && self.by_interaction@[t.0].contains(
                        t.1,
                    ),
            ),
        }
    }
}

/// Every set of handles is finite.
pub proof fn lemma_handles_finite(s: Set<u32>)
    ensures
        s.finite(),
        s.len() <= 0x1_0000_0000,
{
    broadcast use vstd::set::axiom_set_insert_finite;

    let full = Set::<u32>::full();
    assert(full =~= Set::range_inclusive(u32::MIN, u32::MAX));
    <u32 as vstd::set_lib::FiniteRange>::range_properties(u32::MIN, u32::MAX);
    vstd::set_lib::lemma_set_subset_finite(full, s);
    vstd::set_lib::lemma_len_subset(s, full);
}

impl SubscriptionMatrix {
    /// The stored sets are not empty, and the counts are right.
    pub closed spec fn wf(&self) -> bool {
        &&& forall|k: u64| #[trigger]
            self.by_attribute@.contains_key(k) ==> self.by_attribute@[k] != Set::<u32>::empty()
        &&& forall|c: u32| #[trigger]
            self.by_interaction@.contains_key(c) ==> self.by_interaction@[c] != Set::<u32>::empty()
        &&& forall|c: u32| #[trigger]
            self.class_subscribers@.contains_key(c) ==> self.class_subscribers@[c].dom()
                != Set::<u32>::empty()
        &&& forall|c: u32, f: u32| #[trigger]
            self.counted(c, f) <==> self@.attributes_of(c, f).len() > 0
        &&& forall|c: u32, f: u32| #[trigger]
            self.counted(c, f) ==> self.class_subscribers@[c][f] == self@.attributes_of(c, f).len()
    }

    spec fn counted(&self, c: u32, f: u32) -> bool {
        self.class_subscribers@.contains_key(c) && self.class_subscribers@[c].contains_key(f)
    }

    /// The matrix without subscriptions.
    pub fn new() -> (r: Self)
        ensures
            r.wf(),
            r@ == SubscriptionView::empty(),
    {
        let r = SubscriptionMatrix {
            by_attribute: Table::new(),
            by_interaction: Table::new(),
            class_subscribers: Table::new(),
        };
        proof {
            assert(r@ =~= SubscriptionView::empty());
            assert forall|c: u32, f: u32| r@.attributes_of(c, f).len() == 0 by {
                assert(r@.attributes_of(c, f) =~= Set::empty());
            }
        }
        r
    }

    /// Subscribes a federate to an attribute of a class. True if this is its
    /// first subscription to the class.
    pub fn subscribe_attribute(
        &mut self,
        class: ObjectClassHandle,
        attr: AttributeHandle,
        federate: FederateHandle,
    ) -> (r: bool)
        requires
            old(self).wf(),
        ensures
            final(self).wf(),
            final(self)@ == (SubscriptionView {
                attributes: old(self)@.attributes.insert((class, attr, federate)),
                ..old(self)@
            }),
            r == !old(self)@.subscribes_to_class(class, federate),
    {
        broadcast use lemma_pair_key;

        let key = pair(class, attr);
        let mut set = match self.by_attribute.remove(key) {
            Some(s) => s,
            None => KeySet::new(),
        };
        let added = set.insert(federate);
        self.by_attribute.insert(key, set);
        let ghost before = old(self)@;
        proof {
            assert(self.by_attribute@[key].contains(federate));
            assert(self@.attributes =~= before.attributes.insert((class, attr, federate)));
            assert(self@.interactions =~= before.interactions);
        }
        if !added {
            proof {
                assert(before.attributes.contains((class, attr, federate)));
                assert(self@ =~= before);
                assert(forall|c: u32, f: u32| self.counted(c, f) == old(self).counted(c, f));
            }
            return false;
        }
        let mut counts = match self.class_subscribers.remove(class) {
            Some(t) => t,
            None => Table::new(),
        };
        let count: u64 = match counts.get(federate) {
            Some(n) => *n,
            None => 0,
        };
        proof {
            let a0 = before.attributes_of(class, federate);
            lemma_handles_finite(a0);
            assert(old(self).counted(class, federate) ==> count == a0.len());
            assert(!old(self).counted(class, federate) ==> count == 0 && a0.len() == 0);
            if before.subscribes_to_class(class, federate) {
                let a = choose|a: u32| before.attributes.contains((class, a, federate));
                assert(a0.contains(a));
                assert(a0.len() > 0) by {
                    if a0.len() == 0 {
                        assert(a0 =~= Set::empty());
                    }
                }
            } else {
                assert(a0 =~= Set::empty());
            }
        }
        counts.insert(federate, count + 1);
        self.class_subscribers.insert(class, counts);
        proof {
            assert(self@.attributes =~= before.attributes.insert((class, attr, federate)));
            assert(self@.interactions =~= before.interactions);
            assert(self.class_subscribers@[class].contains_key(federate));
            assert forall|c: u32, f: u32|
                (#[trigger] self.counted(c, f) <==> self@.attributes_of(c, f).len() > 0) && (
                self.counted(c, f) ==> self.class_subscribers@[c][f] == self@.attributes_of(
                    c,
                    f,
                ).len()) by {
                let a0 = before.attributes_of(c, f);
                let a1 = self@.attributes_of(c, f);
                lemma_handles_finite(a0);
                if c == class && f == federate {
                    assert(a1 =~= a0.insert(attr));
                    assert(!a0.contains(attr));
                } else {
                    assert(a1 =~= a0);
                    assert(self.counted(c, f) == old(self).counted(c, f));
                }
            }
        }
        count == 0
    }

    /// Ends the subscription of a federate to an attribute of a class. True if
    /// this was its last subscription to the class.
    pub fn unsubscribe_attribute(
        &mut self,
        class: ObjectClassHandle,
        attr: AttributeHandle,
        federate: FederateHandle,
    ) -> (r: bool)
        requires
            old(self).wf(),
        ensures
            final(self).wf(),
            final(self)@ == (SubscriptionView {
                attributes: old(self)@.attributes.remove((class, attr, federate)),
                ..old(self)@
            }),
            r == (old(self)@.subscribes_to_class(class, federate)
                && !final(self)@.subscribes_to_class(class, federate)),
    {
        broadcast use lemma_pair_key;

        let key = pair(class, attr);
        let ghost before = old(self)@;
        let removed: bool = match self.by_attribute.remove(key) {
            Some(mut set) => {
                let ghost all = set@;
                let removed = set.remove(federate);
                assert(forall|f: u32| #[trigger]
                    all.contains(f) ==> f == federate || set@.contains(f));
                if !set.is_empty() {
                    self.by_attribute.insert(key, set);
                }
                removed
            },
            None => false,
        };
        proof {
            assert(self@.attributes =~= before.attributes.remove((class, attr, federate)));
            assert(self@.interactions =~= before.interactions);
        }
        if !removed {
            proof {
                assert(!before.attributes.contains((class, attr, federate)));
                assert(self@ =~= before);
                assert(forall|c: u32, f: u32| self.counted(c, f) == old(self).counted(c, f));
            }
            return false;
        }
        proof {
            let a0 = before.attributes_of(class, federate);
            lemma_handles_finite(a0);
            assert(a0.contains(attr));
            assert(a0.len() > 0) by {
                if a0.len() == 0 {
                    assert(a0 =~= Set::empty());
                }
            }
            assert(old(self).counted(class, federate));
        }
        let mut last: bool = false;
        if let Some(mut counts) = self.class_subscribers.remove(class) {
            let ghost all = counts@;
            if let Some(count) = counts.remove(federate) {
                if count > 1 {
                    counts.insert(federate, count - 1);
                } else {
                    last = true;
                }
            }
            assert(forall|f: u32| #[trigger]
                all.contains_key(f) ==> f == federate || counts@.dom().contains(f));
            if !counts.is_empty() {
                self.class_subscribers.insert(class, counts);
            }
        }
        proof {
            assert(self@.attributes =~= before.attributes.remove((class, attr, federate)));
            assert(self@.interactions =~= before.interactions);
            let a0 = before.attributes_of(class, federate);
            let a1 = self@.attributes_of(class, federate);
            assert(a1 =~= a0.remove(attr));
            assert(a1.len() == a0.len() - 1);
            assert(before.subscribes_to_class(class, federate));
            assert(last == (a1.len() == 0));
            if self@.subscribes_to_class(class, federate) {
                let a = choose|a: u32| self@.attributes.contains((class, a, federate));
                assert(a1.contains(a));
                lemma_handles_finite(a1);
                if a1.len() == 0 {
                    assert(a1 =~= Set::empty());
                }
            } else {
                assert(a1 =~= Set::empty());
            }
            assert forall|c: u32, f: u32|
                (#[trigger] self.counted(c, f) <==> self@.attributes_of(c, f).len() > 0) && (
                self.counted(c, f) ==> self.class_subscribers@[c][f] == self@.attributes_of(
                    c,
                    f,
                ).len()) by {
                if c == class && f == federate {
                } else {
                    assert(self@.attributes_of(c, f) =~= before.attributes_of(c, f));
                    assert(self.counted(c, f) == old(self).counted(c, f));
                }
            }
        }
        last
    }

    /// Ends every subscription to a class.
    pub fn remove_class(&mut self, class: ObjectClassHandle)
        requires
            old(self).wf(),
        ensures
            final(self).wf(),
            final(self)@ == (SubscriptionView {
                attributes: old(self)@.attributes.filter(|t: (u32, u32, u32)| t.0 != class),
                ..old(self)@
            }),
    {
        broadcast use lemma_pair_key;

        let keys = self.by_attribute.keys();
        let mut i: usize = 0;
        while i < keys.len()
            invariant
                i <= keys@.len(),
                keys@ == ascending(old(self).by_attribute@.dom()),
                self.by_interaction == old(self).by_interaction,
                self.class_subscribers == old(self).class_subscribers,
                forall|k: u64| #[trigger]
                    self.by_attribute@.contains_key(k) <==> old(self).by_attribute@.contains_key(k)
                        && !(k / 0x1_0000_0000 == class && keys@.take(i as int).contains(k)),
                forall|k: u64| #[trigger]
                    self.by_attribute@.contains_key(k) ==> self.by_attribute@[k] == old(
                        self,
                    ).by_attribute@[k],
            decreases keys@.len() - i,
        {
            proof {
                assert(keys@.take(i + 1) =~= keys@.take(i as int).push(keys@[i as int]));
                assert forall|k: u64|
                    #![auto]
                    keys@.take(i + 1).contains(k) <==> keys@.take(i as int).contains(k) || k
                        == keys@[i as int] by {
                    broadcast use vstd::seq_lib::group_seq_properties;
                }
            }
            let k = keys[i];
            if k / 0x1_0000_0000 == class as u64 {
                self.by_attribute.remove(k);
            }
            i = i + 1;
        }
        self.class_subscribers.remove(class);
        proof {
            let before = old(self)@;
            old(self).by_attribute.lemma_finite();
            lemma_ascending(old(self).by_attribute@.dom());
            assert(keys@.take(i as int) =~= keys@);
            assert forall|t: (u32, u32, u32)|
                self@.attributes.contains(t) <==> before.attributes.contains(t) && t.0 != class by {
                let k = pair_key(t.0, t.1);
                assert(keys@.contains(k) <==> old(self).by_attribute@.contains_key(k));
                assert(self.by_attribute@.contains_key(k) <==> old(
                    self,
                ).by_attribute@.contains_key(k) && t.0 != class);
            }
            assert(self@.attributes =~= before.attributes.filter(|t: (u32, u32, u32)| t.0 != class));
            assert(self@.interactions =~= before.interactions);
            assert forall|c: u32, f: u32|
                (#[trigger] self.counted(c, f) <==> self@.attributes_of(c, f).len() > 0) && (
                self.counted(c, f) ==> self.class_subscribers@[c][f] == self@.attributes_of(
                    c,
                    f,
                ).len()) by {
                if c == class {
                    assert(self@.attributes_of(c, f) =~= Set::empty());
                } else {
                    assert(self@.attributes_of(c, f) =~= before.attributes_of(c, f));
                    assert(self.counted(c, f) == old(self).counted(c, f));
                }
            }
        }
    }

    /// Whether some federate subscribes to some attribute of a class.
    pub fn class_has_subscribers(&self, class: ObjectClassHandle) -> (r: bool)
        requires
            self.wf(),
        ensures
            r == self@.class_in_use(class),
    {
        let r = self.class_subscribers.contains_key(class);
        proof {
            if r {
                let s = self.class_subscribers@[class].dom();
                let f = choose|f: u32| s.contains(f);
                if !s.contains(f) {
                    assert(s =~= Set::empty());
                }
                assert(self.counted(class, f));
                let s = self@.attributes_of(class, f);
                assert(s.len() > 0);
                let a = s.choose();
                lemma_handles_finite(s);
                assert(s.contains(a));
                assert(self@.attributes.contains((class, a, f)));
            }
            if self@.class_in_use(class) {
                let (a, f) = choose|a: u32, f: u32| self@.attributes.contains((class, a, f));
                let s = self@.attributes_of(class, f);
                lemma_handles_finite(s);
                assert(s.contains(a));
                if s.len() == 0 {
                    assert(s =~= Set::empty());
                }
                assert(self.counted(class, f));
            }
        }
        r
    }

    /// The federates that subscribe to some attribute of a class.
    pub fn subscribers_of_class(&self, class: ObjectClassHandle) -> (r: KeySet<FederateHandle>)
        requires
            self.wf(),
        ensures
            r@ == self@.class_subscribers(class),
    {
        let r = match self.class_subscribers.get(class) {
            Some(counts) => counts.key_set(),
            None => KeySet::new(),
        };
        proof {
            assert forall|f: u32| #[trigger] r@.contains(f) <==> self@.subscribes_to_class(class, f) by {
                let s = self@.attributes_of(class, f);
                lemma_handles_finite(s);
                assert(r@.contains(f) <==> self.counted(class, f));
                if self.counted(class, f) {
                    let a = s.choose();
                    assert(s.contains(a));
                    assert(self@.attributes.contains((class, a, f)));
                }
                if self@.subscribes_to_class(class, f) {
                    let a = choose|a: u32| self@.attributes.contains((class, a, f));
                    assert(s.contains(a));
                    if s.len() == 0 {
                        assert(s =~= Set::empty());
                    }
                }
            }
            assert(r@ =~= self@.class_subscribers(class));
        }
        r
    }

    /// The federates that subscribe to an attribute of a class.
    pub fn subscribers_of_attribute(
        &self,
        class: ObjectClassHandle,
        attr: AttributeHandle,
    ) -> (r: KeySet<FederateHandle>)
        ensures
            r@ == self@.subscribers_of(class, attr),
    {
        broadcast use lemma_pair_key;

        let r = match self.by_attribute.get(pair(class, attr)) {
            Some(s) => s.copy(),
            None => KeySet::new(),
        };
        assert(r@ =~= self@.subscribers_of(class, attr));
        r
    }

    /// The federates that subscribe to an interaction class.
    pub fn subscribers_of_interaction(&self, class: InteractionClassHandle) -> (r: KeySet<
        FederateHandle,
    >)
        ensures
            r@ == self@.interaction_subscribers(class),
    {
        let r = match self.by_interaction.get(class) {
            Some(s) => s.copy(),
            None => KeySet::new(),
        };
        assert(r@ =~= self@.interaction_subscribers(class));
        r
    }

    /// Whether some federate subscribes to an interaction class.
    pub fn interaction_has_subscribers(&self, class: InteractionClassHandle) -> (r: bool)
        requires
            self.wf(),
        ensures
            r == self@.interaction_in_use(class),
    {
        let r = self.by_interaction.contains_key(class);
        proof {
            if r {
                let s = self.by_interaction@[class];
                let f = choose|f: u32| s.contains(f);
                if !s.contains(f) {
                    assert(s =~= Set::empty());
                }
                assert(self@.interactions.contains((class, f)));
            }
        }
        r
    }

    /// Subscribes a federate to an interaction class.
    pub fn subscribe_interaction(&mut self, class: InteractionClassHandle, federate: FederateHandle)
        requires
            old(self).wf(),
        ensures
            final(self).wf(),
            final(self)@ == (SubscriptionView {
                interactions: old(self)@.interactions.insert((class, federate)),
                ..old(self)@
            }),
    {
        let mut set = match self.by_interaction.remove(class) {
            Some(s) => s,
            None => KeySet::new(),
        };
        set.insert(federate);
        self.by_interaction.insert(class, set);
        proof {
            assert(self.by_interaction@[class].contains(federate));
            assert(self@.interactions =~= old(self)@.interactions.insert((class, federate)));
            assert(self@.attributes =~= old(self)@.attributes);
            assert(forall|c: u32, f: u32| self.counted(c, f) == old(self).counted(c, f));
        }
    }

    /// Ends the subscription of a federate to an interaction class.
    pub fn unsubscribe_interaction(
        &mut self,
        class: InteractionClassHandle,
        federate: FederateHandle,
    )
        requires
            old(self).wf(),
        ensures
            final(self).wf(),
            final(self)@ == (SubscriptionView {
                interactions: old(self)@.interactions.remove((class, federate)),
                ..old(self)@
            }),
    {
        if let Some(mut set) = self.by_interaction.remove(class) {
            let ghost all = set@;
            set.remove(federate);
            assert(forall|f: u32| #[trigger]
                all.contains(f) ==> f == federate || set@.contains(f));
            if !set.is_empty() {
                self.by_interaction.insert(class, set);
            }
        }
        proof {
            assert(self@.interactions =~= old(self)@.interactions.remove((class, federate)));
            assert(self@.attributes =~= old(self)@.attributes);
            assert(forall|c: u32, f: u32| self.counted(c, f) == old(self).counted(c, f));
        }
    }
}

} // verus!

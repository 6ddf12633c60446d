//! Ordered tables and sets keyed by integer handles.
//!
//! Both are thin layers over the standard ordered collections. Their views are
//! mathematical maps and sets, and a table's view also takes the view of each
//! value, so that the state of a federation can be described without naming a
//! single concrete collection. Walking either one goes in ascending key order,
//! which makes every fan-out of the node reproducible.

use std::collections::{BTreeMap, BTreeSet};
use vstd::prelude::*;

verus! {

/// An integer handle that can key a table.
pub trait Key: Copy + Ord {
    /// The number behind the handle.
    spec fn number(self) -> int;

    /// The handle's `Ord` is the order of the numbers.
    proof fn lemma_ordered_by_number()
        ensures
            vstd::laws_cmp::obeys_cmp::<Self>(),
            forall|s: Seq<&Self>| #[trigger]
                vstd::std_specs::btree::increasing_seq(s) ==> forall|i: int, j: int|
                    0 <= i < j < s.len() ==> (#[trigger] s[i]).number() < (#[trigger] s[j]).number(),
            forall|a: Self, b: Self|
                (#[trigger] a.number()) == (#[trigger] b.number()) ==> a == b,
    ;
}

impl Key for u32 {
    open spec fn number(self) -> int {
        self as int
    }

    proof fn lemma_ordered_by_number() {
        broadcast use vstd::laws_cmp::group_laws_cmp;
        broadcast use vstd::std_specs::btree::group_btree_axioms;

        reveal(vstd::laws_cmp::obeys_cmp_ord);
        assert(vstd::laws_cmp::obeys_cmp::<u32>());
        assert(vstd::laws_cmp::obeys_cmp::<&u32>());
        assert forall|s: Seq<&u32>| #[trigger]
            vstd::std_specs::btree::increasing_seq(s) implies forall|i: int, j: int|
            0 <= i < j < s.len() ==> (#[trigger] s[i]).number() < (#[trigger] s[j]).number() by {
            assert forall|i: int, j: int| 0 <= i < j < s.len() implies (#[trigger] s[i]).number()
                < (#[trigger] s[j]).number() by {
                assert(vstd::std_specs::cmp::OrdSpec::cmp_spec(&s[i], &s[j]) is Less);
            }
        }
    }
}

impl Key for u64 {
    open spec fn number(self) -> int {
        self as int
    }

    proof fn lemma_ordered_by_number() {
        broadcast use vstd::laws_cmp::group_laws_cmp;
        broadcast use vstd::std_specs::btree::group_btree_axioms;

        reveal(vstd::laws_cmp::obeys_cmp_ord);
        assert(vstd::laws_cmp::obeys_cmp::<u64>());
        assert(vstd::laws_cmp::obeys_cmp::<&u64>());
        assert forall|s: Seq<&u64>| #[trigger]
            vstd::std_specs::btree::increasing_seq(s) implies forall|i: int, j: int|
            0 <= i < j < s.len() ==> (#[trigger] s[i]).number() < (#[trigger] s[j]).number() by {
            assert forall|i: int, j: int| 0 <= i < j < s.len() implies (#[trigger] s[i]).number()
                < (#[trigger] s[j]).number() by {
                assert(vstd::std_specs::cmp::OrdSpec::cmp_spec(&s[i], &s[j]) is Less);
            }
        }
    }
}

/// The order of the numbers behind two handles.
pub open spec fn in_order<K: Key>() -> spec_fn(K, K) -> bool {
    |a: K, b: K| a.number() <= b.number()
}

/// The members of a finite set of handles, each once, in ascending order.
pub open spec fn ascending<K: Key>(s: Set<K>) -> Seq<K> {
    s.to_sorted_seq(in_order::<K>())
}

/// Every list of handles with strictly increasing numbers is the ascending list
/// of its members.
pub proof fn lemma_ascending_is<K: Key>(q: Seq<K>)
    requires
        forall|i: int, j: int|
            0 <= i < j < q.len() ==> (#[trigger] q[i]).number() < (#[trigger] q[j]).number(),
    ensures
        ascending(q.to_set()) == q,
{
    broadcast use vstd::seq_lib::group_to_multiset_ensures;
    broadcast use vstd::multiset::group_multiset_axioms;

    let s = q.to_set();
    let leq = in_order::<K>();
    K::lemma_ordered_by_number();
    assert(q.no_duplicates());
    q.unique_seq_to_set();
    vstd::seq_lib::seq_to_set_is_finite(q);
    lemma_total_order::<K>();
    let t = s.to_seq();
    lemma_set_to_seq(s);
    t.lemma_sort_by_ensures(leq);
    assert(t.to_multiset() == q.to_multiset()) by {
        t.lemma_multiset_has_no_duplicates();
        q.lemma_multiset_has_no_duplicates();
        assert forall|x: K| t.to_multiset().count(x) == q.to_multiset().count(x) by {
            assert(t.contains(x) <==> s.contains(x));
            assert(q.contains(x) <==> s.contains(x));
            assert(t.contains(x) <==> t.to_multiset().count(x) > 0);
            assert(q.contains(x) <==> q.to_multiset().count(x) > 0);
        }
    }
    vstd::seq_lib::lemma_sorted_unique(t.sort_by(leq), q, leq);
}

/// The ascending list of a finite set names each member once, in increasing
/// order.
pub proof fn lemma_ascending<K: Key>(s: Set<K>)
    requires
        s.finite(),
    ensures
        forall|x: K| #[trigger] ascending(s).contains(x) <==> s.contains(x),
        forall|i: int, j: int|
            0 <= i < j < ascending(s).len() ==> (#[trigger] ascending(s)[i]).number() < (
            #[trigger] ascending(s)[j]).number(),
        ascending(s).no_duplicates(),
        ascending(s).to_set() == s,
        ascending(s).len() == s.len(),
{
    broadcast use vstd::seq_lib::group_to_multiset_ensures;
    broadcast use vstd::multiset::group_multiset_axioms;

    let leq = in_order::<K>();
    K::lemma_ordered_by_number();
    lemma_total_order::<K>();
    let t = s.to_seq();
    lemma_set_to_seq(s);
    t.lemma_sort_by_ensures(leq);
    let q = ascending(s);
    assert(q.to_multiset() == t.to_multiset());
    assert forall|x: K| #[trigger] q.contains(x) <==> s.contains(x) by {
        assert(t.contains(x) <==> t.to_multiset().count(x) > 0);
        assert(q.contains(x) <==> q.to_multiset().count(x) > 0);
    }
    t.lemma_multiset_has_no_duplicates();
    assert forall|x: K| q.to_multiset().contains(x) implies q.to_multiset().count(x) == 1 by {
        assert(t.to_multiset().contains(x));
    }
    q.lemma_multiset_has_no_duplicates_conv();
    assert(q.to_set() =~= s);
    q.unique_seq_to_set();
    assert forall|i: int, j: int| 0 <= i < j < q.len() implies (#[trigger] q[i]).number() < (
    #[trigger] q[j]).number() by {
        assert(leq(q[i], q[j]));
        assert(q[i] != q[j]);
    }
}

proof fn lemma_total_order<K: Key>()
    ensures
        vstd::relations::total_ordering(in_order::<K>()),
{
    K::lemma_ordered_by_number();
}

/// Listing a finite set names each member exactly once.
proof fn lemma_set_to_seq<A>(s: Set<A>)
    requires
        s.finite(),
    ensures
        s.to_seq().no_duplicates(),
        forall|x: A| s.to_seq().contains(x) <==> s.contains(x),
    decreases s.len(),
{
    s.lemma_to_seq_to_set_id();
    if s.len() == 0 {
        assert(s.to_seq() =~= Seq::<A>::empty());
    } else {
        let x = s.choose();
        lemma_set_to_seq(s.remove(x));
        let rest = s.remove(x).to_seq();
        assert(!rest.contains(x));
        assert(s.to_seq() == Seq::<A>::empty().push(x) + rest);
    }
    assert forall|x: A| s.to_seq().contains(x) <==> s.contains(x) by {
        assert(s.to_seq().to_set().contains(x) <==> s.contains(x));
    }
}

/// A set of handles.
pub struct KeySet<K: Key> {
    members: BTreeSet<K>,
}

impl<K: Key> View for KeySet<K> {
    type V = Set<K>;

    closed spec fn view(&self) -> Set<K> {
        self.members@
    }
}

impl<K: Key> KeySet<K> {
    /// A set of handles is finite.
    pub proof fn lemma_finite(&self)
        ensures
            self@.finite(),
    {
        broadcast use vstd::std_specs::btree::group_btree_axioms;

        let iter = vstd::std_specs::btree::spec_btree_keys_iter(&self.members);
        let all = vstd::std_specs::iter::IteratorSpec::remaining(&iter).unref();
        vstd::seq_lib::seq_to_set_is_finite(all);
    }

    /// The empty set.
    pub fn new() -> (r: Self)
        ensures
            r@ == Set::<K>::empty(),
    {
        KeySet { members: BTreeSet::new() }
    }

    /// The set that holds `k` alone.
    pub fn single(k: K) -> (r: Self)
        ensures
            r@ == set![k],
    {
        let mut s = KeySet::new();
        s.insert(k);
        s
    }

    /// Whether `k` is a member.
    pub fn contains(&self, k: K) -> (r: bool)
        ensures
            r == self@.contains(k),
    {
        broadcast use vstd::std_specs::btree::group_btree_axioms;

        proof {
            K::lemma_ordered_by_number();
        }
        self.members.contains(&k)
    }

    /// Adds `k`; true if it was not a member yet.
    pub fn insert(&mut self, k: K) -> (r: bool)
        ensures
            final(self)@ == old(self)@.insert(k),
            r == !old(self)@.contains(k),
    {
        broadcast use vstd::std_specs::btree::group_btree_axioms;

        proof {
            K::lemma_ordered_by_number();
        }
        self.members.insert(k)
    }

    /// Takes `k` out; true if it was a member.
    pub fn remove(&mut self, k: K) -> (r: bool)
        ensures
            final(self)@ == old(self)@.remove(k),
            r == old(self)@.contains(k),
    {
        broadcast use vstd::std_specs::btree::group_btree_axioms;

        proof {
            K::lemma_ordered_by_number();
        }
        self.members.remove(&k)
    }

    /// Whether the set is empty.
    pub fn is_empty(&self) -> (r: bool)
        ensures
            r == (self@ == Set::<K>::empty()),
    {
        broadcast use vstd::std_specs::btree::group_btree_axioms;

        proof {
            K::lemma_ordered_by_number();
        }
        let r = self.members.is_empty();
        assert(self@.is_empty() <==> self@ =~= Set::<K>::empty());
        r
    }

    /// The number of members.
    pub fn len(&self) -> (r: usize)
        ensures
            r == self@.len(),
            self@.finite(),
    {
        broadcast use vstd::std_specs::btree::group_btree_axioms;

        proof {
            K::lemma_ordered_by_number();
            self.lemma_finite();
        }
        self.members.len()
    }

    /// The members in ascending order.
    pub fn members(&self) -> (r: Vec<K>)
        ensures
            r@ == ascending(self@),
            self@.finite(),
    {
        broadcast use vstd::std_specs::btree::group_btree_axioms;

        proof {
            K::lemma_ordered_by_number();
        }
        let mut out: Vec<K> = Vec::new();
        let iter = self.members.iter();
        let ghost all = vstd::std_specs::iter::IteratorSpec::remaining(&iter).unref();
        for k in it: iter
            invariant
                it.seq().unref() == all,
                out@ == all.take(it.index()),
        {
            assert(all.take(it.index() + 1) =~= all.take(it.index()).push(all[it.index()]));
            out.push(*k);
        }
        proof {
            assert(out@ =~= all);
            vstd::seq_lib::seq_to_set_is_finite(out@);
            lemma_ascending_is(out@);
        }
        out
    }

    /// Adds every member of `other`.
    pub fn extend(&mut self, other: &KeySet<K>)
        ensures
            final(self)@ == old(self)@.union(other@),
    {
        let members = other.members();
        let mut i: usize = 0;
        while i < members.len()
            invariant
                i <= members.len(),
                members@ == ascending(other@),
                self@ == old(self)@.union(members@.take(i as int).to_set()),
            decreases members.len() - i,
        {
            let k = members[i];
            proof {
                assert(members@.take(i + 1) =~= members@.take(i as int).push(k));
                assert(members@.take(i + 1).to_set() =~= members@.take(i as int).to_set().insert(k)) by {
                    vstd::seq_lib::seq_to_set_is_finite(members@.take(i as int));
                    broadcast use vstd::seq_lib::group_seq_properties;
                }
                assert(old(self)@.union(members@.take(i as int).to_set()).insert(k) =~= old(
                    self,
                )@.union(members@.take(i + 1).to_set()));
            }
            self.insert(k);
            i = i + 1;
        }
        proof {
            assert(members@.take(i as int) =~= members@);
            other.lemma_finite();
            lemma_ascending(other@);
        }
    }

    /// Takes every member of `other` out.
    pub fn subtract(&mut self, other: &KeySet<K>)
        ensures
            final(self)@ == old(self)@.difference(other@),
    {
        let members = other.members();
        let mut i: usize = 0;
        while i < members.len()
            invariant
                i <= members.len(),
                members@ == ascending(other@),
                self@ == old(self)@.difference(members@.take(i as int).to_set()),
            decreases members.len() - i,
        {
            let k = members[i];
            proof {
                assert(members@.take(i + 1) =~= members@.take(i as int).push(k));
                assert(members@.take(i + 1).to_set() =~= members@.take(i as int).to_set().insert(k)) by {
                    broadcast use vstd::seq_lib::group_seq_properties;
                }
                assert(old(self)@.difference(members@.take(i as int).to_set()).remove(k) =~= old(
                    self,
                )@.difference(members@.take(i + 1).to_set()));
            }
            self.remove(k);
            i = i + 1;
        }
        proof {
            assert(members@.take(i as int) =~= members@);
            other.lemma_finite();
            lemma_ascending(other@);
        }
    }

    /// An equal set.
    pub fn copy(&self) -> (r: Self)
        ensures
            r@ == self@,
    {
        let mut r = KeySet::new();
        r.extend(self);
        proof {
            assert(Set::<K>::empty().union(self@) =~= self@);
        }
        r
    }
}

/// A table of values under handles.
pub struct Table<K: Key, V> {
    entries: BTreeMap<K, V>,
}

impl<K: Key, V: View> View for Table<K, V> {
    type V = Map<K, V::V>;

    closed spec fn view(&self) -> Map<K, V::V> {
        self.entries@.map_values(|v: V| v@)
    }
}

impl<K: Key, V: View> Table<K, V> {
    /// The values themselves, of which the view shows the content.
    pub closed spec fn held(&self) -> Map<K, V> {
        self.entries@
    }

    /// The view shows the content of the values.
    pub proof fn lemma_held(&self)
        ensures
            self@.dom() == self.held().dom(),
            forall|k: K| #[trigger] self@.contains_key(k) ==> self@[k] == self.held()[k]@,
    {
        assert(self@.dom() =~= self.held().dom());
    }

    /// A table has finitely many entries.
    pub proof fn lemma_finite(&self)
        ensures
            self@.dom().finite(),
    {
        broadcast use vstd::std_specs::btree::group_btree_axioms;

        K::lemma_ordered_by_number();
        assert(self@.dom() =~= self.entries@.dom());
    }

    /// The empty table.
    pub fn new() -> (r: Self)
        ensures
            r@ == Map::<K, V::V>::empty(),
            r.held() == Map::<K, V>::empty(),
    {
        let r = Table { entries: BTreeMap::new() };
        assert(r@ =~= Map::<K, V::V>::empty());
        r
    }

    /// Whether `k` has an entry.
    pub fn contains_key(&self, k: K) -> (r: bool)
        ensures
            r == self@.contains_key(k),
    {
        broadcast use vstd::std_specs::btree::group_btree_axioms;

        proof {
            K::lemma_ordered_by_number();
        }
        self.entries.contains_key(&k)
    }

    /// The value under `k`.
    pub fn get(&self, k: K) -> (r: Option<&V>)
        ensures
            match r {
                Some(v) => self@.contains_key(k) && v@ == self@[k] && *v == self.held()[k],
                None => !self@.contains_key(k),
            },
    {
        broadcast use vstd::std_specs::btree::group_btree_axioms;

        proof {
            K::lemma_ordered_by_number();
        }
        self.entries.get(&k)
    }

    /// Puts `v` under `k`, in place of what was there.
    pub fn insert(&mut self, k: K, v: V)
        ensures
            final(self)@ == old(self)@.insert(k, v@),
            final(self).held() == old(self).held().insert(k, v),
    {
        broadcast use vstd::std_specs::btree::group_btree_axioms;

        proof {
            K::lemma_ordered_by_number();
        }
        self.entries.insert(k, v);
        assert(self@ =~= old(self)@.insert(k, v@));
    }

    /// Takes the entry under `k` out.
    pub fn remove(&mut self, k: K) -> (r: Option<V>)
        ensures
            final(self)@ == old(self)@.remove(k),
            final(self).held() == old(self).held().remove(k),
            match r {
                Some(v) => old(self)@.contains_key(k) && v@ == old(self)@[k] && v == old(
                    self,
                ).held()[k],
                None => !old(self)@.contains_key(k),
            },
    {
        broadcast use vstd::std_specs::btree::group_btree_axioms;

        proof {
            K::lemma_ordered_by_number();
        }
        let r = self.entries.remove(&k);
        assert(self@ =~= old(self)@.remove(k));
        r
    }

    /// Whether the table has no entry.
    pub fn is_empty(&self) -> (r: bool)
        ensures
            r == (self@.dom() == Set::<K>::empty()),
    {
        broadcast use vstd::std_specs::btree::group_btree_axioms;

        proof {
            K::lemma_ordered_by_number();
            assert(self@.dom() =~= self.entries@.dom());
        }
        let r = self.entries.is_empty();
        proof {
            if !r {
                let k = choose|k: K| self.entries@.contains_key(k);
                assert(self.entries@.is_empty() <==> self.entries@ =~= Map::<K, V>::empty());
                if self@.dom() == Set::<K>::empty() {
                    assert(self.entries@ =~= Map::<K, V>::empty());
                }
            }
        }
        r
    }

    /// The number of entries.
    pub fn len(&self) -> (r: usize)
        ensures
            r == self@.dom().len(),
            self@.dom().finite(),
    {
        broadcast use vstd::std_specs::btree::group_btree_axioms;

        proof {
            K::lemma_ordered_by_number();
            assert(self@.dom() =~= self.entries@.dom());
        }
        self.entries.len()
    }

    /// The handles that have an entry, in ascending order.
    pub fn keys(&self) -> (r: Vec<K>)
        ensures
            r@ == ascending(self@.dom()),
            self@.dom().finite(),
    {
        broadcast use vstd::std_specs::btree::group_btree_axioms;

        proof {
            K::lemma_ordered_by_number();
        }
        let mut out: Vec<K> = Vec::new();
        let iter = self.entries.keys();
        let ghost all = vstd::std_specs::iter::IteratorSpec::remaining(&iter).unref();
        for k in it: iter
            invariant
                it.seq().unref() == all,
                out@ == all.take(it.index()),
        {
            assert(all.take(it.index() + 1) =~= all.take(it.index()).push(all[it.index()]));
            out.push(*k);
        }
        proof {
            assert(out@ =~= all);
            vstd::seq_lib::seq_to_set_is_finite(out@);
            lemma_ascending_is(out@);
            assert(self@.dom() =~= self.entries@.dom());
        }
        out
    }

    /// The set of handles that have an entry.
    pub fn key_set(&self) -> (r: KeySet<K>)
        ensures
            r@ == self@.dom(),
    {
        let keys = self.keys();
        let mut r: KeySet<K> = KeySet::new();
        let mut i: usize = 0;
        while i < keys.len()
            invariant
                i <= keys.len(),
                keys@ == ascending(self@.dom()),
                self@.dom().finite(),
                forall|k: K| #[trigger] r@.contains(k) <==> keys@.take(i as int).contains(k),
            decreases keys.len() - i,
        {
            proof {
                assert(keys@.take(i + 1) =~= keys@.take(i as int).push(keys@[i as int]));
                assert forall|k: K|
                    #![auto]
                    keys@.take(i + 1).contains(k) <==> keys@.take(i as int).contains(k) || k
                        == keys@[i as int] by {
                    broadcast use vstd::seq_lib::group_seq_properties;
                }
            }
            r.insert(keys[i]);
            i = i + 1;
        }
        proof {
            assert(keys@.take(i as int) =~= keys@);
            lemma_ascending(self@.dom());
            assert(r@ =~= self@.dom());
        }
        r
    }
}

/// The sets under handles after the members of `s` joined the one under `k`.
pub open spec fn extended<K, E>(m: Map<K, Set<E>>, k: K, s: Set<E>) -> Map<K, Set<E>> {
    m.insert(
        k,
        if m.contains_key(k) {
            m[k].union(s)
        } else {
            s
        },
    )
}

/// The sets under handles after the members of `s` left the one under `k`; a
/// set that is left empty goes.
pub open spec fn reduced<K, E>(m: Map<K, Set<E>>, k: K, s: Set<E>) -> Map<K, Set<E>> {
    if !m.contains_key(k) {
        m
    } else if m[k].difference(s) == Set::<E>::empty() {
        m.remove(k)
    } else {
        m.insert(k, m[k].difference(s))
    }
}

/// Adds the members of `s` to the set under `k`.
pub fn extend_entry<K: Key, E: Key>(table: &mut Table<K, KeySet<E>>, k: K, s: &KeySet<E>)
    ensures
        final(table)@ == extended(old(table)@, k, s@),
{
    let mut set = match table.remove(k) {
        Some(set) => set,
        None => KeySet::new(),
    };
    set.extend(s);
    table.insert(k, set);
    proof {
        assert(Set::<E>::empty().union(s@) =~= s@);
        assert(table@ =~= extended(old(table)@, k, s@));
    }
}

/// Takes the members of `s` out of the set under `k`; a set that is left empty
/// goes.
pub fn reduce_entry<K: Key, E: Key>(table: &mut Table<K, KeySet<E>>, k: K, s: &KeySet<E>)
    ensures
        final(table)@ == reduced(old(table)@, k, s@),
{
    match table.remove(k) {
        Some(mut set) => {
            set.subtract(s);
            if !set.is_empty() {
                table.insert(k, set);
            }
        },
        None => {},
    }
    assert(table@ =~= reduced(old(table)@, k, s@));
}

} // verus!

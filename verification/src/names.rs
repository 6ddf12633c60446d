//! Tables keyed by names.

use crate::text::same_text;
use vstd::prelude::*;

verus! {

/// What a table of named values holds: the values by name, and the order in
/// which the names came.
#[verifier::ext_equal]
pub struct NamedView<V> {
    pub order: Seq<Seq<char>>,
    pub values: Map<Seq<char>, V>,
}

impl<V> NamedView<V> {
    /// The table without entries.
    pub open spec fn empty() -> Self {
        NamedView { order: Seq::empty(), values: Map::empty() }
    }

    /// Whether the name has an entry.
    pub open spec fn has(self, name: Seq<char>) -> bool {
        self.values.contains_key(name)
    }

    /// The value under a name.
    pub open spec fn at(self, name: Seq<char>) -> V {
        self.values[name]
    }

    /// The table with `v` under `name`; a new name comes last.
    pub open spec fn put(self, name: Seq<char>, v: V) -> Self {
        NamedView {
            order: if self.has(name) {
                self.order
            } else {
                self.order.push(name)
            },
            values: self.values.insert(name, v),
        }
    }

    /// The table without `name`.
    pub open spec fn without(self, name: Seq<char>) -> Self {
        NamedView {
            order: self.order.remove_value(name),
            values: self.values.remove(name),
        }
    }
}

/// A table of values under distinct names.
pub struct NameTable<V> {
    names: Vec<String>,
    values: Vec<V>,
}

impl<V: View> View for NameTable<V> {
    type V = NamedView<V::V>;

    closed spec fn view(&self) -> NamedView<V::V> {
        NamedView {
            order: self.order(),
            values: Map::new(
                |n: Seq<char>| self.order().contains(n),
                |n: Seq<char>| self.values@[self.order().index_of(n)]@,
            ),
        }
    }
}

impl<V: View> NameTable<V> {
    spec fn order(&self) -> Seq<Seq<char>> {
        self.names@.map_values(|s: String| s@)
    }

    /// No name occurs twice.
    pub closed spec fn wf(&self) -> bool {
        &&& self.names@.len() == self.values@.len()
        &&& self.order().no_duplicates()
    }

    /// The names of a table list each entry once.
    pub proof fn lemma_order(&self)
        requires
            self.wf(),
        ensures
            self@.order.no_duplicates(),
            self@.order.to_set() == self@.values.dom(),
            forall|n: Seq<char>| #[trigger] self@.order.contains(n) <==> self@.values.contains_key(n),
    {
        assert(self@.order.to_set() =~= self@.values.dom());
    }

    /// The empty table.
    pub fn new() -> (r: Self)
        ensures
            r.wf(),
            r@ == NamedView::<V::V>::empty(),
    {
        let r = NameTable { names: Vec::new(), values: Vec::new() };
        proof {
            assert(r.order() =~= Seq::<Seq<char>>::empty());
            assert(r@.values =~= Map::<Seq<char>, V::V>::empty());
        }
        r
    }

    fn position(&self, name: &str) -> (r: Option<usize>)
        requires
            self.wf(),
        ensures
            match r {
                Some(i) => i < self.names@.len() && self.order()[i as int] == name@
                    && self.order().index_of(name@) == i && self.order().contains(name@),
                None => !self.order().contains(name@),
            },
    {
        let mut i: usize = 0;
        while i < self.names.len()
            invariant
                self.wf(),
                i <= self.names@.len(),
                forall|j: int| 0 <= j < i ==> (#[trigger] self.order()[j]) != name@,
            decreases self.names@.len() - i,
        {
            if same_text(self.names[i].as_str(), name) {
                proof {
                    assert(self.order()[i as int] == name@);
                    let k = self.order().index_of(name@);
                    assert(self.order()[k] == name@);
                }
                return Some(i);
            }
            assert(self.order()[i as int] != name@);
            i = i + 1;
        }
        None
    }

    /// Whether the name has an entry.
    pub fn contains(&self, name: &str) -> (r: bool)
        requires
            self.wf(),
        ensures
            r == self@.has(name@),
    {
        self.position(name).is_some()
    }

    /// The value under a name.
    pub fn get(&self, name: &str) -> (r: Option<&V>)
        requires
            self.wf(),
        ensures
            match r {
                Some(v) => self@.has(name@) && v@ == self@.at(name@),
                None => !self@.has(name@),
            },
    {
        match self.position(name) {
            Some(i) => Some(&self.values[i]),
            None => None,
        }
    }

    /// The value under a name, to be changed in place.
    pub fn get_mut(&mut self, name: &str) -> (r: Option<&mut V>)
        requires
            old(self).wf(),
        ensures
            final(self).wf(),
            match r {
                Some(v) => old(self)@.has(name@) && v@ == old(self)@.at(name@) && final(self)@
                    == old(self)@.put(name@, final(v)@),
                None => !old(self)@.has(name@) && final(self)@ == old(self)@,
            },
    {
        match self.position(name) {
            Some(i) => Some(&mut self.values[i]),
            None => None,
        }
    }

    /// Puts `v` under `name`, in place of what was there; a new name comes last.
    pub fn insert(&mut self, name: &str, v: V)
        requires
            old(self).wf(),
        ensures
            final(self).wf(),
            final(self)@ == old(self)@.put(name@, v@),
    {
        match self.position(name) {
            Some(i) => {
                self.values.set(i, v);
                proof {
                    assert(self@.values =~= old(self)@.values.insert(name@, v@));
                }
            },
            None => {
                self.names.push(name.to_owned());
                self.values.push(v);
                proof {
                    let before = old(self).order();
                    assert(self.order() =~= before.push(name@));
                    assert forall|n: Seq<char>| #[trigger]
                        self.order().contains(n) <==> before.contains(n) || n == name@ by {
                        if before.contains(n) {
                            let j = before.index_of(n);
                            assert(self.order()[j] == n);
                        }
                        if n == name@ {
                            assert(self.order()[before.len() as int] == n);
                        }
                    }
                    assert forall|n: Seq<char>| before.contains(n) implies self.order().index_of(n)
                        == before.index_of(n) by {
                        let j = before.index_of(n);
                        assert(self.order()[j] == n);
                    }
                    assert(self.order()[before.len() as int] == name@);
                    assert(self@.values =~= old(self)@.values.insert(name@, v@));
                }
            },
        }
    }

    /// Takes the entry under `name` out.
    pub fn remove(&mut self, name: &str) -> (r: Option<V>)
        requires
            old(self).wf(),
        ensures
            final(self).wf(),
            match r {
                Some(v) => old(self)@.has(name@) && v@ == old(self)@.at(name@) && final(self)@
                    == old(self)@.without(name@),
                None => !old(self)@.has(name@) && final(self)@ == old(self)@,
            },
    {
        match self.position(name) {
            Some(i) => {
                self.names.remove(i);
                let v = self.values.remove(i);
                proof {
                    let before = old(self).order();
                    assert(self.order() =~= before.remove(i as int));
                    assert(before.index_of_first(name@) == Some(i as int)) by {
                        before.index_of_first_ensures(name@);
                    }
                    assert(self.order() == before.remove_value(name@));
                    assert forall|a: int, b: int|
                        0 <= a < self.order().len() && 0 <= b < self.order().len() && a
                            != b implies self.order()[a] != self.order()[b] by {
                        let a1 = if a < i { a } else { a + 1 };
                        let b1 = if b < i { b } else { b + 1 };
                        assert(before[a1] != before[b1]);
                    }
                    assert forall|n: Seq<char>| n != name@ && before.contains(
                        n,
                    ) implies #[trigger] self.order().contains(n) && self.values@[self.order().index_of(
                        n,
                    )] == old(self).values@[before.index_of(n)] by {
                        let j = before.index_of(n);
                        let k = if j < i { j } else { j - 1 };
                        assert(self.order()[k] == n);
                    }
                    assert forall|n: Seq<char>| #[trigger] self.order().contains(n) implies n
                        != name@ && before.contains(n) by {
                        let k = self.order().index_of(n);
                        let j = if k < i { k } else { k + 1 };
                        assert(before[j] == n);
                    }
                    assert(self@.values =~= old(self)@.values.remove(name@));
                }
                Some(v)
            },
            None => None,
        }
    }

    /// The number of entries.
    pub fn len(&self) -> (r: usize)
        requires
            self.wf(),
        ensures
            r == self@.order.len(),
            r == self@.values.dom().len(),
            self@.values.dom().finite(),
    {
        proof {
            self.lemma_order();
            self@.order.unique_seq_to_set();
            vstd::seq_lib::seq_to_set_is_finite(self@.order);
        }
        self.names.len()
    }

    /// The names in the order in which they came.
    pub fn names(&self) -> (r: Vec<String>)
        requires
            self.wf(),
        ensures
            r@.map_values(|s: String| s@) == self@.order,
    {
        let mut r: Vec<String> = Vec::new();
        let mut i: usize = 0;
        while i < self.names.len()
            invariant
                i <= self.names@.len(),
                r@.len() == i,
                forall|j: int| 0 <= j < i ==> (#[trigger] r@[j])@ == self.names@[j]@,
            decreases self.names@.len() - i,
        {
            r.push(self.names[i].clone());
            i = i + 1;
        }
        assert(r@.map_values(|s: String| s@) =~= self@.order);
        r
    }
}

} // verus!

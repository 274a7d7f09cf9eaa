//! A map keyed by names.

use crate::text::same_text;
use vstd::prelude::*;

verus! {

/// A map from names to values, in the order in which the names first came.
pub struct NameMap<V> {
    entries: Vec<(String, V)>,
}

impl<V: View> NameMap<V> {
    /// No name stands twice.
    pub closed spec fn wf(&self) -> bool {
        forall|i: int, j: int|
            0 <= i < j < self.entries@.len() ==> (#[trigger] self.entries@[i]).0@ != (
            #[trigger] self.entries@[j]).0@
    }

    spec fn holds(&self, name: Seq<char>, index: int) -> bool {
        0 <= index < self.entries@.len() && self.entries@[index].0@ == name
    }

    pub fn new() -> (map: Self)
        ensures
            map.wf(),
            map@ == Map::<Seq<char>, V::V>::empty(),
    {
        let map = NameMap { entries: Vec::new() };
        assert(map@ =~= Map::<Seq<char>, V::V>::empty());
        map
    }

    fn position(&self, name: &str) -> (found: Option<usize>)
        ensures
            match found {
                Some(index) => self.holds(name@, index as int),
                None => forall|i: int| !self.holds(name@, i),
            },
    {
        let mut index: usize = 0;
        while index < self.entries.len()
            invariant
                index <= self.entries@.len(),
                forall|i: int| 0 <= i < index ==> !self.holds(name@, i),
            decreases self.entries@.len() - index,
        {
            if same_text(self.entries[index].0.as_str(), name) {
                return Some(index);
            }
            index = index + 1;
        }
        None
    }

    /// The value that the name maps to.
    pub fn get(&self, name: &str) -> (found: Option<&V>)
        requires
            self.wf(),
        ensures
            match found {
                Some(value) => self@.dom().contains(name@) && self@[name@] == value@,
                None => !self@.dom().contains(name@),
            },
    {
        match self.position(name) {
            Some(index) => {
                assert(self.holds(name@, index as int));
                let ghost chosen = choose|i: int| self.holds(name@, i);
                assert(chosen == index);
                Some(&self.entries[index].1)
            },
            None => None,
        }
    }

    pub fn contains_key(&self, name: &str) -> (found: bool)
        requires
            self.wf(),
        ensures
            found == self@.dom().contains(name@),
    {
        self.get(name).is_some()
    }

    /// Maps the name to the value; a value that it had is replaced.
    pub fn insert(&mut self, name: String, value: V)
        requires
            old(self).wf(),
        ensures
            final(self).wf(),
            final(self)@ == old(self)@.insert(name@, value@),
    {
        let ghost before = *self;
        match self.position(name.as_str()) {
            Some(index) => {
                let ghost key = name@;
                self.entries.set(index, (name, value));
                proof {
                    assert(self.entries@ == before.entries@.update(index as int, (name, value)));
                    assert forall|k: Seq<char>| self@.dom().contains(k) == before@.insert(
                        key,
                        value@,
                    ).dom().contains(k) by {
                        if before@.dom().contains(k) {
                            let w = choose|i: int| before.holds(k, i);
                            assert(self.holds(k, w));
                        }
                        if self@.dom().contains(k) {
                            let w = choose|i: int| self.holds(k, i);
                            assert(before.holds(k, w));
                        }
                        assert(self.holds(key, index as int));
                    }
                    assert forall|k: Seq<char>| self@.dom().contains(k) implies self@[k]
                        == before@.insert(key, value@)[k] by {
                        let w = choose|i: int| self.holds(k, i);
                        assert(before.holds(k, w));
                        let u = choose|i: int| before.holds(k, i);
                        assert(u == w);
                    }
                    assert(self@ =~= before@.insert(key, value@));
                }
            },
            None => {
                let ghost key = name@;
                self.entries.push((name, value));
                proof {
                    let last = before.entries@.len() as int;
                    assert forall|k: Seq<char>| self@.dom().contains(k) == before@.insert(
                        key,
                        value@,
                    ).dom().contains(k) by {
                        if before@.dom().contains(k) {
                            let w = choose|i: int| before.holds(k, i);
                            assert(self.holds(k, w));
                        }
                        if self@.dom().contains(k) {
                            let w = choose|i: int| self.holds(k, i);
                            if w < last {
                                assert(before.holds(k, w));
                            }
                        }
                        assert(self.holds(key, last));
                    }
                    assert forall|i: int, j: int|
                        0 <= i < j < self.entries@.len() implies (#[trigger] self.entries@[i]).0@ != (
                    #[trigger] self.entries@[j]).0@ by {
                        assert(!before.holds(key, i));
                    }
                    assert forall|k: Seq<char>| self@.dom().contains(k) implies self@[k]
                        == before@.insert(key, value@)[k] by {
                        let w = choose|i: int| self.holds(k, i);
                        if k == key {
                            assert(self.holds(key, last));
                            assert(!before.holds(key, w));
                        } else {
                            assert(before.holds(k, w));
                            let u = choose|i: int| before.holds(k, i);
                            assert(u == w);
                        }
                    }
                    assert(self@ =~= before@.insert(key, value@));
                }
            },
        }
    }
}

impl<V: View> View for NameMap<V> {
    type V = Map<Seq<char>, V::V>;

    closed spec fn view(&self) -> Map<Seq<char>, V::V> {
        Map::new(
            |name: Seq<char>| exists|i: int| self.holds(name, i),
            |name: Seq<char>| self.entries@[choose|i: int| self.holds(name, i)].1@,
        )
    }
}

} // verus!

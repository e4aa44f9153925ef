//! A small table from names to values, kept in insertion order, in which
//! no name occurs twice. Its content is a map, so the order is not part of
//! what it means.
use vstd::prelude::*;

verus! {

/// A table from names to values.
pub struct Table<V> {
    pub names: Vec<String>,
    pub values: Vec<V>,
}

impl<V: View> Table<V> {
    /// Every name has its value, and no name occurs twice.
    pub open spec fn wf(&self) -> bool {
        &&& self.names.len() == self.values.len()
        &&& forall|i: int, j: int|
            0 <= i < j < self.names.len() ==> self.names[i]@ != self.names[j]@
    }

    pub open spec fn has(&self, name: Seq<char>) -> bool {
        exists|i: int| 0 <= i < self.names.len() && #[trigger] self.names[i]@ == name
    }

    /// Where `name` stands, if the table has it.
    pub open spec fn index_of(&self, name: Seq<char>) -> int {
        choose|i: int| 0 <= i < self.names.len() && #[trigger] self.names[i]@ == name
    }

    /// The table as a map from each name to the content of its value.
    pub open spec fn model(&self) -> Map<Seq<char>, V::V> {
        Map::new(|name: Seq<char>| self.has(name), |name: Seq<char>| self.values[self.index_of(name)]@)
    }

    pub fn new() -> (r: Self)
        ensures
            r.wf(),
            r.model() == Map::<Seq<char>, V::V>::empty(),
    {
        let r = Table { names: Vec::new(), values: Vec::new() };
        assert(r.model() =~= Map::<Seq<char>, V::V>::empty());
        r
    }

    /// In a well-formed table a name stands where it is found.
    pub proof fn lemma_index(&self, name: Seq<char>, i: int)
        requires
            self.wf(),
            0 <= i < self.names.len(),
            self.names[i]@ == name,
        ensures
            self.has(name),
            self.index_of(name) == i,
            self.model().contains_key(name),
            self.model()[name] == self.values[i]@,
    {
    }

    /// Where `name` stands in the table.
    pub fn position(&self, name: &String) -> (r: Option<usize>)
        requires
            self.wf(),
        ensures
            match r {
                Some(i) => i < self.names.len() && self.names[i as int]@ == name@ && self.index_of(name@)
                    == i,
                None => !self.has(name@),
            },
            r is Some == self.model().contains_key(name@),
    {
        let mut i: usize = 0;
        while i < self.names.len()
            invariant
                self.wf(),
                i <= self.names.len(),
                forall|j: int| 0 <= j < i ==> self.names[j]@ != name@,
            decreases self.names.len() - i,
        {
            if self.names[i] == *name {
                proof {
                    self.lemma_index(name@, i as int);
                }
                return Some(i);
            }
            i = i + 1;
        }
        None
    }

    pub fn contains_key(&self, name: &String) -> (r: bool)
        requires
            self.wf(),
        ensures
            r == self.model().contains_key(name@),
    {
        self.position(name).is_some()
    }

    /// The value of `name`, if the table has it.
    pub fn get(&self, name: &String) -> (r: Option<&V>)
        requires
            self.wf(),
        ensures
            match r {
                Some(value) => self.model().contains_key(name@) && value@ == self.model()[name@],
                None => !self.model().contains_key(name@),
            },
    {
        match self.position(name) {
            Some(i) => {
                proof {
                    self.lemma_index(name@, i as int);
                }
                Some(&self.values[i])
            },
            None => None,
        }
    }

    /// Gives `name` the value `value`, whether or not it had one.
    pub fn insert(&mut self, name: String, value: V)
        requires
            old(self).wf(),
        ensures
            final(self).wf(),
            final(self).model() == old(self).model().insert(name@, value@),
    {
        match self.position(&name) {
            Some(i) => {
                self.values.set(i, value);
                proof {
                    assert forall|k: Seq<char>| #[trigger] self.has(k) implies self.index_of(k) == old(
                        self,
                    ).index_of(k) by {
                        let j = self.index_of(k);
                        old(self).lemma_index(k, j);
                    }
                    old(self).lemma_index(name@, i as int);
                    assert(self.model() =~= old(self).model().insert(name@, value@));
                }
            },
            None => {
                self.names.push(name);
                self.values.push(value);
                proof {
                    let n = old(self).names.len() as int;
                    assert(self.names[n]@ == name@);
                    self.lemma_index(name@, n);
                    assert forall|k: Seq<char>| #[trigger] old(self).has(k) implies self.has(k)
                        && self.index_of(k) == old(self).index_of(k) by {
                        let j = old(self).index_of(k);
                        assert(self.names[j]@ == k);
                        self.lemma_index(k, j);
                    }
                    assert forall|k: Seq<char>| #[trigger] self.has(k) && k != name@ implies old(
                        self,
                    ).has(k) by {
                        let j = self.index_of(k);
                        assert(j < n);
                        assert(old(self).names[j]@ == k);
                    }
                    assert(self.model() =~= old(self).model().insert(name@, value@));
                }
            },
        }
    }
}

} // verus!

//! A map from texts to values.
use crate::text::same_text;
use vstd::prelude::*;

verus! {

/// A map from texts to values, in the order in which the keys came.
pub struct TextMap<V> {
    entries: Vec<(String, V)>,
}

/// The value of a key in a list of entries.
pub open spec fn value_of<V>(entries: Seq<(String, V)>, key: Seq<char>) -> V {
    entries[choose|i: int| 0 <= i < entries.len() && (#[trigger] entries[i]).0@ == key].1
}

/// The keys of a list of entries.
pub open spec fn has_key<V>(entries: Seq<(String, V)>, key: Seq<char>) -> bool {
    exists|i: int| 0 <= i < entries.len() && (#[trigger] entries[i]).0@ == key
}

impl<V> View for TextMap<V> {
    type V = Map<Seq<char>, V>;

    closed spec fn view(&self) -> Map<Seq<char>, V> {
        Map::new(
            |key: Seq<char>| has_key(self.entries@, key),
            |key: Seq<char>| value_of(self.entries@, key),
        )
    }
}

impl<V> TextMap<V> {
    /// Every key occurs once.
    pub closed spec fn wf(&self) -> bool {
        forall|i: int, j: int|
            0 <= i < j < self.entries@.len() ==> (#[trigger] self.entries@[i]).0@ != (
            #[trigger] self.entries@[j]).0@
    }

    /// A map without entries.
    pub fn new() -> (m: Self)
        ensures
            m.wf(),
            m@ == Map::<Seq<char>, V>::empty(),
    {
        let m = TextMap { entries: Vec::new() };
        assert(m@ =~= Map::<Seq<char>, V>::empty());
        m
    }

    /// Where a key stands.
    fn find(&self, key: &str) -> (r: Option<usize>)
        requires
            self.wf(),
        ensures
            match r {
                Some(i) => i < self.entries@.len() && self.entries@[i as int].0@ == key@
                    && self@.dom().contains(key@) && self@[key@] == self.entries@[i as int].1,
                None => !self@.dom().contains(key@),
            },
    {
        let mut i: usize = 0;
        while i < self.entries.len()
            invariant
                i <= self.entries@.len(),
                self.wf(),
                forall|j: int| 0 <= j < i ==> (#[trigger] self.entries@[j]).0@ != key@,
            decreases self.entries@.len() - i,
        {
            if same_text(self.entries[i].0.as_str(), key) {
                proof {
                    self.lemma_at(i as int);
                }
                return Some(i);
            }
            i = i + 1;
        }
        None
    }

    /// The entry at a place is the value of its key.
    proof fn lemma_at(&self, i: int)
        requires
            self.wf(),
            0 <= i < self.entries@.len(),
        ensures
            self@.dom().contains(self.entries@[i].0@),
            self@[self.entries@[i].0@] == self.entries@[i].1,
    {
        let key = self.entries@[i].0@;
        let j = choose|j: int| 0 <= j < self.entries@.len() && (#[trigger] self.entries@[j]).0@
            == key;
        assert(self.entries@[i].0@ == key);
        if i < j {
            assert(self.entries@[i].0@ != self.entries@[j].0@);
        } else if j < i {
            assert(self.entries@[j].0@ != self.entries@[i].0@);
        }
    }

    /// The value of a key, where it has one.
    pub fn get(&self, key: &str) -> (r: Option<&V>)
        requires
            self.wf(),
        ensures
            match r {
                Some(v) => self@.dom().contains(key@) && *v == self@[key@],
                None => !self@.dom().contains(key@),
            },
    {
        match self.find(key) {
            Some(i) => Some(&self.entries[i].1),
            None => None,
        }
    }

    /// Gives a key a value, in place of an earlier one.
    pub fn insert(&mut self, key: String, value: V)
        requires
            old(self).wf(),
        ensures
            final(self).wf(),
            final(self)@ == old(self)@.insert(key@, value),
    {
        let ghost o = *self;
        let found = self.find(key.as_str());
        let ghost k = key@;
        match found {
            Some(i) => {
                self.entries[i].1 = value;
                proof {
                    assert(self.wf());
                    assert forall|x: Seq<char>| self@.dom().contains(x) <==> o@.insert(
                        k,
                        value,
                    ).dom().contains(x) by {
                        if has_key(self.entries@, x) {
                            let j = choose|j: int|
                                0 <= j < self.entries@.len() && (#[trigger] self.entries@[j]).0@
                                    == x;
                            assert(o.entries@[j].0@ == x);
                        }
                        if has_key(o.entries@, x) {
                            let j = choose|j: int|
                                0 <= j < o.entries@.len() && (#[trigger] o.entries@[j]).0@ == x;
                            assert(self.entries@[j].0@ == x);
                        }
                        if x == k {
                            assert(self.entries@[i as int].0@ == x);
                        }
                    }
                    assert forall|x: Seq<char>| #[trigger]
                        self@.dom().contains(x) implies self@[x] == o@.insert(k, value)[x] by {
                        let j = choose|j: int|
                            0 <= j < self.entries@.len() && (#[trigger] self.entries@[j]).0@ == x;
                        self.lemma_at(j);
                        o.lemma_at(j);
                        if j != i {
                            assert(o.entries@[j].0@ != o.entries@[i as int].0@) by {
                                if j < i {
                                } else {
                                    assert(o.entries@[i as int].0@ != o.entries@[j].0@);
                                }
                            }
                        }
                    }
                    assert(self@ =~= o@.insert(k, value));
                }
            },
            None => {
                self.entries.push((key, value));
                proof {
                    let n = o.entries@.len() as int;
                    assert(self.entries@[n].0@ == k);
                    assert forall|i: int, j: int|
                        0 <= i < j < self.entries@.len() implies (
                    #[trigger] self.entries@[i]).0@ != (#[trigger] self.entries@[j]).0@ by {
                        if j == n {
                            assert(o.entries@[i].0@ == self.entries@[i].0@);
                            assert(has_key(o.entries@, self.entries@[i].0@));
                        } else {
                            assert(o.entries@[i].0@ != o.entries@[j].0@);
                        }
                    }
                    assert forall|x: Seq<char>| self@.dom().contains(x) <==> o@.insert(
                        k,
                        value,
                    ).dom().contains(x) by {
                        if has_key(self.entries@, x) {
                            let j = choose|j: int|
                                0 <= j < self.entries@.len() && (#[trigger] self.entries@[j]).0@
                                    == x;
                            if j < n {
                                assert(o.entries@[j].0@ == x);
                            }
                        }
                        if has_key(o.entries@, x) {
                            let j = choose|j: int|
                                0 <= j < o.entries@.len() && (#[trigger] o.entries@[j]).0@ == x;
                            assert(self.entries@[j].0@ == x);
                        }
                    }
                    assert forall|x: Seq<char>| #[trigger]
                        self@.dom().contains(x) implies self@[x] == o@.insert(k, value)[x] by {
                        let j = choose|j: int|
                            0 <= j < self.entries@.len() && (#[trigger] self.entries@[j]).0@ == x;
                        self.lemma_at(j);
                        if j < n {
                            o.lemma_at(j);
                            assert(o.entries@[j].0@ == x);
                        }
                    }
                    assert(self@ =~= o@.insert(k, value));
                }
            },
        }
    }

    /// Whether there are no entries.
    pub fn is_empty(&self) -> (b: bool)
        ensures
            b == (self@ == Map::<Seq<char>, V>::empty()),
    {
        proof {
            if self.entries@.len() == 0 {
                assert(self@ =~= Map::<Seq<char>, V>::empty());
            } else {
                assert(has_key(self.entries@, self.entries@[0].0@));
                assert(self@.dom().contains(self.entries@[0].0@));
            }
        }
        self.entries.len() == 0
    }

    /// The number of entries.
    pub fn len(&self) -> (n: usize)
        requires
            self.wf(),
        ensures
            n == self@.dom().len(),
            self@.dom().finite(),
    {
        proof {
            self.lemma_len();
        }
        self.entries.len()
    }

    /// There are as many keys as entries.
    proof fn lemma_len(&self)
        requires
            self.wf(),
        ensures
            self@.dom().finite(),
            self@.dom().len() == self.entries@.len(),
    {
        let keys = Seq::new(self.entries@.len(), |i: int| self.entries@[i].0@);
        assert(keys.no_duplicates()) by {
            assert forall|i: int, j: int|
                0 <= i < keys.len() && 0 <= j < keys.len() && i != j implies keys[i] != keys[j] by {
                if i < j {
                    assert(self.entries@[i].0@ != self.entries@[j].0@);
                } else {
                    assert(self.entries@[j].0@ != self.entries@[i].0@);
                }
            }
        }
        keys.unique_seq_to_set();
        assert(self@.dom() =~= keys.to_set()) by {
            assert forall|x: Seq<char>| self@.dom().contains(x) <==> keys.to_set().contains(
                x,
            ) by {
                if has_key(self.entries@, x) {
                    let j = choose|j: int|
                        0 <= j < self.entries@.len() && (#[trigger] self.entries@[j]).0@ == x;
                    assert(keys[j] == x);
                }
                if keys.contains(x) {
                    let j = choose|j: int| 0 <= j < keys.len() && keys[j] == x;
                    assert(self.entries@[j].0@ == x);
                }
            }
        }
    }
}

impl TextMap<String> {
    /// A map with the same entries.
    pub fn copy(&self) -> (m: Self)
        requires
            self.wf(),
        ensures
            m.wf(),
            m@ == self@,
    {
        let mut entries: Vec<(String, String)> = Vec::new();
        let mut i: usize = 0;
        while i < self.entries.len()
            invariant
                i <= self.entries@.len(),
                entries@ == self.entries@.take(i as int),
            decreases self.entries@.len() - i,
        {
            entries.push((self.entries[i].0.clone(), self.entries[i].1.clone()));
            i = i + 1;
            assert(entries@ =~= self.entries@.take(i as int));
        }
        assert(entries@ =~= self.entries@);
        TextMap { entries }
    }
}

} // verus!

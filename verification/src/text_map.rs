//! A map from texts to values, kept as a list in which no key occurs twice.
//! A key keeps the place at which it was first put in.

use vstd::prelude::*;
use crate::text::same_text;

verus! {

#[derive(Debug)]
pub struct TextMap<V> {
    pub entries: Vec<(String, V)>,
}

impl<V> TextMap<V> {
    /// No key occurs twice.
    pub open spec fn wf(&self) -> bool {
        forall|i: int, j: int|
            #![trigger self.entries@[i], self.entries@[j]]
            0 <= i < j < self.entries@.len() ==> self.entries@[i].0@ != self.entries@[j].0@
    }

    /// Whether `key` is stored at place `i`.
    pub open spec fn holds(&self, key: Seq<char>, i: int) -> bool {
        0 <= i < self.entries@.len() && self.entries@[i].0@ == key
    }

    pub open spec fn has(&self, key: Seq<char>) -> bool {
        exists|i: int| self.holds(key, i)
    }

    /// The place at which `key` is stored.
    pub open spec fn place(&self, key: Seq<char>) -> int {
        choose|i: int| self.holds(key, i)
    }

    pub open spec fn view(&self) -> Map<Seq<char>, V> {
        Map::new(|key: Seq<char>| self.has(key), |key: Seq<char>| self.entries@[self.place(key)].1)
    }

    pub proof fn lemma_place(&self, key: Seq<char>, i: int)
        requires
            self.wf(),
            self.holds(key, i),
        ensures
            self.has(key),
            self.place(key) == i,
            self@.dom().contains(key),
            self@[key] == self.entries@[i].1,
    {
        let j = self.place(key);
        assert(self.holds(key, j));
        if i < j {
            assert(self.entries@[i].0@ != self.entries@[j].0@);
        } else if j < i {
            assert(self.entries@[j].0@ != self.entries@[i].0@);
        }
    }

    pub fn new() -> (m: TextMap<V>)
        ensures
            m.wf(),
            m@ == Map::<Seq<char>, V>::empty(),
            m.entries@.len() == 0,
    {
        let m = TextMap { entries: Vec::new() };
        proof {
            assert(m@ =~= Map::<Seq<char>, V>::empty());
        }
        m
    }

    pub fn len(&self) -> (n: usize)
        ensures
            n == self.entries@.len(),
    {
        self.entries.len()
    }

    /// The place of `key`.
    pub fn find(&self, key: &str) -> (r: Option<usize>)
        requires
            self.wf(),
        ensures
            match r {
                Some(i) => self.holds(key@, i as int) && self@.dom().contains(key@) && self@[key@]
                    == self.entries@[i as int].1,
                None => !self.has(key@) && !self@.dom().contains(key@),
            },
    {
        let mut i: usize = 0;
        while i < self.entries.len()
            invariant
                self.wf(),
                i <= self.entries@.len(),
                forall|k: int| 0 <= k < i ==> !self.holds(key@, k),
            decreases self.entries@.len() - i,
        {
            if same_text(self.entries[i].0.as_str(), key) {
                proof {
                    self.lemma_place(key@, i as int);
                }
                return Some(i);
            }
            i = i + 1;
        }
        None
    }

    pub fn get(&self, key: &str) -> (r: Option<&V>)
        requires
            self.wf(),
        ensures
            match r {
                Some(v) => self@.dom().contains(key@) && *v == self@[key@],
                None => !self@.dom().contains(key@),
            },
    {
        match self.find(key) {
            Some(i) => Some(&self.entries[i].1),
            None => None,
        }
    }

    /// Stores `value` under `key`, in place of what was there.
    pub fn insert(&mut self, key: String, value: V)
        requires
            old(self).wf(),
        ensures
            final(self).wf(),
            final(self)@ == old(self)@.insert(key@, value),
            old(self)@.dom().contains(key@) ==> final(self).entries@.len() == old(self).entries@.len(),
            !old(self)@.dom().contains(key@) ==> final(self).entries@ == old(self).entries@.push(
                (key, value),
            ),
    {
        let ghost before = *self;
        match self.find(key.as_str()) {
            Some(i) => {
                let ghost k = key@;
                self.entries.set(i, (key, value));
                proof {
                    assert(self.wf()) by {
                        assert forall|a: int, b: int|
                            #![trigger self.entries@[a], self.entries@[b]]
                            0 <= a < b < self.entries@.len() implies self.entries@[a].0@
                            != self.entries@[b].0@ by {
                            assert(self.entries@[a].0@ == before.entries@[a].0@);
                            assert(self.entries@[b].0@ == before.entries@[b].0@);
                        }
                    }
                    assert forall|q: Seq<char>| self.has(q) == before@.insert(k, value).dom().contains(
                        q,
                    ) by {
                        if self.has(q) {
                            let p = self.place(q);
                            assert(before.holds(q, p));
                        }
                        if before.has(q) {
                            let p = before.place(q);
                            assert(self.holds(q, p));
                        }
                        if q == k {
                            assert(self.holds(k, i as int));
                        }
                    }
                    assert forall|q: Seq<char>| self.has(q) implies self@[q] == before@.insert(
                        k,
                        value,
                    )[q] by {
                        let p = self.place(q);
                        assert(self.holds(q, p));
                        if q == k {
                            self.lemma_place(q, i as int);
                        } else {
                            assert(before.holds(q, p));
                            before.lemma_place(q, p);
                        }
                    }
                    assert(self@ =~= before@.insert(k, value));
                }
            },
            None => {
                let ghost k = key@;
                self.entries.push((key, value));
                proof {
                    let n = before.entries@.len() as int;
                    assert(self.wf()) by {
                        assert forall|a: int, b: int|
                            #![trigger self.entries@[a], self.entries@[b]]
                            0 <= a < b < self.entries@.len() implies self.entries@[a].0@
                            != self.entries@[b].0@ by {
                            if b == n {
                                assert(!before.holds(k, a));
                            } else {
                                assert(before.entries@[a].0@ != before.entries@[b].0@);
                            }
                        }
                    }
                    assert(self.holds(k, n));
                    assert forall|q: Seq<char>| self.has(q) == before@.insert(k, value).dom().contains(
                        q,
                    ) by {
                        if self.has(q) {
                            let p = self.place(q);
                            if p < n {
                                assert(before.holds(q, p));
                            }
                        }
                        if before.has(q) {
                            let p = before.place(q);
                            assert(self.holds(q, p));
                        }
                    }
                    assert forall|q: Seq<char>| self.has(q) implies self@[q] == before@.insert(
                        k,
                        value,
                    )[q] by {
                        let p = self.place(q);
                        assert(self.holds(q, p));
                        if q == k {
                            self.lemma_place(q, n);
                        } else {
                            assert(before.holds(q, p));
                            before.lemma_place(q, p);
                        }
                    }
                    assert(self@ =~= before@.insert(k, value));
                }
            },
        }
    }

    /// Takes the entry at place `i` out; those behind it move up.
    pub fn remove_at(&mut self, i: usize) -> (r: (String, V))
        requires
            old(self).wf(),
            i < old(self).entries@.len(),
        ensures
            final(self).wf(),
            r == old(self).entries@[i as int],
            final(self).entries@ == old(self).entries@.remove(i as int),
            final(self)@ == old(self)@.remove(r.0@),
    {
        let ghost before = *self;
        let r = self.entries.remove(i);
        proof {
            let k = r.0@;
            assert(self.wf()) by {
                assert forall|a: int, b: int|
                    #![trigger self.entries@[a], self.entries@[b]]
                    0 <= a < b < self.entries@.len() implies self.entries@[a].0@
                    != self.entries@[b].0@ by {
                    let a2 = if a < i { a } else { a + 1 };
                    let b2 = if b < i { b } else { b + 1 };
                    assert(before.entries@[a2].0@ != before.entries@[b2].0@);
                }
            }
            assert(before.holds(k, i as int));
            assert forall|q: Seq<char>| self.has(q) == before@.remove(k).dom().contains(q) by {
                if self.has(q) {
                    let p = self.place(q);
                    let p2 = if p < i { p } else { p + 1 };
                    assert(before.holds(q, p2));
                    if q == k {
                        before.lemma_place(k, i as int);
                        before.lemma_place(k, p2);
                    }
                }
                if before.has(q) && q != k {
                    let p = before.place(q);
                    assert(before.holds(q, p));
                    let p2 = if p < i { p } else { p - 1 };
                    assert(self.holds(q, p2));
                }
            }
            assert forall|q: Seq<char>| self.has(q) implies self@[q] == before@.remove(k)[q] by {
                let p = self.place(q);
                assert(self.holds(q, p));
                let p2 = if p < i { p } else { p + 1 };
                assert(before.holds(q, p2));
                before.lemma_place(q, p2);
                self.lemma_place(q, p);
            }
            assert(self@ =~= before@.remove(k));
        }
        r
    }

    pub fn remove(&mut self, key: &str) -> (r: Option<V>)
        requires
            old(self).wf(),
        ensures
            final(self).wf(),
            final(self)@ == old(self)@.remove(key@),
            r == (if old(self)@.dom().contains(key@) {
                Some(old(self)@[key@])
            } else {
                None
            }),
    {
        match self.find(key) {
            Some(i) => {
                let entry = self.remove_at(i);
                Some(entry.1)
            },
            None => {
                proof {
                    assert(self@ =~= old(self)@.remove(key@));
                }
                None
            },
        }
    }

    /// Gives every key the same value.
    pub fn set_all(&mut self, value: V) where V: Copy
        requires
            old(self).wf(),
        ensures
            final(self).wf(),
            final(self)@ == old(self)@.map_values(|v: V| value),
            final(self).entries@.len() == old(self).entries@.len(),
    {
        let ghost before = *self;
        let mut i: usize = 0;
        while i < self.entries.len()
            invariant
                i <= self.entries@.len(),
                self.entries@.len() == before.entries@.len(),
                forall|k: int|
                    #![trigger self.entries@[k]]
                    0 <= k < self.entries@.len() ==> self.entries@[k].0 == before.entries@[k].0,
                forall|k: int| #![trigger self.entries@[k]] 0 <= k < i ==> self.entries@[k].1 == value,
            decreases self.entries@.len() - i,
        {
            let e = &mut self.entries[i];
            e.1 = value;
            i = i + 1;
        }
        proof {
            assert forall|a: int, b: int|
                #![trigger self.entries@[a], self.entries@[b]]
                0 <= a < b < self.entries@.len() implies self.entries@[a].0@
                != self.entries@[b].0@ by {
                assert(before.entries@[a].0@ != before.entries@[b].0@);
            }
            let expected = before@.map_values(|v: V| value);
            assert forall|key: Seq<char>| self@.dom().contains(key) == #[trigger] expected.dom().contains(
                key,
            ) by {
                if self.has(key) {
                    assert(self.holds(key, self.place(key)));
                    assert(before.holds(key, self.place(key)));
                }
                if before.has(key) {
                    assert(before.holds(key, before.place(key)));
                    assert(self.holds(key, before.place(key)));
                }
            }
            assert forall|key: Seq<char>| #[trigger] self@.dom().contains(key) implies self@[key]
                == expected[key] by {
                assert(self.holds(key, self.place(key)));
                assert(before.holds(key, self.place(key)));
            }
            assert(self@ =~= expected);
        }
    }
}

} // verus!

//! Small tables of keys and values.

use vstd::prelude::*;

verus! {

/// A key that can be compared.
pub trait TableKey: Sized {
    /// Whether two keys are the same.
    spec fn same(&self, other: &Self) -> bool;

    fn is_same(&self, other: &Self) -> (r: bool)
        ensures
            r == self.same(other),
    ;
}

impl TableKey for usize {
    open spec fn same(&self, other: &Self) -> bool {
        *self == *other
    }

    fn is_same(&self, other: &Self) -> (r: bool) {
        *self == *other
    }
}

/// A table in which every key was put in once.
#[derive(Debug)]
pub struct Table<K, V> {
    pub entries: Vec<(K, V)>,
}

/// Whether the entry at `i` is the first one under `key`.
pub open spec fn first_under<K: TableKey, V>(entries: Seq<(K, V)>, key: K, i: int) -> bool {
    &&& 0 <= i < entries.len()
    &&& entries[i].0.same(&key)
    &&& forall|k: int| 0 <= k < i ==> !(#[trigger] entries[k]).0.same(&key)
}

/// Whether some entry is under `key`.
pub open spec fn has_key<K: TableKey, V>(entries: Seq<(K, V)>, key: K) -> bool {
    exists|i: int| first_under(entries, key, i)
}

/// The value under `key`.
pub open spec fn value_under<K: TableKey, V>(entries: Seq<(K, V)>, key: K) -> V {
    entries[choose|i: int| first_under(entries, key, i)].1
}

/// What `key` stands for.
pub open spec fn lookup<K: TableKey, V>(entries: Seq<(K, V)>, key: K) -> Option<V> {
    if has_key(entries, key) {
        Some(value_under(entries, key))
    } else {
        None
    }
}

pub proof fn lemma_first<K: TableKey, V>(entries: Seq<(K, V)>, key: K, i: int)
    requires
        first_under(entries, key, i),
    ensures
        has_key(entries, key),
        value_under(entries, key) == entries[i].1,
{
    let j = choose|j: int| first_under(entries, key, j);
    assert(first_under(entries, key, j));
    if j < i {
        assert(!entries[j].0.same(&key));
    } else if i < j {
        assert(!entries[i].0.same(&key));
    }
}

/// The entries after `value` was put in under `key`: it replaces the one that
/// was there.
pub open spec fn put<K: TableKey, V>(entries: Seq<(K, V)>, key: K, value: V) -> Seq<(K, V)> {
    if has_key(entries, key) {
        let i = choose|i: int| first_under(entries, key, i);
        entries.update(i, (entries[i].0, value))
    } else {
        entries.push((key, value))
    }
}

impl<K: TableKey, V> Table<K, V> {
    pub fn new() -> (t: Table<K, V>)
        ensures
            t.entries@.len() == 0,
    {
        Table { entries: Vec::new() }
    }

    /// The place of the first entry under `key`.
    pub fn find(&self, key: &K) -> (r: Option<usize>)
        ensures
            match r {
                Some(i) => first_under(self.entries@, *key, i as int) && has_key(
                    self.entries@,
                    *key,
                ) && value_under(self.entries@, *key) == self.entries@[i as int].1,
                None => !has_key(self.entries@, *key) && forall|k: int|
                    0 <= k < self.entries@.len() ==> !(#[trigger] self.entries@[k]).0.same(key),
            },
    {
        let mut i: usize = 0;
        while i < self.entries.len()
            invariant
                i <= self.entries@.len(),
                forall|k: int| 0 <= k < i ==> !(#[trigger] self.entries@[k]).0.same(key),
            decreases self.entries@.len() - i,
        {
            if self.entries[i].0.is_same(key) {
                proof {
                    lemma_first(self.entries@, *key, i as int);
                }
                return Some(i);
            }
            i = i + 1;
        }
        None
    }

    pub fn contains_key(&self, key: &K) -> (r: bool)
        ensures
            r == has_key(self.entries@, *key),
    {
        self.find(key).is_some()
    }

    /// Puts a value in under `key`.
    pub fn insert(&mut self, key: K, value: V)
        ensures
            final(self).entries@ == put(old(self).entries@, key, value),
    {
        match self.find(&key) {
            Some(i) => {
                proof {
                    let j = choose|j: int| first_under(self.entries@, key, j);
                    assert(first_under(self.entries@, key, j));
                    if j < i {
                        assert(!self.entries@[j].0.same(&key));
                    } else if i < j {
                        assert(!self.entries@[i as int].0.same(&key));
                    }
                }
                let ghost before = self.entries@;
                let e = &mut self.entries[i];
                e.1 = value;
                proof {
                    assert(self.entries@ =~= put(before, key, value));
                }
            },
            None => {
                self.entries.push((key, value));
            },
        }
    }
}

/// A value is found under the key it was put in under, if the key is the same
/// as itself.
pub proof fn put_value_is_found<K: TableKey, V>(entries: Seq<(K, V)>, key: K, value: V)
    requires
        key.same(&key),
    ensures
        has_key(put(entries, key, value), key),
        value_under(put(entries, key, value), key) == value,
{
    let after = put(entries, key, value);
    if has_key(entries, key) {
        let i = choose|i: int| first_under(entries, key, i);
        assert(first_under(entries, key, i));
        assert forall|k: int| 0 <= k < i implies !(#[trigger] after[k]).0.same(&key) by {
            assert(!entries[k].0.same(&key));
        }
        lemma_first(after, key, i);
    } else {
        let n = entries.len() as int;
        lemma_none_before(entries, key, n);
        assert forall|k: int| 0 <= k < n implies !(#[trigger] after[k]).0.same(&key) by {
            assert(after[k] == entries[k]);
        }
        lemma_first(after, key, n);
    }
}

/// What another key stands for is not changed by what is put in.
pub proof fn put_leaves_other_keys<K: TableKey, V>(
    entries: Seq<(K, V)>,
    key: K,
    value: V,
    other: K,
)
    requires
        forall|k: K| !((#[trigger] k.same(&key)) && k.same(&other)),
        key.same(&key),
    ensures
        lookup(put(entries, key, value), other) == lookup(entries, other),
{
    let after = put(entries, key, value);
    if has_key(entries, other) {
        let i = choose|i: int| first_under(entries, other, i);
        assert(first_under(entries, other, i));
        if has_key(entries, key) {
            let p = choose|p: int| first_under(entries, key, p);
            assert(first_under(entries, key, p));
            assert(p != i);
        }
        assert(after[i] == entries[i]);
        assert forall|k: int| 0 <= k < i implies !(#[trigger] after[k]).0.same(&other) by {
            assert(after[k].0 == entries[k].0);
        }
        lemma_first(after, other, i);
    } else if has_key(after, other) {
        let i = choose|i: int| first_under(after, other, i);
        assert(first_under(after, other, i));
        if i < entries.len() {
            lemma_none_before(entries, other, entries.len() as int);
            assert(after[i].0 == entries[i].0);
        } else {
            assert(after[i].0 == key);
            assert(key.same(&key));
        }
    }
}

proof fn lemma_none_before<K: TableKey, V>(entries: Seq<(K, V)>, key: K, n: int)
    requires
        !has_key(entries, key),
        0 <= n <= entries.len(),
    ensures
        forall|k: int| 0 <= k < n ==> !(#[trigger] entries[k]).0.same(&key),
    decreases n,
{
    if n > 0 {
        lemma_none_before(entries, key, n - 1);
        if entries[n - 1].0.same(&key) {
            assert(first_under(entries, key, n - 1));
        }
    }
}

} // verus!

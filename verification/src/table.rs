//! Tables and sets that find a row by its key.
use vstd::prelude::*;
use crate::ids::{MessageId, RoomId, UserId};

verus! {

/// Something that rows are found by.
pub trait Key: Sized {
    fn same_key(&self, other: &Self) -> (same: bool)
        ensures
            same == (*self == *other),
    ;
}

impl Key for UserId {
    fn same_key(&self, other: &Self) -> (same: bool) {
        self.same(other)
    }
}

impl Key for RoomId {
    fn same_key(&self, other: &Self) -> (same: bool) {
        self.same(other)
    }
}

impl Key for MessageId {
    fn same_key(&self, other: &Self) -> (same: bool) {
        self.same(other)
    }
}

impl Key for u64 {
    fn same_key(&self, other: &Self) -> (same: bool) {
        *self == *other
    }
}

impl<const N: usize> Key for [u8; N] {
    fn same_key(&self, other: &Self) -> (same: bool) {
        crate::bytes::same_bytes(self, other)
    }
}

impl<A: Key, B: Key> Key for (A, B) {
    fn same_key(&self, other: &Self) -> (same: bool) {
        self.0.same_key(&other.0) && self.1.same_key(&other.1)
    }
}

/// Rows of which no two have the same key.
pub struct Table<K: Key, V: DeepView> {
    rows: Vec<(K, V)>,
}

impl<K: Key, V: DeepView> Table<K, V> {
    #[verifier::type_invariant]
    closed spec fn keys_distinct(self) -> bool {
        forall|i: int, j: int|
            0 <= i < j < self.rows@.len() ==> (#[trigger] self.rows@[i]).0 != (
            #[trigger] self.rows@[j]).0
    }

    closed spec fn holds(self, key: K, i: int) -> bool {
        0 <= i < self.rows@.len() && self.rows@[i].0 == key
    }
}

impl<K: Key, V: DeepView> DeepView for Table<K, V> {
    type V = Map<K, V::V>;

    closed spec fn deep_view(&self) -> Map<K, V::V> {
        Map::new(
            |key: K| exists|i: int| self.holds(key, i),
            |key: K| self.rows@[choose|i: int| self.holds(key, i)].1.deep_view(),
        )
    }
}

impl<K: Key, V: DeepView> Table<K, V> {
    /// No rows.
    pub fn new() -> (table: Table<K, V>)
        ensures
            table.deep_view() == Map::<K, V::V>::empty(),
    {
        let table = Table { rows: Vec::new() };
        assert(table.deep_view() =~= Map::<K, V::V>::empty());
        table
    }

    fn find(&self, key: &K) -> (found: Option<usize>)
        ensures
            match found {
                Some(i) => self.holds(*key, i as int) && self.deep_view().contains_key(*key)
                    && self.deep_view()[*key] == self.rows@[i as int].1.deep_view(),
                None => !self.deep_view().contains_key(*key) && forall|i: int|
                    !self.holds(*key, i),
            },
    {
        let mut at: usize = 0;
        while at < self.rows.len()
            invariant
                at <= self.rows@.len(),
                forall|i: int| 0 <= i < at ==> (#[trigger] self.rows@[i]).0 != *key,
            decreases self.rows.len() - at,
        {
            if self.rows[at].0.same_key(key) {
                proof {
                    use_type_invariant(self);
                    assert(self.holds(*key, at as int));
                }
                return Some(at);
            }
            at += 1;
        }
        None
    }

    /// The row under a key.
    pub fn get(&self, key: &K) -> (row: Option<&V>)
        ensures
            match row {
                Some(value) => self.deep_view().contains_key(*key) && value.deep_view()
                    == self.deep_view()[*key],
                None => !self.deep_view().contains_key(*key),
            },
    {
        match self.find(key) {
            Some(i) => Some(&self.rows[i].1),
            None => None,
        }
    }

    /// Whether there is a row under a key.
    pub fn contains(&self, key: &K) -> (yes: bool)
        ensures
            yes == self.deep_view().contains_key(*key),
    {
        self.find(key).is_some()
    }

    /// Puts a row under a key, in place of the one that is there.
    pub fn insert(&mut self, key: K, value: V)
        ensures
            final(self).deep_view() == old(self).deep_view().insert(key, value.deep_view()),
    {
        let ghost before = *self;
        proof {
            use_type_invariant(&*self);
        }
        match self.find(&key) {
            Some(i) => {
                let mut rows: Vec<(K, V)> = Vec::new();
                std::mem::swap(&mut rows, &mut self.rows);
                rows.set(i, (key, value));
                self.rows = rows;
                proof {
                    let after = *self;
                    assert forall|k: K| before.deep_view().insert(
                        key,
                        value.deep_view(),
                    ).contains_key(k)
                        == after.deep_view().contains_key(k) by {
                        if before.deep_view().contains_key(k) {
                            let j = choose|j: int| before.holds(k, j);
                            assert(after.holds(k, j));
                        }
                        if after.deep_view().contains_key(k) {
                            let j = choose|j: int| after.holds(k, j);
                            assert(before.holds(k, j));
                        }
                        assert(after.holds(key, i as int));
                    }
                    assert forall|k: K| after.deep_view().contains_key(k) implies
                        before.deep_view().insert(key, value.deep_view())[k] == after.deep_view()[k] by {
                        let j = choose|j: int| after.holds(k, j);
                        if k == key {
                            assert(after.holds(key, i as int));
                            assert(j == i);
                        } else {
                            assert(before.holds(k, j));
                            let l = choose|l: int| before.holds(k, l);
                            assert(l == j);
                        }
                    }
                    assert(after.deep_view() =~= before.deep_view().insert(key, value.deep_view()));
                }
            },
            None => {
                let mut rows: Vec<(K, V)> = Vec::new();
                std::mem::swap(&mut rows, &mut self.rows);
                rows.push((key, value));
                assert forall|i: int, j: int| 0 <= i < j < rows@.len() implies (#[trigger] rows@[i]).0 != (
                    #[trigger] rows@[j]).0 by {
                    if j == before.rows@.len() {
                        assert(!before.holds(key, i));
                    }
                }
                self.rows = rows;
                proof {
                    let after = *self;
                    let last = before.rows@.len() as int;
                    assert(after.holds(key, last));
                    assert forall|k: K| before.deep_view().insert(
                        key,
                        value.deep_view(),
                    ).contains_key(k)
                        == after.deep_view().contains_key(k) by {
                        if before.deep_view().contains_key(k) {
                            let j = choose|j: int| before.holds(k, j);
                            assert(after.holds(k, j));
                        }
                        if after.deep_view().contains_key(k) && k != key {
                            let j = choose|j: int| after.holds(k, j);
                            assert(before.holds(k, j));
                        }
                    }
                    assert forall|k: K| after.deep_view().contains_key(k) implies
                        before.deep_view().insert(key, value.deep_view())[k] == after.deep_view()[k] by {
                        let j = choose|j: int| after.holds(k, j);
                        if k == key {
                            assert(j == last);
                        } else {
                            assert(before.holds(k, j));
                            let l = choose|l: int| before.holds(k, l);
                            assert(l == j);
                        }
                    }
                    assert(after.deep_view() =~= before.deep_view().insert(key, value.deep_view()));
                }
            },
        }
    }

    /// Removes the row under a key, if there is one.
    pub fn remove(&mut self, key: &K)
        ensures
            final(self).deep_view() == old(self).deep_view().remove(*key),
    {
        let ghost before = *self;
        proof {
            use_type_invariant(&*self);
        }
        match self.find(key) {
            Some(i) => {
                let mut rows: Vec<(K, V)> = Vec::new();
                std::mem::swap(&mut rows, &mut self.rows);
                rows.remove(i);
                assert forall|a: int, b: int| 0 <= a < b < rows@.len() implies (#[trigger] rows@[a]).0 != (
                    #[trigger] rows@[b]).0 by {
                    let a2 = if a < i { a } else { a + 1 };
                    let b2 = if b < i { b } else { b + 1 };
                    assert(before.rows@[a2].0 != before.rows@[b2].0);
                }
                self.rows = rows;
                proof {
                    let after = *self;
                    assert forall|k: K| before.deep_view().remove(*key).contains_key(k)
                        == after.deep_view().contains_key(k) by {
                        if before.deep_view().contains_key(k) && k != *key {
                            let j = choose|j: int| before.holds(k, j);
                            assert(after.holds(k, if j < i { j } else { j - 1 }));
                        }
                        if after.deep_view().contains_key(k) {
                            let j = choose|j: int| after.holds(k, j);
                            let l = if j < i { j } else { j + 1 };
                            assert(before.holds(k, l));
                            assert(before.holds(*key, i as int));
                        }
                    }
                    assert forall|k: K| after.deep_view().contains_key(k) implies
                        before.deep_view().remove(*key)[k] == after.deep_view()[k] by {
                        let j = choose|j: int| after.holds(k, j);
                        let l = if j < i { j } else { j + 1 };
                        assert(before.holds(k, l));
                        let m = choose|m: int| before.holds(k, m);
                        assert(m == l);
                    }
                    assert(after.deep_view() =~= before.deep_view().remove(*key));
                }
            },
            None => {
                assert(before.deep_view().remove(*key) =~= before.deep_view());
            },
        }
    }

    /// The keys in the order in which their rows came.
    pub closed spec fn row_keys(self) -> Seq<K> {
        Seq::new(self.rows@.len(), |i: int| self.rows@[i].0)
    }

    /// How many rows there are. The keys of the rows are the keys of the table,
    /// each once.
    pub fn len(&self) -> (count: usize)
        ensures
            self.row_keys().len() == count,
            self.row_keys().no_duplicates(),
            forall|key: K| self.row_keys().contains(key) <==> #[trigger] self.deep_view().contains_key(
                key,
            ),
    {
        proof {
            use_type_invariant(self);
            assert forall|key: K| self.row_keys().contains(key) <==> #[trigger] self.deep_view().contains_key(key) by {
                if self.deep_view().contains_key(key) {
                    let i = choose|i: int| self.holds(key, i);
                    assert(self.row_keys()[i] == key);
                }
                if self.row_keys().contains(key) {
                    let i = choose|i: int| 0 <= i < self.row_keys().len() && self.row_keys()[i] == key;
                    assert(self.holds(key, i));
                }
            }
        }
        self.rows.len()
    }

    /// The row at a place in the order.
    pub fn at(&self, index: usize) -> (row: (&K, &V))
        requires
            index < self.row_keys().len(),
        ensures
            *row.0 == self.row_keys()[index as int],
            self.deep_view().contains_key(*row.0),
            row.1.deep_view() == self.deep_view()[*row.0],
    {
        proof {
            use_type_invariant(self);
            assert(self.holds(self.rows@[index as int].0, index as int));
            let j = choose|j: int| self.holds(self.rows@[index as int].0, j);
            assert(j == index);
        }
        (&self.rows[index].0, &self.rows[index].1)
    }
}

/// Keys of which no two are the same.
pub struct KeySet<K: Key> {
    table: Table<K, bool>,
}

impl<K: Key> View for KeySet<K> {
    type V = Set<K>;

    closed spec fn view(&self) -> Set<K> {
        self.table.deep_view().dom()
    }
}

impl<K: Key> KeySet<K> {
    /// No keys.
    pub fn new() -> (set: KeySet<K>)
        ensures
            set@ == Set::<K>::empty(),
    {
        let set = KeySet { table: Table::new() };
        assert(set@ =~= Set::<K>::empty());
        set
    }

    /// Whether a key is there.
    pub fn contains(&self, key: &K) -> (yes: bool)
        ensures
            yes == self@.contains(*key),
    {
        self.table.contains(key)
    }

    /// Adds a key.
    pub fn insert(&mut self, key: K)
        ensures
            final(self)@ == old(self)@.insert(key),
    {
        self.table.insert(key, true);
        assert(self@ =~= old(self)@.insert(key));
    }

    /// Removes a key.
    pub fn remove(&mut self, key: &K)
        ensures
            final(self)@ == old(self)@.remove(*key),
    {
        self.table.remove(key);
        assert(self@ =~= old(self)@.remove(*key));
    }
}

} // verus!

//! A table from names to values that keeps the order in which the names
//! were first entered and holds each name once.

use crate::text::str_eq;
use vstd::prelude::*;

verus! {

/// Whether no text occurs twice in `keys`.
pub open spec fn distinct(keys: Seq<Seq<char>>) -> bool {
    forall|i: int, j: int| 0 <= i < j < keys.len() ==> keys[i] != keys[j]
}

/// The place of `key` in `keys`, or `keys.len()` where it does not occur.
pub open spec fn position_of(keys: Seq<Seq<char>>, key: Seq<char>) -> int
    decreases keys.len(),
{
    if keys.len() == 0 {
        0
    } else if keys[0] == key {
        0
    } else {
        1 + position_of(keys.drop_first(), key)
    }
}

/// `position_of` gives the first place at which `key` stands.
pub proof fn lemma_position_of(keys: Seq<Seq<char>>, key: Seq<char>)
    ensures
        0 <= position_of(keys, key) <= keys.len(),
        position_of(keys, key) < keys.len() ==> keys[position_of(keys, key)] == key,
        forall|i: int| 0 <= i < position_of(keys, key) ==> keys[i] != key,
        keys.contains(key) <==> position_of(keys, key) < keys.len(),
    decreases keys.len(),
{
    if keys.len() > 0 && keys[0] != key {
        let rest = keys.drop_first();
        lemma_position_of(rest, key);
        assert forall|i: int| 0 <= i < position_of(keys, key) implies keys[i] != key by {
            if i > 0 {
                assert(keys[i] == rest[i - 1]);
            }
        }
        if keys.contains(key) {
            let i = choose|i: int| 0 <= i < keys.len() && keys[i] == key;
            assert(rest[i - 1] == key);
        }
        if position_of(keys, key) < keys.len() {
            assert(keys[position_of(keys, key)] == rest[position_of(rest, key)]);
        }
    }
}

/// What a table holds: its names in the order of entry, and the value of
/// each name at the same place.
pub struct Table<V> {
    pub keys: Seq<Seq<char>>,
    pub values: Seq<V>,
}

impl<V> Table<V> {
    /// The table without names.
    pub open spec fn empty() -> Self {
        Table { keys: Seq::empty(), values: Seq::empty() }
    }

    /// Whether there is a value for each name, and no name twice.
    pub open spec fn wf(self) -> bool {
        distinct(self.keys) && self.keys.len() == self.values.len()
    }

    /// Whether `key` is a name of the table.
    pub open spec fn has(self, key: Seq<char>) -> bool {
        self.keys.contains(key)
    }

    /// The value entered under `key`; arbitrary where `key` is no name of
    /// the table.
    pub open spec fn value_of(self, key: Seq<char>) -> V {
        self.values[position_of(self.keys, key)]
    }

    /// The table once `value` was entered under `key`: a value entered
    /// under the same name before is replaced and the name keeps its place;
    /// a new name goes to the end.
    pub open spec fn insert(self, key: Seq<char>, value: V) -> Self {
        if self.has(key) {
            Table { keys: self.keys, values: self.values.update(position_of(self.keys, key), value) }
        } else {
            Table { keys: self.keys.push(key), values: self.values.push(value) }
        }
    }

    /// The names of the table, as a set.
    pub open spec fn names(self) -> Set<Seq<char>> {
        Set::new(|key: Seq<char>| self.has(key))
    }

    /// The table as a map from names to values.
    pub open spec fn as_map(self) -> Map<Seq<char>, V> {
        Map::new(|key: Seq<char>| self.has(key), |key: Seq<char>| self.value_of(key))
    }

    /// Entering a value keeps the table well formed, gives `key` the new
    /// value and leaves every other name as it was.
    pub proof fn lemma_insert(self, key: Seq<char>, value: V)
        requires
            self.wf(),
        ensures
            self.insert(key, value).wf(),
            self.insert(key, value).has(key),
            self.insert(key, value).value_of(key) == value,
            forall|other: Seq<char>|
                other != key ==> (#[trigger] self.insert(key, value).has(other) == self.has(
                    other,
                )),
            forall|other: Seq<char>|
                other != key && self.has(other) ==> #[trigger] self.insert(key, value).value_of(
                    other,
                ) == self.value_of(other),
            self.insert(key, value).as_map() == self.as_map().insert(key, value),
            self.insert(key, value).names() == self.names().insert(key),
    {
        let after = self.insert(key, value);
        lemma_position_of(self.keys, key);
        lemma_position_of(after.keys, key);
        if !self.has(key) {
            assert(after.keys[self.keys.len() as int] == key);
        }
        assert forall|other: Seq<char>| other != key implies (#[trigger] after.has(other)
            == self.has(other)) by {
            if after.has(other) {
                let i = choose|i: int| 0 <= i < after.keys.len() && after.keys[i] == other;
                assert(self.keys[i] == other);
            }
            if self.has(other) {
                let i = choose|i: int| 0 <= i < self.keys.len() && self.keys[i] == other;
                assert(after.keys[i] == other);
            }
        }
        assert forall|other: Seq<char>| other != key && self.has(other) implies #[trigger] after.value_of(
            other,
        ) == self.value_of(other) by {
            lemma_position_of(self.keys, other);
            lemma_position_of(after.keys, other);
            let p = position_of(self.keys, other);
            let q = position_of(after.keys, other);
            assert(after.keys[p] == other);
            if q < p {
                assert(self.keys[q] == other);
            }
        }
        assert(after.as_map() =~= self.as_map().insert(key, value));
        assert(after.names() =~= self.names().insert(key));
    }
}

impl<V: View> Table<V> {
    /// The table with each value replaced by its view.
    pub open spec fn views(self) -> Table<V::V> {
        Table { keys: self.keys, values: Seq::new(self.values.len(), |i: int| self.values[i]@) }
    }

    /// Entering a value and taking the views can be done in either order.
    pub proof fn lemma_views_insert(self, key: Seq<char>, value: V)
        requires
            self.wf(),
        ensures
            self.insert(key, value).views() == self.views().insert(key, value@),
    {
        lemma_position_of(self.keys, key);
        let left = self.insert(key, value).views();
        let right = self.views().insert(key, value@);
        assert(left.keys =~= right.keys);
        assert(left.values =~= right.values);
    }
}

impl<V: DeepView> Table<V> {
    /// The table with each value replaced by its deep view.
    pub open spec fn deep(self) -> Table<V::V> {
        Table {
            keys: self.keys,
            values: Seq::new(self.values.len(), |i: int| self.values[i].deep_view()),
        }
    }

    /// Entering a value and taking the deep views can be done in either
    /// order.
    pub proof fn lemma_deep_insert(self, key: Seq<char>, value: V)
        requires
            self.wf(),
        ensures
            self.insert(key, value).deep() == self.deep().insert(key, value.deep_view()),
    {
        lemma_position_of(self.keys, key);
        let left = self.insert(key, value).deep();
        let right = self.deep().insert(key, value.deep_view());
        assert(left.keys =~= right.keys);
        assert(left.values =~= right.values);
    }
}

/// One name with the value entered under it.
#[derive(Debug, Clone, PartialEq, Eq)]
pub struct Entry<V> {
    pub key: String,
    pub value: V,
}

/// A table from names to values. Each name stands in it once, at the place
/// where it was first entered.
#[derive(Debug, Clone, PartialEq, Eq)]
pub struct NameTable<V> {
    entries: Vec<Entry<V>>,
}

impl<V> View for NameTable<V> {
    type V = Table<V>;

    closed spec fn view(&self) -> Table<V> {
        Table {
            keys: Seq::new(self.entries@.len(), |i: int| self.entries@[i].key@),
            values: Seq::new(self.entries@.len(), |i: int| self.entries@[i].value),
        }
    }
}

impl<V: DeepView> DeepView for NameTable<V> {
    type V = Table<V::V>;

    open spec fn deep_view(&self) -> Table<V::V> {
        self@.deep()
    }
}

impl<V> NameTable<V> {
    /// Whether the table is well formed: a value for each name, and no
    /// name twice.
    pub open spec fn wf(&self) -> bool {
        self@.wf()
    }

    /// The empty table.
    pub fn new() -> (res: Self)
        ensures
            res.wf(),
            res@ == Table::<V>::empty(),
    {
        let res = NameTable { entries: Vec::new() };
        assert(res@.keys =~= Seq::<Seq<char>>::empty());
        assert(res@.values =~= Seq::<V>::empty());
        res
    }

    /// The number of names.
    pub fn len(&self) -> (res: usize)
        ensures
            res == self@.keys.len(),
            res == self@.values.len(),
    {
        self.entries.len()
    }

    /// The name at place `index`.
    pub fn key_at(&self, index: usize) -> (res: &String)
        requires
            index < self@.keys.len(),
        ensures
            res@ == self@.keys[index as int],
    {
        &self.entries[index].key
    }

    /// The value at place `index`.
    pub fn value_at(&self, index: usize) -> (res: &V)
        requires
            index < self@.keys.len(),
        ensures
            *res == self@.values[index as int],
    {
        &self.entries[index].value
    }

    /// The place of `key`, if it is a name of the table.
    pub fn position(&self, key: &str) -> (res: Option<usize>)
        ensures
            res is Some == self@.has(key@),
            res matches Some(index) ==> index == position_of(self@.keys, key@) && index
                < self@.keys.len(),
    {
        let mut index: usize = 0;
        while index < self.entries.len()
            invariant
                index <= self.entries@.len(),
                forall|i: int| 0 <= i < index ==> self@.keys[i] != key@,
            decreases self.entries@.len() - index,
        {
            if str_eq(self.entries[index].key.as_str(), key) {
                proof {
                    lemma_position_of(self@.keys, key@);
                    assert(self@.keys[index as int] == key@);
                }
                return Some(index);
            }
            index += 1;
        }
        proof {
            lemma_position_of(self@.keys, key@);
        }
        None
    }

    /// Whether `key` is a name of the table.
    pub fn contains_key(&self, key: &str) -> (res: bool)
        ensures
            res == self@.has(key@),
    {
        self.position(key).is_some()
    }

    /// The value entered under `key`, if there is one.
    pub fn get(&self, key: &str) -> (res: Option<&V>)
        ensures
            res is Some == self@.has(key@),
            res matches Some(value) ==> *value == self@.value_of(key@),
    {
        match self.position(key) {
            Some(index) => Some(&self.entries[index].value),
            None => None,
        }
    }

    /// Enters `value` under `key`. A value entered under the same name
    /// before is replaced, and the name keeps its place; a new name goes to
    /// the end.
    pub fn insert(&mut self, key: String, value: V)
        requires
            old(self).wf(),
        ensures
            final(self).wf(),
            final(self)@ == old(self)@.insert(key@, value),
    {
        proof {
            lemma_position_of(self@.keys, key@);
            self@.lemma_insert(key@, value);
        }
        let ghost before = self@;
        match self.position(key.as_str()) {
            Some(index) => {
                self.entries.set(index, Entry { key, value });
            },
            None => {
                self.entries.push(Entry { key, value });
            },
        }
        assert(self@.keys =~= before.insert(key@, value).keys);
        assert(self@.values =~= before.insert(key@, value).values);
    }
}

} // verus!

//! A table from names to values that keeps the order in which the names
//! came: what the machine looks its registers, operations and labels up in.

use vstd::prelude::*;

verus! {

/// The mathematical content of a [`Table`]: its names, no two alike, and
/// the value that stands under each.
pub struct TableView<T> {
    pub names: Seq<Seq<char>>,
    pub values: Seq<T>,
}

impl<T> TableView<T> {
    /// As many values as names, and no name twice.
    pub open spec fn wf(self) -> bool {
        self.names.len() == self.values.len() && self.names.no_duplicates()
    }

    /// The table without entries.
    pub open spec fn empty() -> TableView<T> {
        TableView { names: Seq::empty(), values: Seq::empty() }
    }

    /// The place of `name`, if the table holds it.
    pub open spec fn position(self, name: Seq<char>) -> Option<int> {
        if self.names.contains(name) {
            Some(self.names.index_of(name))
        } else {
            None
        }
    }

    /// The table after `value` was put under `name`: in the place that
    /// `name` has, or else behind all others.
    pub open spec fn put(self, name: Seq<char>, value: T) -> TableView<T> {
        match self.position(name) {
            Some(i) => TableView { names: self.names, values: self.values.update(i, value) },
            None => TableView { names: self.names.push(name), values: self.values.push(value) },
        }
    }

    /// The value that stands under `name`, if the table holds it.
    pub open spec fn lookup(self, name: Seq<char>) -> Option<T> {
        match self.position(name) {
            Some(i) => Some(self.values[i]),
            None => None,
        }
    }

    /// After a value was put under a name it is what stands there, and
    /// what stands under the other names is what stood there before.
    pub proof fn lemma_put_lookup(self, name: Seq<char>, value: T, other: Seq<char>)
        requires
            self.wf(),
        ensures
            self.put(name, value).lookup(other) == if other == name {
                Some(value)
            } else {
                self.lookup(other)
            },
    {
        self.lemma_position(name);
        self.lemma_position(other);
        self.lemma_put_wf(name, value);
        let after = self.put(name, value);
        after.lemma_position(other);
        match self.position(name) {
            Some(i) => {
                if other == name {
                    after.lemma_position_unique(other, i);
                } else if self.position(other) is Some {
                    after.lemma_position_unique(other, self.position(other)->0);
                }
            },
            None => {
                if other == name {
                    after.lemma_position_unique(other, self.names.len() as int);
                } else if self.position(other) is Some {
                    after.lemma_position_unique(other, self.position(other)->0);
                } else {
                    assert(!after.names.contains(other));
                }
            },
        }
    }

    /// A place found for a name is a place of the table, and holds that name.
    pub proof fn lemma_position(self, name: Seq<char>)
        ensures
            match self.position(name) {
                Some(i) => 0 <= i < self.names.len() && self.names[i] == name,
                None => forall|k: int| 0 <= k < self.names.len() ==> self.names[k] != name,
            },
    {
    }

    /// In a table without repeated names, the place that holds a name is the
    /// place found for it.
    pub proof fn lemma_position_unique(self, name: Seq<char>, i: int)
        requires
            self.names.no_duplicates(),
            0 <= i < self.names.len(),
            self.names[i] == name,
        ensures
            self.position(name) == Some(i),
    {
    }

    /// Putting keeps a table well formed.
    pub proof fn lemma_put_wf(self, name: Seq<char>, value: T)
        requires
            self.wf(),
        ensures
            self.put(name, value).wf(),
            self.put(name, value).names.len() >= self.names.len(),
            forall|k: int|
                0 <= k < self.names.len() ==> self.put(name, value).names[k] == self.names[k],
    {
        self.lemma_position(name);
    }
}

/// A table from names to values, in the order in which the names came.
pub struct Table<T> {
    names: Vec<String>,
    values: Vec<T>,
}

/// The texts of a list of names.
pub open spec fn texts(names: Seq<String>) -> Seq<Seq<char>> {
    names.map_values(|n: String| n@)
}

impl<T> View for Table<T> {
    type V = TableView<T>;

    closed spec fn view(&self) -> TableView<T> {
        TableView { names: texts(self.names@), values: self.values@ }
    }
}

impl<T> Table<T> {
    /// The table without entries.
    pub(crate) fn new() -> (table: Table<T>)
        ensures
            table@ == TableView::<T>::empty(),
    {
        let table = Table { names: Vec::new(), values: Vec::new() };
        assert(texts(table.names@) == Seq::<Seq<char>>::empty());
        table
    }

    /// The number of entries.
    pub fn len(&self) -> (n: usize)
        requires
            self@.wf(),
        ensures
            n == self@.names.len(),
    {
        self.names.len()
    }

    /// The place of `name`, if the table holds it.
    pub fn find(&self, name: &str) -> (place: Option<usize>)
        requires
            self@.wf(),
        ensures
            match self@.position(name@) {
                Some(i) => place matches Some(p) && p == i && 0 <= i < self@.names.len(),
                None => place is None,
            },
    {
        let key: String = name.to_owned();
        let mut i: usize = 0;
        while i < self.names.len()
            invariant
                self@.wf(),
                i <= self.names.len(),
                key@ == name@,
                forall|k: int| 0 <= k < i ==> texts(self.names@)[k] != name@,
            decreases self.names.len() - i,
        {
            if self.names[i] == key {
                proof {
                    self@.lemma_position_unique(name@, i as int);
                }
                return Some(i);
            }
            i += 1;
        }
        None
    }

    /// The value in place `i`.
    pub fn get(&self, i: usize) -> (value: &T)
        requires
            self@.wf(),
            i < self@.names.len(),
        ensures
            *value == self@.values[i as int],
    {
        &self.values[i]
    }

    /// The name in place `i`.
    pub fn name(&self, i: usize) -> (name: &String)
        requires
            i < self@.names.len(),
        ensures
            name@ == self@.names[i as int],
    {
        &self.names[i]
    }

    /// Replaces the value in place `i`.
    pub(crate) fn set(&mut self, i: usize, value: T)
        requires
            old(self)@.wf(),
            i < old(self)@.names.len(),
        ensures
            final(self)@ == (TableView {
                names: old(self)@.names,
                values: old(self)@.values.update(i as int, value),
            }),
    {
        self.values.set(i, value);
    }

    /// Puts `value` under `name`, in the place that `name` has or else
    /// behind all others, and returns the place.
    pub(crate) fn insert(&mut self, name: &str, value: T) -> (place: usize)
        requires
            old(self)@.wf(),
        ensures
            final(self)@ == old(self)@.put(name@, value),
            final(self)@.wf(),
            place < final(self)@.names.len(),
            final(self)@.names[place as int] == name@,
    {
        proof {
            self@.lemma_put_wf(name@, value);
            self@.lemma_position(name@);
        }
        match self.find(name) {
            Some(i) => {
                self.values.set(i, value);
                assert(self@.values =~= old(self)@.values.update(i as int, value));
                i
            },
            None => {
                let place: usize = self.names.len();
                self.names.push(name.to_owned());
                self.values.push(value);
                assert(texts(self.names@) =~= texts(old(self).names@).push(name@));
                assert(self@.values =~= old(self)@.values.push(value));
                place
            },
        }
    }
}

} // verus!

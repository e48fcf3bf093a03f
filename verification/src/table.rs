//! A mapping from the identifiers of devices to what is known of each,
//! kept in the order in which the devices became known.

use vstd::prelude::*;

use crate::id::Id;
use crate::text::{first_index, lemma_first_index, lemma_first_index_is};

verus! {

/// Whether no key occurs twice.
pub open spec fn distinct(keys: Seq<Seq<char>>) -> bool {
    forall|i: int, j: int| 0 <= i < j < keys.len() ==> keys[i] != keys[j]
}

/// The keys after `k` has been set: as before where `k` is among them, and
/// else with `k` at the end.
pub open spec fn put_key(keys: Seq<Seq<char>>, k: Seq<char>) -> Seq<Seq<char>> {
    if first_index(keys, k) < keys.len() {
        keys
    } else {
        keys.push(k)
    }
}

/// The values after `k` has been set to `v`: `v` in the place of `k`, which
/// is the end where `k` is new.
pub open spec fn put_value<V>(keys: Seq<Seq<char>>, values: Seq<V>, k: Seq<char>, v: V) -> Seq<V> {
    if first_index(keys, k) < keys.len() {
        values.update(first_index(keys, k), v)
    } else {
        values.push(v)
    }
}

/// Setting a key keeps the keys distinct.
pub proof fn lemma_put_distinct(keys: Seq<Seq<char>>, k: Seq<char>)
    requires
        distinct(keys),
    ensures
        distinct(put_key(keys, k)),
{
    lemma_first_index(keys, k);
}

/// A mapping from identifiers to values of one type.
#[derive(Debug, PartialEq)]
pub struct Table<V> {
    ids: Vec<Id>,
    values: Vec<V>,
}

impl<V> Table<V> {
    /// The identifiers that are held, in the order in which they came.
    pub closed spec fn keys(&self) -> Seq<Seq<char>> {
        self.ids@.map_values(|i: Id| i@)
    }

    /// The values, each in the place of its identifier.
    pub closed spec fn values(&self) -> Seq<V> {
        self.values@
    }

    #[verifier::type_invariant]
    closed spec fn matched(self) -> bool {
        self.ids@.len() == self.values@.len() && distinct(self.keys())
    }

    /// A table has a value for each identifier, and no identifier twice.
    pub fn check(&self)
        ensures
            self.keys().len() == self.values().len(),
            distinct(self.keys()),
    {
        proof {
            use_type_invariant(self);
        }
    }

    /// The table that holds nothing.
    pub fn new() -> (t: Table<V>)
        ensures
            t.keys() == Seq::<Seq<char>>::empty(),
            t.values() == Seq::<V>::empty(),
    {
        let t = Table { ids: Vec::new(), values: Vec::new() };
        assert(t.keys() =~= Seq::<Seq<char>>::empty());
        t
    }

    /// How many identifiers are held.
    pub fn len(&self) -> (n: usize)
        ensures
            n == self.keys().len(),
            n == self.values().len(),
    {
        proof {
            use_type_invariant(self);
        }
        self.ids.len()
    }

    /// The identifier in place `i`.
    pub fn id(&self, i: usize) -> (id: &Id)
        requires
            i < self.keys().len(),
        ensures
            id@ == self.keys()[i as int],
    {
        &self.ids[i]
    }

    /// The value in place `i`.
    pub fn value(&self, i: usize) -> (v: &V)
        requires
            i < self.values().len(),
        ensures
            *v == self.values()[i as int],
    {
        &self.values[i]
    }

    /// The place of `id`, if it is held.
    pub fn position(&self, id: &Id) -> (r: Option<usize>)
        ensures
            r is Some <==> first_index(self.keys(), id@) < self.keys().len(),
            r is Some ==> r->0 == first_index(self.keys(), id@),
    {
        let mut i: usize = 0;
        while i < self.ids.len()
            invariant
                i <= self.ids.len(),
                forall|j: int| 0 <= j < i ==> self.keys()[j] != id@,
            decreases self.ids.len() - i,
        {
            if self.ids[i].same(id) {
                proof {
                    lemma_first_index_is(self.keys(), id@, i as int);
                }
                return Some(i);
            }
            i += 1;
        }
        proof {
            lemma_first_index_is(self.keys(), id@, i as int);
        }
        None
    }

    /// The value that is held for `id`, if one is.
    pub fn get(&self, id: &Id) -> (r: Option<&V>)
        ensures
            r is Some <==> first_index(self.keys(), id@) < self.keys().len(),
            r is Some ==> *r->0 == self.values()[first_index(self.keys(), id@)],
    {
        proof {
            use_type_invariant(self);
        }
        match self.position(id) {
            Some(i) => Some(&self.values[i]),
            None => None,
        }
    }

    /// The table with `value` held for `id`: in the place of what was held
    /// for it before, or behind all others where `id` is new.
    pub fn insert(self, id: Id, value: V) -> (t: Table<V>)
        ensures
            t.keys() == put_key(self.keys(), id@),
            t.values() == put_value(self.keys(), self.values(), id@, value),
    {
        proof {
            use_type_invariant(&self);
            lemma_put_distinct(self.keys(), id@);
        }
        let place = self.position(&id);
        let mut ids = self.ids;
        let mut values = self.values;
        match place {
            Some(i) => {
                values.set(i, value);
            },
            None => {
                ids.push(id);
                values.push(value);
            },
        }
        assert(ids@.map_values(|i: Id| i@) =~= put_key(self.keys(), id@));
        Table { ids, values }
    }

    /// The table with `value` in place `i`, and what stood there before.
    pub fn replace(self, i: usize, value: V) -> (r: (Table<V>, V))
        requires
            i < self.values().len(),
        ensures
            r.0.keys() == self.keys(),
            r.0.values() == self.values().update(i as int, value),
            r.1 == self.values()[i as int],
    {
        proof {
            use_type_invariant(&self);
        }
        let ids = self.ids;
        let mut values = self.values;
        let before = values.remove(i);
        values.insert(i, value);
        assert(values@ =~= self.values().update(i as int, value));
        (Table { ids, values }, before)
    }
}

} // verus!

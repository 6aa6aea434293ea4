//! A small map kept in insertion order, keyed by values that can be told apart.

use vstd::prelude::*;

verus! {

/// A key of a [`KeyedMap`]. Two keys are the same key when their ids are equal.
pub trait MapKey: Sized {
    /// What tells two keys apart.
    type Id;

    /// The identity of this key.
    spec fn id(&self) -> Self::Id;

    /// Whether two keys are the same key.
    fn same_id(&self, other: &Self) -> (r: bool)
        ensures
            r == (self.id() == other.id()),
    ;

    /// A key of its own with the same identity.
    fn duplicate(&self) -> (r: Self)
        ensures
            r.id() == self.id(),
    ;
}

impl MapKey for usize {
    type Id = usize;

    open spec fn id(&self) -> usize {
        *self
    }

    fn same_id(&self, other: &Self) -> (r: bool) {
        *self == *other
    }

    fn duplicate(&self) -> (r: Self) {
        *self
    }
}

impl MapKey for u64 {
    type Id = u64;

    open spec fn id(&self) -> u64 {
        *self
    }

    fn same_id(&self, other: &Self) -> (r: bool) {
        *self == *other
    }

    fn duplicate(&self) -> (r: Self) {
        *self
    }
}

impl MapKey for String {
    type Id = Seq<char>;

    open spec fn id(&self) -> Seq<char> {
        self@
    }

    fn same_id(&self, other: &Self) -> (r: bool) {
        *self == *other
    }

    fn duplicate(&self) -> (r: Self) {
        self.as_str().to_owned()
    }
}

/// What `entries` holds under `id`, if anything.
pub open spec fn lookup<K: MapKey, V>(entries: Seq<(K, V)>, id: K::Id) -> Option<V>
    decreases entries.len(),
{
    if entries.len() == 0 {
        None
    } else if entries.last().0.id() == id {
        Some(entries.last().1)
    } else {
        lookup(entries.drop_last(), id)
    }
}

/// No two entries share a key.
pub open spec fn distinct_keys<K: MapKey, V>(entries: Seq<(K, V)>) -> bool {
    forall|i: int, j: int|
        #![trigger entries[i], entries[j]]
        0 <= i < j < entries.len() ==> entries[i].0.id() != entries[j].0.id()
}

/// The map that `entries` stands for.
pub open spec fn entries_map<K: MapKey, V>(entries: Seq<(K, V)>) -> Map<K::Id, V> {
    Map::new(
        |id: K::Id| lookup(entries, id) is Some,
        |id: K::Id| lookup(entries, id)->0,
    )
}

/// An entry of a list with distinct keys is what the list holds under its key.
pub proof fn lemma_lookup_hit<K: MapKey, V>(entries: Seq<(K, V)>, i: int)
    requires
        distinct_keys(entries),
        0 <= i < entries.len(),
    ensures
        lookup(entries, entries[i].0.id()) == Some(entries[i].1),
    decreases entries.len(),
{
    if i < entries.len() - 1 {
        assert(entries[i].0.id() != entries.last().0.id());
        let rest = entries.drop_last();
        assert(rest[i] == entries[i]);
        assert(distinct_keys(rest));
        lemma_lookup_hit(rest, i);
    }
}

/// A key that no entry has is not found.
pub proof fn lemma_lookup_miss<K: MapKey, V>(entries: Seq<(K, V)>, id: K::Id)
    requires
        forall|i: int| 0 <= i < entries.len() ==> (#[trigger] entries[i]).0.id() != id,
    ensures
        lookup(entries, id) is None,
    decreases entries.len(),
{
    if entries.len() > 0 {
        let rest = entries.drop_last();
        assert forall|i: int| 0 <= i < rest.len() implies (#[trigger] rest[i]).0.id() != id by {
            assert(rest[i] == entries[i]);
        }
        lemma_lookup_miss(rest, id);
    }
}

/// A found key has an entry.
pub proof fn lemma_lookup_some<K: MapKey, V>(entries: Seq<(K, V)>, id: K::Id)
    requires
        lookup(entries, id) is Some,
    ensures
        exists|i: int|
            0 <= i < entries.len() && (#[trigger] entries[i]).0.id() == id && lookup(entries, id)
                == Some(entries[i].1),
    decreases entries.len(),
{
    if entries.last().0.id() == id {
        assert(entries[entries.len() - 1].0.id() == id);
    } else {
        let rest = entries.drop_last();
        lemma_lookup_some(rest, id);
        let i = choose|i: int|
            0 <= i < rest.len() && (#[trigger] rest[i]).0.id() == id && lookup(rest, id) == Some(
                rest[i].1,
            );
        assert(entries[i] == rest[i]);
    }
}

/// Replacing the value of one entry changes what is held under its key alone.
proof fn lemma_lookup_update<K: MapKey, V>(entries: Seq<(K, V)>, i: int, e: (K, V), id: K::Id)
    requires
        distinct_keys(entries),
        0 <= i < entries.len(),
        e.0.id() == entries[i].0.id(),
    ensures
        lookup(entries.update(i, e), id) == if id == e.0.id() {
            Some(e.1)
        } else {
            lookup(entries, id)
        },
    decreases entries.len(),
{
    let next = entries.update(i, e);
    assert(distinct_keys(next));
    if id == e.0.id() {
        lemma_lookup_hit(next, i);
    } else if i == entries.len() - 1 {
        assert(next.drop_last() =~= entries.drop_last());
    } else {
        assert(next.drop_last() =~= entries.drop_last().update(i, e));
        assert(distinct_keys(entries.drop_last()));
        assert(entries.drop_last()[i] == entries[i]);
        lemma_lookup_update(entries.drop_last(), i, e, id);
    }
}

/// Dropping one entry takes its key away and changes nothing else.
proof fn lemma_lookup_remove<K: MapKey, V>(entries: Seq<(K, V)>, i: int, id: K::Id)
    requires
        distinct_keys(entries),
        0 <= i < entries.len(),
    ensures
        lookup(entries.remove(i), id) == if id == entries[i].0.id() {
            None
        } else {
            lookup(entries, id)
        },
        distinct_keys(entries.remove(i)),
    decreases entries.len(),
{
    let next = entries.remove(i);
    assert forall|a: int, b: int|
        #![trigger next[a], next[b]]
        0 <= a < b < next.len() implies next[a].0.id() != next[b].0.id() by {
        let a2 = if a < i { a } else { a + 1 };
        let b2 = if b < i { b } else { b + 1 };
        assert(next[a] == entries[a2] && next[b] == entries[b2]);
    }
    if id == entries[i].0.id() {
        assert forall|a: int| 0 <= a < next.len() implies (#[trigger] next[a]).0.id() != id by {
            let a2 = if a < i { a } else { a + 1 };
            assert(next[a] == entries[a2]);
            assert(entries[a2].0.id() != entries[i].0.id());
        }
        lemma_lookup_miss(next, id);
    } else if i == entries.len() - 1 {
        assert(next =~= entries.drop_last());
    } else {
        assert(next.drop_last() =~= entries.drop_last().remove(i));
        assert(distinct_keys(entries.drop_last()));
        assert(entries.drop_last()[i] == entries[i]);
        lemma_lookup_remove(entries.drop_last(), i, id);
        assert(next.last() == entries.last());
    }
}

/// A map from keys to values, in the order in which the keys were first put in.
pub struct KeyedMap<K: MapKey, V> {
    entries: Vec<(K, V)>,
}

impl<K: MapKey, V> View for KeyedMap<K, V> {
    type V = Map<K::Id, V>;

    closed spec fn view(&self) -> Map<K::Id, V> {
        entries_map(self.entries@)
    }
}

impl<K: MapKey, V> KeyedMap<K, V> {
    #[verifier::type_invariant]
    spec fn keys_are_distinct(self) -> bool {
        distinct_keys(self.entries@)
    }

    /// The entries, in order.
    pub closed spec fn order(&self) -> Seq<(K, V)> {
        self.entries@
    }

    /// An empty map.
    pub fn new() -> (r: Self)
        ensures
            r@ == Map::<K::Id, V>::empty(),
            r.order() == Seq::<(K, V)>::empty(),
    {
        let r = KeyedMap { entries: Vec::new() };
        assert(r@ =~= Map::<K::Id, V>::empty());
        r
    }

    /// How many keys the map holds.
    pub fn len(&self) -> (r: usize)
        ensures
            r == self.order().len(),
            distinct_keys(self.order()),
            self@ == entries_map(self.order()),
    {
        proof {
            use_type_invariant(self);
        }
        self.entries.len()
    }

    /// The key and the value at a place in the order.
    pub fn entry_at(&self, i: usize) -> (r: (&K, &V))
        requires
            i < self.order().len(),
        ensures
            *r.0 == self.order()[i as int].0,
            *r.1 == self.order()[i as int].1,
            self@.contains_pair(r.0.id(), *r.1),
    {
        proof {
            use_type_invariant(self);
            lemma_lookup_hit(self.entries@, i as int);
        }
        let e = &self.entries[i];
        (&e.0, &e.1)
    }

    fn find(&self, key: &K) -> (r: Option<usize>)
        ensures
            match r {
                Some(i) => i < self.entries@.len() && self.entries@[i as int].0.id() == key.id()
                    && lookup(self.entries@, key.id()) == Some(self.entries@[i as int].1),
                None => lookup(self.entries@, key.id()) is None && forall|i: int|
                    0 <= i < self.entries@.len() ==> (#[trigger] self.entries@[i]).0.id()
                        != key.id(),
            },
    {
        proof {
            use_type_invariant(self);
        }
        let mut i: usize = 0;
        while i < self.entries.len()
            invariant
                i <= self.entries@.len(),
                distinct_keys(self.entries@),
                forall|j: int|
                    0 <= j < i ==> (#[trigger] self.entries@[j]).0.id() != key.id(),
            decreases self.entries@.len() - i,
        {
            if self.entries[i].0.same_id(key) {
                proof {
                    lemma_lookup_hit(self.entries@, i as int);
                }
                return Some(i);
            }
            i += 1;
        }
        proof {
            lemma_lookup_miss(self.entries@, key.id());
        }
        None
    }

    /// Whether the map holds `key`.
    pub fn contains_key(&self, key: &K) -> (r: bool)
        ensures
            r == self@.contains_key(key.id()),
    {
        self.find(key).is_some()
    }

    /// What the map holds under `key`.
    pub fn get(&self, key: &K) -> (r: Option<&V>)
        ensures
            match r {
                Some(v) => self@.contains_key(key.id()) && *v == self@[key.id()],
                None => !self@.contains_key(key.id()),
            },
    {
        match self.find(key) {
            Some(i) => Some(&self.entries[i].1),
            None => None,
        }
    }

    /// Puts `value` under `key`, in place of what was there.
    pub fn insert(&mut self, key: K, value: V)
        ensures
            final(self)@ == old(self)@.insert(key.id(), value),
    {
        let found = self.find(&key);
        proof {
            use_type_invariant(&*self);
        }
        let ghost before = self.entries@;
        let ghost e = (key, value);
        let mut entries: Vec<(K, V)> = Vec::new();
        std::mem::swap(&mut entries, &mut self.entries);
        match found {
            Some(i) => {
                proof {
                    assert forall|id: K::Id|
                        #[trigger] lookup(before.update(i as int, e), id) == if id == key.id() {
                            Some(value)
                        } else {
                            lookup(before, id)
                        } by {
                        lemma_lookup_update(before, i as int, e, id);
                    }
                }
                entries[i] = (key, value);
                assert(entries@ == before.update(i as int, e));
                assert(distinct_keys(entries@));
            },
            None => {
                entries.push((key, value));
                proof {
                    assert(entries@ == before.push(e));
                    assert(entries@.drop_last() =~= before);
                    assert(distinct_keys(entries@));
                }
            },
        }
        proof {
            assert forall|id: K::Id| #[trigger]
                lookup(entries@, id) == if id == e.0.id() {
                    Some(e.1)
                } else {
                    lookup(before, id)
                } by {}
            assert(entries_map(entries@) =~= entries_map(before).insert(e.0.id(), e.1));
        }
        self.entries = entries;
    }

    /// Takes `key` out of the map, with what was under it.
    pub fn remove(&mut self, key: &K) -> (r: Option<V>)
        ensures
            final(self)@ == old(self)@.remove(key.id()),
            match r {
                Some(v) => old(self)@.contains_key(key.id()) && v == old(self)@[key.id()],
                None => !old(self)@.contains_key(key.id()),
            },
    {
        let found = self.find(key);
        proof {
            use_type_invariant(&*self);
        }
        match found {
            Some(i) => {
                let ghost before = self.entries@;
                let mut entries: Vec<(K, V)> = Vec::new();
                std::mem::swap(&mut entries, &mut self.entries);
                let e = entries.remove(i);
                proof {
                    assert forall|id: K::Id| #[trigger]
                        lookup(entries@, id) == if id == key.id() {
                            None
                        } else {
                            lookup(before, id)
                        } by {
                        lemma_lookup_remove(before, i as int, id);
                    }
                    lemma_lookup_remove(before, i as int, key.id());
                    assert(entries_map(entries@) =~= entries_map(before).remove(key.id()));
                }
                self.entries = entries;
                Some(e.1)
            },
            None => {
                assert(self@ =~= self@.remove(key.id()));
                None
            },
        }
    }
}

} // verus!

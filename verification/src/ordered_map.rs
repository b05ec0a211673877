//! A map that keeps its entries in order, as the wire encoding of a map does.

use vstd::prelude::*;

verus! {

/// A key that can be told apart from others by what it stands for.
pub trait MapKey: View + Sized {
    /// Whether two keys stand for the same thing.
    fn same(&self, other: &Self) -> (same: bool)
        ensures
            same == (self@ == other@),
    ;
}

impl MapKey for String {
    fn same(&self, other: &Self) -> (same: bool) {
        *self == *other
    }
}

/// The place of the first entry under `key`.
pub open spec fn find<K, V>(entries: Seq<(K, V)>, key: K) -> Option<nat>
    decreases entries.len(),
{
    if entries.len() == 0 {
        None
    } else if find(entries.drop_last(), key) is Some {
        find(entries.drop_last(), key)
    } else if entries.last().0 == key {
        Some((entries.len() - 1) as nat)
    } else {
        None
    }
}

/// Whether there is an entry under `key`.
pub open spec fn has<K, V>(entries: Seq<(K, V)>, key: K) -> bool {
    find(entries, key) is Some
}

/// The value under `key`.
pub open spec fn value_of<K, V>(entries: Seq<(K, V)>, key: K) -> Option<V> {
    match find(entries, key) {
        None => None,
        Some(i) => Some(entries[i as int].1),
    }
}

/// The entries with `value` under `key`: in its place where the key is known, else at the end.
pub open spec fn inserted<K, V>(entries: Seq<(K, V)>, key: K, value: V) -> Seq<(K, V)> {
    match find(entries, key) {
        None => entries.push((key, value)),
        Some(i) => entries.update(i as int, (key, value)),
    }
}

/// The entries without that under `key`. The last entry takes the place that becomes free.
pub open spec fn removed<K, V>(entries: Seq<(K, V)>, key: K) -> Seq<(K, V)> {
    match find(entries, key) {
        None => entries,
        Some(i) => entries.update(i as int, entries.last()).drop_last(),
    }
}

/// The entries with the value under `key`, where there is one, replaced.
pub open spec fn replaced<K, V>(entries: Seq<(K, V)>, key: K, value: V) -> Seq<(K, V)> {
    match find(entries, key) {
        None => entries,
        Some(i) => entries.update(i as int, (key, value)),
    }
}

/// The entries after all of `more` were inserted, one after the other.
pub open spec fn extended<K, V>(entries: Seq<(K, V)>, more: Seq<(K, V)>) -> Seq<(K, V)>
    decreases more.len(),
{
    if more.len() == 0 {
        entries
    } else {
        inserted(extended(entries, more.drop_last()), more.last().0, more.last().1)
    }
}

/// No key stands twice.
pub open spec fn unique<K, V>(entries: Seq<(K, V)>) -> bool {
    forall|i: int, j: int|
        0 <= i < j < entries.len() ==> (#[trigger] entries[i]).0 != (#[trigger] entries[j]).0
}

/// What `find` gives back.
pub proof fn lemma_find<K, V>(entries: Seq<(K, V)>, key: K)
    ensures
        match find(entries, key) {
            Some(i) => {
                &&& i < entries.len()
                &&& entries[i as int].0 == key
                &&& forall|j: int| 0 <= j < i ==> (#[trigger] entries[j]).0 != key
            },
            None => forall|j: int| 0 <= j < entries.len() ==> (#[trigger] entries[j]).0 != key,
        },
    decreases entries.len(),
{
    if entries.len() > 0 {
        lemma_find(entries.drop_last(), key);
        assert(forall|j: int|
            0 <= j < entries.len() - 1 ==> entries.drop_last()[j] == #[trigger] entries[j]);
    }
}

/// A place that satisfies what `find` promises is the one it gives back.
pub proof fn lemma_found<K, V>(entries: Seq<(K, V)>, key: K, i: int)
    requires
        0 <= i < entries.len(),
        entries[i].0 == key,
        forall|j: int| 0 <= j < i ==> (#[trigger] entries[j]).0 != key,
    ensures
        find(entries, key) == Some(i as nat),
{
    lemma_find(entries, key);
}

/// Inserting keeps keys unique, and makes `value` the one under `key` and nothing else different.
pub proof fn law_insert<K, V>(entries: Seq<(K, V)>, key: K, value: V, other: K)
    requires
        unique(entries),
    ensures
        unique(inserted(entries, key, value)),
        value_of(inserted(entries, key, value), other) == (if other == key {
            Some(value)
        } else {
            value_of(entries, other)
        }),
{
    let after = inserted(entries, key, value);
    lemma_find(entries, key);
    lemma_find(entries, other);
    lemma_find(after, other);
    if other != key {
        if let Some(i) = find(entries, other) {
            lemma_found(after, other, i as int);
        } else if let Some(i) = find(after, other) {
            assert(after[i as int].0 == other);
        }
    } else if find(entries, key) is None {
        lemma_found(after, key, entries.len() as int);
    } else {
        lemma_found(after, key, find(entries, key)->0 as int);
    }
}

/// Removing keeps keys unique, and makes `key` unknown and nothing else different.
pub proof fn law_remove<K, V>(entries: Seq<(K, V)>, key: K, other: K)
    requires
        unique(entries),
    ensures
        unique(removed(entries, key)),
        value_of(removed(entries, key), other) == (if other == key {
            None
        } else {
            value_of(entries, other)
        }),
{
    let after = removed(entries, key);
    lemma_find(entries, key);
    lemma_find(entries, other);
    lemma_find(after, other);
    if let Some(at) = find(entries, key) {
        assert(forall|j: int|
            0 <= j < after.len() ==> #[trigger] after[j] == (if j == at {
                entries.last()
            } else {
                entries[j]
            }));
        if let Some(i) = find(after, other) {
            let before = if i == at {
                entries.len() - 1
            } else {
                i as int
            };
            assert(entries[before] == after[i as int]);
            if other != key {
                lemma_found(entries, other, before);
            }
        } else if let Some(i) = find(entries, other) {
            if other != key {
                let place = if i == entries.len() - 1 {
                    at as int
                } else {
                    i as int
                };
                assert(after[place] == entries[i as int]);
            }
        }
    }
}

/// Replacing keeps keys unique and every key known, and changes the value under `key` alone.
pub proof fn law_replace<K, V>(entries: Seq<(K, V)>, key: K, value: V, other: K)
    requires
        unique(entries),
    ensures
        unique(replaced(entries, key, value)),
        has(replaced(entries, key, value), other) == has(entries, other),
        value_of(replaced(entries, key, value), other) == (if other == key && has(entries, key) {
            Some(value)
        } else {
            value_of(entries, other)
        }),
{
    if has(entries, key) {
        law_insert(entries, key, value, other);
    }
}

/// The entries with something else said of each value.
pub open spec fn mapped<K, V, W>(entries: Seq<(K, V)>, said: spec_fn(V) -> W) -> Seq<(K, W)> {
    entries.map_values(|entry: (K, V)| (entry.0, said(entry.1)))
}

/// What is said of values does not matter to where they are put.
pub proof fn lemma_mapped<K, V, W>(
    entries: Seq<(K, V)>,
    said: spec_fn(V) -> W,
    key: K,
    value: V,
)
    ensures
        find(mapped(entries, said), key) == find(entries, key),
        mapped(inserted(entries, key, value), said) == inserted(
            mapped(entries, said),
            key,
            said(value),
        ),
        mapped(removed(entries, key), said) == removed(mapped(entries, said), key),
        mapped(replaced(entries, key, value), said) == replaced(
            mapped(entries, said),
            key,
            said(value),
        ),
{
    let others = mapped(entries, said);
    lemma_find(entries, key);
    lemma_find(others, key);
    if let Some(i) = find(entries, key) {
        lemma_found(others, key, i as int);
    } else if let Some(i) = find(others, key) {
        assert(entries[i as int].0 == key);
    }
    assert(mapped(inserted(entries, key, value), said) =~= inserted(others, key, said(value)));
    assert(mapped(removed(entries, key), said) =~= removed(others, key));
    assert(mapped(replaced(entries, key, value), said) =~= replaced(others, key, said(value)));
}

/// A map in the order in which its keys were first inserted. No key stands twice.
#[derive(Debug)]
pub struct OrderedMap<K: MapKey, V> {
    keys: Vec<K>,
    values: Vec<V>,
}

/// The entries that keys and values make up, as far as both go.
pub open spec fn paired<K: MapKey, V>(keys: Seq<K>, values: Seq<V>) -> Seq<(<K as View>::V, V)> {
    Seq::new(keys.len(), |i: int| (keys[i]@, values[i]))
}

impl<K: MapKey, V> View for OrderedMap<K, V> {
    type V = Seq<(<K as View>::V, V)>;

    closed spec fn view(&self) -> Seq<(<K as View>::V, V)> {
        paired(self.keys@, self.values@)
    }
}

impl<K: MapKey, V> OrderedMap<K, V> {
    #[verifier::type_invariant]
    spec fn well_formed(self) -> bool {
        &&& self.keys@.len() == self.values@.len()
        &&& unique(paired(self.keys@, self.values@))
    }

    /// An empty map.
    pub fn new() -> (map: Self)
        ensures
            map@ == Seq::<(<K as View>::V, V)>::empty(),
    {
        let keys: Vec<K> = Vec::new();
        let values: Vec<V> = Vec::new();
        assert(paired(keys@, values@) =~= Seq::empty());
        OrderedMap { keys, values }
    }

    /// How many entries the map has.
    pub fn len(&self) -> (len: usize)
        ensures
            len == self@.len(),
    {
        self.keys.len()
    }

    /// Whether the map has no entry.
    pub fn is_empty(&self) -> (empty: bool)
        ensures
            empty == (self@.len() == 0),
    {
        self.keys.len() == 0
    }

    /// The place of the entry under `key`.
    pub fn get_index_of(&self, key: &K) -> (at: Option<usize>)
        ensures
            match at {
                Some(i) => find(self@, key@) == Some(i as nat) && i < self@.len(),
                None => find(self@, key@) is None,
            },
    {
        let mut i: usize = 0;
        while i < self.keys.len()
            invariant
                i <= self.keys@.len() == self@.len(),
                forall|j: int| 0 <= j < i ==> (#[trigger] self@[j]).0 != key@,
            decreases self.keys@.len() - i,
        {
            if self.keys[i].same(key) {
                proof {
                    lemma_found(self@, key@, i as int);
                }
                return Some(i);
            }
            i += 1;
        }
        proof {
            lemma_find(self@, key@);
        }
        None
    }

    /// Whether there is an entry under `key`.
    pub fn contains_key(&self, key: &K) -> (contained: bool)
        ensures
            contained == has(self@, key@),
    {
        self.get_index_of(key).is_some()
    }

    /// The value under `key`.
    pub fn get(&self, key: &K) -> (value: Option<&V>)
        ensures
            match value {
                Some(value) => value_of(self@, key@) == Some(*value),
                None => value_of(self@, key@) is None,
            },
    {
        proof {
            use_type_invariant(self);
        }
        match self.get_index_of(key) {
            None => None,
            Some(i) => Some(&self.values[i]),
        }
    }

    /// The entry at a place. No other has its key.
    pub fn get_index(&self, at: usize) -> (entry: (&K, &V))
        requires
            at < self@.len(),
        ensures
            (entry.0@, *entry.1) == self@[at as int],
            unique(self@),
    {
        proof {
            use_type_invariant(self);
        }
        (&self.keys[at], &self.values[at])
    }

    /// The value at a place, to be changed.
    pub fn value_mut(&mut self, at: usize) -> (value: &mut V)
        requires
            at < old(self)@.len(),
        ensures
            *value == old(self)@[at as int].1,
            final(self)@ == old(self)@.update(at as int, (old(self)@[at as int].0, *final(value))),
    {
        proof {
            use_type_invariant(&*self);
            lemma_revalued(self.keys@, self.values@, at as int);
        }
        let value = &mut self.values[at];
        value
    }

    /// Puts `value` under `key`: in its place where the key is known, else at the end.
    pub fn insert(&mut self, key: K, value: V)
        ensures
            final(self)@ == inserted(old(self)@, key@, value),
    {
        match self.get_index_of(&key) {
            Some(i) => {
                proof {
                    use_type_invariant(&*self);
                    lemma_find(self@, key@);
                    law_insert(self@, key@, value, key@);
                }
                let (mut keys, mut values) = self.take();
                let ghost name = key@;
                keys[i] = key;
                values[i] = value;
                assert(paired(keys@, values@) =~= inserted(old(self)@, name, value));
                *self = OrderedMap { keys, values };
            },
            None => {
                self.push(key, value);
            },
        }
    }

    /// Puts `value` at the end, under a key that is new.
    pub(crate) fn push(&mut self, key: K, value: V)
        requires
            find(old(self)@, key@) is None,
        ensures
            final(self)@ == old(self)@.push((key@, value)),
    {
        proof {
            use_type_invariant(&*self);
            law_insert(self@, key@, value, key@);
        }
        let (mut keys, mut values) = self.take();
        let ghost name = key@;
        keys.push(key);
        values.push(value);
        assert(paired(keys@, values@) =~= old(self)@.push((name, value)));
        *self = OrderedMap { keys, values };
    }

    /// Takes the keys and the values out, and leaves the map empty.
    fn take(&mut self) -> (parts: (Vec<K>, Vec<V>))
        ensures
            parts.0@.len() == parts.1@.len(),
            paired(parts.0@, parts.1@) == old(self)@,
            final(self)@ == Seq::<(<K as View>::V, V)>::empty(),
    {
        let mut map = OrderedMap::new();
        std::mem::swap(&mut map, self);
        proof {
            use_type_invariant(&map);
        }
        (map.keys, map.values)
    }

    /// Takes the entry under `key` out. The last entry takes its place.
    pub fn swap_remove(&mut self, key: &K) -> (value: Option<V>)
        ensures
            value == value_of(old(self)@, key@),
            final(self)@ == removed(old(self)@, key@),
    {
        match self.get_index_of(key) {
            None => None,
            Some(i) => {
                proof {
                    use_type_invariant(&*self);
                    law_remove(self@, key@, key@);
                }
                let (mut keys, mut values) = self.take();
                let _ = keys.swap_remove(i);
                let value = values.swap_remove(i);
                assert(paired(keys@, values@) =~= removed(old(self)@, key@));
                *self = OrderedMap { keys, values };
                Some(value)
            },
        }
    }

    /// Takes every entry out.
    pub fn clear(&mut self)
        ensures
            final(self)@ == Seq::<(<K as View>::V, V)>::empty(),
    {
        let _ = self.take();
    }
}

/// Another value at a place changes no key.
proof fn lemma_revalued<K: MapKey, V>(keys: Seq<K>, values: Seq<V>, at: int)
    requires
        keys.len() == values.len(),
        0 <= at < keys.len(),
        unique(paired(keys, values)),
    ensures
        forall|value: V|
            #![trigger values.update(at, value)]
            {
                &&& paired(keys, values.update(at, value)) == paired(keys, values).update(
                    at,
                    (keys[at]@, value),
                )
                &&& unique(paired(keys, values.update(at, value)))
            },
{
    assert forall|value: V|
        #![trigger values.update(at, value)]
        {
            &&& paired(keys, values.update(at, value)) == paired(keys, values).update(
                at,
                (keys[at]@, value),
            )
            &&& unique(paired(keys, values.update(at, value)))
        } by {
        let before = paired(keys, values);
        let after = paired(keys, values.update(at, value));
        assert(after =~= before.update(at, (keys[at]@, value)));
        assert forall|i: int, j: int| 0 <= i < j < after.len() implies (#[trigger] after[i]).0 != (
        #[trigger] after[j]).0 by {
            assert(before[i].0 != before[j].0);
        }
    }
}

/// Entries keep their places. A new one stands last, a known one where it stood, and one that is
/// taken out gives its place to the last.
pub proof fn law_places_are_kept<K, V>(entries: Seq<(K, V)>, key: K, value: V, at: int)
    requires
        unique(entries),
        0 <= at < entries.len(),
        entries[at].0 == key,
    ensures
        inserted(entries, key, value) == entries.update(at, (key, value)),
        replaced(entries, key, value) == entries.update(at, (key, value)),
        removed(entries, key).len() == entries.len() - 1,
        forall|i: int|
            0 <= i < entries.len() - 1 ==> #[trigger] removed(entries, key)[i] == (if i == at {
                entries[entries.len() - 1]
            } else {
                entries[i]
            }),
{
    assert forall|j: int| 0 <= j < at implies (#[trigger] entries[j]).0 != key by {
        assert(entries[j].0 != entries[at].0);
    }
    lemma_found(entries, key, at);
}

/// A key that is not known is put last; replacing it or taking it out changes nothing.
pub proof fn law_unknown_keys<K, V>(entries: Seq<(K, V)>, key: K, value: V)
    requires
        forall|i: int| 0 <= i < entries.len() ==> (#[trigger] entries[i]).0 != key,
    ensures
        find(entries, key) is None,
        value_of(entries, key) is None,
        inserted(entries, key, value) == entries.push((key, value)),
        replaced(entries, key, value) == entries,
        removed(entries, key) == entries,
{
    lemma_find(entries, key);
}

/// What is put over entries prevails, the later over the earlier, and what it does not speak of
/// stays.
pub proof fn law_extended<K, V>(entries: Seq<(K, V)>, more: Seq<(K, V)>, key: K)
    requires
        unique(entries),
        unique(more),
    ensures
        unique(extended(entries, more)),
        value_of(extended(entries, more), key) == (if has(more, key) {
            value_of(more, key)
        } else {
            value_of(entries, key)
        }),
    decreases more.len(),
{
    if more.len() > 0 {
        let rest = more.drop_last();
        assert forall|i: int, j: int| 0 <= i < j < rest.len() implies (#[trigger] rest[i]).0 != (
        #[trigger] rest[j]).0 by {
            assert(more[i].0 != more[j].0);
        }
        law_extended(entries, rest, key);
        law_insert(extended(entries, rest), more.last().0, more.last().1, key);
        lemma_find(rest, key);
        lemma_find(more, key);
        if more.last().0 == key {
            assert forall|j: int| 0 <= j < more.len() - 1 implies (#[trigger] more[j]).0 != key by {
                assert(more[j].0 != more[more.len() - 1].0);
            }
            lemma_found(more, key, more.len() - 1);
        }
    }
}

} // verus!

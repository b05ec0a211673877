//! A single engine-owned unsettled map whose changes are counted, so that observers see that
//! something changed without a queue of what.

use vstd::prelude::*;

use crate::definitions::DeliveryTag;
use crate::ordered_map::{self, OrderedMap};

verus! {

/// The deliveries of a link that are not settled yet, in order.
pub type UnsettledMap<M> = OrderedMap<DeliveryTag, M>;

/// The revision that follows another. Revisions wrap.
pub open spec fn next_revision(revision: u64) -> u64 {
    if revision == u64::MAX {
        0
    } else {
        (revision + 1) as u64
    }
}

/// The unsettled map of a link, once there is one, and how often it was opened for writing.
#[derive(Debug)]
pub struct Store<T> {
    map: Option<UnsettledMap<T>>,
    revision: u64,
}

/// A store as it is spoken of: its entries in order, where it has a map, and its revision.
pub struct StoreView<T> {
    pub entries: Option<Seq<(Seq<u8>, T)>>,
    pub revision: u64,
}

/// The entries of an unsettled map, where there is one.
pub open spec fn entries_of<T>(map: Option<UnsettledMap<T>>) -> Option<Seq<(Seq<u8>, T)>> {
    match map {
        None => None,
        Some(map) => Some(map@),
    }
}

/// Whether a delivery is unsettled.
pub open spec fn holds<T>(entries: Option<Seq<(Seq<u8>, T)>>, tag: Seq<u8>) -> bool {
    entries matches Some(entries) && ordered_map::has(entries, tag)
}

/// What is known of an unsettled delivery.
pub open spec fn held<T>(entries: Option<Seq<(Seq<u8>, T)>>, tag: Seq<u8>) -> Option<T> {
    match entries {
        None => None,
        Some(entries) => ordered_map::value_of(entries, tag),
    }
}

/// The unsettled deliveries without one of them.
pub open spec fn without<T>(
    entries: Option<Seq<(Seq<u8>, T)>>,
    tag: Seq<u8>,
) -> Option<Seq<(Seq<u8>, T)>> {
    match entries {
        None => None,
        Some(entries) => Some(ordered_map::removed(entries, tag)),
    }
}

/// The unsettled deliveries where `value` is now known of one of them.
pub open spec fn changed<T>(
    entries: Option<Seq<(Seq<u8>, T)>>,
    tag: Seq<u8>,
    value: T,
) -> Option<Seq<(Seq<u8>, T)>> {
    match entries {
        None => None,
        Some(entries) => Some(ordered_map::replaced(entries, tag, value)),
    }
}

impl<T> View for Store<T> {
    type V = StoreView<T>;

    closed spec fn view(&self) -> StoreView<T> {
        StoreView { entries: entries_of(self.map), revision: self.revision }
    }
}

impl<T> Store<T> {
    /// Holds `value`, never opened for writing yet.
    pub fn new(value: Option<UnsettledMap<T>>) -> (store: Self)
        ensures
            store@ == (StoreView { entries: entries_of(value), revision: 0 }),
    {
        Store { map: value, revision: 0 }
    }

    /// The map, to be read.
    pub fn read(&self) -> (map: &Option<UnsettledMap<T>>)
        ensures
            entries_of(*map) == self@.entries,
    {
        &self.map
    }

    /// The map, to be written. Observers will see a change, whatever is written.
    pub fn write(&mut self) -> (map: &mut Option<UnsettledMap<T>>)
        ensures
            entries_of(*map) == old(self)@.entries,
            final(self)@ == (StoreView {
                entries: entries_of(*final(map)),
                revision: next_revision(old(self)@.revision),
            }),
    {
        self.revision = self.revision.wrapping_add(1);
        &mut self.map
    }

    /// An observer that has seen everything so far.
    pub fn subscribe(&self) -> (observer: Observer)
        ensures
            observer.seen == self@.revision,
    {
        Observer { seen: self.revision }
    }

    /// Whether a delivery is unsettled.
    pub fn contains(&self, tag: &DeliveryTag) -> (contained: bool)
        ensures
            contained == holds(self@.entries, tag@),
    {
        match &self.map {
            None => false,
            Some(map) => map.contains_key(tag),
        }
    }

    /// Opens the map for writing and takes a delivery out of it.
    pub fn remove(&mut self, tag: &DeliveryTag) -> (value: Option<T>)
        ensures
            value == held(old(self)@.entries, tag@),
            final(self)@ == (StoreView {
                entries: without(old(self)@.entries, tag@),
                revision: next_revision(old(self)@.revision),
            }),
    {
        match self.write() {
            None => None,
            Some(map) => map.swap_remove(tag),
        }
    }
}

/// How much of a store's changes an observer has seen.
#[derive(Debug)]
pub struct Observer {
    /// The revision that was current when the observer last looked.
    pub seen: u64,
}

impl Observer {
    /// Whether the store was opened for writing since the observer last looked.
    pub fn has_changed<T>(&self, store: &Store<T>) -> (changed: bool)
        ensures
            changed == (self.seen != store@.revision),
    {
        self.seen != store.revision
    }

    /// Whether the store was opened for writing since the observer last looked, all changes up to
    /// now being seen with that.
    pub fn changed<T>(&mut self, store: &Store<T>) -> (changed: bool)
        ensures
            changed == (old(self).seen != store@.revision),
            final(self).seen == store@.revision,
    {
        let changed = self.seen != store.revision;
        self.seen = store.revision;
        changed
    }
}

/// The revision after a number of writes.
pub open spec fn after_writes(revision: u64, writes: nat) -> u64
    decreases writes,
{
    if writes == 0 {
        revision
    } else {
        next_revision(after_writes(revision, (writes - 1) as nat))
    }
}

proof fn lemma_after_writes(revision: u64, writes: nat)
    ensures
        after_writes(revision, writes) as int == (revision + writes) % 0x1_0000_0000_0000_0000,
    decreases writes,
{
    if writes > 0 {
        lemma_after_writes(revision, (writes - 1) as nat);
    }
}

/// Changes coalesce but none is lost: after any number of writes, short of all the revisions
/// there are, an observer that looked before sees that something changed.
pub proof fn law_no_change_is_lost(revision: u64, writes: nat)
    requires
        0 < writes < 0x1_0000_0000_0000_0000,
    ensures
        after_writes(revision, writes) != revision,
{
    lemma_after_writes(revision, writes);
}

/// No delivery is held twice.
pub open spec fn distinct<T>(entries: Option<Seq<(Seq<u8>, T)>>) -> bool {
    entries matches Some(entries) ==> ordered_map::unique(entries)
}

/// Taking a delivery out keeps the others as they are, and all of them distinct.
pub proof fn law_without<T>(entries: Option<Seq<(Seq<u8>, T)>>, tag: Seq<u8>, other: Seq<u8>)
    requires
        distinct(entries),
    ensures
        distinct(without(entries, tag)),
        held(without(entries, tag), other) == (if other == tag {
            None
        } else {
            held(entries, other)
        }),
        holds(without(entries, tag), other) == (other != tag
            && holds(entries, other)),
{
    if let Some(entries) = entries {
        ordered_map::law_remove(entries, tag, other);
    }
}

/// Changing what is known of a delivery keeps the others as they are, and all of them distinct.
pub proof fn law_changed<T>(
    entries: Option<Seq<(Seq<u8>, T)>>,
    tag: Seq<u8>,
    value: T,
    other: Seq<u8>,
)
    requires
        distinct(entries),
    ensures
        distinct(changed(entries, tag, value)),
        holds(changed(entries, tag, value), other)
            == holds(entries, other),
        held(changed(entries, tag, value), other) == (if other == tag && holds(entries, tag) {
            Some(value)
        } else {
            held(entries, other)
        }),
{
    if let Some(entries) = entries {
        ordered_map::law_replace(entries, tag, value, other);
    }
}

/// Every write is a revision of its own: the next one, and after the greatest the first.
pub proof fn law_writes_are_counted(revision: u64)
    ensures
        next_revision(revision) == (revision + 1) % 0x1_0000_0000_0000_0000,
        next_revision(revision) != revision,
{
}

/// A delivery is held exactly if it stands among the entries, and what is known of it is what
/// stands there.
pub proof fn law_held_deliveries_stand_there<T>(
    entries: Seq<(Seq<u8>, T)>,
    tag: Seq<u8>,
    at: int,
)
    requires
        distinct(Some(entries)),
        0 <= at < entries.len(),
    ensures
        holds(Some(entries), tag) == (held(Some(entries), tag) is Some),
        held(Some(entries), entries[at].0) == Some(entries[at].1),
        holds(Some(entries), tag) <==> exists|i: int|
            0 <= i < entries.len() && (#[trigger] entries[i]).0 == tag,
        !holds(None::<Seq<(Seq<u8>, T)>>, tag),
        held(None::<Seq<(Seq<u8>, T)>>, tag) is None,
{
    ordered_map::lemma_find(entries, tag);
    ordered_map::lemma_find(entries, entries[at].0);
    ordered_map::lemma_found(entries, entries[at].0, at);
    if let Some(i) = ordered_map::find(entries, tag) {
        assert(entries[i as int].0 == tag);
    }
}

} // verus!

//! The output handles of a session: keys of a slab that holds the name of the link under each.

use slab::Slab;

use vstd::prelude::*;

verus! {

/// Storage that assigns keys to its values and reuses those of values that were taken out.
#[verifier::external_type_specification]
#[verifier::external_body]
#[verifier::reject_recursive_types(T)]
pub struct ExSlab<T>(Slab<T>);

/// The names that a slab holds, by key.
pub uninterp spec fn held_names(names: Slab<String>) -> Map<usize, Seq<char>>;

/// The key that a slab assigns next.
pub uninterp spec fn next_key(names: Slab<String>) -> usize;

/// No name under any key.
pub open spec fn no_names() -> Map<usize, Seq<char>> {
    Map::empty()
}

/// An empty slab by `slab::Slab::new`: it holds nothing, and starts with key zero.
#[verifier::external_body]
pub(crate) fn no_handles() -> (empty: Slab<String>)
    ensures
        held_names(empty) == no_names(),
        next_key(empty) == 0,
{
    Slab::new()
}

/// Puts a name in by `slab::Slab::insert`. The key is the one that was to be assigned next, which
/// no other value has; the one to be assigned after it is free again. As with any collection,
/// running out of memory is not spoken of.
#[verifier::external_body]
pub(crate) fn insert_name(names: &mut Slab<String>, name: String) -> (key: usize)
    ensures
        key == next_key(*old(names)),
        held_names(*final(names)) == held_names(*old(names)).insert(key, name@),
        !held_names(*final(names)).contains_key(next_key(*final(names))),
{
    names.insert(name)
}

/// Takes a name out by `slab::Slab::try_remove`. Its key is the one to be assigned next; where
/// there is no such key nothing changes.
#[verifier::external_body]
pub(crate) fn remove_name(names: &mut Slab<String>, key: usize) -> (name: Option<String>)
    ensures
        match name {
            Some(name) => {
                &&& held_names(*old(names)).contains_key(key)
                &&& name@ == held_names(*old(names))[key]
                &&& held_names(*final(names)) == held_names(*old(names)).remove(key)
                &&& next_key(*final(names)) == key
            },
            None => {
                &&& !held_names(*old(names)).contains_key(key)
                &&& held_names(*final(names)) == held_names(*old(names))
                &&& next_key(*final(names)) == next_key(*old(names))
            },
        },
{
    names.try_remove(key)
}

} // verus!

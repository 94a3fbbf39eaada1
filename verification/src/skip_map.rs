//! The ordered index of torrents: a `crossbeam_skiplist::SkipMap` from the
//! key of an info-hash to the place where the torrent's state is kept.
use crossbeam_skiplist::SkipMap;
use vstd::prelude::*;

use crate::order::{id20_key_order, strictly_increasing};
use crate::primitives::Id20Key;

verus! {

/// `crossbeam_skiplist::SkipMap`, whose contents Verus does not see.
#[verifier::external_type_specification]
#[verifier::external_body]
#[verifier::reject_recursive_types(K)]
#[verifier::reject_recursive_types(V)]
pub struct ExSkipMap<K, V>(SkipMap<K, V>);

/// The entries of a skip map.
pub uninterp spec fn skip_map_contents(m: SkipMap<Id20Key, usize>) -> Map<Id20Key, usize>;

/// `SkipMap::new`: a map without entries.
#[verifier::external_body]
pub(crate) fn skip_map_new() -> (r: SkipMap<Id20Key, usize>)
    ensures
        skip_map_contents(r).dom() == Set::<Id20Key>::empty(),
{
    SkipMap::new()
}

/// `SkipMap::len`: the number of entries.
#[verifier::external_body]
pub(crate) fn skip_map_len(m: &SkipMap<Id20Key, usize>) -> (r: usize)
    ensures
        r == skip_map_contents(*m).len(),
{
    m.len()
}

/// `SkipMap::contains_key`: whether there is an entry for `key`.
#[verifier::external_body]
pub(crate) fn skip_map_contains_key(m: &SkipMap<Id20Key, usize>, key: &Id20Key) -> (r: bool)
    ensures
        r == skip_map_contents(*m).contains_key(*key),
{
    m.contains_key(key)
}

/// `SkipMap::get`: the value of the entry for `key`, if any.
#[verifier::external_body]
pub(crate) fn skip_map_get(m: &SkipMap<Id20Key, usize>, key: &Id20Key) -> (r: Option<usize>)
    ensures
        match r {
            Some(v) => skip_map_contents(*m).contains_key(*key) && skip_map_contents(*m)[*key] == v,
            None => !skip_map_contents(*m).contains_key(*key),
        },
{
    m.get(key).map(|entry| *entry.value())
}

/// `SkipMap::insert`: the entry for `key` is now `value`, in place of the
/// one there was, if any.
#[verifier::external_body]
pub(crate) fn skip_map_insert(m: &mut SkipMap<Id20Key, usize>, key: Id20Key, value: usize)
    ensures
        skip_map_contents(*final(m)) == skip_map_contents(*old(m)).insert(key, value),
{
    m.insert(key, value);
}

/// `SkipMap::remove`: removes the entry for `key` and returns its value, if
/// there was one.
#[verifier::external_body]
pub(crate) fn skip_map_remove(m: &mut SkipMap<Id20Key, usize>, key: &Id20Key) -> (r: Option<usize>)
    ensures
        skip_map_contents(*final(m)) == skip_map_contents(*old(m)).remove(*key),
        match r {
            Some(v) => skip_map_contents(*old(m)).contains_key(*key) && skip_map_contents(
                *old(m),
            )[*key] == v,
            None => !skip_map_contents(*old(m)).contains_key(*key),
        },
{
    m.remove(key).map(|entry| *entry.value())
}

/// `SkipMap::iter`: all entries, sorted by key.
#[verifier::external_body]
pub(crate) fn skip_map_entries(m: &SkipMap<Id20Key, usize>) -> (r: Vec<(Id20Key, usize)>)
    ensures
        strictly_increasing(r@.map_values(|e: (Id20Key, usize)| e.0), id20_key_order()),
        forall|i: int|
            0 <= i < r@.len() ==> skip_map_contents(*m).contains_key(#[trigger] r@[i].0)
                && skip_map_contents(*m)[r@[i].0] == r@[i].1,
        forall|k: Id20Key|
            #[trigger] skip_map_contents(*m).contains_key(k) ==> exists|i: int|
                0 <= i < r@.len() && r@[i].0 == k,
{
    m.iter().map(|entry| (*entry.key(), *entry.value())).collect()
}

} // verus!

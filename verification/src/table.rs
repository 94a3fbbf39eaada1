//! A table of torrents: the state of each torrent, found by the key of its
//! info-hash through an ordered skip-map index.
use crossbeam_skiplist::SkipMap;
use vstd::prelude::*;

use crate::order::{
    id20_key_order, lemma_id20_key_order_total, lemma_sorted_listing, sorted_listing,
    strictly_increasing,
};
use crate::primitives::Id20Key;
use crate::skip_map::{
    skip_map_contains_key, skip_map_contents, skip_map_entries, skip_map_get, skip_map_insert,
    skip_map_len, skip_map_new, skip_map_remove,
};

verus! {

/// The state of each torrent, by the key of its info-hash. The index maps a
/// key to the slot of the torrent; each slot holds the key it belongs to.
pub struct TorrentTable<T> {
    index: SkipMap<Id20Key, usize>,
    keys: Vec<Id20Key>,
    values: Vec<T>,
}

impl<T> View for TorrentTable<T> {
    type V = Map<Id20Key, T>;

    closed spec fn view(&self) -> Map<Id20Key, T> {
        Map::new(
            |k: Id20Key| skip_map_contents(self.index).contains_key(k),
            |k: Id20Key| self.values@[skip_map_contents(self.index)[k] as int],
        )
    }
}

impl<T> TorrentTable<T> {
    spec fn idx(&self) -> Map<Id20Key, usize> {
        skip_map_contents(self.index)
    }

    /// The index and the slots agree.
    pub closed spec fn wf(&self) -> bool {
        &&& self.keys@.len() == self.values@.len()
        &&& forall|k: Id20Key| #[trigger]
            self.idx().contains_key(k) ==> self.idx()[k] < self.keys@.len() && self.keys@[self.idx()[k]
                as int] == k
        &&& forall|i: int|
            0 <= i < self.keys@.len() ==> self.idx().contains_key(#[trigger] self.keys@[i])
                && self.idx()[self.keys@[i]] == i
    }

    proof fn lemma_dom(&self)
        requires
            self.wf(),
        ensures
            self@.dom() == self.keys@.to_set(),
            self@.dom() == self.idx().dom(),
            self.keys@.no_duplicates(),
            self@.dom().finite(),
            self@.len() == self.keys@.len(),
    {
        assert(self@.dom() =~= self.idx().dom());
        assert(self@.dom() =~= self.keys@.to_set()) by {
            assert forall|k: Id20Key| #[trigger] self@.dom().contains(k) implies self.keys@.to_set().contains(
                k,
            ) by {
                let i = self.idx()[k] as int;
                assert(self.keys@[i] == k);
            }
            assert forall|k: Id20Key| #[trigger] self.keys@.to_set().contains(k) implies self@.dom().contains(
                k,
            ) by {
                let i = choose|i: int| 0 <= i < self.keys@.len() && self.keys@[i] == k;
                assert(self.idx().contains_key(self.keys@[i]));
            }
        }
        assert(self.keys@.no_duplicates()) by {
            assert forall|i: int, j: int|
                0 <= i < self.keys@.len() && 0 <= j < self.keys@.len() && i != j implies self.keys@[i]
                != self.keys@[j] by {
                assert(self.idx()[self.keys@[i]] == i);
                assert(self.idx()[self.keys@[j]] == j);
            }
        }
        self.keys@.unique_seq_to_set();
    }

    /// The facts that follow from well-formedness.
    pub proof fn lemma_wf(&self)
        requires
            self.wf(),
        ensures
            self@.dom().finite(),
    {
        self.lemma_dom();
    }

    /// A table without torrents.
    pub fn new() -> (r: Self)
        ensures
            r.wf(),
            r@ == Map::<Id20Key, T>::empty(),
    {
        let r = TorrentTable { index: skip_map_new(), keys: Vec::new(), values: Vec::new() };
        proof {
            assert(r@ =~= Map::<Id20Key, T>::empty());
        }
        r
    }

    /// The number of torrents.
    pub fn len(&self) -> (r: usize)
        requires
            self.wf(),
        ensures
            r == self@.len(),
    {
        proof {
            self.lemma_dom();
        }
        skip_map_len(&self.index)
    }

    /// Whether there is a torrent with key `key`.
    pub fn contains(&self, key: &Id20Key) -> (r: bool)
        ensures
            r == self@.contains_key(*key),
    {
        skip_map_contains_key(&self.index, key)
    }

    /// The state of the torrent with key `key`, if any.
    pub fn get(&self, key: &Id20Key) -> (r: Option<&T>)
        requires
            self.wf(),
        ensures
            match r {
                Some(v) => self@.contains_key(*key) && *v == self@[*key],
                None => !self@.contains_key(*key),
            },
    {
        match skip_map_get(&self.index, key) {
            Some(slot) => {
                proof {
                    assert(self.idx().contains_key(*key));
                }
                Some(&self.values[slot])
            },
            None => None,
        }
    }

    /// The state of the torrent with key `key`, which is in the table.
    pub fn get_existing(&self, key: &Id20Key) -> (r: &T)
        requires
            self.wf(),
            self@.contains_key(*key),
        ensures
            *r == self@[*key],
    {
        match skip_map_get(&self.index, key) {
            Some(slot) => {
                proof {
                    assert(self.idx().contains_key(*key));
                }
                &self.values[slot]
            },
            None => {
                proof {
                    assert(false);
                }
                &self.values[0]
            },
        }
    }

    /// Adds a torrent that is not in the table yet.
    pub fn insert_new(&mut self, key: Id20Key, value: T)
        requires
            old(self).wf(),
            !old(self)@.contains_key(key),
        ensures
            final(self).wf(),
            final(self)@ == old(self)@.insert(key, value),
    {
        proof {
            self.lemma_dom();
        }
        let slot = self.keys.len();
        skip_map_insert(&mut self.index, key, slot);
        self.keys.push(key);
        self.values.push(value);
        proof {
            assert forall|i: int| 0 <= i < self.keys@.len() implies self.idx().contains_key(
                #[trigger] self.keys@[i],
            ) && self.idx()[self.keys@[i]] == i by {
                if i < slot {
                    assert(old(self).keys@[i] != key) by {
                        assert(old(self).keys@.to_set().contains(old(self).keys@[i]));
                    }
                }
            }
            assert(self@ =~= old(self)@.insert(key, value));
        }
    }

    /// Removes the torrent with key `key` and returns its state, if there is
    /// one.
    pub fn remove(&mut self, key: &Id20Key) -> (r: Option<T>)
        requires
            old(self).wf(),
        ensures
            final(self).wf(),
            final(self)@ == old(self)@.remove(*key),
            match r {
                Some(v) => old(self)@.contains_key(*key) && v == old(self)@[*key],
                None => !old(self)@.contains_key(*key),
            },
    {
        proof {
            self.lemma_dom();
        }
        match skip_map_get(&self.index, key) {
            None => {
                proof {
                    assert(self@ =~= old(self)@.remove(*key));
                }
                None
            },
            Some(slot) => {
                let last = self.keys.len() - 1;
                let _ = skip_map_remove(&mut self.index, key);
                let value = self.values.swap_remove(slot);
                let _ = self.keys.swap_remove(slot);
                if slot < last {
                    let moved = self.keys[slot];
                    proof {
                        assert(old(self).keys@[last as int] == moved);
                        assert(moved != *key);
                    }
                    skip_map_insert(&mut self.index, moved, slot);
                }
                proof {
                    let ok = old(self).keys@;
                    assert forall|k: Id20Key| #[trigger] self.idx().contains_key(k) implies self.idx()[k]
                        < self.keys@.len() && self.keys@[self.idx()[k] as int] == k by {
                        assert(old(self).idx().contains_key(k));
                        assert(k != *key);
                        let j = old(self).idx()[k] as int;
                        if j == last {
                            assert(k == ok[last as int]);
                        }
                    }
                    assert forall|i: int| 0 <= i < self.keys@.len() implies self.idx().contains_key(
                        #[trigger] self.keys@[i],
                    ) && self.idx()[self.keys@[i]] == i by {
                        if i == slot {
                            assert(self.keys@[i] == ok[last as int]);
                        } else {
                            assert(self.keys@[i] == ok[i]);
                            assert(ok[i] != *key);
                            if slot < last {
                                assert(ok[i] != ok[last as int]);
                            }
                        }
                    }
                    assert forall|k: Id20Key| #[trigger] self@.contains_key(k) implies self@[k] == old(
                        self,
                    )@[k] by {
                        let j = old(self).idx()[k] as int;
                        if j == last && slot < last {
                            assert(self.values@[slot as int] == old(self).values@[last as int]);
                        } else {
                            assert(self.values@[j] == old(self).values@[j]);
                        }
                    }
                    assert(self@ =~= old(self)@.remove(*key));
                }
                Some(value)
            },
        }
    }

    /// The keys of the torrents in increasing order.
    pub fn sorted_keys(&self) -> (r: Vec<Id20Key>)
        requires
            self.wf(),
        ensures
            r@ == sorted_listing(self@.dom(), id20_key_order()),
            r@.len() == self@.len(),
            r@.to_set() == self@.dom(),
            r@.no_duplicates(),
    {
        proof {
            self.lemma_dom();
        }
        let entries = skip_map_entries(&self.index);
        let mut keys: Vec<Id20Key> = Vec::new();
        let mut i: usize = 0;
        while i < entries.len()
            invariant
                i <= entries@.len(),
                keys@ == entries@.take(i as int).map_values(|e: (Id20Key, usize)| e.0),
            decreases entries@.len() - i,
        {
            keys.push(entries[i].0);
            proof {
                assert(entries@.take(i + 1) =~= entries@.take(i as int).push(entries@[i as int]));
                assert(keys@ =~= entries@.take(i + 1).map_values(|e: (Id20Key, usize)| e.0));
            }
            i = i + 1;
        }
        proof {
            assert(entries@.take(entries@.len() as int) =~= entries@);
            lemma_id20_key_order_total();
            assert(keys@.to_set() =~= self@.dom()) by {
                assert forall|k: Id20Key| #[trigger] keys@.to_set().contains(k) implies self@.dom().contains(
                    k,
                ) by {
                    let j = choose|j: int| 0 <= j < keys@.len() && keys@[j] == k;
                    assert(entries@[j].0 == k);
                }
                assert forall|k: Id20Key| #[trigger] self@.dom().contains(k) implies keys@.to_set().contains(
                    k,
                ) by {
                    assert(self.idx().contains_key(k));
                    let j = choose|j: int| 0 <= j < entries@.len() && entries@[j].0 == k;
                    assert(keys@[j] == k);
                }
            }
            lemma_sorted_listing(keys@, self@.dom(), id20_key_order());
            crate::order::lemma_increasing_no_duplicates(keys@, id20_key_order());
            keys@.unique_seq_to_set();
        }
        keys
    }
}

} // verus!

//! A list of peers keyed by peer id.
//!
//! Two peers that differ only in their id are both kept, so one socket
//! address can be listed twice.
use std::collections::BTreeMap;

use vstd::prelude::*;
use vstd::std_specs::btree::increasing_seq;
use vstd::std_specs::iter::IteratorSpec;

use crate::order::{
    id20_key_order, lemma_id20_key_order_total, lemma_id20_key_std_order, lemma_sorted_listing,
    sorted_listing, strictly_increasing,
};
use crate::peers::{
    active_part, count_seeders, excluding_key, inactive_keys, is_inactive, lemma_filter_count,
    limited, lookup, seeder_keys,
};
use crate::primitives::{peer_key_eq, DurationSinceUnixEpoch, Id20Key, Peer, PeerAddress, PeerId};

verus! {

/// Every peer is stored under the key of its own id.
pub open spec fn keyed_by_id(m: Map<Id20Key, Peer>) -> bool {
    forall|k: Id20Key| #[trigger] m.contains_key(k) ==> m[k].peer_id.key_spec() == k
}

/// The ids of `m` in increasing order.
pub open spec fn sorted_ids(m: Map<Id20Key, Peer>) -> Seq<Id20Key> {
    sorted_listing(m.dom(), id20_key_order())
}

/// The peers of `m` in the order of their ids.
pub open spec fn listed_by_id(m: Map<Id20Key, Peer>) -> Seq<Peer> {
    sorted_ids(m).map_values(|k: Id20Key| m[k])
}

/// The map's iterator yields its entries in id order.
proof fn lemma_id_iter_is_listing(m: BTreeMap<Id20Key, Peer>, v: Seq<(&Id20Key, &Peer)>)
    requires
        v == vstd::std_specs::btree::spec_btree_map_iter(&m).remaining(),
        increasing_seq(v.map_values(|kv: (&Id20Key, &Peer)| *kv.0)),
    ensures
        v.map_values(|kv: (&Id20Key, &Peer)| *kv.0) == sorted_ids(m@),
        strictly_increasing(sorted_ids(m@), id20_key_order()),
        sorted_ids(m@).to_set() == m@.dom(),
        v.len() == m@.len(),
        forall|i: int| 0 <= i < v.len() ==> m@.contains_key(*v[i].0) && m@[*v[i].0] == *v[i].1,
{
    let ks = v.map_values(|kv: (&Id20Key, &Peer)| *kv.0);
    lemma_id20_key_order_total();
    assert(strictly_increasing(ks, id20_key_order())) by {
        assert forall|i: int, j: int| 0 <= i < j < ks.len() implies #[trigger] (id20_key_order())(
            ks[i],
            ks[j],
        ) by {
            lemma_id20_key_std_order(ks[i], ks[j]);
        }
    }
    assert(ks.to_set() =~= m@.dom()) by {
        assert forall|k: Id20Key| #[trigger] m@.dom().contains(k) implies ks.to_set().contains(k) by {
            assert(v.contains((&k, &m@[k])));
            let i = choose|i: int| 0 <= i < v.len() && v[i] == (&k, &m@[k]);
            assert(ks[i] == k);
        }
        assert forall|k: Id20Key| #[trigger] ks.to_set().contains(k) implies m@.dom().contains(k) by {
            let i = choose|i: int| 0 <= i < ks.len() && ks[i] == k;
            assert(m@.contains_key(*v[i].0));
        }
    }
    lemma_sorted_listing(ks, m@.dom(), id20_key_order());
}

/// Peers keyed by their id.
pub struct PeerList {
    peers: BTreeMap<Id20Key, Peer>,
}

impl PeerList {
    /// The peers, by the key of their id.
    pub closed spec fn map(&self) -> Map<Id20Key, Peer> {
        self.peers@
    }

    /// Peers are stored under their own id.
    pub closed spec fn wf(&self) -> bool {
        &&& self.peers@.dom().finite()
        &&& keyed_by_id(self.peers@)
    }

    /// The facts that follow from well-formedness.
    pub proof fn lemma_wf(&self)
        requires
            self.wf(),
        ensures
            self.map().dom().finite(),
            keyed_by_id(self.map()),
    {
    }

    /// The number of peers.
    pub fn len(&self) -> (r: usize)
        requires
            self.wf(),
        ensures
            r == self.map().len(),
    {
        self.peers.len()
    }

    /// Whether there are no peers.
    pub fn is_empty(&self) -> (r: bool)
        ensures
            r == (self.map().len() == 0),
    {
        proof {
            broadcast use vstd::set_lib::group_set_properties;
        }
        let r = self.peers.is_empty();
        proof {
            if !r {
                let k = choose|k: Id20Key| self.map().contains_key(k);
                assert(self.map().dom().contains(k));
            } else {
                assert(self.map().dom() =~= Set::<Id20Key>::empty());
            }
        }
        r
    }

    /// Adds `value` under its id, or replaces the peer with that id, which
    /// it returns.
    pub fn upsert(&mut self, value: Peer) -> (r: Option<Peer>)
        requires
            old(self).wf(),
        ensures
            final(self).wf(),
            final(self).map() == old(self).map().insert(value.peer_id.key_spec(), value),
            r == lookup(old(self).map(), value.peer_id.key_spec()),
    {
        self.peers.insert(value.peer_id.key(), value)
    }

    /// Removes the peer with id `key`, if there is one, and returns it.
    pub fn remove(&mut self, key: &PeerId) -> (r: Option<Peer>)
        requires
            old(self).wf(),
        ensures
            final(self).wf(),
            final(self).map() == old(self).map().remove(key.key_spec()),
            r == lookup(old(self).map(), key.key_spec()),
    {
        let r = self.peers.remove(&key.key());
        proof {
            if r is None {
                assert(self.map() =~= old(self).map().remove(key.key_spec()));
            }
        }
        r
    }

    /// Removes the peers that last announced at or before `current_cutoff`.
    pub fn remove_inactive_peers(&mut self, current_cutoff: DurationSinceUnixEpoch)
        requires
            old(self).wf(),
        ensures
            final(self).wf(),
            final(self).map() == active_part(old(self).map(), current_cutoff),
    {
        let ghost m0 = self.map();
        let keys = self.inactive_ids(&current_cutoff);
        let mut i: usize = 0;
        while i < keys.len()
            invariant
                self.wf(),
                i <= keys@.len(),
                keys@.to_set() == inactive_keys(m0, current_cutoff),
                self.map() == m0.remove_keys(keys@.take(i as int).to_set()),
            decreases keys@.len() - i,
        {
            let ghost before = keys@.take(i as int);
            let k = keys[i];
            self.peers.remove(&k);
            proof {
                assert(keys@.take(i + 1) =~= before.push(k));
                before.lemma_push_to_set_commute(k);
                assert(self.map() =~= m0.remove_keys(keys@.take(i + 1).to_set()));
            }
            i = i + 1;
        }
        proof {
            assert(keys@.take(keys@.len() as int) =~= keys@);
        }
    }

    /// The ids of the peers that last announced at or before `cutoff`.
    fn inactive_ids(&self, cutoff: &DurationSinceUnixEpoch) -> (r: Vec<Id20Key>)
        requires
            self.wf(),
        ensures
            r@.to_set() == inactive_keys(self.map(), *cutoff),
    {
        let mut out: Vec<Id20Key> = Vec::new();
        let ghost m = self.map();
        let entries = self.peers.iter();
        let ghost vs = entries.remaining();
        proof {
            lemma_id_iter_is_listing(self.peers, entries.remaining());
        }
        for kv in it: entries
            invariant
                it.seq() == vstd::std_specs::btree::spec_btree_map_iter(&self.peers).remaining(),
                vs == it.seq(),
                m == self.map(),
                it.seq().map_values(|kv: (&Id20Key, &Peer)| *kv.0).to_set() == m.dom(),
                forall|i: int| 0 <= i < it.seq().len() ==> m.contains_key(*it.seq()[i].0) && m[*it.seq()[i].0] == *it.seq()[i].1,
                forall|k: Id20Key| #[trigger] out@.contains(k) ==> m.contains_key(k) && is_inactive(m[k], *cutoff),
                forall|j: int| 0 <= j < it.index() && is_inactive(*it.seq()[j].1, *cutoff) ==> out@.contains(*(#[trigger] it.seq()[j]).0),
        {
            let ghost before = it.index();
            let ghost out0 = out@;
            proof {
                assert(m.contains_key(*it.seq()[before].0) && m[*it.seq()[before].0] == *it.seq()[before].1);
            }
            let inactive = kv.1.updated.is_at_or_before(cutoff);
            proof {
                assert(*kv.0 == *it.seq()[before].0 && *kv.1 == *it.seq()[before].1);
            }
            if inactive {
                out.push(*kv.0);
            }
            proof {
                assert forall|k: Id20Key| #[trigger] out@.contains(k) implies m.contains_key(k) && is_inactive(
                    m[k],
                    *cutoff,
                ) by {
                    let i = choose|i: int| 0 <= i < out@.len() && out@[i] == k;
                    if i < out0.len() {
                        assert(out0[i] == k);
                        assert(out0.contains(k));
                    } else {
                        assert(k == *kv.0);
                        assert(inactive);
                    }
                }
                assert forall|j: int| 0 <= j < before + 1 && is_inactive(*it.seq()[j].1, *cutoff) implies out@.contains(
                    *(#[trigger] it.seq()[j]).0,
                ) by {
                    if j < before {
                        assert(out0.contains(*it.seq()[j].0));
                        let i = choose|i: int| 0 <= i < out0.len() && out0[i] == *it.seq()[j].0;
                        assert(out@[i] == out0[i]);
                    } else {
                        assert(out@[out@.len() - 1] == *kv.0);
                    }
                }
            }
        }
        proof {
            let ks = vs.map_values(|kv: (&Id20Key, &Peer)| *kv.0);
            assert forall|k: Id20Key| #[trigger] inactive_keys(m, *cutoff).contains(k) implies out@.to_set().contains(k) by {
                assert(ks.to_set().contains(k));
                let j = choose|j: int| 0 <= j < ks.len() && ks[j] == k;
                assert(*vs[j].0 == k);
            }
            assert(out@.to_set() =~= inactive_keys(m, *cutoff));
        }
        out
    }

    /// The peer with id `peer_id`, if any.
    pub fn get(&self, peer_id: &PeerId) -> (r: Option<&Peer>)
        ensures
            match r {
                Some(p) => self.map().contains_key(peer_id.key_spec()) && *p == self.map()[peer_id.key_spec()],
                None => !self.map().contains_key(peer_id.key_spec()),
            },
    {
        self.peers.get(&peer_id.key())
    }

    /// The peers in the order of their ids, at most `limit` of them.
    pub fn get_all(&self, limit: Option<usize>) -> (r: Vec<Peer>)
        ensures
            r@ == limited(listed_by_id(self.map()), limit),
    {
        let mut out: Vec<Peer> = Vec::new();
        let ghost listing = listed_by_id(self.map());
        let entries = self.peers.iter();
        proof {
            lemma_id_iter_is_listing(self.peers, entries.remaining());
        }
        for kv in it: entries
            invariant
                it.seq() == vstd::std_specs::btree::spec_btree_map_iter(&self.peers).remaining(),
                listing.len() == it.seq().len(),
                forall|i: int| 0 <= i < it.seq().len() ==> listing[i] == *it.seq()[i].1,
                out@ == limited(listing.take(it.index()), limit),
        {
            let ghost before = it.index();
            proof {
                assert(listing[before] == *it.seq()[before].1);
            }
            let under_limit = match limit {
                Some(l) => out.len() < l,
                None => true,
            };
            if under_limit {
                out.push(*kv.1);
            }
            proof {
                assert(listing.take(before + 1) =~= listing.take(before).push(listing[before]));
                assert(limited(listing.take(before + 1), limit) =~= out@);
            }
        }
        proof {
            assert(listing.take(listing.len() as int) =~= listing);
        }
        out
    }

    /// The numbers of seeders and leechers.
    pub fn seeders_and_leechers(&self) -> (r: (usize, usize))
        requires
            self.wf(),
        ensures
            r.0 == count_seeders(self.map()),
            r.1 == self.map().len() - count_seeders(self.map()),
    {
        let ghost m = self.map();
        let ghost ks = sorted_ids(m);
        let ghost pred = |k: Id20Key| m[k].is_seeder_spec();
        let len = self.peers.len();
        let mut seeders: usize = 0;
        let entries = self.peers.iter();
        proof {
            lemma_id_iter_is_listing(self.peers, entries.remaining());
        }
        for kv in it: entries
            invariant
                it.seq() == vstd::std_specs::btree::spec_btree_map_iter(&self.peers).remaining(),
                m == self.map(),
                ks == it.seq().map_values(|kv: (&Id20Key, &Peer)| *kv.0),
                ks.len() == it.seq().len(),
                forall|i: int| 0 <= i < it.seq().len() ==> m.contains_key(*it.seq()[i].0) && m[*it.seq()[i].0] == *it.seq()[i].1,
                pred == (|k: Id20Key| m[k].is_seeder_spec()),
                seeders == ks.take(it.index()).filter(pred).len(),
                it.seq().len() == m.len(),
                m.len() == len,
        {
            let ghost before = it.index();
            let ghost prefix = ks.take(before);
            proof {
                assert(ks[before] == *kv.0);
                assert(ks.take(before + 1) =~= prefix.push(*kv.0));
                prefix.lemma_filter_push(*kv.0, pred);
                prefix.lemma_filter_len(pred);
            }
            if kv.1.is_seeder() {
                seeders = seeders + 1;
            }
        }
        proof {
            assert(ks.take(ks.len() as int) =~= ks);
            lemma_id20_key_order_total();
            crate::order::lemma_increasing_no_duplicates(ks, id20_key_order());
            lemma_filter_count(ks, m.dom(), pred);
            assert(m.dom().filter(pred) =~= seeder_keys(m));
            vstd::set_lib::lemma_len_subset(seeder_keys(m), m.dom());
        }
        (seeders, len - seeders)
    }

    /// The peers in the order of their ids, without those announcing from
    /// `peer_addr`, at most `limit` of them.
    pub fn get_peers_excluding_addr(&self, peer_addr: &PeerAddress, limit: Option<usize>) -> (r: Vec<Peer>)
        ensures
            r@ == limited(excluding_key(listed_by_id(self.map()), peer_addr.key_spec()), limit),
    {
        let key = peer_addr.key();
        let mut out: Vec<Peer> = Vec::new();
        let ghost listing = listed_by_id(self.map());
        let ghost pred = |p: Peer| p.key_spec() != key;
        let entries = self.peers.iter();
        proof {
            lemma_id_iter_is_listing(self.peers, entries.remaining());
        }
        for kv in it: entries
            invariant
                it.seq() == vstd::std_specs::btree::spec_btree_map_iter(&self.peers).remaining(),
                listing.len() == it.seq().len(),
                forall|i: int| 0 <= i < it.seq().len() ==> listing[i] == *it.seq()[i].1,
                pred == (|p: Peer| p.key_spec() != key),
                out@ == limited(listing.take(it.index()).filter(pred), limit),
        {
            let ghost before = it.index();
            let ghost prefix = listing.take(before);
            let p = *kv.1;
            proof {
                assert(listing[before] == p);
                assert(listing.take(before + 1) =~= prefix.push(p));
                prefix.lemma_filter_push(p, pred);
            }
            let under_limit = match limit {
                Some(l) => out.len() < l,
                None => true,
            };
            if under_limit && !peer_key_eq(&p.peer_addr.key(), &key) {
                out.push(p);
            }
            proof {
                assert(limited(listing.take(before + 1).filter(pred), limit) =~= out@);
            }
        }
        proof {
            assert(listing.take(listing.len() as int) =~= listing);
        }
        out
    }
}

impl Default for PeerList {
    /// A list without peers.
    fn default() -> (r: Self)
        ensures
            r.wf(),
            r.map() == Map::<Id20Key, Peer>::empty(),
    {
        PeerList { peers: BTreeMap::new() }
    }
}

} // verus!

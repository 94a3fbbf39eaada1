//! The peers of one swarm, keyed by the key of their address, and what is
//! derived from them: the seeder and leecher counts and the lists handed out
//! to clients.
use std::collections::BTreeMap;

use vstd::prelude::*;
use vstd::std_specs::btree::increasing_seq;
use vstd::std_specs::iter::IteratorSpec;

use crate::order::{
    lemma_peer_key_order_total, lemma_peer_key_std_order, lemma_sorted_listing, peer_key_order,
    sorted_listing, strictly_increasing,
};
use crate::primitives::{peer_key_eq, DurationSinceUnixEpoch, Peer, PeerKey, PeerRole, SwarmMetadata};

verus! {

/// The keys of the peers in `m` that are seeders.
pub open spec fn seeder_keys<K>(m: Map<K, Peer>) -> Set<K> {
    m.dom().filter(|k: K| m[k].is_seeder_spec())
}

/// The keys of the peers in `m` that are leechers.
pub open spec fn leecher_keys<K>(m: Map<K, Peer>) -> Set<K> {
    m.dom().filter(|k: K| !m[k].is_seeder_spec())
}

/// The number of seeders in `m`.
pub open spec fn count_seeders<K>(m: Map<K, Peer>) -> nat {
    seeder_keys(m).len()
}

/// The number of leechers in `m`.
pub open spec fn count_leechers<K>(m: Map<K, Peer>) -> nat {
    leecher_keys(m).len()
}

/// Every peer is stored under the key of its own address.
pub open spec fn keyed_by_address(m: Map<PeerKey, Peer>) -> bool {
    forall|k: PeerKey| #[trigger] m.contains_key(k) ==> m[k].key_spec() == k
}

/// The keys of `m` in increasing order.
pub open spec fn sorted_peer_keys(m: Map<PeerKey, Peer>) -> Seq<PeerKey> {
    sorted_listing(m.dom(), peer_key_order())
}

/// The peers of `m` in the order of their keys.
pub open spec fn listed_peers(m: Map<PeerKey, Peer>) -> Seq<Peer> {
    sorted_peer_keys(m).map_values(|k: PeerKey| m[k])
}

/// At most `limit` first elements of `s`; all of them without a limit.
pub open spec fn limited<T>(s: Seq<T>, limit: Option<usize>) -> Seq<T> {
    match limit {
        Some(l) => if l < s.len() {
            s.take(l as int)
        } else {
            s
        },
        None => s,
    }
}

/// The peers of `s` whose address key is not `key`.
pub open spec fn excluding_key(s: Seq<Peer>, key: PeerKey) -> Seq<Peer> {
    s.filter(|p: Peer| p.key_spec() != key)
}

/// Whether two address keys are of the same network: both of I2P, or both
/// of the IP internet.
pub open spec fn same_network(a: PeerKey, b: PeerKey) -> bool {
    (a.0 == 2) == (b.0 == 2)
}

/// The peers of `s` whose address key is not `key` and that are of the same
/// network as `key`.
pub open spec fn excluding_key_in_network(s: Seq<Peer>, key: PeerKey) -> Seq<Peer> {
    s.filter(|p: Peer| p.key_spec() != key && same_network(p.key_spec(), key))
}

/// Whether a peer last announced at or before `cutoff`.
pub open spec fn is_inactive(p: Peer, cutoff: DurationSinceUnixEpoch) -> bool {
    p.updated@ <= cutoff@
}

/// The keys of the peers of `m` that are inactive at `cutoff`.
pub open spec fn inactive_keys<K>(m: Map<K, Peer>, cutoff: DurationSinceUnixEpoch) -> Set<K> {
    m.dom().filter(|k: K| is_inactive(m[k], cutoff))
}

/// The peers of `m` that are still active at `cutoff`.
pub open spec fn active_part<K>(m: Map<K, Peer>, cutoff: DurationSinceUnixEpoch) -> Map<K, Peer> {
    m.remove_keys(inactive_keys(m, cutoff))
}

/// The map's iterator yields its entries in key order.
proof fn lemma_iter_is_listing(m: BTreeMap<PeerKey, Peer>, v: Seq<(&PeerKey, &Peer)>)
    requires
        v == vstd::std_specs::btree::spec_btree_map_iter(&m).remaining(),
        increasing_seq(v.map_values(|kv: (&PeerKey, &Peer)| *kv.0)),
    ensures
        v.map_values(|kv: (&PeerKey, &Peer)| *kv.0) == sorted_peer_keys(m@),
        strictly_increasing(sorted_peer_keys(m@), peer_key_order()),
        sorted_peer_keys(m@).to_set() == m@.dom(),
        v.len() == m@.len(),
        forall|i: int| 0 <= i < v.len() ==> m@.contains_key(*v[i].0) && m@[*v[i].0] == *v[i].1,
{
    let ks = v.map_values(|kv: (&PeerKey, &Peer)| *kv.0);
    lemma_peer_key_order_total();
    assert(strictly_increasing(ks, peer_key_order())) by {
        assert forall|i: int, j: int| 0 <= i < j < ks.len() implies #[trigger] (peer_key_order())(
            ks[i],
            ks[j],
        ) by {
            lemma_peer_key_std_order(ks[i], ks[j]);
        }
    }
    assert(ks.to_set() =~= m@.dom()) by {
        assert forall|k: PeerKey| #[trigger] m@.dom().contains(k) implies ks.to_set().contains(k) by {
            assert(v.contains((&k, &m@[k])));
            let i = choose|i: int| 0 <= i < v.len() && v[i] == (&k, &m@[k]);
            assert(ks[i] == k);
        }
        assert forall|k: PeerKey| #[trigger] ks.to_set().contains(k) implies m@.dom().contains(k) by {
            let i = choose|i: int| 0 <= i < ks.len() && ks[i] == k;
            assert(m@.contains_key(*v[i].0));
        }
    }
    lemma_sorted_listing(ks, m@.dom(), peer_key_order());
}

/// The peers of `m` in key order, at most `limit` of them.
pub fn peers_in_order(m: &BTreeMap<PeerKey, Peer>, limit: Option<usize>) -> (r: Vec<Peer>)
    ensures
        r@ == limited(listed_peers(m@), limit),
{
    let mut out: Vec<Peer> = Vec::new();
    let ghost listing = listed_peers(m@);
    let entries = m.iter();
    proof {
        lemma_iter_is_listing(*m, entries.remaining());
    }
    for kv in it: entries
        invariant
            it.seq() == vstd::std_specs::btree::spec_btree_map_iter(m).remaining(),
            listing.len() == it.seq().len(),
            forall|i: int| 0 <= i < it.seq().len() ==> listing[i] == *it.seq()[i].1,
            listing == listed_peers(m@),
            out@ == limited(listing.take(it.index()), limit),
    {
        let ghost before = it.index();
        proof {
            assert(listing[before] == *it.seq()[before].1);
        }
        let under_limit = match limit {
            Some(l) => out.len() < l,
            None => true,
        };
        if under_limit {
            out.push(*kv.1);
        }
        proof {
            assert(listing.take(before + 1) =~= listing.take(before).push(listing[before]));
            assert(limited(listing.take(before + 1), limit) =~= out@);
        }
    }
    proof {
        assert(listing.take(listing.len() as int) =~= listing);
    }
    out
}


/// The peers of `m` in key order without those whose address key is `key`,
/// at most `limit` of them.
pub fn peers_in_order_excluding(m: &BTreeMap<PeerKey, Peer>, key: &PeerKey, limit: Option<usize>) -> (r:
    Vec<Peer>)
    ensures
        r@ == limited(excluding_key(listed_peers(m@), *key), limit),
{
    let mut out: Vec<Peer> = Vec::new();
    let ghost listing = listed_peers(m@);
    let ghost pred = |p: Peer| p.key_spec() != *key;
    let entries = m.iter();
    proof {
        lemma_iter_is_listing(*m, entries.remaining());
    }
    for kv in it: entries
        invariant
            it.seq() == vstd::std_specs::btree::spec_btree_map_iter(m).remaining(),
            listing.len() == it.seq().len(),
            forall|i: int| 0 <= i < it.seq().len() ==> listing[i] == *it.seq()[i].1,
            pred == (|p: Peer| p.key_spec() != *key),
            out@ == limited(listing.take(it.index()).filter(pred), limit),
    {
        let ghost before = it.index();
        let ghost prefix = listing.take(before);
        let p = *kv.1;
        proof {
            assert(listing[before] == p);
            assert(listing.take(before + 1) =~= prefix.push(p));
            prefix.lemma_filter_push(p, pred);
        }
        let under_limit = match limit {
            Some(l) => out.len() < l,
            None => true,
        };
        if under_limit && !peer_key_eq(&p.peer_addr.key(), key) {
            out.push(p);
        }
        proof {
            assert(limited(listing.take(before + 1).filter(pred), limit) =~= out@);
        }
    }
    proof {
        assert(listing.take(listing.len() as int) =~= listing);
    }
    out
}

/// The peers of `m` in key order that are of the same network as `key`,
/// without those whose address key is `key`, at most `limit` of them.
pub fn peers_in_order_excluding_in_network(m: &BTreeMap<PeerKey, Peer>, key: &PeerKey, limit: Option<usize>) -> (r:
    Vec<Peer>)
    ensures
        r@ == limited(excluding_key_in_network(listed_peers(m@), *key), limit),
{
    let mut out: Vec<Peer> = Vec::new();
    let ghost listing = listed_peers(m@);
    let ghost pred = |p: Peer| p.key_spec() != *key && same_network(p.key_spec(), *key);
    let entries = m.iter();
    proof {
        lemma_iter_is_listing(*m, entries.remaining());
    }
    for kv in it: entries
        invariant
            it.seq() == vstd::std_specs::btree::spec_btree_map_iter(m).remaining(),
            listing.len() == it.seq().len(),
            forall|i: int| 0 <= i < it.seq().len() ==> listing[i] == *it.seq()[i].1,
            pred == (|p: Peer| p.key_spec() != *key && same_network(p.key_spec(), *key)),
            out@ == limited(listing.take(it.index()).filter(pred), limit),
    {
        let ghost before = it.index();
        let ghost prefix = listing.take(before);
        let p = *kv.1;
        proof {
            assert(listing[before] == p);
            assert(listing.take(before + 1) =~= prefix.push(p));
            prefix.lemma_filter_push(p, pred);
        }
        let under_limit = match limit {
            Some(l) => out.len() < l,
            None => true,
        };
        let peer_key = p.peer_addr.key();
        if under_limit && !peer_key_eq(&peer_key, key) && (peer_key.0 == 2) == (key.0 == 2) {
            out.push(p);
        }
        proof {
            assert(limited(listing.take(before + 1).filter(pred), limit) =~= out@);
        }
    }
    proof {
        assert(listing.take(listing.len() as int) =~= listing);
    }
    out
}

/// The keys of the peers of `m` that are inactive at `cutoff`, in order.
pub open spec fn listed_inactive_keys(m: Map<PeerKey, Peer>, cutoff: DurationSinceUnixEpoch) -> Seq<
    PeerKey,
> {
    sorted_peer_keys(m).filter(|k: PeerKey| is_inactive(m[k], cutoff))
}

/// The keys of the peers of `m` that last announced at or before `cutoff`,
/// in key order.
pub fn inactive_keys_in_order(m: &BTreeMap<PeerKey, Peer>, cutoff: &DurationSinceUnixEpoch) -> (r:
    Vec<PeerKey>)
    ensures
        r@ == listed_inactive_keys(m@, *cutoff),
        r@.to_set() == inactive_keys(m@, *cutoff),
        r@.no_duplicates(),
{
    let mut out: Vec<PeerKey> = Vec::new();
    let ghost keys = sorted_peer_keys(m@);
    let ghost pred = |k: PeerKey| is_inactive(m@[k], *cutoff);
    let entries = m.iter();
    proof {
        lemma_iter_is_listing(*m, entries.remaining());
    }
    for kv in it: entries
        invariant
            it.seq() == vstd::std_specs::btree::spec_btree_map_iter(m).remaining(),
            keys == it.seq().map_values(|kv: (&PeerKey, &Peer)| *kv.0),
            forall|i: int| 0 <= i < it.seq().len() ==> m@.contains_key(*it.seq()[i].0) && m@[*it.seq()[i].0] == *it.seq()[i].1,
            pred == (|k: PeerKey| is_inactive(m@[k], *cutoff)),
            strictly_increasing(keys, peer_key_order()),
            keys.to_set() == m@.dom(),
            out@ == keys.take(it.index()).filter(pred),
            strictly_increasing(out@, peer_key_order()),
            forall|j: int| 0 <= j < out@.len() ==> #[trigger] keys.take(it.index()).contains(out@[j]),
    {
        let ghost before = it.index();
        let ghost prefix = keys.take(before);
        let k = *kv.0;
        proof {
            assert(keys[before] == k);
            assert(keys.take(before + 1) =~= prefix.push(k));
            prefix.lemma_filter_push(k, pred);
        }
        if kv.1.updated.is_at_or_before(cutoff) {
            proof {
                assert forall|j: int| 0 <= j < out@.len() implies #[trigger] (peer_key_order())(out@[j], k) by {
                    assert(prefix.contains(out@[j]));
                    let i = choose|i: int| 0 <= i < prefix.len() && prefix[i] == out@[j];
                    assert(keys[i] == out@[j]);
                }
            }
            out.push(k);
        }
        proof {
            assert forall|j: int| 0 <= j < out@.len() implies #[trigger] keys.take(before + 1).contains(out@[j]) by {
                if j < out@.len() - 1 || out@[j] != k {
                    if prefix.contains(out@[j]) {
                        let i = choose|i: int| 0 <= i < prefix.len() && prefix[i] == out@[j];
                        assert(keys.take(before + 1)[i] == out@[j]);
                    }
                }
                if out@[j] == k {
                    assert(keys.take(before + 1)[before] == k);
                }
            }
        }
    }
    proof {
        assert(keys.take(keys.len() as int) =~= keys);
        lemma_peer_key_order_total();
        crate::order::lemma_increasing_no_duplicates(keys, peer_key_order());
        broadcast use vstd::seq_lib::group_filter_ensures;
        assert(keys.to_set() == m@.dom());
        assert(out@.to_set() =~= inactive_keys(m@, *cutoff)) by {
            assert forall|k: PeerKey| #[trigger] out@.to_set().contains(k) implies inactive_keys(
                m@,
                *cutoff,
            ).contains(k) by {
                let i = choose|i: int| 0 <= i < out@.len() && out@[i] == k;
                assert(keys.contains(k));
            }
            assert forall|k: PeerKey| #[trigger] inactive_keys(m@, *cutoff).contains(k) implies out@.to_set().contains(k) by {
                assert(keys.to_set().contains(k));
                let i = choose|i: int| 0 <= i < keys.len() && keys[i] == k;
                keys.lemma_filter_contains_rev(pred, k);
            }
        }
        crate::order::lemma_increasing_no_duplicates(out@, peer_key_order());
    }
    out
}

/// Filtering keeps a sequence free of repeated elements.
pub proof fn lemma_filter_no_duplicates<K>(s: Seq<K>, pred: spec_fn(K) -> bool)
    requires
        s.no_duplicates(),
    ensures
        s.filter(pred).no_duplicates(),
    decreases s.len(),
{
    broadcast use vstd::seq_lib::group_filter_ensures;

    if s.len() > 0 {
        let init = s.drop_last();
        let x = s.last();
        assert(s =~= init.push(x));
        lemma_filter_no_duplicates(init, pred);
        init.lemma_filter_push(x, pred);
        if pred(x) {
            assert(!init.filter(pred).contains(x)) by {
                if init.filter(pred).contains(x) {
                    init.lemma_filter_contains_rev(pred, x);
                    let j = choose|j: int| 0 <= j < init.len() && init[j] == x;
                    assert(s[j] == s[s.len() - 1]);
                }
            }
        }
    }
}

/// In a listing of a set without repeats, the elements satisfying `pred`
/// are as many as the members of the set that do.
pub proof fn lemma_filter_count<K>(ks: Seq<K>, d: Set<K>, pred: spec_fn(K) -> bool)
    requires
        ks.no_duplicates(),
        ks.to_set() == d,
    ensures
        ks.filter(pred).len() == d.filter(pred).len(),
{
    broadcast use vstd::seq_lib::group_filter_ensures;

    let f = ks.filter(pred);
    lemma_filter_no_duplicates(ks, pred);
    assert(f.to_set() =~= d.filter(pred)) by {
        assert forall|k: K| #[trigger] d.filter(pred).contains(k) implies f.to_set().contains(k) by {
            assert(ks.to_set().contains(k));
            let i = choose|i: int| 0 <= i < ks.len() && ks[i] == k;
            ks.lemma_filter_contains(pred, i);
        }
        assert forall|k: K| #[trigger] f.to_set().contains(k) implies d.filter(pred).contains(k) by {
            ks.lemma_filter_contains_rev(pred, k);
            let i = choose|i: int| 0 <= i < f.len() && f[i] == k;
            ks.lemma_filter_pred(pred, i);
        }
    }
    f.unique_seq_to_set();
}

/// Adding a peer under a new key adds it to the count of its role.
pub proof fn lemma_counts_insert_new<K>(m: Map<K, Peer>, k: K, p: Peer)
    requires
        m.dom().finite(),
        !m.contains_key(k),
    ensures
        count_seeders(m.insert(k, p)) == count_seeders(m) + if p.is_seeder_spec() {
            1int
        } else {
            0int
        },
        count_leechers(m.insert(k, p)) == count_leechers(m) + if p.is_seeder_spec() {
            0int
        } else {
            1int
        },
{
    let m2 = m.insert(k, p);
    assert(seeder_keys(m).subset_of(m.dom()));
    assert(leecher_keys(m).subset_of(m.dom()));
    if p.is_seeder_spec() {
        assert(seeder_keys(m2) =~= seeder_keys(m).insert(k));
        assert(leecher_keys(m2) =~= leecher_keys(m));
    } else {
        assert(seeder_keys(m2) =~= seeder_keys(m));
        assert(leecher_keys(m2) =~= leecher_keys(m).insert(k));
    }
}

/// Removing a peer takes it from the count of its role.
pub proof fn lemma_counts_remove<K>(m: Map<K, Peer>, k: K)
    requires
        m.dom().finite(),
        m.contains_key(k),
    ensures
        count_seeders(m.remove(k)) == count_seeders(m) - if m[k].is_seeder_spec() {
            1int
        } else {
            0int
        },
        count_leechers(m.remove(k)) == count_leechers(m) - if m[k].is_seeder_spec() {
            0int
        } else {
            1int
        },
{
    let m2 = m.remove(k);
    assert(seeder_keys(m).subset_of(m.dom()));
    assert(leecher_keys(m).subset_of(m.dom()));
    if m[k].is_seeder_spec() {
        assert(seeder_keys(m2) =~= seeder_keys(m).remove(k));
        assert(leecher_keys(m2) =~= leecher_keys(m));
    } else {
        assert(seeder_keys(m2) =~= seeder_keys(m));
        assert(leecher_keys(m2) =~= leecher_keys(m).remove(k));
    }
}

/// Seeders and leechers together are all the peers.
pub proof fn lemma_counts_sum<K>(m: Map<K, Peer>)
    requires
        m.dom().finite(),
    ensures
        count_seeders(m) + count_leechers(m) == m.len(),
{
    assert(seeder_keys(m).subset_of(m.dom()));
    assert(leecher_keys(m).subset_of(m.dom()));
    assert(seeder_keys(m).disjoint(leecher_keys(m)));
    assert(seeder_keys(m).union(leecher_keys(m)) =~= m.dom());
    vstd::set_lib::lemma_set_disjoint_lens(seeder_keys(m), leecher_keys(m));
}

/// The counters after `announce` replaces `previous` (or joins, when there
/// is no previous announcement): a peer that changes role moves from one
/// counter to the other, a new peer adds to the counter of its role, and a
/// known peer that now announces completion, having not done so before,
/// adds a download.
pub open spec fn metadata_after_upsert(
    meta: SwarmMetadata,
    previous: Option<Peer>,
    announce: Peer,
) -> SwarmMetadata {
    match previous {
        Some(old) => {
            let role_changed = old.role_spec() != announce.role_spec();
            SwarmMetadata {
                complete: if role_changed {
                    if announce.is_seeder_spec() {
                        (meta.complete + 1) as u32
                    } else {
                        (meta.complete - 1) as u32
                    }
                } else {
                    meta.complete
                },
                incomplete: if role_changed {
                    if announce.is_seeder_spec() {
                        (meta.incomplete - 1) as u32
                    } else {
                        (meta.incomplete + 1) as u32
                    }
                } else {
                    meta.incomplete
                },
                downloaded: if downloads_increase(previous, announce) {
                    (meta.downloaded + 1) as u32
                } else {
                    meta.downloaded
                },
            }
        },
        None => SwarmMetadata {
            complete: if announce.is_seeder_spec() {
                (meta.complete + 1) as u32
            } else {
                meta.complete
            },
            incomplete: if announce.is_seeder_spec() {
                meta.incomplete
            } else {
                (meta.incomplete + 1) as u32
            },
            downloaded: meta.downloaded,
        },
    }
}

/// A known peer that announces completion, not having announced it before,
/// counts as one more download.
pub open spec fn downloads_increase(previous: Option<Peer>, announce: Peer) -> bool {
    match previous {
        Some(old) => announce.is_completed_spec() && !old.is_completed_spec(),
        None => false,
    }
}

/// The counters after `removed` leaves the swarm.
pub open spec fn metadata_after_removal(meta: SwarmMetadata, removed: Peer) -> SwarmMetadata {
    if removed.is_seeder_spec() {
        SwarmMetadata { complete: (meta.complete - 1) as u32, ..meta }
    } else {
        SwarmMetadata { incomplete: (meta.incomplete - 1) as u32, ..meta }
    }
}

/// The value of `m` at `k`, if any.
pub open spec fn lookup<K, V>(m: Map<K, V>, k: K) -> Option<V> {
    if m.contains_key(k) {
        Some(m[k])
    } else {
        None
    }
}

/// The peers of one swarm with their counters.
#[derive(Clone)]
pub struct PeerSwarm {
    peers: BTreeMap<PeerKey, Peer>,
    metadata: SwarmMetadata,
}

impl PeerSwarm {
    /// The peers, by the key of their address.
    pub closed spec fn map(&self) -> Map<PeerKey, Peer> {
        self.peers@
    }

    /// The counters.
    pub closed spec fn meta(&self) -> SwarmMetadata {
        self.metadata
    }

    /// Peers are stored under their own address, and the seeder and leecher
    /// counters are the numbers of seeders and leechers among them.
    pub open spec fn wf(&self) -> bool {
        &&& self.map().dom().finite()
        &&& keyed_by_address(self.map())
        &&& self.meta().complete == count_seeders(self.map())
        &&& self.meta().incomplete == count_leechers(self.map())
    }

    /// Whether `announce` can be added without a counter going past its
    /// largest value.
    pub open spec fn upsert_fits(&self, announce: Peer) -> bool {
        let k = announce.key_spec();
        let previous = lookup(self.map(), k);
        &&& (announce.is_seeder_spec() && (previous is None || previous->0.role_spec()
            != announce.role_spec())) ==> self.meta().complete < u32::MAX
        &&& (!announce.is_seeder_spec() && (previous is None || previous->0.role_spec()
            != announce.role_spec())) ==> self.meta().incomplete < u32::MAX
        &&& downloads_increase(previous, announce) ==> self.meta().downloaded < u32::MAX
    }

    /// An empty swarm that has seen `downloaded` downloads.
    pub fn new(downloaded: u32) -> (r: Self)
        ensures
            r.wf(),
            r.map() == Map::<PeerKey, Peer>::empty(),
            r.meta() == (SwarmMetadata { downloaded, complete: 0, incomplete: 0 }),
    {
        let r = PeerSwarm {
            peers: BTreeMap::new(),
            metadata: SwarmMetadata { downloaded, complete: 0, incomplete: 0 },
        };
        proof {
            assert(seeder_keys(r.map()) =~= Set::<PeerKey>::empty());
            assert(leecher_keys(r.map()) =~= Set::<PeerKey>::empty());
        }
        r
    }

    /// The counters.
    pub fn metadata(&self) -> (r: SwarmMetadata)
        ensures
            r == self.meta(),
    {
        self.metadata
    }

    /// The number of peers.
    pub fn len(&self) -> (r: usize)
        requires
            self.wf(),
        ensures
            r == self.map().len(),
    {
        self.peers.len()
    }

    /// Whether there are no peers.
    pub fn is_empty(&self) -> (r: bool)
        ensures
            r == (self.map().len() == 0),
    {
        proof {
            broadcast use vstd::set_lib::group_set_properties;
        }
        let r = self.peers.is_empty();
        proof {
            if !r {
                let k = choose|k: PeerKey| self.map().contains_key(k);
                assert(self.map().dom().contains(k));
            } else {
                assert(self.map().dom() =~= Set::<PeerKey>::empty());
            }
        }
        r
    }

    /// The peer with address key `key`, if any.
    pub fn get(&self, key: &PeerKey) -> (r: Option<&Peer>)
        ensures
            match r {
                Some(p) => self.map().contains_key(*key) && *p == self.map()[*key],
                None => !self.map().contains_key(*key),
            },
    {
        self.peers.get(key)
    }

    /// Puts `announce` in the place of the peer with the same address, or
    /// adds it; returns the announcement it replaced and whether the
    /// download counter grew.
    pub fn upsert(&mut self, announce: Peer) -> (r: (Option<Peer>, bool))
        requires
            old(self).wf(),
            old(self).upsert_fits(announce),
        ensures
            final(self).wf(),
            final(self).map() == old(self).map().insert(announce.key_spec(), announce),
            r.0 == lookup(old(self).map(), announce.key_spec()),
            r.1 == downloads_increase(r.0, announce),
            final(self).meta() == metadata_after_upsert(old(self).meta(), r.0, announce),
    {
        let key = announce.peer_addr.key();
        let previous = self.peers.insert(key, announce);
        let ghost m0 = old(self).map();
        match previous {
            Some(old_peer) => {
                proof {
                    lemma_counts_remove(m0, key);
                    lemma_counts_insert_new(m0.remove(key), key, announce);
                    assert(m0.remove(key).insert(key, announce) =~= m0.insert(key, announce));
                    assert(self.metadata.complete == count_seeders(m0));
                }
                let role_changed = !matches!(
                    (old_peer.role(), announce.role()),
                    (PeerRole::Seeder, PeerRole::Seeder) | (PeerRole::Leecher, PeerRole::Leecher)
                );
                if role_changed {
                    if announce.is_seeder() {
                        self.metadata.complete = self.metadata.complete + 1;
                        self.metadata.incomplete = self.metadata.incomplete - 1;
                    } else {
                        self.metadata.complete = self.metadata.complete - 1;
                        self.metadata.incomplete = self.metadata.incomplete + 1;
                    }
                }
                let increased = announce.is_completed() && !old_peer.is_completed();
                if increased {
                    self.metadata.downloaded = self.metadata.downloaded + 1;
                }
                (Some(old_peer), increased)
            },
            None => {
                proof {
                    lemma_counts_insert_new(m0, key, announce);
                }
                if announce.is_seeder() {
                    self.metadata.complete = self.metadata.complete + 1;
                } else {
                    self.metadata.incomplete = self.metadata.incomplete + 1;
                }
                (None, false)
            },
        }
    }

    /// Removes the peer with address key `key`, if there is one.
    pub fn remove_key(&mut self, key: &PeerKey) -> (r: Option<Peer>)
        requires
            old(self).wf(),
        ensures
            final(self).wf(),
            final(self).map() == old(self).map().remove(*key),
            r == lookup(old(self).map(), *key),
            final(self).meta() == match r {
                Some(p) => metadata_after_removal(old(self).meta(), p),
                None => old(self).meta(),
            },
    {
        let removed = self.peers.remove(key);
        match removed {
            Some(p) => {
                proof {
                    lemma_counts_remove(old(self).map(), *key);
                }
                if p.is_seeder() {
                    self.metadata.complete = self.metadata.complete - 1;
                } else {
                    self.metadata.incomplete = self.metadata.incomplete - 1;
                }
                Some(p)
            },
            None => {
                proof {
                    assert(self.map() =~= old(self).map());
                }
                None
            },
        }
    }

    /// The peers in the order of their address keys, at most `limit`.
    pub fn peers(&self, limit: Option<usize>) -> (r: Vec<Peer>)
        ensures
            r@ == limited(listed_peers(self.map()), limit),
    {
        peers_in_order(&self.peers, limit)
    }

    /// The peers in key order without the one at address key `key`, at most
    /// `limit` of them.
    pub fn peers_excluding(&self, key: &PeerKey, limit: Option<usize>) -> (r: Vec<Peer>)
        ensures
            r@ == limited(excluding_key(listed_peers(self.map()), *key), limit),
    {
        peers_in_order_excluding(&self.peers, key, limit)
    }

    /// The peers in key order that are of the same network as `key`,
    /// without the one at address key `key`, at most `limit` of them.
    pub fn peers_excluding_in_network(&self, key: &PeerKey, limit: Option<usize>) -> (r: Vec<Peer>)
        ensures
            r@ == limited(excluding_key_in_network(listed_peers(self.map()), *key), limit),
    {
        peers_in_order_excluding_in_network(&self.peers, key, limit)
    }

    /// The keys of the peers that last announced at or before `cutoff`, in
    /// key order.
    pub fn inactive_keys(&self, cutoff: &DurationSinceUnixEpoch) -> (r: Vec<PeerKey>)
        ensures
            r@ == listed_inactive_keys(self.map(), *cutoff),
            r@.to_set() == inactive_keys(self.map(), *cutoff),
            r@.no_duplicates(),
    {
        inactive_keys_in_order(&self.peers, cutoff)
    }

    /// The number of peers that last announced at or before `cutoff`.
    pub fn count_inactive(&self, cutoff: &DurationSinceUnixEpoch) -> (r: usize)
        ensures
            r == inactive_keys(self.map(), *cutoff).len(),
    {
        let keys = inactive_keys_in_order(&self.peers, cutoff);
        proof {
            keys@.unique_seq_to_set();
        }
        keys.len()
    }

    /// Removes the peers that last announced at or before `cutoff` and
    /// returns them in key order.
    pub fn remove_inactive(&mut self, cutoff: &DurationSinceUnixEpoch) -> (r: Vec<Peer>)
        requires
            old(self).wf(),
        ensures
            final(self).wf(),
            final(self).map() == active_part(old(self).map(), *cutoff),
            r@ == listed_inactive_keys(old(self).map(), *cutoff).map_values(
                |k: PeerKey| old(self).map()[k],
            ),
            final(self).meta().downloaded == old(self).meta().downloaded,
            r@.len() == inactive_keys(old(self).map(), *cutoff).len(),
    {
        let keys = self.inactive_keys(cutoff);
        proof {
            keys@.unique_seq_to_set();
        }
        let ghost m0 = self.map();
        let ghost d0 = self.metadata.downloaded;
        let mut removed: Vec<Peer> = Vec::new();
        let mut i: usize = 0;
        while i < keys.len()
            invariant
                self.wf(),
                i <= keys@.len(),
                keys@.no_duplicates(),
                keys@.to_set() == inactive_keys(m0, *cutoff),
                self.map() == m0.remove_keys(keys@.take(i as int).to_set()),
                removed@ == keys@.take(i as int).map_values(|k: PeerKey| m0[k]),
                self.meta().downloaded == d0,
            decreases keys@.len() - i,
        {
            let k = keys[i];
            let ghost before = keys@.take(i as int);
            proof {
                assert(keys@.to_set().contains(k));
                assert(!before.contains(k)) by {
                    if before.contains(k) {
                        let j = choose|j: int| 0 <= j < before.len() && before[j] == k;
                        assert(keys@[j] == keys@[i as int]);
                    }
                }
                assert(m0.contains_key(k));
                assert(self.map().contains_key(k));
            }
            let r = self.remove_key(&k);
            match r {
                Some(p) => {
                    removed.push(p);
                },
                None => {},
            }
            proof {
                assert(keys@.take(i + 1) =~= before.push(k));
                before.lemma_push_to_set_commute(k);
                assert(self.map() =~= m0.remove_keys(keys@.take(i + 1).to_set()));
                assert(removed@ =~= keys@.take(i + 1).map_values(|k: PeerKey| m0[k]));
            }
            i = i + 1;
        }
        proof {
            assert(keys@.take(keys@.len() as int) =~= keys@);
        }
        removed
    }

    /// The numbers of seeders and leechers.
    pub fn seeders_and_leechers(&self) -> (r: (usize, usize))
        ensures
            r.0 == self.meta().complete,
            r.1 == self.meta().incomplete,
    {
        (self.metadata.complete as usize, self.metadata.incomplete as usize)
    }
}

} // verus!

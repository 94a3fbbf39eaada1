//! The torrent repository: one entry per torrent, found by its info-hash,
//! each holding the peers of the torrent keyed by peer id and its download
//! count.
use vstd::prelude::*;

use crate::entry::peer_list::listed_by_id;
use crate::entry::single::{entry_download_added, entry_peers_after, entry_retained, EntrySingle};
use crate::order::{id20_key_order, sorted_listing};
use crate::peers::{active_part, count_seeders, excluding_key, limited};
use crate::primitives::{
    AggregateSwarmMetadata, DurationSinceUnixEpoch, Id20Key, InfoHash, NumberOfDownloads, Pagination,
    Peer, SwarmMetadata, TrackerPolicy,
};
use crate::registry::{imported, lemma_imported, page_of, paged};
use crate::sums::{
    count_by, lemma_count_by_le_len, lemma_count_by_step, lemma_sum_by_bounded, lemma_sum_by_prefix_le,
    lemma_sum_by_step, sum_by,
};
use crate::table::TorrentTable;

pub mod skip_map_mutex_std;
pub mod statistics;

verus! {

/// The seeders of an entry, as its counters give them.
pub open spec fn entry_complete_of() -> spec_fn(EntrySingle) -> nat {
    |e: EntrySingle| (count_seeders(e.peers_map()) as u32) as nat
}

/// The leechers of an entry, as its counters give them.
pub open spec fn entry_incomplete_of() -> spec_fn(EntrySingle) -> nat {
    |e: EntrySingle| ((e.peers_map().len() - count_seeders(e.peers_map())) as u32) as nat
}

/// The downloads of an entry.
pub open spec fn entry_downloaded_of() -> spec_fn(EntrySingle) -> nat {
    |e: EntrySingle| e.downloaded as nat
}

/// Whether `policy` drops an entry.
pub open spec fn entry_dropped_by(policy: TrackerPolicy) -> spec_fn(EntrySingle) -> bool {
    |e: EntrySingle| !entry_retained(policy, e.peers_map().len(), e.downloaded)
}

/// The entry `after` is `before` without the peers inactive at `cutoff`.
pub open spec fn entry_pruned(before: EntrySingle, after: EntrySingle, cutoff: DurationSinceUnixEpoch) -> bool {
    &&& after.wf()
    &&& after.peers_map() == active_part(before.peers_map(), cutoff)
    &&& after.downloaded == before.downloaded
}

/// The counters an entry reports.
pub open spec fn entry_metadata(e: EntrySingle) -> SwarmMetadata {
    SwarmMetadata {
        downloaded: e.downloaded,
        complete: count_seeders(e.peers_map()) as u32,
        incomplete: (e.peers_map().len() - count_seeders(e.peers_map())) as u32,
    }
}

/// The entries of all torrents, by the key of their info-hash.
pub struct TorrentRepository {
    torrents: TorrentTable<EntrySingle>,
}

impl TorrentRepository {
    /// The entries, by the key of their info-hash.
    pub closed spec fn entries(&self) -> Map<Id20Key, EntrySingle> {
        self.torrents@
    }

    /// The index is consistent and every entry is well formed.
    pub closed spec fn wf(&self) -> bool {
        &&& self.torrents.wf()
        &&& forall|k: Id20Key| #[trigger] self.torrents@.contains_key(k) ==> self.torrents@[k].wf()
    }

    /// The facts that follow from well-formedness.
    pub proof fn lemma_wf(&self)
        requires
            self.wf(),
        ensures
            self.entries().dom().finite(),
            forall|k: Id20Key| #[trigger] self.entries().contains_key(k) ==> self.entries()[k].wf(),
    {
        self.torrents.lemma_wf();
    }

    /// The keys of the entries in increasing order.
    pub open spec fn sorted_keys_spec(&self) -> Seq<Id20Key> {
        sorted_listing(self.entries().dom(), id20_key_order())
    }

    /// Whether an announcement of `peer` for `info_hash` keeps the download
    /// counter of its entry in range (a new entry always does).
    pub open spec fn upsert_fits(&self, info_hash: InfoHash, peer: Peer) -> bool {
        self.entries().contains_key(info_hash.key_spec()) ==> self.entries()[info_hash.key_spec()].accepts(peer)
    }

    /// The peers an announcement for `info_hash` starts from.
    pub open spec fn base_peers(&self, info_hash: InfoHash) -> Map<Id20Key, Peer> {
        if self.entries().contains_key(info_hash.key_spec()) {
            self.entries()[info_hash.key_spec()].peers_map()
        } else {
            Map::empty()
        }
    }

    /// The download count an announcement for `info_hash` starts from: that
    /// of its entry, or, for a new torrent, the persisted one (0 if none).
    pub open spec fn base_downloaded(&self, info_hash: InfoHash, persisted: Option<NumberOfDownloads>) -> u32 {
        if self.entries().contains_key(info_hash.key_spec()) {
            self.entries()[info_hash.key_spec()].downloaded
        } else {
            match persisted {
                Some(d) => d,
                None => 0,
            }
        }
    }

    /// Whether the totals over all entries fit in `u64`.
    pub open spec fn totals_fit(&self) -> bool {
        &&& sum_by(self.sorted_keys_spec(), self.entries(), entry_complete_of()) <= u64::MAX
        &&& sum_by(self.sorted_keys_spec(), self.entries(), entry_incomplete_of()) <= u64::MAX
        &&& sum_by(self.sorted_keys_spec(), self.entries(), entry_downloaded_of()) <= u64::MAX
    }

    /// An empty repository.
    pub fn new() -> (r: Self)
        ensures
            r.wf(),
            r.entries() == Map::<Id20Key, EntrySingle>::empty(),
    {
        TorrentRepository { torrents: TorrentTable::new() }
    }

    /// Handles an announcement of `peer` for the torrent `info_hash`. A
    /// torrent seen for the first time gets a new entry, whose download count
    /// is `opt_persistent_torrent` when given. Returns whether the download
    /// count grew.
    pub fn upsert_peer(
        &mut self,
        info_hash: &InfoHash,
        peer: &Peer,
        opt_persistent_torrent: Option<NumberOfDownloads>,
    ) -> (r: bool)
        requires
            old(self).wf(),
            old(self).upsert_fits(*info_hash, *peer),
        ensures
            final(self).wf(),
            final(self).entries().dom() == old(self).entries().dom().insert(info_hash.key_spec()),
            forall|k: Id20Key|
                k != info_hash.key_spec() && #[trigger] old(self).entries().contains_key(k)
                    ==> final(self).entries()[k] == old(self).entries()[k],
            final(self).entries()[info_hash.key_spec()].peers_map() == entry_peers_after(
                old(self).base_peers(*info_hash),
                *peer,
            ),
            r == entry_download_added(old(self).base_peers(*info_hash), *peer),
            final(self).entries()[info_hash.key_spec()].downloaded == if r {
                (old(self).base_downloaded(*info_hash, opt_persistent_torrent) + 1) as u32
            } else {
                old(self).base_downloaded(*info_hash, opt_persistent_torrent)
            },
    {
        let key = info_hash.key();
        proof {
            self.torrents.lemma_wf();
        }
        let mut entry = match self.torrents.remove(&key) {
            Some(existing_entry) => existing_entry,
            None => {
                let downloaded = match opt_persistent_torrent {
                    Some(number_of_downloads) => number_of_downloads,
                    None => 0,
                };
                let new_entry = EntrySingle { swarm: crate::entry::peer_list::PeerList::default(), downloaded };
                new_entry
            },
        };
        let number_of_downloads_increased = entry.upsert_peer(peer);
        self.torrents.insert_new(key, entry);
        proof {
            assert(self.torrents@ =~= old(self).torrents@.insert(key, self.torrents@[key]));
        }
        number_of_downloads_increased
    }

    /// Handles an announcement of `peer` for the torrent `info_hash` (a new
    /// torrent starts without downloads) and returns whether the download
    /// count grew, with the counters of the torrent afterwards.
    pub fn update_torrent_with_peer_and_get_stats(&mut self, info_hash: &InfoHash, peer: &Peer) -> (r: (
        bool,
        SwarmMetadata,
    ))
        requires
            old(self).wf(),
            old(self).upsert_fits(*info_hash, *peer),
        ensures
            final(self).wf(),
            final(self).entries().dom() == old(self).entries().dom().insert(info_hash.key_spec()),
            forall|k: Id20Key|
                k != info_hash.key_spec() && #[trigger] old(self).entries().contains_key(k)
                    ==> final(self).entries()[k] == old(self).entries()[k],
            final(self).entries()[info_hash.key_spec()].peers_map() == entry_peers_after(
                old(self).base_peers(*info_hash),
                *peer,
            ),
            r.0 == entry_download_added(old(self).base_peers(*info_hash), *peer),
            final(self).entries()[info_hash.key_spec()].downloaded == if r.0 {
                (old(self).base_downloaded(*info_hash, None) + 1) as u32
            } else {
                old(self).base_downloaded(*info_hash, None)
            },
            r.1 == entry_metadata(final(self).entries()[info_hash.key_spec()]),
    {
        let increased = self.upsert_peer(info_hash, peer, None);
        proof {
            self.lemma_wf();
            assert(self.entries().contains_key(info_hash.key_spec()));
        }
        let stats = self.torrents.get_existing(&info_hash.key()).get_swarm_metadata();
        (increased, stats)
    }

    /// Removes the entry of `key` and returns it, if there is one.
    pub fn remove(&mut self, key: &InfoHash) -> (r: Option<EntrySingle>)
        requires
            old(self).wf(),
        ensures
            final(self).wf(),
            final(self).entries() == old(self).entries().remove(key.key_spec()),
            match r {
                Some(e) => old(self).entries().contains_key(key.key_spec()) && e == old(self).entries()[key.key_spec()],
                None => !old(self).entries().contains_key(key.key_spec()),
            },
    {
        self.torrents.remove(&key.key())
    }

    /// Removes from every entry the peers that last announced at or before
    /// `current_cutoff`.
    pub fn remove_inactive_peers(&mut self, current_cutoff: DurationSinceUnixEpoch)
        requires
            old(self).wf(),
        ensures
            final(self).wf(),
            final(self).entries().dom() == old(self).entries().dom(),
            forall|k: Id20Key| #[trigger]
                old(self).entries().contains_key(k) ==> entry_pruned(
                    old(self).entries()[k],
                    final(self).entries()[k],
                    current_cutoff,
                ),
    {
        let keys = self.torrents.sorted_keys();
        let ghost m0 = self.entries();
        let mut i: usize = 0;
        while i < keys.len()
            invariant
                self.wf(),
                m0 == old(self).entries(),
                keys@.to_set() == m0.dom(),
                keys@.no_duplicates(),
                i <= keys@.len(),
                self.entries().dom() == m0.dom(),
                forall|j: int|
                    0 <= j < i ==> entry_pruned(m0[#[trigger] keys@[j]], self.entries()[keys@[j]], current_cutoff),
                forall|j: int| i <= j < keys@.len() ==> self.entries()[#[trigger] keys@[j]] == m0[keys@[j]],
            decreases keys@.len() - i,
        {
            let key = keys[i];
            proof {
                assert(keys@.to_set().contains(key));
                self.torrents.lemma_wf();
            }
            let ghost before = self.entries();
            if let Some(mut entry) = self.torrents.remove(&key) {
                entry.remove_inactive_peers(current_cutoff);
                self.torrents.insert_new(key, entry);
                proof {
                    assert(self.torrents@ =~= before.insert(key, self.torrents@[key]));
                    assert forall|j: int| 0 <= j < i + 1 implies entry_pruned(
                        m0[#[trigger] keys@[j]],
                        self.entries()[keys@[j]],
                        current_cutoff,
                    ) by {
                        if j < i {
                            assert(keys@[j] != key);
                        }
                    }
                    assert forall|j: int| i + 1 <= j < keys@.len() implies self.entries()[
                        #[trigger] keys@[j]] == m0[keys@[j]] by {
                        assert(keys@[j] != key);
                    }
                }
            }
            i = i + 1;
        }
        proof {
            assert forall|k: Id20Key| #[trigger] m0.contains_key(k) implies entry_pruned(
                m0[k],
                self.entries()[k],
                current_cutoff,
            ) by {
                assert(keys@.to_set().contains(k));
                let j = choose|j: int| 0 <= j < keys@.len() && keys@[j] == k;
                assert(entry_pruned(m0[keys@[j]], self.entries()[keys@[j]], current_cutoff));
            }
        }
    }

    /// The entry of `key`, if any.
    pub fn get(&self, key: &InfoHash) -> (r: Option<&EntrySingle>)
        requires
            self.wf(),
        ensures
            match r {
                Some(e) => self.entries().contains_key(key.key_spec()) && *e == self.entries()[key.key_spec()],
                None => !self.entries().contains_key(key.key_spec()),
            },
    {
        self.torrents.get(&key.key())
    }

    /// The entries with the keys of their torrents, in key order: all of
    /// them, or the page that `pagination` selects.
    pub fn get_paginated(&self, pagination: Option<&Pagination>) -> (r: Vec<(InfoHash, &EntrySingle)>)
        requires
            self.wf(),
        ensures
            r@.len() == paged(self.sorted_keys_spec(), page_of(pagination)).len(),
            forall|i: int|
                0 <= i < r@.len() ==> (#[trigger] r@[i]).0.key_spec() == paged(
                    self.sorted_keys_spec(),
                    page_of(pagination),
                )[i] && *r@[i].1 == self.entries()[paged(self.sorted_keys_spec(), page_of(pagination))[i]],
    {
        let keys = self.torrents.sorted_keys();
        let len = keys.len();
        let (start, end) = match pagination {
            Some(p) => {
                let offset = p.offset as usize;
                let start = if offset < len {
                    offset
                } else {
                    len
                };
                let limit = p.limit as usize;
                let end = if limit < len - start {
                    start + limit
                } else {
                    len
                };
                (start, end)
            },
            None => (0, len),
        };
        let ghost page = paged(keys@, page_of(pagination));
        proof {
            assert(page.len() == end - start);
            assert forall|i: int| 0 <= i < page.len() implies page[i] == keys@[start + i] by {}
        }
        let mut out: Vec<(InfoHash, &EntrySingle)> = Vec::new();
        let mut j: usize = start;
        while j < end
            invariant
                self.wf(),
                keys@ == self.sorted_keys_spec(),
                keys@.to_set() == self.entries().dom(),
                start <= j <= end,
                end <= keys@.len(),
                page.len() == end - start,
                forall|i: int| 0 <= i < page.len() ==> page[i] == keys@[start + i],
                out@.len() == j - start,
                forall|i: int|
                    0 <= i < out@.len() ==> (#[trigger] out@[i]).0.key_spec() == page[i] && *out@[i].1
                        == self.entries()[page[i]],
            decreases end - j,
        {
            let key = keys[j];
            proof {
                assert(keys@.to_set().contains(key));
            }
            out.push((InfoHash::from_key(key), self.torrents.get_existing(&key)));
            j = j + 1;
        }
        out
    }

    /// The counters of the entry of `info_hash`, if there is one.
    pub fn get_swarm_metadata(&self, info_hash: &InfoHash) -> (r: Option<SwarmMetadata>)
        requires
            self.wf(),
        ensures
            r == if self.entries().contains_key(info_hash.key_spec()) {
                Some(entry_metadata(self.entries()[info_hash.key_spec()]))
            } else {
                None
            },
    {
        match self.torrents.get(&info_hash.key()) {
            Some(entry) => Some(entry.get_swarm_metadata()),
            None => None,
        }
    }

    /// The counters of the entry of `info_hash`, or all zero if there is no
    /// such entry.
    pub fn get_swarm_metadata_or_default(&self, info_hash: &InfoHash) -> (r: SwarmMetadata)
        requires
            self.wf(),
        ensures
            r == if self.entries().contains_key(info_hash.key_spec()) {
                entry_metadata(self.entries()[info_hash.key_spec()])
            } else {
                SwarmMetadata { downloaded: 0, complete: 0, incomplete: 0 }
            },
    {
        match self.get_swarm_metadata(info_hash) {
            Some(swarm_metadata) => swarm_metadata,
            None => SwarmMetadata::zeroed(),
        }
    }

    /// The peers of the torrent `info_hash` in id order, without those
    /// announcing from the address of `peer`, at most `limit`; none for an
    /// unknown torrent.
    pub fn get_peers_for(&self, info_hash: &InfoHash, peer: &Peer, limit: usize) -> (r: Vec<Peer>)
        requires
            self.wf(),
        ensures
            r@ == if self.entries().contains_key(info_hash.key_spec()) {
                limited(
                    excluding_key(listed_by_id(self.entries()[info_hash.key_spec()].peers_map()), peer.key_spec()),
                    Some(limit),
                )
            } else {
                Seq::<Peer>::empty()
            },
    {
        match self.get(info_hash) {
            None => Vec::new(),
            Some(entry) => entry.get_peers_for_client(&peer.peer_addr, Some(limit)),
        }
    }

    /// The peers of the torrent `info_hash` in id order, at most `limit`;
    /// none for an unknown torrent.
    pub fn get_torrent_peers(&self, info_hash: &InfoHash, limit: usize) -> (r: Vec<Peer>)
        requires
            self.wf(),
        ensures
            r@ == if self.entries().contains_key(info_hash.key_spec()) {
                limited(listed_by_id(self.entries()[info_hash.key_spec()].peers_map()), Some(limit))
            } else {
                Seq::<Peer>::empty()
            },
    {
        match self.get(info_hash) {
            None => Vec::new(),
            Some(entry) => entry.get_peers(Some(limit)),
        }
    }

    /// Removes the entries that `policy` does not retain.
    pub fn remove_peerless_torrents(&mut self, policy: &TrackerPolicy)
        requires
            old(self).wf(),
        ensures
            final(self).wf(),
            forall|k: Id20Key| #[trigger]
                final(self).entries().contains_key(k) <==> old(self).entries().contains_key(k)
                    && !(entry_dropped_by(*policy))(old(self).entries()[k]),
            forall|k: Id20Key| #[trigger]
                final(self).entries().contains_key(k) ==> final(self).entries()[k] == old(self).entries()[k],
            policy.remove_peerless_torrents ==> forall|k: Id20Key| #[trigger]
                final(self).entries().contains_key(k) ==> final(self).entries()[k].peers_map().len() > 0 || (
                policy.persistent_torrent_completed_stat && final(self).entries()[k].downloaded > 0),
    {
        let keys = self.torrents.sorted_keys();
        let ghost m0 = self.entries();
        let mut i: usize = 0;
        while i < keys.len()
            invariant
                self.wf(),
                m0 == old(self).entries(),
                keys@.to_set() == m0.dom(),
                keys@.no_duplicates(),
                i <= keys@.len(),
                forall|k: Id20Key| #[trigger]
                    self.entries().contains_key(k) ==> m0.contains_key(k) && self.entries()[k] == m0[k],
                forall|j: int|
                    0 <= j < i ==> (self.entries().contains_key(#[trigger] keys@[j]) <==> !(
                    entry_dropped_by(*policy))(m0[keys@[j]])),
                forall|j: int| i <= j < keys@.len() ==> self.entries().contains_key(#[trigger] keys@[j]),
            decreases keys@.len() - i,
        {
            let key = keys[i];
            proof {
                assert(keys@.to_set().contains(key));
            }
            let ghost before = self.entries();
            if !self.torrents.get_existing(&key).meets_retaining_policy(policy) {
                let _removed = self.torrents.remove(&key);
                proof {
                    assert(self.entries() =~= before.remove(key));
                    assert forall|j: int| 0 <= j < i implies (self.entries().contains_key(
                        #[trigger] keys@[j],
                    ) <==> !(entry_dropped_by(*policy))(m0[keys@[j]])) by {
                        assert(keys@[j] != key);
                    }
                    assert forall|j: int| i + 1 <= j < keys@.len() implies self.entries().contains_key(
                        #[trigger] keys@[j],
                    ) by {
                        assert(keys@[j] != key);
                    }
                }
            }
            i = i + 1;
        }
        proof {
            assert forall|k: Id20Key| #[trigger] self.entries().contains_key(k) <==> m0.contains_key(k)
                && !(entry_dropped_by(*policy))(m0[k]) by {
                if m0.contains_key(k) {
                    assert(keys@.to_set().contains(k));
                    let j = choose|j: int| 0 <= j < keys@.len() && keys@[j] == k;
                    assert(self.entries().contains_key(keys@[j]) <==> !(entry_dropped_by(*policy))(m0[keys@[j]]));
                }
            }
        }
    }

    /// Adds an empty entry for each persisted torrent that has none yet, with
    /// its persisted download count (the last one listed for it).
    pub fn import_persistent(&mut self, persistent_torrents: &Vec<(InfoHash, NumberOfDownloads)>)
        requires
            old(self).wf(),
        ensures
            final(self).wf(),
            final(self).entries().dom() == old(self).entries().dom() + imported(
                old(self).entries().dom(),
                persistent_torrents@,
            ).dom(),
            forall|k: Id20Key| #[trigger]
                old(self).entries().contains_key(k) ==> final(self).entries()[k] == old(self).entries()[k],
            forall|k: Id20Key| #[trigger]
                imported(old(self).entries().dom(), persistent_torrents@).contains_key(k) ==> {
                    &&& final(self).entries()[k].peers_map() == Map::<Id20Key, Peer>::empty()
                    &&& final(self).entries()[k].downloaded == imported(
                        old(self).entries().dom(),
                        persistent_torrents@,
                    )[k].1
                },
    {
        let ghost m0 = self.entries();
        let ghost present = m0.dom();
        let ghost entries = persistent_torrents@;
        // The entries are taken from the last one back, so that the last
        // entry of a torrent is the one imported.
        let mut i: usize = persistent_torrents.len();
        proof {
            assert(entries.skip(i as int) =~= Seq::<(InfoHash, NumberOfDownloads)>::empty());
        }
        while i > 0
            invariant
                self.wf(),
                m0 == old(self).entries(),
                present == m0.dom(),
                entries == persistent_torrents@,
                i <= entries.len(),
                self.entries().dom() == present + imported(present, entries.skip(i as int)).dom(),
                forall|k: Id20Key| #[trigger] m0.contains_key(k) ==> self.entries()[k] == m0[k],
                forall|k: Id20Key| #[trigger]
                    imported(present, entries.skip(i as int)).contains_key(k) ==> {
                        &&& self.entries()[k].peers_map() == Map::<Id20Key, Peer>::empty()
                        &&& self.entries()[k].downloaded == imported(present, entries.skip(i as int))[k].1
                    },
            decreases i,
        {
            let j = i - 1;
            let (info_hash, completed) = persistent_torrents[j];
            let key = info_hash.key();
            proof {
                assert(entries.skip(j as int).drop_first() =~= entries.skip(i as int));
                assert(entries.skip(j as int)[0] == entries[j as int]);
                lemma_imported(present, entries.skip(i as int));
                self.torrents.lemma_wf();
            }
            if !self.torrents.contains(&key) {
                let entry = EntrySingle { swarm: crate::entry::peer_list::PeerList::default(), downloaded: completed };
                self.torrents.insert_new(key, entry);
                proof {
                    assert(imported(present, entries.skip(j as int)) == imported(
                        present,
                        entries.skip(i as int),
                    ).insert(key, (info_hash, completed)));
                    assert(self.entries().dom() =~= present + imported(present, entries.skip(j as int)).dom());
                }
            } else {
                proof {
                    assert(imported(present, entries.skip(j as int)) == imported(
                        present,
                        entries.skip(i as int),
                    ));
                }
            }
            i = j;
        }
        proof {
            assert(entries.skip(0) =~= entries);
        }
    }

    /// The totals of the counters of all entries, and the number of entries.
    pub fn get_aggregate_swarm_metadata(&self) -> (r: AggregateSwarmMetadata)
        requires
            self.wf(),
            self.totals_fit(),
        ensures
            r.total_complete == sum_by(self.sorted_keys_spec(), self.entries(), entry_complete_of()),
            r.total_incomplete == sum_by(self.sorted_keys_spec(), self.entries(), entry_incomplete_of()),
            r.total_downloaded == sum_by(self.sorted_keys_spec(), self.entries(), entry_downloaded_of()),
            r.total_torrents == self.entries().len(),
    {
        let keys = self.torrents.sorted_keys();
        let ghost m = self.entries();
        let mut metrics = AggregateSwarmMetadata::zeroed();
        let mut i: usize = 0;
        while i < keys.len()
            invariant
                self.wf(),
                m == self.entries(),
                self.totals_fit(),
                keys@ == self.sorted_keys_spec(),
                keys@.to_set() == m.dom(),
                i <= keys@.len(),
                metrics.total_complete == sum_by(keys@.take(i as int), m, entry_complete_of()),
                metrics.total_incomplete == sum_by(keys@.take(i as int), m, entry_incomplete_of()),
                metrics.total_downloaded == sum_by(keys@.take(i as int), m, entry_downloaded_of()),
                metrics.total_torrents == i,
            decreases keys@.len() - i,
        {
            let key = keys[i];
            proof {
                assert(keys@.to_set().contains(key));
                lemma_sum_by_step(keys@, m, entry_complete_of(), i as int);
                lemma_sum_by_step(keys@, m, entry_incomplete_of(), i as int);
                lemma_sum_by_step(keys@, m, entry_downloaded_of(), i as int);
                lemma_sum_by_prefix_le(keys@, m, entry_complete_of(), i + 1);
                lemma_sum_by_prefix_le(keys@, m, entry_incomplete_of(), i + 1);
                lemma_sum_by_prefix_le(keys@, m, entry_downloaded_of(), i + 1);
            }
            let stats = self.torrents.get_existing(&key).get_swarm_metadata();
            metrics.total_complete = metrics.total_complete + stats.complete as u64;
            metrics.total_downloaded = metrics.total_downloaded + stats.downloaded as u64;
            metrics.total_incomplete = metrics.total_incomplete + stats.incomplete as u64;
            metrics.total_torrents = metrics.total_torrents + 1;
            i = i + 1;
        }
        proof {
            assert(keys@.take(keys@.len() as int) =~= keys@);
        }
        metrics
    }

    /// With at most `u32::MAX` entries, the totals fit in `u64`.
    pub proof fn lemma_totals_fit(&self)
        requires
            self.wf(),
            self.entries().len() <= u32::MAX,
        ensures
            self.totals_fit(),
    {
        let keys = self.sorted_keys_spec();
        let m = self.entries();
        self.torrents.lemma_wf();
        crate::order::lemma_id20_key_order_total();
        crate::order::lemma_sorted_listing_exists(m.dom(), id20_key_order());
        let b = u32::MAX as nat;
        assert forall|i: int| 0 <= i < keys.len() implies #[trigger] (entry_complete_of())(m[keys[i]]) <= b by {}
        assert forall|i: int| 0 <= i < keys.len() implies #[trigger] (entry_incomplete_of())(m[keys[i]]) <= b by {}
        assert forall|i: int| 0 <= i < keys.len() implies #[trigger] (entry_downloaded_of())(m[keys[i]]) <= b by {}
        lemma_sum_by_bounded(keys, m, entry_complete_of(), b);
        lemma_sum_by_bounded(keys, m, entry_incomplete_of(), b);
        lemma_sum_by_bounded(keys, m, entry_downloaded_of(), b);
        let n = keys.len();
        assert(n * b <= u64::MAX) by (nonlinear_arith)
            requires
                n <= 0xffff_ffff,
                b == 0xffff_ffff,
        ;
    }
}

impl Default for TorrentRepository {
    /// An empty repository.
    fn default() -> (r: Self)
        ensures
            r.wf(),
            r.entries() == Map::<Id20Key, EntrySingle>::empty(),
    {
        TorrentRepository::new()
    }
}

} // verus!

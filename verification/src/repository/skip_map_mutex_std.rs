//! The torrent repository under the interface of its skip-map variant, whose
//! aggregate is called `get_metrics`.
use vstd::prelude::*;

use crate::entry::single::{entry_download_added, entry_peers_after, EntrySingle};
use crate::primitives::{
    AggregateSwarmMetadata, DurationSinceUnixEpoch, Id20Key, InfoHash, NumberOfDownloads, Pagination,
    Peer, SwarmMetadata, TrackerPolicy,
};
use crate::registry::{imported, page_of, paged};
use crate::repository::{
    entry_complete_of, entry_downloaded_of, entry_dropped_by, entry_incomplete_of, entry_metadata,
    entry_pruned, TorrentRepository,
};
use crate::sums::sum_by;

verus! {

/// The entries of all torrents, by the key of their info-hash.
pub struct TorrentsSkipMapMutexStd {
    torrents: TorrentRepository,
}

impl TorrentsSkipMapMutexStd {
    /// The repository holding the entries.
    pub closed spec fn repository(&self) -> TorrentRepository {
        self.torrents
    }

    /// Handles an announcement of `peer` for the torrent `info_hash` (see
    /// `TorrentRepository::upsert_peer`).
    pub fn upsert_peer(
        &mut self,
        info_hash: &InfoHash,
        peer: &Peer,
        opt_persistent_torrent: Option<NumberOfDownloads>,
    ) -> (r: bool)
        requires
            old(self).repository().wf(),
            old(self).repository().upsert_fits(*info_hash, *peer),
        ensures
            final(self).repository().wf(),
            final(self).repository().entries().dom() == old(self).repository().entries().dom().insert(
                info_hash.key_spec(),
            ),
            forall|k: Id20Key|
                k != info_hash.key_spec() && #[trigger] old(self).repository().entries().contains_key(k)
                    ==> final(self).repository().entries()[k] == old(self).repository().entries()[k],
            final(self).repository().entries()[info_hash.key_spec()].peers_map() == entry_peers_after(
                old(self).repository().base_peers(*info_hash),
                *peer,
            ),
            r == entry_download_added(old(self).repository().base_peers(*info_hash), *peer),
            final(self).repository().entries()[info_hash.key_spec()].downloaded == if r {
                (old(self).repository().base_downloaded(*info_hash, opt_persistent_torrent) + 1) as u32
            } else {
                old(self).repository().base_downloaded(*info_hash, opt_persistent_torrent)
            },
    {
        self.torrents.upsert_peer(info_hash, peer, opt_persistent_torrent)
    }

    /// The counters of the entry of `info_hash`, if there is one.
    pub fn get_swarm_metadata(&self, info_hash: &InfoHash) -> (r: Option<SwarmMetadata>)
        requires
            self.repository().wf(),
        ensures
            r == if self.repository().entries().contains_key(info_hash.key_spec()) {
                Some(entry_metadata(self.repository().entries()[info_hash.key_spec()]))
            } else {
                None
            },
    {
        self.torrents.get_swarm_metadata(info_hash)
    }

    /// The entry of `key`, if any.
    pub fn get(&self, key: &InfoHash) -> (r: Option<&EntrySingle>)
        requires
            self.repository().wf(),
        ensures
            match r {
                Some(e) => self.repository().entries().contains_key(key.key_spec()) && *e
                    == self.repository().entries()[key.key_spec()],
                None => !self.repository().entries().contains_key(key.key_spec()),
            },
    {
        self.torrents.get(key)
    }

    /// The totals of the counters of all entries, and the number of entries.
    pub fn get_metrics(&self) -> (r: AggregateSwarmMetadata)
        requires
            self.repository().wf(),
            self.repository().totals_fit(),
        ensures
            r.total_complete == sum_by(
                self.repository().sorted_keys_spec(),
                self.repository().entries(),
                entry_complete_of(),
            ),
            r.total_incomplete == sum_by(
                self.repository().sorted_keys_spec(),
                self.repository().entries(),
                entry_incomplete_of(),
            ),
            r.total_downloaded == sum_by(
                self.repository().sorted_keys_spec(),
                self.repository().entries(),
                entry_downloaded_of(),
            ),
            r.total_torrents == self.repository().entries().len(),
    {
        self.torrents.get_aggregate_swarm_metadata()
    }

    /// The entries with the keys of their torrents, in key order: all of
    /// them, or the page that `pagination` selects.
    pub fn get_paginated(&self, pagination: Option<&Pagination>) -> (r: Vec<(InfoHash, &EntrySingle)>)
        requires
            self.repository().wf(),
        ensures
            r@.len() == paged(self.repository().sorted_keys_spec(), page_of(pagination)).len(),
            forall|i: int|
                0 <= i < r@.len() ==> (#[trigger] r@[i]).0.key_spec() == paged(
                    self.repository().sorted_keys_spec(),
                    page_of(pagination),
                )[i] && *r@[i].1 == self.repository().entries()[paged(
                    self.repository().sorted_keys_spec(),
                    page_of(pagination),
                )[i]],
    {
        self.torrents.get_paginated(pagination)
    }

    /// Adds an empty entry for each persisted torrent that has none yet.
    pub fn import_persistent(&mut self, persistent_torrents: &Vec<(InfoHash, NumberOfDownloads)>)
        requires
            old(self).repository().wf(),
        ensures
            final(self).repository().wf(),
            final(self).repository().entries().dom() == old(self).repository().entries().dom() + imported(
                old(self).repository().entries().dom(),
                persistent_torrents@,
            ).dom(),
            forall|k: Id20Key| #[trigger]
                old(self).repository().entries().contains_key(k) ==> final(self).repository().entries()[k]
                    == old(self).repository().entries()[k],
            forall|k: Id20Key| #[trigger]
                imported(old(self).repository().entries().dom(), persistent_torrents@).contains_key(k)
                    ==> {
                    &&& final(self).repository().entries()[k].peers_map() == Map::<Id20Key, Peer>::empty()
                    &&& final(self).repository().entries()[k].downloaded == imported(
                        old(self).repository().entries().dom(),
                        persistent_torrents@,
                    )[k].1
                },
    {
        self.torrents.import_persistent(persistent_torrents)
    }

    /// Removes the entry of `key` and returns it, if there is one.
    pub fn remove(&mut self, key: &InfoHash) -> (r: Option<EntrySingle>)
        requires
            old(self).repository().wf(),
        ensures
            final(self).repository().wf(),
            final(self).repository().entries() == old(self).repository().entries().remove(key.key_spec()),
            match r {
                Some(e) => old(self).repository().entries().contains_key(key.key_spec()) && e == old(
                    self,
                ).repository().entries()[key.key_spec()],
                None => !old(self).repository().entries().contains_key(key.key_spec()),
            },
    {
        self.torrents.remove(key)
    }

    /// Removes from every entry the peers that last announced at or before
    /// `current_cutoff`.
    pub fn remove_inactive_peers(&mut self, current_cutoff: DurationSinceUnixEpoch)
        requires
            old(self).repository().wf(),
        ensures
            final(self).repository().wf(),
            final(self).repository().entries().dom() == old(self).repository().entries().dom(),
            forall|k: Id20Key| #[trigger]
                old(self).repository().entries().contains_key(k) ==> entry_pruned(
                    old(self).repository().entries()[k],
                    final(self).repository().entries()[k],
                    current_cutoff,
                ),
    {
        self.torrents.remove_inactive_peers(current_cutoff)
    }

    /// Removes the entries that `policy` does not retain.
    pub fn remove_peerless_torrents(&mut self, policy: &TrackerPolicy)
        requires
            old(self).repository().wf(),
        ensures
            final(self).repository().wf(),
            forall|k: Id20Key| #[trigger]
                final(self).repository().entries().contains_key(k) <==> old(self).repository().entries().contains_key(k)
                    && !(entry_dropped_by(*policy))(old(self).repository().entries()[k]),
            forall|k: Id20Key| #[trigger]
                final(self).repository().entries().contains_key(k) ==> final(self).repository().entries()[k]
                    == old(self).repository().entries()[k],
    {
        self.torrents.remove_peerless_torrents(policy)
    }
}

impl Default for TorrentsSkipMapMutexStd {
    /// An empty repository.
    fn default() -> (r: Self)
        ensures
            r.repository().wf(),
            r.repository().entries() == Map::<Id20Key, EntrySingle>::empty(),
    {
        TorrentsSkipMapMutexStd { torrents: TorrentRepository::new() }
    }
}

} // verus!

//! A torrent entry of the repository: its peers keyed by peer id, and the
//! number of completed downloads.
use vstd::prelude::*;

use crate::entry::peer_list::{listed_by_id, PeerList};
use crate::peers::{active_part, count_seeders, excluding_key, limited, lookup};
use crate::primitives::{
    AnnounceEvent, DurationSinceUnixEpoch, Id20Key, Peer, PeerAddress, SwarmMetadata, TrackerPolicy,
};

verus! {

/// Whether the announcement `peer` adds a download to an entry holding the
/// peers `m`: it announces completion and its id is listed with another
/// event.
pub open spec fn entry_download_added(m: Map<Id20Key, Peer>, peer: Peer) -> bool {
    &&& peer.event == AnnounceEvent::Completed
    &&& lookup(m, peer.peer_id.key_spec()) matches Some(previous)
    &&& previous.event != AnnounceEvent::Completed
}

/// The peers of an entry after `peer` announces: a stopped peer leaves, any
/// other announcement takes the place of the peer with its id.
pub open spec fn entry_peers_after(m: Map<Id20Key, Peer>, peer: Peer) -> Map<Id20Key, Peer> {
    if peer.event == AnnounceEvent::Stopped {
        m.remove(peer.peer_id.key_spec())
    } else {
        m.insert(peer.peer_id.key_spec(), peer)
    }
}

/// Whether an entry is kept under `policy`.
pub open spec fn entry_retained(policy: TrackerPolicy, peers: nat, downloaded: u32) -> bool {
    (policy.persistent_torrent_completed_stat && downloaded > 0) || !(policy.remove_peerless_torrents
        && peers == 0)
}

/// The peers of one torrent and its download count.
pub struct EntrySingle {
    /// The peers, keyed by peer id.
    pub swarm: PeerList,
    /// The number of completed downloads.
    pub downloaded: u32,
}

impl EntrySingle {
    /// The peers, by the key of their id.
    pub open spec fn peers_map(&self) -> Map<Id20Key, Peer> {
        self.swarm.map()
    }

    /// The peer list is well formed.
    pub open spec fn wf(&self) -> bool {
        self.swarm.wf()
    }

    /// Whether the download counter stays in range when `peer` announces.
    pub open spec fn accepts(&self, peer: Peer) -> bool {
        entry_download_added(self.peers_map(), peer) ==> self.downloaded < u32::MAX
    }

    /// The counters: the downloads, and the numbers of seeders and leechers
    /// (as 32-bit values).
    pub fn get_swarm_metadata(&self) -> (r: SwarmMetadata)
        requires
            self.wf(),
        ensures
            r == (SwarmMetadata {
                downloaded: self.downloaded,
                complete: count_seeders(self.peers_map()) as u32,
                incomplete: (self.peers_map().len() - count_seeders(self.peers_map())) as u32,
            }),
    {
        let (seeders, leechers) = self.swarm.seeders_and_leechers();
        SwarmMetadata { downloaded: self.downloaded, complete: seeders as u32, incomplete: leechers as u32 }
    }

    /// Whether the entry is kept under `policy`: always when the policy keeps
    /// download counts and it has one; otherwise unless peerless torrents are
    /// removed and it has no peers.
    pub fn meets_retaining_policy(&self, policy: &TrackerPolicy) -> (r: bool)
        ensures
            r == entry_retained(*policy, self.peers_map().len(), self.downloaded),
    {
        if policy.persistent_torrent_completed_stat && self.downloaded > 0 {
            return true;
        }
        if policy.remove_peerless_torrents && self.swarm.is_empty() {
            return false;
        }
        true
    }

    /// Whether the entry is kept under `policy` (see
    /// `meets_retaining_policy`).
    pub fn is_good(&self, policy: &TrackerPolicy) -> (r: bool)
        ensures
            r == entry_retained(*policy, self.peers_map().len(), self.downloaded),
    {
        self.meets_retaining_policy(policy)
    }

    /// Whether there are no peers.
    pub fn peers_is_empty(&self) -> (r: bool)
        ensures
            r == (self.peers_map().len() == 0),
    {
        self.swarm.is_empty()
    }

    /// The number of peers.
    pub fn get_peers_len(&self) -> (r: usize)
        requires
            self.wf(),
        ensures
            r == self.peers_map().len(),
    {
        self.swarm.len()
    }

    /// The peers in id order, at most `limit` of them.
    pub fn get_peers(&self, limit: Option<usize>) -> (r: Vec<Peer>)
        ensures
            r@ == limited(listed_by_id(self.peers_map()), limit),
    {
        self.swarm.get_all(limit)
    }

    /// The peers in id order without those announcing from `client`, at most
    /// `limit` of them.
    pub fn get_peers_for_client(&self, client: &PeerAddress, limit: Option<usize>) -> (r: Vec<Peer>)
        ensures
            r@ == limited(excluding_key(listed_by_id(self.peers_map()), client.key_spec()), limit),
    {
        self.swarm.get_peers_excluding_addr(client, limit)
    }

    /// Handles an announcement of `peer`: a stopped peer leaves, any other
    /// announcement takes the place of the peer with its id. A listed peer
    /// announcing completion for the first time adds a download; the result
    /// says whether one was added.
    pub fn upsert_peer(&mut self, peer: &Peer) -> (r: bool)
        requires
            old(self).wf(),
            old(self).accepts(*peer),
        ensures
            final(self).wf(),
            final(self).peers_map() == entry_peers_after(old(self).peers_map(), *peer),
            r == entry_download_added(old(self).peers_map(), *peer),
            final(self).downloaded == if r {
                (old(self).downloaded + 1) as u32
            } else {
                old(self).downloaded
            },
    {
        let mut number_of_downloads_increased: bool = false;
        match peer.event {
            AnnounceEvent::Stopped => {
                let _removed = self.swarm.remove(&peer.peer_id);
            },
            AnnounceEvent::Completed => {
                let previous = self.swarm.upsert(*peer);
                match previous {
                    Some(p) => {
                        if !matches!(p.event, AnnounceEvent::Completed) {
                            self.downloaded = self.downloaded + 1;
                            number_of_downloads_increased = true;
                        }
                    },
                    None => {},
                }
            },
            _ => {
                let _previous = self.swarm.upsert(*peer);
            },
        }
        number_of_downloads_increased
    }

    /// Removes the peers that last announced at or before `current_cutoff`.
    pub fn remove_inactive_peers(&mut self, current_cutoff: DurationSinceUnixEpoch)
        requires
            old(self).wf(),
        ensures
            final(self).wf(),
            final(self).peers_map() == active_part(old(self).peers_map(), current_cutoff),
            final(self).downloaded == old(self).downloaded,
    {
        self.swarm.remove_inactive_peers(current_cutoff);
    }
}

impl Default for EntrySingle {
    /// An entry without peers or downloads.
    fn default() -> (r: Self)
        ensures
            r.wf(),
            r.peers_map() == Map::<Id20Key, Peer>::empty(),
            r.downloaded == 0,
    {
        EntrySingle { swarm: PeerList::default(), downloaded: 0 }
    }
}

} // verus!

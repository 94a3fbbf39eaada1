//! A swarm of the torrent repository: the peers trying to download one
//! torrent, keyed by socket address, with their counters. A peer announcing
//! from an address that is already listed takes the place of the peer
//! there, whatever its id.
use vstd::prelude::*;

use crate::peers::{
    active_part, downloads_increase, excluding_key, limited, listed_peers, lookup, metadata_after_removal,
    metadata_after_upsert, PeerSwarm,
};
use crate::primitives::{
    DurationSinceUnixEpoch, Peer, PeerAddress, PeerAnnouncement, PeerKey, SwarmMetadata,
};

verus! {

/// The peers of one torrent with their counters.
pub struct Swarm {
    swarm: PeerSwarm,
}

impl Swarm {
    /// The peers, by the key of their address.
    pub closed spec fn peers_map(&self) -> Map<PeerKey, Peer> {
        self.swarm.map()
    }

    /// The counters.
    pub closed spec fn meta(&self) -> SwarmMetadata {
        self.swarm.meta()
    }

    /// Peers are stored under their address and the seeder and leecher
    /// counters are the numbers of seeders and leechers.
    pub closed spec fn wf(&self) -> bool {
        self.swarm.wf()
    }

    /// Whether the counters stay in range when `announce` is handled.
    pub closed spec fn upsert_fits(&self, announce: Peer) -> bool {
        self.swarm.upsert_fits(announce)
    }

    /// A handled announcement is within range when it cannot make a counter
    /// go past `u32::MAX`: a seeder joining or turning seeder needs
    /// `complete < u32::MAX`, a leecher joining or turning leecher needs
    /// `incomplete < u32::MAX`, and a new download needs
    /// `downloaded < u32::MAX`.
    pub proof fn lemma_upsert_fits(&self, announce: Peer)
        ensures
            self.upsert_fits(announce) <==> ({
                let previous = lookup(self.peers_map(), announce.key_spec());
                &&& (announce.is_seeder_spec() && (previous is None || previous->0.role_spec()
                    != announce.role_spec())) ==> self.meta().complete < u32::MAX
                &&& (!announce.is_seeder_spec() && (previous is None || previous->0.role_spec()
                    != announce.role_spec())) ==> self.meta().incomplete < u32::MAX
                &&& downloads_increase(previous, announce) ==> self.meta().downloaded < u32::MAX
            }),
    {
    }

    /// The facts that follow from well-formedness.
    pub proof fn lemma_wf(&self)
        requires
            self.wf(),
        ensures
            self.peers_map().dom().finite(),
            crate::peers::keyed_by_address(self.peers_map()),
            self.meta().complete == crate::peers::count_seeders(self.peers_map()),
            self.meta().incomplete == crate::peers::count_leechers(self.peers_map()),
    {
    }

    /// Adds the peer of `incoming_announce`, or replaces the announcement
    /// listed at its address, which it returns. A known peer that announces
    /// completion for the first time adds a download; a new peer does not.
    pub fn handle_announce(&mut self, incoming_announce: PeerAnnouncement) -> (r: Option<Peer>)
        requires
            old(self).wf(),
            old(self).upsert_fits(incoming_announce),
        ensures
            final(self).wf(),
            final(self).peers_map() == old(self).peers_map().insert(
                incoming_announce.key_spec(),
                incoming_announce,
            ),
            r == lookup(old(self).peers_map(), incoming_announce.key_spec()),
            final(self).meta() == metadata_after_upsert(old(self).meta(), r, incoming_announce),
    {
        let (previous, _downloads_increased) = self.swarm.upsert(incoming_announce);
        previous
    }

    /// Removes the peer listed at the address of `peer_to_remove`, if there
    /// is one, and returns it.
    pub fn remove(&mut self, peer_to_remove: &Peer) -> (r: Option<Peer>)
        requires
            old(self).wf(),
        ensures
            final(self).wf(),
            final(self).peers_map() == old(self).peers_map().remove(peer_to_remove.key_spec()),
            r == lookup(old(self).peers_map(), peer_to_remove.key_spec()),
            final(self).meta() == match r {
                Some(p) => metadata_after_removal(old(self).meta(), p),
                None => old(self).meta(),
            },
    {
        self.swarm.remove_key(&peer_to_remove.peer_addr.key())
    }

    /// Removes the peers that last announced at or before `current_cutoff`.
    pub fn remove_inactive(&mut self, current_cutoff: DurationSinceUnixEpoch)
        requires
            old(self).wf(),
        ensures
            final(self).wf(),
            final(self).peers_map() == active_part(old(self).peers_map(), current_cutoff),
            final(self).meta().downloaded == old(self).meta().downloaded,
    {
        let _removed = self.swarm.remove_inactive(&current_cutoff);
    }

    /// The peer announcing from `peer_addr`, if any.
    pub fn get(&self, peer_addr: &PeerAddress) -> (r: Option<&Peer>)
        ensures
            match r {
                Some(p) => self.peers_map().contains_key(peer_addr.key_spec()) && *p
                    == self.peers_map()[peer_addr.key_spec()],
                None => !self.peers_map().contains_key(peer_addr.key_spec()),
            },
    {
        self.swarm.get(&peer_addr.key())
    }

    /// The peers in the order of their addresses, at most `limit` of them.
    pub fn peers(&self, limit: Option<usize>) -> (r: Vec<Peer>)
        ensures
            r@ == limited(listed_peers(self.peers_map()), limit),
    {
        self.swarm.peers(limit)
    }

    /// The peers in the order of their addresses, without the one announcing
    /// from `peer_addr`, at most `limit` of them.
    pub fn peers_excluding(&self, peer_addr: &PeerAddress, limit: Option<usize>) -> (r: Vec<Peer>)
        ensures
            r@ == limited(excluding_key(listed_peers(self.peers_map()), peer_addr.key_spec()), limit),
    {
        self.swarm.peers_excluding(&peer_addr.key(), limit)
    }

    /// The counters.
    pub fn metadata(&self) -> (r: SwarmMetadata)
        ensures
            r == self.meta(),
    {
        self.swarm.metadata()
    }

    /// The numbers of seeders and leechers.
    pub fn seeders_and_leechers(&self) -> (r: (usize, usize))
        ensures
            r.0 == self.meta().complete,
            r.1 == self.meta().incomplete,
    {
        self.swarm.seeders_and_leechers()
    }

    /// The number of peers.
    pub fn len(&self) -> (r: usize)
        requires
            self.wf(),
        ensures
            r == self.peers_map().len(),
    {
        self.swarm.len()
    }

    /// Whether there are no peers.
    pub fn is_empty(&self) -> (r: bool)
        ensures
            r == (self.peers_map().len() == 0),
    {
        self.swarm.is_empty()
    }
}

impl Default for Swarm {
    /// A swarm without peers or downloads.
    fn default() -> (r: Self)
        ensures
            r.wf(),
            r.peers_map() == Map::<PeerKey, Peer>::empty(),
            r.meta() == (SwarmMetadata { downloaded: 0, complete: 0, incomplete: 0 }),
    {
        Swarm { swarm: PeerSwarm::new(0) }
    }
}

} // verus!

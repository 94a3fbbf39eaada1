//! The tracker's entry for one torrent: the swarm of the peers trying to
//! download it.
use vstd::prelude::*;

use crate::coordinator::{announcement_events, metadata_after_announcement, peers_after_announcement, recorded};
use crate::event::Event;
use crate::peers::{active_part, downloads_increase, excluding_key, limited, listed_peers, lookup};
use crate::primitives::{
    AnnounceEvent, DurationSinceUnixEpoch, InfoHash, Peer, PeerAddress, PeerKey, SwarmMetadata,
    TrackerPolicy,
};
use crate::swarm::{dropped_by_policy, Swarm};

verus! {

/// All the tracker knows about one torrent.
pub struct TrackedTorrent {
    swarm: Swarm,
}

impl TrackedTorrent {
    /// The swarm of the torrent.
    pub closed spec fn swarm_spec(&self) -> Swarm {
        self.swarm
    }

    /// The torrent entry of `swarm`.
    pub fn new(swarm: Swarm) -> (r: Self)
        ensures
            r.swarm_spec() == swarm,
    {
        TrackedTorrent { swarm }
    }

    /// The counters of the swarm.
    pub fn metadata(&self) -> (r: SwarmMetadata)
        ensures
            r == self.swarm_spec().meta(),
    {
        self.swarm.metadata()
    }

    /// Whether the torrent is kept under `policy`.
    pub fn meets_retaining_policy(&self, policy: &TrackerPolicy) -> (r: bool)
        ensures
            r == !dropped_by_policy(
                *policy,
                self.swarm_spec().peers_map().len(),
                self.swarm_spec().meta().downloaded,
            ),
    {
        self.swarm.meets_retaining_policy(policy)
    }

    /// Whether the swarm has no peers.
    pub fn is_empty(&self) -> (r: bool)
        ensures
            r == (self.swarm_spec().peers_map().len() == 0),
    {
        self.swarm.is_empty()
    }

    /// The number of peers.
    pub fn len(&self) -> (r: usize)
        requires
            self.swarm_spec().wf(),
        ensures
            r == self.swarm_spec().peers_map().len(),
    {
        self.swarm.len()
    }

    /// The peers in address order, at most `limit` of them.
    pub fn peers(&self, limit: Option<usize>) -> (r: Vec<Peer>)
        ensures
            r@ == limited(listed_peers(self.swarm_spec().peers_map()), limit),
    {
        self.swarm.peers(limit)
    }

    /// The peers in address order without the one announcing from `client`,
    /// at most `limit` of them.
    pub fn peers_excluding(&self, client: &PeerAddress, limit: Option<usize>) -> (r: Vec<Peer>)
        ensures
            r@ == limited(
                excluding_key(listed_peers(self.swarm_spec().peers_map()), client.key_spec()),
                limit,
            ),
    {
        self.swarm.peers_excluding(client, limit)
    }

    /// Handles an announcement of `peer` in the swarm and returns whether the
    /// download counter grew.
    pub fn handle_announcement(&mut self, peer: &Peer) -> (r: bool)
        requires
            old(self).swarm_spec().wf(),
            old(self).swarm_spec().accepts(*peer),
        ensures
            final(self).swarm_spec().wf(),
            final(self).swarm_spec().info_hash_spec() == old(self).swarm_spec().info_hash_spec(),
            final(self).swarm_spec().events_enabled_spec() == old(self).swarm_spec().events_enabled_spec(),
            final(self).swarm_spec().peers_map() == peers_after_announcement(
                old(self).swarm_spec().peers_map(),
                *peer,
            ),
            final(self).swarm_spec().meta() == metadata_after_announcement(
                old(self).swarm_spec().meta(),
                old(self).swarm_spec().peers_map(),
                *peer,
            ),
            r == (peer.event != AnnounceEvent::Stopped && downloads_increase(
                lookup(old(self).swarm_spec().peers_map(), peer.key_spec()),
                *peer,
            )),
            final(self).swarm_spec().pending_events() == recorded(
                old(self).swarm_spec().events_enabled_spec(),
                old(self).swarm_spec().pending_events(),
                announcement_events(
                    old(self).swarm_spec().info_hash_spec(),
                    old(self).swarm_spec().peers_map(),
                    *peer,
                ),
            ),
    {
        let r = self.swarm.handle_announcement(peer);
        proof {
            assert(self.swarm.peers_map() =~= peers_after_announcement(
                old(self).swarm_spec().peers_map(),
                *peer,
            ));
        }
        r
    }

    /// Removes the peers that last announced at or before `current_cutoff`.
    pub fn remove_inactive(&mut self, current_cutoff: DurationSinceUnixEpoch)
        requires
            old(self).swarm_spec().wf(),
        ensures
            final(self).swarm_spec().wf(),
            final(self).swarm_spec().info_hash_spec() == old(self).swarm_spec().info_hash_spec(),
            final(self).swarm_spec().events_enabled_spec() == old(self).swarm_spec().events_enabled_spec(),
            final(self).swarm_spec().peers_map() == active_part(
                old(self).swarm_spec().peers_map(),
                current_cutoff,
            ),
            final(self).swarm_spec().meta().downloaded == old(self).swarm_spec().meta().downloaded,
    {
        let _removed = self.swarm.remove_inactive(current_cutoff);
    }

    /// Hands out the events the swarm recorded, oldest first.
    pub fn take_events(&mut self) -> (r: Vec<Event>)
        requires
            old(self).swarm_spec().wf(),
        ensures
            final(self).swarm_spec().wf(),
            r@ == old(self).swarm_spec().pending_events(),
            final(self).swarm_spec().pending_events() == Seq::<Event>::empty(),
            final(self).swarm_spec().peers_map() == old(self).swarm_spec().peers_map(),
            final(self).swarm_spec().meta() == old(self).swarm_spec().meta(),
    {
        self.swarm.take_events()
    }
}

} // verus!

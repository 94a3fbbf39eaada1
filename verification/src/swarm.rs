//! A swarm of the torrent repository: the peers that are all trying to
//! download the same torrent, with the download statistic kept according to
//! the tracker policy.
use vstd::prelude::*;

use crate::coordinator::{announcement_events, recorded, Coordinator};
use crate::event::{removal_events, removals_events, upsert_events, Event};
use crate::peers::{
    active_part, downloads_increase, excluding_key, inactive_keys, limited, listed_inactive_keys,
    listed_peers, lookup, metadata_after_removal, metadata_after_upsert,
};
use crate::primitives::{
    AnnounceEvent, DurationSinceUnixEpoch, InfoHash, Peer, PeerAddress, PeerAnnouncement, PeerKey,
    SwarmMetadata, TrackerPolicy,
};

verus! {

/// Whether a swarm is dropped under `policy`: peerless swarms are removed,
/// this one has no peers, and it does not hold a download count that the
/// policy asks to keep.
pub open spec fn dropped_by_policy(policy: TrackerPolicy, peers: nat, downloaded: u32) -> bool {
    (policy.remove_peerless_torrents && peers == 0) && !(policy.persistent_torrent_completed_stat
        && downloaded > 0)
}

/// The peers of one torrent.
#[derive(Clone)]
pub struct Swarm {
    inner: Coordinator,
}

impl Swarm {
    /// The torrent of this swarm.
    pub closed spec fn info_hash_spec(&self) -> InfoHash {
        self.inner.info_hash_spec()
    }

    /// The peers, by the key of their address.
    pub closed spec fn peers_map(&self) -> Map<PeerKey, Peer> {
        self.inner.peers_map()
    }

    /// The counters.
    pub closed spec fn meta(&self) -> SwarmMetadata {
        self.inner.meta()
    }

    /// Whether the swarm records the events it gives rise to.
    pub closed spec fn events_enabled_spec(&self) -> bool {
        self.inner.events_enabled_spec()
    }

    /// The recorded events that have not been taken yet.
    pub closed spec fn pending_events(&self) -> Seq<Event> {
        self.inner.pending_events()
    }

    /// Peers are stored under their own address, and the seeder and leecher
    /// counters are the numbers of seeders and leechers among them.
    pub closed spec fn wf(&self) -> bool {
        self.inner.wf()
    }

    /// Whether the counters stay in range when `announce` joins the swarm or
    /// replaces the announcement of its peer (see `Coordinator::upsert_fits`).
    pub closed spec fn upsert_fits(&self, announce: Peer) -> bool {
        self.inner.upsert_fits(announce)
    }

    /// Whether the counters stay in range when `announce` is handled.
    pub open spec fn accepts(&self, announce: Peer) -> bool {
        announce.event != AnnounceEvent::Stopped ==> self.upsert_fits(announce)
    }

    /// The facts that follow from well-formedness.
    pub proof fn lemma_wf(&self)
        requires
            self.wf(),
        ensures
            self.peers_map().dom().finite(),
            crate::peers::keyed_by_address(self.peers_map()),
            self.meta().complete == crate::peers::count_seeders(self.peers_map()),
            self.meta().incomplete == crate::peers::count_leechers(self.peers_map()),
    {
        self.inner.lemma_wf();
    }

    /// `upsert_fits` spelled out.
    pub proof fn lemma_upsert_fits(&self, announce: Peer)
        ensures
            self.upsert_fits(announce) <==> ({
                let previous = lookup(self.peers_map(), announce.key_spec());
                &&& (announce.is_seeder_spec() && (previous is None || previous->0.role_spec()
                    != announce.role_spec())) ==> self.meta().complete < u32::MAX
                &&& (!announce.is_seeder_spec() && (previous is None || previous->0.role_spec()
                    != announce.role_spec())) ==> self.meta().incomplete < u32::MAX
                &&& downloads_increase(previous, announce) ==> self.meta().downloaded < u32::MAX
            }),
    {
        self.inner.lemma_upsert_fits(announce);
    }

    /// An empty swarm for `info_hash` that has seen `downloaded` downloads;
    /// it records events when `emits_events` is set.
    pub fn new(info_hash: &InfoHash, downloaded: u32, emits_events: bool) -> (r: Self)
        ensures
            r.wf(),
            r.info_hash_spec() == *info_hash,
            r.peers_map() == Map::<PeerKey, Peer>::empty(),
            r.meta() == (SwarmMetadata { downloaded, complete: 0, incomplete: 0 }),
            r.events_enabled_spec() == emits_events,
            r.pending_events() == Seq::<Event>::empty(),
    {
        Swarm { inner: Coordinator::new(info_hash, downloaded, emits_events) }
    }

    /// Handles an announcement: a stopped peer leaves the swarm, any other
    /// announcement adds the peer or replaces its previous announcement.
    /// Returns whether the download counter grew.
    pub fn handle_announcement(&mut self, incoming_announce: &PeerAnnouncement) -> (r: bool)
        requires
            old(self).wf(),
            old(self).accepts(*incoming_announce),
        ensures
            final(self).wf(),
            final(self).info_hash_spec() == old(self).info_hash_spec(),
            final(self).events_enabled_spec() == old(self).events_enabled_spec(),
            final(self).peers_map() == if incoming_announce.event == AnnounceEvent::Stopped {
                old(self).peers_map().remove(incoming_announce.key_spec())
            } else {
                old(self).peers_map().insert(incoming_announce.key_spec(), *incoming_announce)
            },
            final(self).meta() == {
                let previous = lookup(old(self).peers_map(), incoming_announce.key_spec());
                if incoming_announce.event == AnnounceEvent::Stopped {
                    match previous {
                        Some(p) => metadata_after_removal(old(self).meta(), p),
                        None => old(self).meta(),
                    }
                } else {
                    metadata_after_upsert(old(self).meta(), previous, *incoming_announce)
                }
            },
            r == (incoming_announce.event != AnnounceEvent::Stopped && downloads_increase(
                lookup(old(self).peers_map(), incoming_announce.key_spec()),
                *incoming_announce,
            )),
            final(self).pending_events() == recorded(
                old(self).events_enabled_spec(),
                old(self).pending_events(),
                announcement_events(
                    old(self).info_hash_spec(),
                    old(self).peers_map(),
                    *incoming_announce,
                ),
            ),
    {
        let mut downloads_increased: bool = false;
        match incoming_announce.event {
            AnnounceEvent::Stopped => {
                let _previous = self.remove(incoming_announce);
            },
            _ => {
                let _previous = self.upsert_peer(*incoming_announce, &mut downloads_increased);
            },
        }
        downloads_increased
    }

    /// Adds the peer of `incoming_announce`, or replaces its previous
    /// announcement, which it returns; sets `downloads_increased` to whether
    /// the download counter grew.
    pub fn upsert_peer(&mut self, incoming_announce: PeerAnnouncement, downloads_increased: &mut bool) -> (r:
        Option<Peer>)
        requires
            old(self).wf(),
            old(self).upsert_fits(incoming_announce),
        ensures
            final(self).wf(),
            final(self).info_hash_spec() == old(self).info_hash_spec(),
            final(self).events_enabled_spec() == old(self).events_enabled_spec(),
            r == lookup(old(self).peers_map(), incoming_announce.key_spec()),
            *final(downloads_increased) == downloads_increase(r, incoming_announce),
            final(self).peers_map() == old(self).peers_map().insert(
                incoming_announce.key_spec(),
                incoming_announce,
            ),
            final(self).meta() == metadata_after_upsert(old(self).meta(), r, incoming_announce),
            final(self).pending_events() == recorded(
                old(self).events_enabled_spec(),
                old(self).pending_events(),
                upsert_events(old(self).info_hash_spec(), r, incoming_announce),
            ),
    {
        let previous = self.inner.upsert_peer(incoming_announce);
        *downloads_increased = match previous {
            Some(old_peer) => incoming_announce.is_completed() && !old_peer.is_completed(),
            None => false,
        };
        previous
    }

    /// Removes the peer announcing from the address of `peer_to_remove`, if
    /// there is one, and returns it.
    pub fn remove(&mut self, peer_to_remove: &Peer) -> (r: Option<Peer>)
        requires
            old(self).wf(),
        ensures
            final(self).wf(),
            final(self).info_hash_spec() == old(self).info_hash_spec(),
            final(self).events_enabled_spec() == old(self).events_enabled_spec(),
            r == lookup(old(self).peers_map(), peer_to_remove.key_spec()),
            final(self).peers_map() == old(self).peers_map().remove(peer_to_remove.key_spec()),
            final(self).meta() == match r {
                Some(p) => metadata_after_removal(old(self).meta(), p),
                None => old(self).meta(),
            },
            final(self).pending_events() == recorded(
                old(self).events_enabled_spec(),
                old(self).pending_events(),
                removal_events(old(self).info_hash_spec(), r),
            ),
    {
        self.inner.remove_peer(&peer_to_remove.peer_addr)
    }

    /// Removes the peers that last announced at or before `current_cutoff`
    /// and returns how many were removed.
    pub fn remove_inactive(&mut self, current_cutoff: DurationSinceUnixEpoch) -> (r: usize)
        requires
            old(self).wf(),
        ensures
            final(self).wf(),
            final(self).info_hash_spec() == old(self).info_hash_spec(),
            final(self).events_enabled_spec() == old(self).events_enabled_spec(),
            final(self).peers_map() == active_part(old(self).peers_map(), current_cutoff),
            final(self).meta().downloaded == old(self).meta().downloaded,
            r == inactive_keys(old(self).peers_map(), current_cutoff).len(),
            final(self).pending_events() == recorded(
                old(self).events_enabled_spec(),
                old(self).pending_events(),
                removals_events(
                    old(self).info_hash_spec(),
                    listed_inactive_keys(old(self).peers_map(), current_cutoff).map_values(
                        |k: PeerKey| old(self).peers_map()[k],
                    ),
                ),
            ),
    {
        self.inner.remove_inactive(current_cutoff)
    }

    /// The peer announcing from `peer_addr`, if any.
    pub fn get(&self, peer_addr: &PeerAddress) -> (r: Option<&Peer>)
        ensures
            match r {
                Some(p) => self.peers_map().contains_key(peer_addr.key_spec()) && *p
                    == self.peers_map()[peer_addr.key_spec()],
                None => !self.peers_map().contains_key(peer_addr.key_spec()),
            },
    {
        self.inner.get(peer_addr)
    }

    /// The peers in the order of their addresses, at most `limit` of them.
    pub fn peers(&self, limit: Option<usize>) -> (r: Vec<Peer>)
        ensures
            r@ == limited(listed_peers(self.peers_map()), limit),
    {
        self.inner.peers(limit)
    }

    /// The peers in the order of their addresses except the one announcing
    /// from `peer_addr`, at most `limit` of them.
    pub fn peers_excluding(&self, peer_addr: &PeerAddress, limit: Option<usize>) -> (r: Vec<Peer>)
        ensures
            r@ == limited(excluding_key(listed_peers(self.peers_map()), peer_addr.key_spec()), limit),
    {
        self.inner.peers_excluding_address(peer_addr, limit)
    }

    /// The counters.
    pub fn metadata(&self) -> (r: SwarmMetadata)
        ensures
            r == self.meta(),
    {
        self.inner.metadata()
    }

    /// The numbers of seeders and leechers.
    pub fn seeders_and_leechers(&self) -> (r: (usize, usize))
        ensures
            r.0 == self.meta().complete,
            r.1 == self.meta().incomplete,
    {
        self.inner.seeders_and_leechers()
    }

    /// The number of peers.
    pub fn len(&self) -> (r: usize)
        requires
            self.wf(),
        ensures
            r == self.peers_map().len(),
    {
        self.inner.len()
    }

    /// Whether there are no peers.
    pub fn is_empty(&self) -> (r: bool)
        ensures
            r == (self.peers_map().len() == 0),
    {
        self.inner.is_empty()
    }

    /// Whether there are no peers.
    pub fn is_peerless(&self) -> (r: bool)
        ensures
            r == (self.peers_map().len() == 0),
    {
        self.is_empty()
    }

    /// Whether the swarm is kept under `policy`.
    pub fn meets_retaining_policy(&self, policy: &TrackerPolicy) -> (r: bool)
        ensures
            r == !dropped_by_policy(*policy, self.peers_map().len(), self.meta().downloaded),
    {
        !self.should_be_removed(policy)
    }

    /// Whether the swarm is removed under `policy`: when peerless torrents
    /// are removed and it has no peers, unless the policy keeps download
    /// counts and the torrent has been downloaded.
    pub fn should_be_removed(&self, policy: &TrackerPolicy) -> (r: bool)
        ensures
            r == dropped_by_policy(*policy, self.peers_map().len(), self.meta().downloaded),
    {
        (policy.remove_peerless_torrents && self.is_empty()) && !(
        policy.persistent_torrent_completed_stat && self.metadata().downloaded > 0)
    }

    /// Hands out the recorded events, oldest first, and forgets them.
    pub fn take_events(&mut self) -> (r: Vec<Event>)
        requires
            old(self).wf(),
        ensures
            final(self).wf(),
            r@ == old(self).pending_events(),
            final(self).pending_events() == Seq::<Event>::empty(),
            final(self).info_hash_spec() == old(self).info_hash_spec(),
            final(self).peers_map() == old(self).peers_map(),
            final(self).meta() == old(self).meta(),
            final(self).events_enabled_spec() == old(self).events_enabled_spec(),
    {
        self.inner.take_events()
    }
}

} // verus!

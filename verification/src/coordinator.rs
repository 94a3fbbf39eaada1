//! A swarm coordinator: the peers that are all trying to download one
//! torrent, the counters kept about them, and the events their
//! announcements give rise to.
use vstd::prelude::*;

use crate::event::{removal_events, removals_events, upsert_events, Event};
use crate::peers::{
    active_part, downloads_increase, excluding_key, excluding_key_in_network, inactive_keys, limited, listed_inactive_keys,
    listed_peers, lookup, metadata_after_removal, metadata_after_upsert, PeerSwarm,
};
use crate::swarm::dropped_by_policy;
use crate::primitives::{
    AnnounceEvent, DurationSinceUnixEpoch, InfoHash, Peer, PeerAddress, PeerAnnouncement, PeerKey,
    SwarmMetadata, TrackerPolicy,
};

verus! {

/// Whether a swarm has peers that are still active, and how many peers are
/// active and inactive.
#[derive(Clone, Copy, Debug, PartialEq, Eq, Structural)]
pub struct ActivityMetadata {
    /// Whether the swarm has at least one active peer.
    pub is_active: bool,
    /// The number of active peers in the swarm.
    pub active_peers_total: usize,
    /// The number of inactive peers in the swarm.
    pub inactive_peers_total: usize,
}

impl ActivityMetadata {
    /// The activity figures of a swarm.
    pub fn new(is_active: bool, active_peers_total: usize, inactive_peers_total: usize) -> (r: Self)
        ensures
            r == (ActivityMetadata { is_active, active_peers_total, inactive_peers_total }),
    {
        ActivityMetadata { is_active, active_peers_total, inactive_peers_total }
    }
}

/// The events an announcement gives rise to.
pub open spec fn announcement_events(
    info_hash: InfoHash,
    peers: Map<PeerKey, Peer>,
    announce: Peer,
) -> Seq<Event> {
    let previous = lookup(peers, announce.key_spec());
    if announce.event == AnnounceEvent::Stopped {
        removal_events(info_hash, previous)
    } else {
        upsert_events(info_hash, previous, announce)
    }
}

/// The peers after `announce` is handled: a stopped peer leaves, any other
/// announcement takes the place of the previous one of its peer.
pub open spec fn peers_after_announcement(peers: Map<PeerKey, Peer>, announce: Peer) -> Map<
    PeerKey,
    Peer,
> {
    if announce.event == AnnounceEvent::Stopped {
        peers.remove(announce.key_spec())
    } else {
        peers.insert(announce.key_spec(), announce)
    }
}

/// Whether handling `announce` adds a download: it does not stop, and it
/// is the first completion of a peer listed before.
pub open spec fn announcement_adds_download(peers: Map<PeerKey, Peer>, announce: Peer) -> bool {
    announce.event != AnnounceEvent::Stopped && downloads_increase(lookup(peers, announce.key_spec()), announce)
}

/// The counters after `announce` is handled.
pub open spec fn metadata_after_announcement(
    meta: SwarmMetadata,
    peers: Map<PeerKey, Peer>,
    announce: Peer,
) -> SwarmMetadata {
    let previous = lookup(peers, announce.key_spec());
    if announce.event == AnnounceEvent::Stopped {
        match previous {
            Some(p) => metadata_after_removal(meta, p),
            None => meta,
        }
    } else {
        metadata_after_upsert(meta, previous, announce)
    }
}

/// The events recorded: those of `new_events`, when events are recorded.
pub open spec fn recorded(enabled: bool, pending: Seq<Event>, new_events: Seq<Event>) -> Seq<Event> {
    if enabled {
        pending + new_events
    } else {
        pending
    }
}

/// The peers of one torrent.
#[derive(Clone)]
pub struct Coordinator {
    info_hash: InfoHash,
    swarm: PeerSwarm,
    events_enabled: bool,
    events: Vec<Event>,
}

impl Coordinator {
    /// The torrent of this swarm.
    pub closed spec fn info_hash_spec(&self) -> InfoHash {
        self.info_hash
    }

    /// The peers, by the key of their address.
    pub closed spec fn peers_map(&self) -> Map<PeerKey, Peer> {
        self.swarm.map()
    }

    /// The counters.
    pub closed spec fn meta(&self) -> SwarmMetadata {
        self.swarm.meta()
    }

    /// Whether the swarm records the events it gives rise to.
    pub closed spec fn events_enabled_spec(&self) -> bool {
        self.events_enabled
    }

    /// The recorded events that have not been taken yet.
    pub closed spec fn pending_events(&self) -> Seq<Event> {
        self.events@
    }

    /// The peers are stored under the keys of their addresses, and the seeder
    /// and leecher counters are the numbers of seeders and leechers.
    pub closed spec fn wf(&self) -> bool {
        self.swarm.wf()
    }

    /// Whether the counters stay in range when `announce` joins the swarm or
    /// replaces the announcement of its peer.
    pub closed spec fn upsert_fits(&self, announce: Peer) -> bool {
        self.swarm.upsert_fits(announce)
    }

    /// Whether the counters stay in range when `announce` is handled.
    pub open spec fn accepts(&self, announce: Peer) -> bool {
        announce.event != AnnounceEvent::Stopped ==> self.upsert_fits(announce)
    }

    /// The facts that follow from well-formedness.
    pub proof fn lemma_wf(&self)
        requires
            self.wf(),
        ensures
            self.peers_map().dom().finite(),
            crate::peers::keyed_by_address(self.peers_map()),
            self.meta().complete == crate::peers::count_seeders(self.peers_map()),
            self.meta().incomplete == crate::peers::count_leechers(self.peers_map()),
    {
    }

    /// A handled announcement is within range when it cannot make a counter
    /// go past `u32::MAX`: a seeder joining or turning seeder needs
    /// `complete < u32::MAX`, a leecher joining or turning leecher needs
    /// `incomplete < u32::MAX`, and a new download needs
    /// `downloaded < u32::MAX`.
    pub proof fn lemma_upsert_fits(&self, announce: Peer)
        ensures
            self.upsert_fits(announce) <==> ({
                let previous = lookup(self.peers_map(), announce.key_spec());
                &&& (announce.is_seeder_spec() && (previous is None || previous->0.role_spec()
                    != announce.role_spec())) ==> self.meta().complete < u32::MAX
                &&& (!announce.is_seeder_spec() && (previous is None || previous->0.role_spec()
                    != announce.role_spec())) ==> self.meta().incomplete < u32::MAX
                &&& downloads_increase(previous, announce) ==> self.meta().downloaded < u32::MAX
            }),
    {
    }

    /// A swarm without peers accepts any announcement.
    pub proof fn lemma_peerless_accepts(&self, announce: Peer)
        requires
            self.wf(),
            self.peers_map().len() == 0,
        ensures
            self.accepts(announce),
    {
        assert(self.peers_map().dom() =~= Set::<PeerKey>::empty());
        assert(crate::peers::seeder_keys(self.peers_map()) =~= Set::<PeerKey>::empty());
        assert(crate::peers::leecher_keys(self.peers_map()) =~= Set::<PeerKey>::empty());
    }

    /// An empty swarm for `info_hash` that has seen `downloaded` downloads;
    /// it records events when `emits_events` is set.
    pub fn new(info_hash: &InfoHash, downloaded: u32, emits_events: bool) -> (r: Self)
        ensures
            r.wf(),
            r.info_hash_spec() == *info_hash,
            r.peers_map() == Map::<PeerKey, Peer>::empty(),
            r.meta() == (SwarmMetadata { downloaded, complete: 0, incomplete: 0 }),
            r.events_enabled_spec() == emits_events,
            r.pending_events() == Seq::<Event>::empty(),
    {
        Coordinator {
            info_hash: *info_hash,
            swarm: PeerSwarm::new(downloaded),
            events_enabled: emits_events,
            events: Vec::new(),
        }
    }

    /// Handles an announcement: a stopped peer leaves the swarm, any other
    /// announcement adds the peer or replaces its previous announcement.
    pub fn handle_announcement(&mut self, incoming_announce: &PeerAnnouncement)
        requires
            old(self).wf(),
            old(self).accepts(*incoming_announce),
        ensures
            final(self).wf(),
            final(self).info_hash_spec() == old(self).info_hash_spec(),
            final(self).events_enabled_spec() == old(self).events_enabled_spec(),
            final(self).peers_map() == peers_after_announcement(
                old(self).peers_map(),
                *incoming_announce,
            ),
            final(self).meta() == metadata_after_announcement(
                old(self).meta(),
                old(self).peers_map(),
                *incoming_announce,
            ),
            final(self).pending_events() == recorded(
                old(self).events_enabled_spec(),
                old(self).pending_events(),
                announcement_events(
                    old(self).info_hash_spec(),
                    old(self).peers_map(),
                    *incoming_announce,
                ),
            ),
    {
        match incoming_announce.event {
            AnnounceEvent::Stopped => {
                let _previous = self.remove_peer(&incoming_announce.peer_addr);
            },
            _ => {
                let _previous = self.upsert_peer(*incoming_announce);
            },
        }
    }

    /// Adds the peer of `incoming_announce`, or replaces its previous
    /// announcement, which it returns.
    pub fn upsert_peer(&mut self, incoming_announce: PeerAnnouncement) -> (r: Option<Peer>)
        requires
            old(self).wf(),
            old(self).upsert_fits(incoming_announce),
        ensures
            final(self).wf(),
            final(self).info_hash_spec() == old(self).info_hash_spec(),
            final(self).events_enabled_spec() == old(self).events_enabled_spec(),
            r == lookup(old(self).peers_map(), incoming_announce.key_spec()),
            final(self).peers_map() == old(self).peers_map().insert(
                incoming_announce.key_spec(),
                incoming_announce,
            ),
            final(self).meta() == metadata_after_upsert(old(self).meta(), r, incoming_announce),
            final(self).pending_events() == recorded(
                old(self).events_enabled_spec(),
                old(self).pending_events(),
                upsert_events(old(self).info_hash_spec(), r, incoming_announce),
            ),
    {
        let (previous, downloads_increased) = self.swarm.upsert(incoming_announce);
        if self.events_enabled {
            match previous {
                Some(old_peer) => {
                    self.events.push(
                        Event::PeerUpdated {
                            info_hash: self.info_hash,
                            old_peer,
                            new_peer: incoming_announce,
                        },
                    );
                    if downloads_increased {
                        self.events.push(
                            Event::PeerDownloadCompleted {
                                info_hash: self.info_hash,
                                peer: incoming_announce,
                            },
                        );
                    }
                },
                None => {
                    self.events.push(
                        Event::PeerAdded { info_hash: self.info_hash, peer: incoming_announce },
                    );
                },
            }
        }
        previous
    }

    /// Removes the peer announcing from `peer_addr`, if there is one, and
    /// returns it.
    pub fn remove_peer(&mut self, peer_addr: &PeerAddress) -> (r: Option<Peer>)
        requires
            old(self).wf(),
        ensures
            final(self).wf(),
            final(self).info_hash_spec() == old(self).info_hash_spec(),
            final(self).events_enabled_spec() == old(self).events_enabled_spec(),
            r == lookup(old(self).peers_map(), peer_addr.key_spec()),
            final(self).peers_map() == old(self).peers_map().remove(peer_addr.key_spec()),
            final(self).meta() == match r {
                Some(p) => metadata_after_removal(old(self).meta(), p),
                None => old(self).meta(),
            },
            final(self).pending_events() == recorded(
                old(self).events_enabled_spec(),
                old(self).pending_events(),
                removal_events(old(self).info_hash_spec(), r),
            ),
    {
        let key = peer_addr.key();
        let removed = self.swarm.remove_key(&key);
        if self.events_enabled {
            if let Some(p) = removed {
                self.events.push(Event::PeerRemoved { info_hash: self.info_hash, peer: p });
            }
        }
        removed
    }

    /// Removes the peers that last announced at or before `current_cutoff`
    /// and returns how many were removed.
    pub fn remove_inactive(&mut self, current_cutoff: DurationSinceUnixEpoch) -> (r: usize)
        requires
            old(self).wf(),
        ensures
            final(self).wf(),
            final(self).info_hash_spec() == old(self).info_hash_spec(),
            final(self).events_enabled_spec() == old(self).events_enabled_spec(),
            final(self).peers_map() == active_part(old(self).peers_map(), current_cutoff),
            final(self).meta().downloaded == old(self).meta().downloaded,
            r == inactive_keys(old(self).peers_map(), current_cutoff).len(),
            final(self).pending_events() == recorded(
                old(self).events_enabled_spec(),
                old(self).pending_events(),
                removals_events(
                    old(self).info_hash_spec(),
                    listed_inactive_keys(old(self).peers_map(), current_cutoff).map_values(
                        |k: PeerKey| old(self).peers_map()[k],
                    ),
                ),
            ),
    {
        let removed = self.swarm.remove_inactive(&current_cutoff);
        let ghost events0 = self.events@;
        let ghost swarm0 = self.swarm;
        if self.events_enabled {
            let mut i: usize = 0;
            while i < removed.len()
                invariant
                    i <= removed@.len(),
                    self.swarm == swarm0,
                    self.info_hash == old(self).info_hash,
                    self.events_enabled == old(self).events_enabled,
                    self.events@ == events0 + removals_events(
                        self.info_hash,
                        removed@.take(i as int),
                    ),
                decreases removed@.len() - i,
            {
                self.events.push(Event::PeerRemoved { info_hash: self.info_hash, peer: removed[i] });
                proof {
                    assert(removed@.take(i + 1) =~= removed@.take(i as int).push(removed@[i as int]));
                    assert(self.events@ =~= events0 + removals_events(
                        self.info_hash,
                        removed@.take(i + 1),
                    ));
                }
                i = i + 1;
            }
            proof {
                assert(removed@.take(removed@.len() as int) =~= removed@);
            }
        }
        removed.len()
    }

    /// The peer announcing from `peer_addr`, if any.
    pub fn get(&self, peer_addr: &PeerAddress) -> (r: Option<&Peer>)
        ensures
            match r {
                Some(p) => self.peers_map().contains_key(peer_addr.key_spec()) && *p
                    == self.peers_map()[peer_addr.key_spec()],
                None => !self.peers_map().contains_key(peer_addr.key_spec()),
            },
    {
        self.swarm.get(&peer_addr.key())
    }

    /// The peers in the order of their addresses, at most `limit` of them.
    pub fn peers(&self, limit: Option<usize>) -> (r: Vec<Peer>)
        ensures
            r@ == limited(listed_peers(self.peers_map()), limit),
    {
        self.swarm.peers(limit)
    }

    /// The peers in the order of their addresses that are of the network of
    /// `peer_addr` (I2P peers for an I2P address, the others otherwise),
    /// except the one announcing from `peer_addr`, at most `limit` of them.
    pub fn peers_excluding(&self, peer_addr: &PeerAddress, limit: Option<usize>) -> (r: Vec<Peer>)
        ensures
            r@ == limited(excluding_key_in_network(listed_peers(self.peers_map()), peer_addr.key_spec()), limit),
    {
        self.swarm.peers_excluding_in_network(&peer_addr.key(), limit)
    }

    /// The peers in the order of their addresses except the one announcing
    /// from `peer_addr`, of any network, at most `limit` of them.
    pub(crate) fn peers_excluding_address(&self, peer_addr: &PeerAddress, limit: Option<usize>) -> (r: Vec<Peer>)
        ensures
            r@ == limited(excluding_key(listed_peers(self.peers_map()), peer_addr.key_spec()), limit),
    {
        self.swarm.peers_excluding(&peer_addr.key(), limit)
    }

    /// The counters.
    pub fn metadata(&self) -> (r: SwarmMetadata)
        ensures
            r == self.meta(),
    {
        self.swarm.metadata()
    }

    /// The numbers of seeders and leechers.
    pub fn seeders_and_leechers(&self) -> (r: (usize, usize))
        ensures
            r.0 == self.meta().complete,
            r.1 == self.meta().incomplete,
    {
        self.swarm.seeders_and_leechers()
    }

    /// The number of peers that last announced at or before `current_cutoff`.
    pub fn count_inactive_peers(&self, current_cutoff: DurationSinceUnixEpoch) -> (r: usize)
        ensures
            r == inactive_keys(self.peers_map(), current_cutoff).len(),
    {
        self.swarm.count_inactive(&current_cutoff)
    }

    /// How many peers are active and inactive at `current_cutoff`; the swarm
    /// is active when at least one peer is.
    pub fn get_activity_metadata(&self, current_cutoff: DurationSinceUnixEpoch) -> (r:
        ActivityMetadata)
        requires
            self.wf(),
        ensures
            r.inactive_peers_total == inactive_keys(self.peers_map(), current_cutoff).len(),
            r.active_peers_total == self.peers_map().len() - inactive_keys(
                self.peers_map(),
                current_cutoff,
            ).len(),
            r.is_active == (r.active_peers_total > 0),
    {
        let inactive_peers_total = self.count_inactive_peers(current_cutoff);
        proof {
            vstd::set_lib::lemma_len_subset(
                inactive_keys(self.peers_map(), current_cutoff),
                self.peers_map().dom(),
            );
        }
        let active_peers_total = self.len() - inactive_peers_total;
        let is_active = active_peers_total > 0;
        ActivityMetadata::new(is_active, active_peers_total, inactive_peers_total)
    }

    /// The number of peers.
    pub fn len(&self) -> (r: usize)
        requires
            self.wf(),
        ensures
            r == self.peers_map().len(),
    {
        self.swarm.len()
    }

    /// Whether there are no peers.
    pub fn is_empty(&self) -> (r: bool)
        ensures
            r == (self.peers_map().len() == 0),
    {
        self.swarm.is_empty()
    }

    /// Whether there are no peers.
    pub fn is_peerless(&self) -> (r: bool)
        ensures
            r == (self.peers_map().len() == 0),
    {
        self.is_empty()
    }

    /// Whether the swarm is kept by the registry under `policy`.
    pub fn meets_retaining_policy(&self, policy: &TrackerPolicy) -> (r: bool)
        ensures
            r == !dropped_by_policy(*policy, self.peers_map().len(), self.meta().downloaded),
    {
        !self.should_be_removed(policy)
    }

    /// Whether the swarm is removed under `policy`: when peerless swarms are
    /// removed and it has no peers, unless the policy keeps download counts
    /// and the torrent has been downloaded (the swarm is where that count is
    /// kept).
    pub fn should_be_removed(&self, policy: &TrackerPolicy) -> (r: bool)
        ensures
            r == dropped_by_policy(*policy, self.peers_map().len(), self.meta().downloaded),
    {
        (policy.remove_peerless_torrents && self.is_empty()) && !(policy.persistent_torrent_completed_stat
            && self.metadata().downloaded > 0)
    }

    /// Hands out the recorded events, oldest first, and forgets them.
    pub fn take_events(&mut self) -> (r: Vec<Event>)
        requires
            old(self).wf(),
        ensures
            final(self).wf(),
            r@ == old(self).pending_events(),
            final(self).pending_events() == Seq::<Event>::empty(),
            final(self).info_hash_spec() == old(self).info_hash_spec(),
            final(self).peers_map() == old(self).peers_map(),
            final(self).meta() == old(self).meta(),
            final(self).events_enabled_spec() == old(self).events_enabled_spec(),
    {
        let mut taken: Vec<Event> = Vec::new();
        std::mem::swap(&mut taken, &mut self.events);
        taken
    }
}

} // verus!

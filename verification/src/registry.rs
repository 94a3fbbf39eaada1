//! The registry of swarm coordinators: one swarm per torrent, found by its
//! info-hash, and the figures computed over all of them.
use vstd::prelude::*;

use crate::coordinator::{
    announcement_adds_download,
    announcement_events, metadata_after_announcement, peers_after_announcement, recorded,
    Coordinator,
};
use crate::event::Event;
use crate::order::{id20_key_order, sorted_listing};
use crate::event::removals_events;
use crate::peers::{
    active_part, excluding_key_in_network, inactive_keys, limited, listed_inactive_keys, listed_peers,
};
use crate::primitives::{
    AggregateSwarmMetadata, DurationSinceUnixEpoch, Id20Key, InfoHash, NumberOfDownloads,
    Pagination, Peer, PeerKey, SwarmMetadata, TrackerPolicy,
};
use crate::sums::{
    concat_by, count_by, lemma_concat_by_step, lemma_count_by_le_len, lemma_count_by_step,
    lemma_sum_by_bounded, lemma_sum_by_mono, lemma_sum_by_prefix_le, lemma_sum_by_step, sum_by,
};
use crate::table::TorrentTable;
use crate::swarm::dropped_by_policy;

verus! {

/// The errors of the registry. No operation of the registry fails, so no
/// value of this type is ever made; it cannot be made outside this crate.
#[derive(Clone, Copy, Debug)]
pub struct Error {
    unconstructible: (),
}

/// Activity figures over all swarms.
#[derive(Clone, Copy, Debug, PartialEq, Eq, Structural)]
pub struct AggregateActivityMetadata {
    /// The number of active peers in all swarms.
    pub active_peers_total: usize,
    /// The number of inactive peers in all swarms.
    pub inactive_peers_total: usize,
    /// The number of swarms with at least one active peer.
    pub active_torrents_total: usize,
    /// The number of swarms without an active peer.
    pub inactive_torrents_total: usize,
}

/// The seeders of a swarm.
pub open spec fn complete_of() -> spec_fn(Coordinator) -> nat {
    |c: Coordinator| c.meta().complete as nat
}

/// The leechers of a swarm.
pub open spec fn incomplete_of() -> spec_fn(Coordinator) -> nat {
    |c: Coordinator| c.meta().incomplete as nat
}

/// The downloads of a swarm.
pub open spec fn downloaded_of() -> spec_fn(Coordinator) -> nat {
    |c: Coordinator| c.meta().downloaded as nat
}

/// The number of peers of a swarm.
pub open spec fn peers_of() -> spec_fn(Coordinator) -> nat {
    |c: Coordinator| c.peers_map().len()
}

/// The number of peers of a swarm that are inactive at `cutoff`.
pub open spec fn inactive_of(cutoff: DurationSinceUnixEpoch) -> spec_fn(Coordinator) -> nat {
    |c: Coordinator| inactive_keys(c.peers_map(), cutoff).len()
}

/// The number of peers of a swarm that are active at `cutoff`.
pub open spec fn active_of(cutoff: DurationSinceUnixEpoch) -> spec_fn(Coordinator) -> nat {
    |c: Coordinator| (c.peers_map().len() - inactive_keys(c.peers_map(), cutoff).len()) as nat
}

/// Whether a swarm has an active peer at `cutoff`.
pub open spec fn is_active_at(cutoff: DurationSinceUnixEpoch) -> spec_fn(Coordinator) -> bool {
    |c: Coordinator| c.peers_map().len() - inactive_keys(c.peers_map(), cutoff).len() > 0
}

/// Whether a swarm has no peers.
pub open spec fn is_peerless() -> spec_fn(Coordinator) -> bool {
    |c: Coordinator| c.peers_map().len() == 0
}

/// Whether a swarm is removed under `policy`.
pub open spec fn is_dropped_by(policy: TrackerPolicy) -> spec_fn(Coordinator) -> bool {
    |c: Coordinator| dropped_by_policy(policy, c.peers_map().len(), c.meta().downloaded)
}

/// The events of removing the inactive peers of a swarm.
pub open spec fn inactive_removal_events(cutoff: DurationSinceUnixEpoch) -> spec_fn(Id20Key, Coordinator) -> Seq<Event> {
    |k: Id20Key, c: Coordinator|
        recorded(
            c.events_enabled_spec(),
            Seq::<Event>::empty(),
            removals_events(
                c.info_hash_spec(),
                listed_inactive_keys(c.peers_map(), cutoff).map_values(|pk: PeerKey| c.peers_map()[pk]),
            ),
        )
}

/// The swarm `after` is `before` without the peers inactive at `cutoff`,
/// with the same torrent and download count, and no events left in it.
pub open spec fn pruned(before: Coordinator, after: Coordinator, cutoff: DurationSinceUnixEpoch) -> bool {
    &&& after.wf()
    &&& after.info_hash_spec() == before.info_hash_spec()
    &&& after.events_enabled_spec() == before.events_enabled_spec()
    &&& after.peers_map() == active_part(before.peers_map(), cutoff)
    &&& after.meta().downloaded == before.meta().downloaded
    &&& after.pending_events() == Seq::<Event>::empty()
}

/// The event of removing a swarm that `policy` drops.
pub open spec fn dropped_torrent_events(policy: TrackerPolicy) -> spec_fn(Id20Key, Coordinator) -> Seq<Event> {
    |k: Id20Key, c: Coordinator|
        if dropped_by_policy(policy, c.peers_map().len(), c.meta().downloaded) {
            seq![Event::TorrentRemoved { info_hash: InfoHash { hi: k.0, mid: k.1, lo: k.2 } }]
        } else {
            Seq::<Event>::empty()
        }
}

/// The entries of `entries` that are imported into a registry holding the
/// torrents `present`: one for each torrent that is not present, the last
/// entry that names it (as when the entries are first collected into a map
/// by torrent).
pub open spec fn imported(present: Set<Id20Key>, entries: Seq<(InfoHash, NumberOfDownloads)>) -> Map<
    Id20Key,
    (InfoHash, NumberOfDownloads),
>
    decreases entries.len(),
{
    if entries.len() == 0 {
        Map::empty()
    } else {
        let after = imported(present, entries.drop_first());
        let (info_hash, downloads) = entries[0];
        if present.contains(info_hash.key_spec()) || after.contains_key(info_hash.key_spec()) {
            after
        } else {
            after.insert(info_hash.key_spec(), (info_hash, downloads))
        }
    }
}

/// The swarm `c` is a new swarm of `info_hash` without peers, that has
/// seen `downloaded` downloads and records events when `emits_events` is set.
pub open spec fn fresh_swarm(
    c: Coordinator,
    info_hash: InfoHash,
    downloaded: NumberOfDownloads,
    emits_events: bool,
) -> bool {
    &&& c.wf()
    &&& c.info_hash_spec() == info_hash
    &&& c.peers_map() == Map::<PeerKey, Peer>::empty()
    &&& c.meta() == (SwarmMetadata { downloaded, complete: 0, incomplete: 0 })
    &&& c.events_enabled_spec() == emits_events
    &&& c.pending_events() == Seq::<Event>::empty()
}

/// The imported entries are new torrents, stored under their own key, and
/// no more than the entries.
pub proof fn lemma_imported(present: Set<Id20Key>, entries: Seq<(InfoHash, NumberOfDownloads)>)
    ensures
        imported(present, entries).dom().finite(),
        imported(present, entries).len() <= entries.len(),
        forall|k: Id20Key| #[trigger]
            imported(present, entries).contains_key(k) ==> !present.contains(k) && imported(
                present,
                entries,
            )[k].0.key_spec() == k,
    decreases entries.len(),
{
    if entries.len() > 0 {
        lemma_imported(present, entries.drop_first());
    }
}

/// The part of `s` that a page selects: after `offset` elements, at most
/// `limit`; all of `s` without a page.
pub open spec fn paged<T>(s: Seq<T>, pagination: Option<Pagination>) -> Seq<T> {
    match pagination {
        Some(p) => {
            let rest = if p.offset < s.len() {
                s.skip(p.offset as int)
            } else {
                Seq::<T>::empty()
            };
            if p.limit < rest.len() {
                rest.take(p.limit as int)
            } else {
                rest
            }
        },
        None => s,
    }
}

/// The page that a pagination argument selects, if any.
pub open spec fn page_of(pagination: Option<&Pagination>) -> Option<Pagination> {
    match pagination {
        Some(p) => Some(*p),
        None => None,
    }
}

/// The largest number of peers handed out for one torrent.
pub const TORRENT_PEERS_LIMIT: usize = 74;

/// All swarms, by the key of their info-hash.
pub struct Registry {
    swarms: TorrentTable<Coordinator>,
    events_enabled: bool,
    events: Vec<Event>,
}

impl Registry {
    /// The swarms, by the key of their info-hash.
    pub closed spec fn swarms_map(&self) -> Map<Id20Key, Coordinator> {
        self.swarms@
    }

    /// Whether the registry records the events of torrents being added and
    /// removed (each swarm records the events of its peers).
    pub closed spec fn events_enabled_spec(&self) -> bool {
        self.events_enabled
    }

    /// The recorded events that have not been taken yet.
    pub closed spec fn pending_events(&self) -> Seq<Event> {
        self.events@
    }

    /// The index is consistent, every swarm is well formed, and the events of
    /// every swarm have been moved to the registry.
    pub closed spec fn wf(&self) -> bool {
        &&& self.swarms.wf()
        &&& forall|k: Id20Key| #[trigger]
            self.swarms@.contains_key(k) ==> self.swarms@[k].wf() && self.swarms@[k].pending_events()
                == Seq::<Event>::empty()
    }

    /// The facts that follow from well-formedness.
    pub proof fn lemma_wf(&self)
        requires
            self.wf(),
        ensures
            self.swarms_map().dom().finite(),
            forall|k: Id20Key| #[trigger]
                self.swarms_map().contains_key(k) ==> self.swarms_map()[k].wf()
                    && self.swarms_map()[k].pending_events() == Seq::<Event>::empty(),
    {
        self.swarms.lemma_wf();
    }

    /// The keys of the swarms in increasing order.
    pub open spec fn sorted_keys_spec(&self) -> Seq<Id20Key> {
        sorted_listing(self.swarms_map().dom(), id20_key_order())
    }

    /// Whether handling `peer` for the torrent `info_hash` keeps the
    /// counters of its swarm in range (a new swarm always does).
    pub open spec fn announcement_fits(&self, info_hash: InfoHash, peer: Peer) -> bool {
        self.swarms_map().contains_key(info_hash.key_spec()) ==> self.swarms_map()[info_hash.key_spec()].accepts(peer)
    }

    /// The peers a swarm starts from when `info_hash` is announced: those of
    /// its swarm, or none for a new torrent.
    pub open spec fn base_peers(&self, info_hash: InfoHash) -> Map<PeerKey, Peer> {
        if self.swarms_map().contains_key(info_hash.key_spec()) {
            self.swarms_map()[info_hash.key_spec()].peers_map()
        } else {
            Map::empty()
        }
    }

    /// The counters a swarm starts from when `info_hash` is announced: those
    /// of its swarm, or, for a new torrent, the persisted download count (0
    /// if none) and no seeders or leechers.
    pub open spec fn base_meta(&self, info_hash: InfoHash, persisted: Option<NumberOfDownloads>) -> SwarmMetadata {
        if self.swarms_map().contains_key(info_hash.key_spec()) {
            self.swarms_map()[info_hash.key_spec()].meta()
        } else {
            SwarmMetadata {
                downloaded: match persisted {
                    Some(d) => d,
                    None => 0,
                },
                complete: 0,
                incomplete: 0,
            }
        }
    }

    /// The info-hash of the swarm that handles an announcement for
    /// `info_hash`.
    pub open spec fn base_info_hash(&self, info_hash: InfoHash) -> InfoHash {
        if self.swarms_map().contains_key(info_hash.key_spec()) {
            self.swarms_map()[info_hash.key_spec()].info_hash_spec()
        } else {
            info_hash
        }
    }

    /// Whether the swarm that handles an announcement for `info_hash` records
    /// events.
    pub open spec fn base_events_enabled(&self, info_hash: InfoHash) -> bool {
        if self.swarms_map().contains_key(info_hash.key_spec()) {
            self.swarms_map()[info_hash.key_spec()].events_enabled_spec()
        } else {
            self.events_enabled_spec()
        }
    }

    /// An empty registry; it records events when `emits_events` is set.
    pub fn new(emits_events: bool) -> (r: Self)
        ensures
            r.wf(),
            r.swarms_map() == Map::<Id20Key, Coordinator>::empty(),
            r.events_enabled_spec() == emits_events,
            r.pending_events() == Seq::<Event>::empty(),
    {
        Registry { swarms: TorrentTable::new(), events_enabled: emits_events, events: Vec::new() }
    }

    /// Handles an announcement of `peer` for the torrent `info_hash`. A
    /// torrent seen for the first time gets a new swarm, whose download count
    /// is `opt_persistent_torrent` when given. Returns whether the number of
    /// downloads grew because the peer completed its download.
    pub fn handle_announcement(
        &mut self,
        info_hash: &InfoHash,
        peer: &Peer,
        opt_persistent_torrent: Option<NumberOfDownloads>,
    ) -> (r: Result<bool, Error>)
        requires
            old(self).wf(),
            old(self).announcement_fits(*info_hash, *peer),
        ensures
            final(self).wf(),
            r == Ok::<bool, Error>(announcement_adds_download(old(self).base_peers(*info_hash), *peer)),
            final(self).events_enabled_spec() == old(self).events_enabled_spec(),
            final(self).swarms_map().dom() == old(self).swarms_map().dom().insert(info_hash.key_spec()),
            forall|k: Id20Key|
                k != info_hash.key_spec() && #[trigger] old(self).swarms_map().contains_key(k)
                    ==> final(self).swarms_map()[k] == old(self).swarms_map()[k],
            final(self).swarms_map()[info_hash.key_spec()].peers_map() == peers_after_announcement(
                old(self).base_peers(*info_hash),
                *peer,
            ),
            final(self).swarms_map()[info_hash.key_spec()].meta() == metadata_after_announcement(
                old(self).base_meta(*info_hash, opt_persistent_torrent),
                old(self).base_peers(*info_hash),
                *peer,
            ),
            final(self).swarms_map()[info_hash.key_spec()].info_hash_spec() == old(
                self,
            ).base_info_hash(*info_hash),
            final(self).swarms_map()[info_hash.key_spec()].events_enabled_spec() == old(
                self,
            ).base_events_enabled(*info_hash),
            final(self).pending_events() == old(self).pending_events() + (if !old(
                self,
            ).swarms_map().contains_key(info_hash.key_spec()) && old(self).events_enabled_spec() {
                seq![Event::TorrentAdded { info_hash: *info_hash, announcement: *peer }]
            } else {
                Seq::<Event>::empty()
            }) + recorded(
                old(self).base_events_enabled(*info_hash),
                Seq::<Event>::empty(),
                announcement_events(
                    old(self).base_info_hash(*info_hash),
                    old(self).base_peers(*info_hash),
                    *peer,
                ),
            ),
    {
        let key = info_hash.key();
        proof {
            self.swarms.lemma_wf();
        }
        let mut swarm = match self.swarms.remove(&key) {
            Some(existing_swarm) => existing_swarm,
            None => {
                let number_of_downloads = match opt_persistent_torrent {
                    Some(d) => d,
                    None => 0,
                };
                let new_swarm = Coordinator::new(info_hash, number_of_downloads, self.events_enabled);
                if self.events_enabled {
                    self.events.push(Event::TorrentAdded { info_hash: *info_hash, announcement: *peer });
                }
                proof {
                    new_swarm.lemma_peerless_accepts(*peer);
                }
                new_swarm
            },
        };
        let ghost events1 = self.events@;
        let downloads_before = swarm.metadata().downloaded;
        proof {
            swarm.lemma_upsert_fits(*peer);
            assert(swarm.peers_map() == old(self).base_peers(*info_hash));
        }
        swarm.handle_announcement(peer);
        let downloads_increased = swarm.metadata().downloaded > downloads_before;
        let mut swarm_events = swarm.take_events();
        self.events.append(&mut swarm_events);
        self.swarms.insert_new(key, swarm);
        proof {
            assert(self.swarms@ =~= old(self).swarms@.insert(key, self.swarms@[key]));
            assert(self.events@ =~= old(self).pending_events() + (if !old(
                self,
            ).swarms_map().contains_key(info_hash.key_spec()) && old(self).events_enabled_spec() {
                seq![Event::TorrentAdded { info_hash: *info_hash, announcement: *peer }]
            } else {
                Seq::<Event>::empty()
            }) + recorded(
                old(self).base_events_enabled(*info_hash),
                Seq::<Event>::empty(),
                announcement_events(
                    old(self).base_info_hash(*info_hash),
                    old(self).base_peers(*info_hash),
                    *peer,
                ),
            ));
        }
        Ok(downloads_increased)
    }

    /// Puts `swarm` in place as the swarm of `info_hash`, without recording a
    /// torrent event; the events the swarm recorded move to the registry.
    pub fn insert(&mut self, info_hash: &InfoHash, swarm: Coordinator)
        requires
            old(self).wf(),
            swarm.wf(),
        ensures
            final(self).wf(),
            final(self).events_enabled_spec() == old(self).events_enabled_spec(),
            final(self).swarms_map().dom() == old(self).swarms_map().dom().insert(info_hash.key_spec()),
            forall|k: Id20Key|
                k != info_hash.key_spec() && #[trigger] old(self).swarms_map().contains_key(k)
                    ==> final(self).swarms_map()[k] == old(self).swarms_map()[k],
            final(self).swarms_map()[info_hash.key_spec()].peers_map() == swarm.peers_map(),
            final(self).swarms_map()[info_hash.key_spec()].meta() == swarm.meta(),
            final(self).swarms_map()[info_hash.key_spec()].info_hash_spec() == swarm.info_hash_spec(),
            final(self).swarms_map()[info_hash.key_spec()].events_enabled_spec()
                == swarm.events_enabled_spec(),
            final(self).pending_events() == old(self).pending_events() + swarm.pending_events(),
    {
        let key = info_hash.key();
        let mut swarm = swarm;
        let _previous = self.swarms.remove(&key);
        let mut swarm_events = swarm.take_events();
        self.events.append(&mut swarm_events);
        self.swarms.insert_new(key, swarm);
        proof {
            assert(self.swarms@ =~= old(self).swarms@.insert(key, self.swarms@[key]));
        }
    }

    /// Removes the swarm of `key` and returns it, if there is one; a torrent
    /// removal is recorded only when a swarm was removed.
    pub fn remove(&mut self, key: &InfoHash) -> (r: Option<Coordinator>)
        requires
            old(self).wf(),
        ensures
            final(self).wf(),
            final(self).events_enabled_spec() == old(self).events_enabled_spec(),
            final(self).swarms_map() == old(self).swarms_map().remove(key.key_spec()),
            match r {
                Some(c) => old(self).swarms_map().contains_key(key.key_spec()) && c == old(
                    self,
                ).swarms_map()[key.key_spec()],
                None => !old(self).swarms_map().contains_key(key.key_spec()),
            },
            final(self).pending_events() == recorded(
                old(self).events_enabled_spec(),
                old(self).pending_events(),
                if r is Some {
                    seq![Event::TorrentRemoved { info_hash: *key }]
                } else {
                    Seq::<Event>::empty()
                },
            ),
    {
        let swarm = self.swarms.remove(&key.key());
        if self.events_enabled && swarm.is_some() {
            self.events.push(Event::TorrentRemoved { info_hash: *key });
        }
        proof {
            if swarm.is_none() {
                assert(self.events@ =~= old(self).events@ + Seq::<Event>::empty());
            }
        }
        swarm
    }

    /// The swarm of `key`, if any.
    pub fn get(&self, key: &InfoHash) -> (r: Option<&Coordinator>)
        requires
            self.wf(),
        ensures
            match r {
                Some(c) => self.swarms_map().contains_key(key.key_spec()) && *c == self.swarms_map()[key.key_spec()],
                None => !self.swarms_map().contains_key(key.key_spec()),
            },
    {
        self.swarms.get(&key.key())
    }

    /// The swarms with the keys of their torrents, in key order: all of them,
    /// or the page that `pagination` selects.
    pub fn get_paginated(&self, pagination: Option<&Pagination>) -> (r: Vec<(InfoHash, &Coordinator)>)
        requires
            self.wf(),
        ensures
            r@.len() == paged(self.sorted_keys_spec(), page_of(pagination)).len(),
            forall|i: int|
                0 <= i < r@.len() ==> (#[trigger] r@[i]).0.key_spec() == paged(
                    self.sorted_keys_spec(),
                    page_of(pagination),
                )[i] && *r@[i].1 == self.swarms_map()[paged(
                    self.sorted_keys_spec(),
                    page_of(pagination),
                )[i]],
    {
        let keys = self.swarms.sorted_keys();
        let len = keys.len();
        let (start, end) = match pagination {
            Some(p) => {
                let offset = p.offset as usize;
                let start = if offset < len {
                    offset
                } else {
                    len
                };
                let limit = p.limit as usize;
                let end = if limit < len - start {
                    start + limit
                } else {
                    len
                };
                (start, end)
            },
            None => (0, len),
        };
        let ghost page = paged(keys@, page_of(pagination));
        proof {
            assert(page.len() == end - start);
            assert forall|i: int| 0 <= i < page.len() implies page[i] == keys@[start + i] by {}
        }
        let mut swarms: Vec<(InfoHash, &Coordinator)> = Vec::new();
        let mut j: usize = start;
        while j < end
            invariant
                self.wf(),
                keys@ == self.sorted_keys_spec(),
                keys@.to_set() == self.swarms_map().dom(),
                start <= j <= end,
                end <= keys@.len(),
                page.len() == end - start,
                forall|i: int| 0 <= i < page.len() ==> page[i] == keys@[start + i],
                swarms@.len() == j - start,
                forall|i: int|
                    0 <= i < swarms@.len() ==> (#[trigger] swarms@[i]).0.key_spec() == page[i]
                        && *swarms@[i].1 == self.swarms_map()[page[i]],
            decreases end - j,
        {
            let key = keys[j];
            proof {
                assert(keys@.to_set().contains(key));
            }
            swarms.push((InfoHash::from_key(key), self.swarm_at(&key)));
            j = j + 1;
        }
        swarms
    }

    /// The counters of the swarm of `info_hash`, if there is one.
    pub fn get_swarm_metadata(&self, info_hash: &InfoHash) -> (r: Result<Option<SwarmMetadata>, Error>)
        requires
            self.wf(),
        ensures
            r == Ok::<Option<SwarmMetadata>, Error>(if self.swarms_map().contains_key(info_hash.key_spec()) {
                Some(self.swarms_map()[info_hash.key_spec()].meta())
            } else {
                None
            }),
    {
        match self.swarms.get(&info_hash.key()) {
            None => Ok(None),
            Some(swarm) => Ok(Some(swarm.metadata())),
        }
    }

    /// The counters of the swarm of `info_hash`, or all zero if there is no
    /// such swarm.
    pub fn get_swarm_metadata_or_default(&self, info_hash: &InfoHash) -> (r: Result<SwarmMetadata, Error>)
        requires
            self.wf(),
        ensures
            r == Ok::<SwarmMetadata, Error>(if self.swarms_map().contains_key(info_hash.key_spec()) {
                self.swarms_map()[info_hash.key_spec()].meta()
            } else {
                SwarmMetadata { downloaded: 0, complete: 0, incomplete: 0 }
            }),
    {
        match self.get_swarm_metadata(info_hash) {
            Ok(Some(swarm_metadata)) => Ok(swarm_metadata),
            Ok(None) => Ok(SwarmMetadata::zeroed()),
            Err(err) => Err(err),
        }
    }

    /// The peers of the torrent `info_hash` other than the one announcing
    /// from the address of `peer`, of the network of that address (I2P or
    /// not), in address order, at most `limit`; none for an unknown torrent.
    pub fn get_peers_peers_excluding(&self, info_hash: &InfoHash, peer: &Peer, limit: usize) -> (r:
        Result<Vec<Peer>, Error>)
        requires
            self.wf(),
        ensures
            r matches Ok(v) && v@ == if self.swarms_map().contains_key(info_hash.key_spec()) {
                limited(
                    excluding_key_in_network(
                        listed_peers(self.swarms_map()[info_hash.key_spec()].peers_map()),
                        peer.key_spec(),
                    ),
                    Some(limit),
                )
            } else {
                Seq::<Peer>::empty()
            },
    {
        match self.get(info_hash) {
            None => Ok(Vec::new()),
            Some(swarm) => Ok(swarm.peers_excluding(&peer.peer_addr, Some(limit))),
        }
    }

    /// The peers of the torrent `info_hash` in address order, at most
    /// `limit` and never more than `TORRENT_PEERS_LIMIT`; none for an unknown
    /// torrent.
    pub fn get_swarm_peers(&self, info_hash: &InfoHash, limit: usize) -> (r: Result<Vec<Peer>, Error>)
        requires
            self.wf(),
        ensures
            r matches Ok(v) && v@ == if self.swarms_map().contains_key(info_hash.key_spec()) {
                limited(
                    listed_peers(self.swarms_map()[info_hash.key_spec()].peers_map()),
                    Some(if limit < TORRENT_PEERS_LIMIT { limit } else { TORRENT_PEERS_LIMIT }),
                )
            } else {
                Seq::<Peer>::empty()
            },
            r matches Ok(v) && v.len() <= TORRENT_PEERS_LIMIT,
    {
        let capped = if limit < TORRENT_PEERS_LIMIT { limit } else { TORRENT_PEERS_LIMIT };
        match self.get(info_hash) {
            None => Ok(Vec::new()),
            Some(swarm) => Ok(swarm.peers(Some(capped))),
        }
    }

    /// The number of swarms.
    pub fn len(&self) -> (r: usize)
        requires
            self.wf(),
        ensures
            r == self.swarms_map().len(),
    {
        self.swarms.len()
    }

    /// Whether there are no swarms.
    pub fn is_empty(&self) -> (r: bool)
        requires
            self.wf(),
        ensures
            r == (self.swarms_map().len() == 0),
    {
        self.swarms.len() == 0
    }

    /// Whether there is a swarm for `key`.
    pub fn contains(&self, key: &InfoHash) -> (r: bool)
        ensures
            r == self.swarms_map().contains_key(key.key_spec()),
    {
        self.swarms.contains(&key.key())
    }

    /// Hands out the recorded events, oldest first, and forgets them.
    pub fn take_events(&mut self) -> (r: Vec<Event>)
        requires
            old(self).wf(),
        ensures
            final(self).wf(),
            r@ == old(self).pending_events(),
            final(self).pending_events() == Seq::<Event>::empty(),
            final(self).swarms_map() == old(self).swarms_map(),
            final(self).events_enabled_spec() == old(self).events_enabled_spec(),
    {
        let mut taken: Vec<Event> = Vec::new();
        std::mem::swap(&mut taken, &mut self.events);
        taken
    }

    /// The totals of the counters of all swarms, and the number of swarms.
    pub fn get_aggregate_swarm_metadata(&self) -> (r: Result<AggregateSwarmMetadata, Error>)
        requires
            self.wf(),
            self.totals_fit(),
        ensures
            r matches Ok(a) && {
                &&& a.total_complete == sum_by(self.sorted_keys_spec(), self.swarms_map(), complete_of())
                &&& a.total_incomplete == sum_by(self.sorted_keys_spec(), self.swarms_map(), incomplete_of())
                &&& a.total_downloaded == sum_by(self.sorted_keys_spec(), self.swarms_map(), downloaded_of())
                &&& a.total_torrents == self.swarms_map().len()
            },
    {
        let keys = self.swarms.sorted_keys();
        let ghost m = self.swarms_map();
        let mut metrics = AggregateSwarmMetadata::zeroed();
        let mut i: usize = 0;
        while i < keys.len()
            invariant
                self.wf(),
                m == self.swarms_map(),
                self.totals_fit(),
                keys@ == self.sorted_keys_spec(),
                keys@.to_set() == m.dom(),
                i <= keys@.len(),
                metrics.total_complete == sum_by(keys@.take(i as int), m, complete_of()),
                metrics.total_incomplete == sum_by(keys@.take(i as int), m, incomplete_of()),
                metrics.total_downloaded == sum_by(keys@.take(i as int), m, downloaded_of()),
                metrics.total_torrents == i,
            decreases keys@.len() - i,
        {
            let key = keys[i];
            proof {
                assert(keys@.to_set().contains(key));
            }
            let stats = self.swarm_at(&key).metadata();
            proof {
                lemma_sum_by_step(keys@, m, complete_of(), i as int);
                lemma_sum_by_step(keys@, m, incomplete_of(), i as int);
                lemma_sum_by_step(keys@, m, downloaded_of(), i as int);
                lemma_sum_by_prefix_le(keys@, m, complete_of(), i + 1);
                lemma_sum_by_prefix_le(keys@, m, incomplete_of(), i + 1);
                lemma_sum_by_prefix_le(keys@, m, downloaded_of(), i + 1);
            }
            metrics.total_complete = metrics.total_complete + stats.complete as u64;
            metrics.total_incomplete = metrics.total_incomplete + stats.incomplete as u64;
            metrics.total_downloaded = metrics.total_downloaded + stats.downloaded as u64;
            metrics.total_torrents = metrics.total_torrents + 1;
            i = i + 1;
        }
        proof {
            assert(keys@.take(keys@.len() as int) =~= keys@);
        }
        Ok(metrics)
    }

    /// The number of peers in all swarms.
    pub fn count_peers(&self) -> (r: Result<usize, Error>)
        requires
            self.wf(),
            self.peer_total() <= usize::MAX,
        ensures
            r matches Ok(n) && n == self.peer_total(),
    {
        let keys = self.swarms.sorted_keys();
        let ghost m = self.swarms_map();
        let mut peers: usize = 0;
        let mut i: usize = 0;
        while i < keys.len()
            invariant
                self.wf(),
                m == self.swarms_map(),
                self.peer_total() <= usize::MAX,
                keys@ == self.sorted_keys_spec(),
                keys@.to_set() == m.dom(),
                i <= keys@.len(),
                peers == sum_by(keys@.take(i as int), m, peers_of()),
            decreases keys@.len() - i,
        {
            let key = keys[i];
            proof {
                assert(keys@.to_set().contains(key));
                lemma_sum_by_step(keys@, m, peers_of(), i as int);
                lemma_sum_by_prefix_le(keys@, m, peers_of(), i + 1);
            }
            let swarm = self.swarm_at(&key);
            proof {
                swarm.lemma_wf();
            }
            peers = peers + swarm.len();
            i = i + 1;
        }
        proof {
            assert(keys@.take(keys@.len() as int) =~= keys@);
        }
        Ok(peers)
    }

    /// The number of swarms without peers.
    pub fn count_peerless_torrents(&self) -> (r: Result<usize, Error>)
        requires
            self.wf(),
        ensures
            r matches Ok(n) && n == count_by(self.sorted_keys_spec(), self.swarms_map(), is_peerless()),
    {
        let keys = self.swarms.sorted_keys();
        let ghost m = self.swarms_map();
        let mut peerless: usize = 0;
        let mut i: usize = 0;
        while i < keys.len()
            invariant
                self.wf(),
                m == self.swarms_map(),
                keys@ == self.sorted_keys_spec(),
                keys@.to_set() == m.dom(),
                i <= keys@.len(),
                peerless == count_by(keys@.take(i as int), m, is_peerless()),
            decreases keys@.len() - i,
        {
            let key = keys[i];
            proof {
                assert(keys@.to_set().contains(key));
                lemma_count_by_step(keys@, m, is_peerless(), i as int);
                lemma_count_by_le_len(keys@.take(i as int), m, is_peerless());
            }
            if self.swarm_at(&key).is_peerless() {
                peerless = peerless + 1;
            }
            i = i + 1;
        }
        proof {
            assert(keys@.take(keys@.len() as int) =~= keys@);
        }
        Ok(peerless)
    }

    /// The number of peers in all swarms that last announced at or before
    /// `current_cutoff`.
    pub fn count_inactive_peers(&self, current_cutoff: DurationSinceUnixEpoch) -> (r: usize)
        requires
            self.wf(),
            self.peer_total() <= usize::MAX,
        ensures
            r == sum_by(self.sorted_keys_spec(), self.swarms_map(), inactive_of(current_cutoff)),
    {
        let keys = self.swarms.sorted_keys();
        let ghost m = self.swarms_map();
        proof {
            self.lemma_inactive_le_peers(current_cutoff);
        }
        let mut inactive_peers_total: usize = 0;
        let mut i: usize = 0;
        while i < keys.len()
            invariant
                self.wf(),
                m == self.swarms_map(),
                sum_by(keys@, m, inactive_of(current_cutoff)) <= usize::MAX,
                keys@ == self.sorted_keys_spec(),
                keys@.to_set() == m.dom(),
                i <= keys@.len(),
                inactive_peers_total == sum_by(keys@.take(i as int), m, inactive_of(current_cutoff)),
            decreases keys@.len() - i,
        {
            let key = keys[i];
            proof {
                assert(keys@.to_set().contains(key));
                lemma_sum_by_step(keys@, m, inactive_of(current_cutoff), i as int);
                lemma_sum_by_prefix_le(keys@, m, inactive_of(current_cutoff), i + 1);
            }
            inactive_peers_total = inactive_peers_total + self.swarm_at(&key).count_inactive_peers(
                current_cutoff,
            );
            i = i + 1;
        }
        proof {
            assert(keys@.take(keys@.len() as int) =~= keys@);
        }
        inactive_peers_total
    }

    /// The inactive peers of each swarm are among its peers.
    proof fn lemma_inactive_le_peers(&self, cutoff: DurationSinceUnixEpoch)
        requires
            self.wf(),
        ensures
            sum_by(self.sorted_keys_spec(), self.swarms_map(), inactive_of(cutoff)) <= self.peer_total(),
            sum_by(self.sorted_keys_spec(), self.swarms_map(), active_of(cutoff)) <= self.peer_total(),
    {
        let keys = self.sorted_keys_spec();
        let m = self.swarms_map();
        self.lemma_sorted_keys();
        assert forall|i: int| 0 <= i < keys.len() implies #[trigger] (inactive_of(cutoff))(m[keys[i]])
            <= (peers_of())(m[keys[i]]) by {
            assert(keys.to_set().contains(keys[i]));
            m[keys[i]].lemma_wf();
            vstd::set_lib::lemma_len_subset(inactive_keys(m[keys[i]].peers_map(), cutoff), m[keys[i]].peers_map().dom());
        }
        assert forall|i: int| 0 <= i < keys.len() implies #[trigger] (active_of(cutoff))(m[keys[i]])
            <= (peers_of())(m[keys[i]]) by {
            assert(keys.to_set().contains(keys[i]));
            m[keys[i]].lemma_wf();
            vstd::set_lib::lemma_len_subset(inactive_keys(m[keys[i]].peers_map(), cutoff), m[keys[i]].peers_map().dom());
        }
        lemma_sum_by_mono(keys, m, inactive_of(cutoff), peers_of());
        lemma_sum_by_mono(keys, m, active_of(cutoff), peers_of());
    }

    /// How many peers are active and inactive at `current_cutoff` in all
    /// swarms, and how many swarms have or lack an active peer.
    pub fn get_activity_metadata(&self, current_cutoff: DurationSinceUnixEpoch) -> (r:
        AggregateActivityMetadata)
        requires
            self.wf(),
            self.peer_total() <= usize::MAX,
        ensures
            r.active_peers_total == sum_by(self.sorted_keys_spec(), self.swarms_map(), active_of(current_cutoff)),
            r.inactive_peers_total == sum_by(self.sorted_keys_spec(), self.swarms_map(), inactive_of(current_cutoff)),
            r.active_torrents_total == count_by(self.sorted_keys_spec(), self.swarms_map(), is_active_at(current_cutoff)),
            r.inactive_torrents_total == self.swarms_map().len() - r.active_torrents_total,
            r == self.activity_figures(current_cutoff),
    {
        let keys = self.swarms.sorted_keys();
        let ghost m = self.swarms_map();
        proof {
            self.lemma_inactive_le_peers(current_cutoff);
        }
        let mut active_peers_total: usize = 0;
        let mut inactive_peers_total: usize = 0;
        let mut active_torrents_total: usize = 0;
        let mut i: usize = 0;
        while i < keys.len()
            invariant
                self.wf(),
                m == self.swarms_map(),
                sum_by(keys@, m, inactive_of(current_cutoff)) <= usize::MAX,
                sum_by(keys@, m, active_of(current_cutoff)) <= usize::MAX,
                keys@ == self.sorted_keys_spec(),
                keys@.to_set() == m.dom(),
                keys@.len() == m.len(),
                i <= keys@.len(),
                active_peers_total == sum_by(keys@.take(i as int), m, active_of(current_cutoff)),
                inactive_peers_total == sum_by(keys@.take(i as int), m, inactive_of(current_cutoff)),
                active_torrents_total == count_by(keys@.take(i as int), m, is_active_at(current_cutoff)),
            decreases keys@.len() - i,
        {
            let key = keys[i];
            proof {
                assert(keys@.to_set().contains(key));
                lemma_sum_by_step(keys@, m, inactive_of(current_cutoff), i as int);
                lemma_sum_by_prefix_le(keys@, m, inactive_of(current_cutoff), i + 1);
                lemma_sum_by_step(keys@, m, active_of(current_cutoff), i as int);
                lemma_sum_by_prefix_le(keys@, m, active_of(current_cutoff), i + 1);
                lemma_count_by_step(keys@, m, is_active_at(current_cutoff), i as int);
                lemma_count_by_le_len(keys@.take(i as int), m, is_active_at(current_cutoff));
            }
            let activity_metadata = self.swarm_at(&key).get_activity_metadata(current_cutoff);
            if activity_metadata.is_active {
                active_torrents_total = active_torrents_total + 1;
            }
            active_peers_total = active_peers_total + activity_metadata.active_peers_total;
            inactive_peers_total = inactive_peers_total + activity_metadata.inactive_peers_total;
            i = i + 1;
        }
        proof {
            assert(keys@.take(keys@.len() as int) =~= keys@);
            lemma_count_by_le_len(keys@, m, is_active_at(current_cutoff));
        }
        let len = self.len();
        AggregateActivityMetadata {
            active_peers_total,
            inactive_peers_total,
            active_torrents_total,
            inactive_torrents_total: len - active_torrents_total,
        }
    }

    /// Removes from every swarm the peers that last announced at or before
    /// `current_cutoff`, and returns how many were removed in all.
    pub fn remove_inactive_peers(&mut self, current_cutoff: DurationSinceUnixEpoch) -> (r: Result<
        usize,
        Error,
    >)
        requires
            old(self).wf(),
            old(self).peer_total() <= usize::MAX,
        ensures
            final(self).wf(),
            final(self).events_enabled_spec() == old(self).events_enabled_spec(),
            final(self).swarms_map().dom() == old(self).swarms_map().dom(),
            forall|k: Id20Key| #[trigger]
                old(self).swarms_map().contains_key(k) ==> pruned(
                    old(self).swarms_map()[k],
                    final(self).swarms_map()[k],
                    current_cutoff,
                ),
            r matches Ok(n) && n == sum_by(
                old(self).sorted_keys_spec(),
                old(self).swarms_map(),
                inactive_of(current_cutoff),
            ),
            final(self).pending_events() == old(self).pending_events() + concat_by(
                old(self).sorted_keys_spec(),
                old(self).swarms_map(),
                inactive_removal_events(current_cutoff),
            ),
    {
        let keys = self.swarms.sorted_keys();
        let ghost m0 = self.swarms_map();
        let ghost ev0 = self.events@;
        proof {
            self.lemma_inactive_le_peers(current_cutoff);
        }
        let mut inactive_peers_removed: usize = 0;
        let mut i: usize = 0;
        while i < keys.len()
            invariant
                self.wf(),
                self.events_enabled == old(self).events_enabled,
                keys@ == old(self).sorted_keys_spec(),
                m0 == old(self).swarms_map(),
                ev0 == old(self).pending_events(),
                keys@.to_set() == m0.dom(),
                keys@.no_duplicates(),
                sum_by(keys@, m0, inactive_of(current_cutoff)) <= usize::MAX,
                i <= keys@.len(),
                self.swarms_map().dom() == m0.dom(),
                forall|j: int|
                    0 <= j < i ==> pruned(
                        m0[#[trigger] keys@[j]],
                        self.swarms_map()[keys@[j]],
                        current_cutoff,
                    ),
                forall|j: int| i <= j < keys@.len() ==> self.swarms_map()[#[trigger] keys@[j]] == m0[keys@[j]],
                inactive_peers_removed == sum_by(keys@.take(i as int), m0, inactive_of(current_cutoff)),
                self.events@ == ev0 + concat_by(
                    keys@.take(i as int),
                    m0,
                    inactive_removal_events(current_cutoff),
                ),
            decreases keys@.len() - i,
        {
            let key = keys[i];
            proof {
                assert(keys@.to_set().contains(key));
                lemma_sum_by_step(keys@, m0, inactive_of(current_cutoff), i as int);
                lemma_sum_by_prefix_le(keys@, m0, inactive_of(current_cutoff), i + 1);
                lemma_concat_by_step(keys@, m0, inactive_removal_events(current_cutoff), i as int);
                self.swarms.lemma_wf();
            }
            let ghost before = self.swarms_map();
            if let Some(mut swarm) = self.swarms.remove(&key) {
                let ghost c0 = swarm;
                let removed = swarm.remove_inactive(current_cutoff);
                let mut swarm_events = swarm.take_events();
                proof {
                    assert(swarm_events@ =~= (inactive_removal_events(current_cutoff))(key, c0));
                }
                self.events.append(&mut swarm_events);
                self.swarms.insert_new(key, swarm);
                inactive_peers_removed = inactive_peers_removed + removed;
                proof {
                    assert(self.swarms@ =~= before.insert(key, self.swarms@[key]));
                    assert forall|j: int| 0 <= j < i + 1 implies pruned(
                        m0[#[trigger] keys@[j]],
                        self.swarms_map()[keys@[j]],
                        current_cutoff,
                    ) by {
                        if j < i {
                            assert(keys@[j] != key);
                        }
                    }
                    assert forall|j: int| i + 1 <= j < keys@.len() implies self.swarms_map()[
                        #[trigger] keys@[j]] == m0[keys@[j]] by {
                        assert(keys@[j] != key);
                    }
                }
            }
            i = i + 1;
        }
        proof {
            assert(keys@.take(keys@.len() as int) =~= keys@);
            assert forall|k: Id20Key| #[trigger] m0.contains_key(k) implies pruned(
                m0[k],
                self.swarms_map()[k],
                current_cutoff,
            ) by {
                assert(keys@.to_set().contains(k));
                let j = choose|j: int| 0 <= j < keys@.len() && keys@[j] == k;
                assert(pruned(m0[keys@[j]], self.swarms_map()[keys@[j]], current_cutoff));
            }
        }
        Ok(inactive_peers_removed)
    }

    /// Removes the swarms that `policy` drops (those without peers, when
    /// peerless torrents are removed, except those whose download count the
    /// policy keeps) and returns how many were removed.
    pub fn remove_peerless_torrents(&mut self, policy: &TrackerPolicy) -> (r: Result<u64, Error>)
        requires
            old(self).wf(),
        ensures
            final(self).wf(),
            final(self).events_enabled_spec() == old(self).events_enabled_spec(),
            forall|k: Id20Key| #[trigger]
                final(self).swarms_map().contains_key(k) <==> old(self).swarms_map().contains_key(k)
                    && !(is_dropped_by(*policy))(old(self).swarms_map()[k]),
            forall|k: Id20Key| #[trigger]
                final(self).swarms_map().contains_key(k) ==> final(self).swarms_map()[k] == old(
                    self,
                ).swarms_map()[k],
            policy.remove_peerless_torrents ==> forall|k: Id20Key| #[trigger]
                final(self).swarms_map().contains_key(k) ==> final(self).swarms_map()[k].peers_map().len() > 0
                    || (policy.persistent_torrent_completed_stat && final(self).swarms_map()[k].meta().downloaded
                    > 0),
            r matches Ok(n) && n == count_by(
                old(self).sorted_keys_spec(),
                old(self).swarms_map(),
                is_dropped_by(*policy),
            ),
            final(self).pending_events() == recorded(
                old(self).events_enabled_spec(),
                old(self).pending_events(),
                concat_by(old(self).sorted_keys_spec(), old(self).swarms_map(), dropped_torrent_events(*policy)),
            ),
    {
        let keys = self.swarms.sorted_keys();
        let ghost m0 = self.swarms_map();
        let ghost ev0 = self.events@;
        let mut peerless_torrents_removed: u64 = 0;
        let mut i: usize = 0;
        while i < keys.len()
            invariant
                self.wf(),
                self.events_enabled == old(self).events_enabled,
                keys@ == old(self).sorted_keys_spec(),
                m0 == old(self).swarms_map(),
                ev0 == old(self).pending_events(),
                keys@.to_set() == m0.dom(),
                keys@.no_duplicates(),
                i <= keys@.len(),
                forall|k: Id20Key| #[trigger]
                    self.swarms_map().contains_key(k) ==> m0.contains_key(k) && self.swarms_map()[k]
                        == m0[k],
                forall|j: int|
                    0 <= j < i ==> (self.swarms_map().contains_key(#[trigger] keys@[j]) <==> !(
                    is_dropped_by(*policy))(m0[keys@[j]])),
                forall|j: int| i <= j < keys@.len() ==> self.swarms_map().contains_key(#[trigger] keys@[j]),
                peerless_torrents_removed == count_by(keys@.take(i as int), m0, is_dropped_by(*policy)),
                self.events@ == recorded(
                    self.events_enabled,
                    ev0,
                    concat_by(keys@.take(i as int), m0, dropped_torrent_events(*policy)),
                ),
            decreases keys@.len() - i,
        {
            let key = keys[i];
            proof {
                assert(keys@.to_set().contains(key));
                lemma_count_by_step(keys@, m0, is_dropped_by(*policy), i as int);
                lemma_count_by_le_len(keys@.take(i as int), m0, is_dropped_by(*policy));
                lemma_concat_by_step(keys@, m0, dropped_torrent_events(*policy), i as int);
            }
            let ghost before = self.swarms_map();
            if !self.swarm_at(&key).meets_retaining_policy(policy) {
                let info_hash = InfoHash::from_key(key);
                let _removed = self.swarms.remove(&key);
                peerless_torrents_removed = peerless_torrents_removed + 1;
                if self.events_enabled {
                    self.events.push(Event::TorrentRemoved { info_hash });
                }
                proof {
                    assert(self.swarms_map() =~= before.remove(key));
                    assert forall|j: int| 0 <= j < i implies (self.swarms_map().contains_key(
                        #[trigger] keys@[j],
                    ) <==> !(is_dropped_by(*policy))(m0[keys@[j]])) by {
                        assert(keys@[j] != key);
                    }
                    assert forall|j: int| i + 1 <= j < keys@.len() implies self.swarms_map().contains_key(
                        #[trigger] keys@[j],
                    ) by {
                        assert(keys@[j] != key);
                    }
                }
            }
            proof {
                if self.events_enabled {
                    assert(self.events@ =~= ev0 + concat_by(keys@.take(i + 1), m0, dropped_torrent_events(*policy)));
                }
            }
            i = i + 1;
        }
        proof {
            assert(keys@.take(keys@.len() as int) =~= keys@);
            assert forall|k: Id20Key| #[trigger] self.swarms_map().contains_key(k) <==> m0.contains_key(k)
                && !(is_dropped_by(*policy))(m0[k]) by {
                if m0.contains_key(k) {
                    assert(keys@.to_set().contains(k));
                    let j = choose|j: int| 0 <= j < keys@.len() && keys@[j] == k;
                    assert(self.swarms_map().contains_key(keys@[j]) <==> !(is_dropped_by(*policy))(m0[keys@[j]]));
                }
            }
        }
        Ok(peerless_torrents_removed)
    }

    /// Adds an empty swarm for each persisted torrent that has none yet,
    /// with its persisted download count (the last one listed for it), and
    /// returns how many were added.
    /// No torrent event is recorded.
    pub fn import_persistent(&mut self, persistent_torrents: &Vec<(InfoHash, NumberOfDownloads)>) -> (r:
        u64)
        requires
            old(self).wf(),
        ensures
            final(self).wf(),
            final(self).events_enabled_spec() == old(self).events_enabled_spec(),
            final(self).pending_events() == old(self).pending_events(),
            final(self).swarms_map().dom() == old(self).swarms_map().dom() + imported(
                old(self).swarms_map().dom(),
                persistent_torrents@,
            ).dom(),
            forall|k: Id20Key| #[trigger]
                old(self).swarms_map().contains_key(k) ==> final(self).swarms_map()[k] == old(
                    self,
                ).swarms_map()[k],
            forall|k: Id20Key| #[trigger]
                imported(old(self).swarms_map().dom(), persistent_torrents@).contains_key(k)
                    ==> fresh_swarm(
                    final(self).swarms_map()[k],
                    imported(old(self).swarms_map().dom(), persistent_torrents@)[k].0,
                    imported(old(self).swarms_map().dom(), persistent_torrents@)[k].1,
                    old(self).events_enabled_spec(),
                ),
            r == imported(old(self).swarms_map().dom(), persistent_torrents@).len(),
    {
        let ghost m0 = self.swarms_map();
        let ghost present = m0.dom();
        let ghost entries = persistent_torrents@;
        let mut torrents_imported: u64 = 0;
        // The entries are taken from the last one back, so that the last
        // entry of a torrent is the one imported.
        let mut i: usize = persistent_torrents.len();
        proof {
            assert(entries.skip(i as int) =~= Seq::<(InfoHash, NumberOfDownloads)>::empty());
        }
        while i > 0
            invariant
                self.wf(),
                self.events_enabled == old(self).events_enabled,
                self.events@ == old(self).pending_events(),
                m0 == old(self).swarms_map(),
                present == m0.dom(),
                entries == persistent_torrents@,
                i <= entries.len(),
                self.swarms_map().dom() == present + imported(present, entries.skip(i as int)).dom(),
                forall|k: Id20Key| #[trigger] m0.contains_key(k) ==> self.swarms_map()[k] == m0[k],
                forall|k: Id20Key| #[trigger]
                    imported(present, entries.skip(i as int)).contains_key(k) ==> fresh_swarm(
                        self.swarms_map()[k],
                        imported(present, entries.skip(i as int))[k].0,
                        imported(present, entries.skip(i as int))[k].1,
                        self.events_enabled,
                    ),
                torrents_imported == imported(present, entries.skip(i as int)).len(),
            decreases i,
        {
            let j = i - 1;
            let (info_hash, completed) = persistent_torrents[j];
            let key = info_hash.key();
            proof {
                assert(entries.skip(j as int).drop_first() =~= entries.skip(i as int));
                assert(entries.skip(j as int)[0] == entries[j as int]);
                lemma_imported(present, entries.skip(i as int));
                self.swarms.lemma_wf();
            }
            let ghost before = self.swarms_map();
            if !self.swarms.contains(&key) {
                let entry = Coordinator::new(&info_hash, completed, self.events_enabled);
                self.swarms.insert_new(key, entry);
                proof {
                    assert(entries.skip(i as int).len() == entries.len() - i);
                    assert(imported(present, entries.skip(i as int)).len() < entries.len());
                    assert(entries.len() == persistent_torrents.len());
                    assert(torrents_imported < persistent_torrents.len());
                }
                torrents_imported = torrents_imported + 1;
                proof {
                    assert(imported(present, entries.skip(j as int)) == imported(
                        present,
                        entries.skip(i as int),
                    ).insert(key, (info_hash, completed)));
                    assert(self.swarms_map().dom() =~= present + imported(present, entries.skip(j as int)).dom());
                }
            } else {
                proof {
                    assert(imported(present, entries.skip(j as int)) == imported(
                        present,
                        entries.skip(i as int),
                    ));
                }
            }
            i = j;
        }
        proof {
            assert(entries.skip(0) =~= entries);
        }
        torrents_imported
    }

    /// How many peers are active and inactive at `cutoff` in all swarms, and
    /// how many swarms have or lack an active peer.
    pub open spec fn activity_figures(&self, cutoff: DurationSinceUnixEpoch) -> AggregateActivityMetadata {
        AggregateActivityMetadata {
            active_peers_total: sum_by(self.sorted_keys_spec(), self.swarms_map(), active_of(cutoff)) as usize,
            inactive_peers_total: sum_by(self.sorted_keys_spec(), self.swarms_map(), inactive_of(cutoff)) as usize,
            active_torrents_total: count_by(self.sorted_keys_spec(), self.swarms_map(), is_active_at(cutoff)) as usize,
            inactive_torrents_total: (self.swarms_map().len() - count_by(
                self.sorted_keys_spec(),
                self.swarms_map(),
                is_active_at(cutoff),
            )) as usize,
        }
    }

    /// The activity figures depend on the cutoff only through the time it
    /// stands for.
    pub proof fn lemma_activity_figures_by_time(&self, c1: DurationSinceUnixEpoch, c2: DurationSinceUnixEpoch)
        requires
            c1@ == c2@,
        ensures
            self.activity_figures(c1) == self.activity_figures(c2),
    {
        assert(active_of(c1) =~= active_of(c2)) by {
            assert forall|c: Coordinator| #[trigger] (active_of(c1))(c) == (active_of(c2))(c) by {
                assert(inactive_keys(c.peers_map(), c1) =~= inactive_keys(c.peers_map(), c2));
            }
        }
        assert(inactive_of(c1) =~= inactive_of(c2)) by {
            assert forall|c: Coordinator| #[trigger] (inactive_of(c1))(c) == (inactive_of(c2))(c) by {
                assert(inactive_keys(c.peers_map(), c1) =~= inactive_keys(c.peers_map(), c2));
            }
        }
        assert(is_active_at(c1) =~= is_active_at(c2)) by {
            assert forall|c: Coordinator| #[trigger] (is_active_at(c1))(c) == (is_active_at(c2))(c) by {
                assert(inactive_keys(c.peers_map(), c1) =~= inactive_keys(c.peers_map(), c2));
            }
        }
    }

    /// The number of peers in all swarms.
    pub open spec fn peer_total(&self) -> nat {
        sum_by(self.sorted_keys_spec(), self.swarms_map(), peers_of())
    }

    /// Whether the totals over all swarms fit in `u64`.
    pub open spec fn totals_fit(&self) -> bool {
        &&& sum_by(self.sorted_keys_spec(), self.swarms_map(), complete_of()) <= u64::MAX
        &&& sum_by(self.sorted_keys_spec(), self.swarms_map(), incomplete_of()) <= u64::MAX
        &&& sum_by(self.sorted_keys_spec(), self.swarms_map(), downloaded_of()) <= u64::MAX
    }

    /// With at most `u32::MAX` swarms, the totals fit in `u64`.
    pub proof fn lemma_totals_fit(&self)
        requires
            self.wf(),
            self.swarms_map().len() <= u32::MAX,
        ensures
            self.totals_fit(),
    {
        let keys = self.sorted_keys_spec();
        let m = self.swarms_map();
        self.lemma_sorted_keys();
        let b = u32::MAX as nat;
        assert forall|i: int| 0 <= i < keys.len() implies #[trigger] (complete_of())(m[keys[i]]) <= b by {}
        assert forall|i: int| 0 <= i < keys.len() implies #[trigger] (incomplete_of())(m[keys[i]]) <= b by {}
        assert forall|i: int| 0 <= i < keys.len() implies #[trigger] (downloaded_of())(m[keys[i]]) <= b by {}
        lemma_sum_by_bounded(keys, m, complete_of(), b);
        lemma_sum_by_bounded(keys, m, incomplete_of(), b);
        lemma_sum_by_bounded(keys, m, downloaded_of(), b);
        let n = keys.len();
        assert(n * b <= u64::MAX) by (nonlinear_arith)
            requires
                n <= 0xffff_ffff,
                b == 0xffff_ffff,
        ;
    }

    /// The sorted keys list the swarms.
    proof fn lemma_sorted_keys(&self)
        requires
            self.wf(),
        ensures
            self.sorted_keys_spec().to_set() == self.swarms_map().dom(),
            self.sorted_keys_spec().no_duplicates(),
            self.sorted_keys_spec().len() == self.swarms_map().len(),
    {
        self.swarms.lemma_wf();
        crate::order::lemma_id20_key_order_total();
        crate::order::lemma_sorted_listing_exists(self.swarms_map().dom(), id20_key_order());
    }

    fn swarm_at(&self, key: &Id20Key) -> (r: &Coordinator)
        requires
            self.wf(),
            self.swarms_map().contains_key(*key),
        ensures
            *r == self.swarms_map()[*key],
    {
        self.swarms.get_existing(key)
    }
}

impl Default for Registry {
    /// An empty registry that records no events.
    fn default() -> (r: Self)
        ensures
            r.wf(),
            r.swarms_map() == Map::<Id20Key, Coordinator>::empty(),
            !r.events_enabled_spec(),
            r.pending_events() == Seq::<Event>::empty(),
    {
        Registry::new(false)
    }
}

} // verus!

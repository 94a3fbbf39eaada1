use std::collections::hash_map::DefaultHasher;
use std::collections::BTreeMap;
use std::hash::Hasher;

use torrent_repository::coordinator::Coordinator;
use torrent_repository::primitives::{
    AggregateSwarmMetadata, AnnounceEvent, DurationSinceUnixEpoch, InfoHash, NumberOfBytes, Pagination,
    Peer, PeerAddress, PeerId, SwarmMetadata, TrackerPolicy,
};
use torrent_repository::registry::Registry;

type Entries = Vec<(InfoHash, Coordinator)>;

/// An info-hash made of the hasher's output repeated over the 20 bytes.
fn info_hash_from_hasher(hasher: &DefaultHasher) -> InfoHash {
    let n = hasher.finish().to_le_bytes();
    let bytes = [
        n[0], n[1], n[2], n[3], n[4], n[5], n[6], n[7], n[0], n[1], n[2], n[3], n[4], n[5], n[6], n[7], n[0],
        n[1], n[2], n[3],
    ];
    InfoHash::from_bytes(&bytes)
}

/// An info-hash whose last four bytes hold `n`.
fn info_hash_from_number(n: i32) -> InfoHash {
    let n = n.to_le_bytes();
    let mut bytes = [0u8; 20];
    bytes[16..].copy_from_slice(&n);
    InfoHash::from_bytes(&bytes)
}

/// A peer id whose last four bytes hold `n`.
fn peer_id_from_number(n: i32) -> PeerId {
    let n = n.to_le_bytes();
    let mut bytes = [0u8; 20];
    bytes[16..].copy_from_slice(&n);
    PeerId::from_bytes(&bytes)
}

fn now() -> DurationSinceUnixEpoch {
    DurationSinceUnixEpoch::new(1_669_397_478, 0)
}

fn a_peer(id: i32, left: i64, event: AnnounceEvent) -> Peer {
    Peer {
        peer_id: peer_id_from_number(id),
        peer_addr: PeerAddress::v4(0, 0, 0, 0, 8080),
        updated: now(),
        uploaded: NumberOfBytes::new(0),
        downloaded: NumberOfBytes::new(0),
        left: NumberOfBytes::new(left),
        event,
    }
}

fn a_started_peer(id: i32) -> Peer {
    a_peer(id, 1, AnnounceEvent::Started)
}

fn a_completed_peer(id: i32) -> Peer {
    a_peer(id, 0, AnnounceEvent::Completed)
}

fn default_info_hash() -> InfoHash {
    InfoHash::from_bytes(&[0u8; 20])
}

fn new_swarm() -> Coordinator {
    Coordinator::new(&default_info_hash(), 0, false)
}

fn swarm_with(peer: &Peer) -> Coordinator {
    let mut swarm = new_swarm();
    swarm.handle_announcement(peer);
    swarm
}

fn downloaded_swarm(id: i32) -> Coordinator {
    let mut swarm = new_swarm();
    let mut peer = a_started_peer(id);
    swarm.handle_announcement(&peer);
    peer.event = AnnounceEvent::Completed;
    peer.left = NumberOfBytes::new(0);
    swarm.handle_announcement(&peer);
    swarm
}

fn hashed(value: u8) -> InfoHash {
    let mut hasher = DefaultHasher::default();
    hasher.write_u8(value);
    info_hash_from_hasher(&hasher)
}

fn empty() -> Entries {
    vec![]
}

fn default() -> Entries {
    vec![(default_info_hash(), new_swarm())]
}

fn started() -> Entries {
    vec![(default_info_hash(), swarm_with(&a_started_peer(1)))]
}

fn completed() -> Entries {
    vec![(default_info_hash(), swarm_with(&a_completed_peer(2)))]
}

fn downloaded() -> Entries {
    vec![(default_info_hash(), downloaded_swarm(3))]
}

fn three() -> Entries {
    vec![
        (hashed(101), swarm_with(&a_started_peer(1))),
        (hashed(102), swarm_with(&a_completed_peer(2))),
        (hashed(103), downloaded_swarm(3)),
    ]
}

fn many_out_of_order() -> Entries {
    // Every seventh number modulo 408, so that the info-hashes are not listed in order.
    (0..408).map(|k| (k * 7) % 408).map(|i| (info_hash_from_number(i), swarm_with(&a_started_peer(i)))).collect()
}

fn many_hashed_in_order() -> Entries {
    let mut entries: BTreeMap<(u64, u64, u32), (InfoHash, Coordinator)> = BTreeMap::new();
    for i in 0..408 {
        let mut hasher = DefaultHasher::default();
        hasher.write_i32(i);
        let info_hash = info_hash_from_hasher(&hasher);
        entries.insert(info_hash.key(), (info_hash, swarm_with(&a_started_peer(i))));
    }
    entries.into_values().collect()
}

fn all_cases() -> Vec<Entries> {
    vec![
        empty(),
        default(),
        started(),
        completed(),
        downloaded(),
        three(),
        many_out_of_order(),
        many_hashed_in_order(),
    ]
}

fn persistent_empty() -> Vec<(InfoHash, u32)> {
    vec![]
}

fn persistent_single() -> Vec<(InfoHash, u32)> {
    let mut hasher = DefaultHasher::default();
    hasher.write_u8(1);
    vec![(info_hash_from_hasher(&hasher), 0)]
}

fn persistent_three() -> Vec<(InfoHash, u32)> {
    let mut hasher = DefaultHasher::default();
    hasher.write_u8(1);
    let info_1 = info_hash_from_hasher(&hasher);
    hasher.write_u8(2);
    let info_2 = info_hash_from_hasher(&hasher);
    hasher.write_u8(3);
    let info_3 = info_hash_from_hasher(&hasher);
    let mut map: BTreeMap<(u64, u64, u32), (InfoHash, u32)> = BTreeMap::new();
    for (info_hash, downloads) in [(info_1, 1), (info_2, 2), (info_3, 3)] {
        map.insert(info_hash.key(), (info_hash, downloads));
    }
    map.into_values().collect()
}

fn make(repo: &mut Registry, entries: &Entries) {
    for (info_hash, swarm) in entries {
        repo.insert(info_hash, swarm.clone());
    }
}

/// What a swarm holds: its counters and its peers.
fn contents(swarm: &Coordinator) -> (SwarmMetadata, Vec<Peer>) {
    (swarm.metadata(), swarm.peers(None))
}

#[test]
fn it_should_get_a_torrent_entry() {
    for entries in all_cases() {
        let mut repo = Registry::default();
        make(&mut repo, &entries);

        if let Some((info_hash, torrent)) = entries.first() {
            assert_eq!(repo.get(info_hash).map(contents), Some(contents(torrent)));
        } else {
            assert!(repo.get(&default_info_hash()).is_none());
        }
    }
}

#[test]
fn it_should_get_paginated_entries_in_a_stable_or_sorted_order() {
    for entries in all_cases() {
        let mut repo = Registry::default();
        make(&mut repo, &entries);

        let entries_a: Vec<(u64, u64, u32)> = repo.get_paginated(None).iter().map(|(i, _)| i.key()).collect();

        make(&mut repo, &many_out_of_order());

        let entries_b: Vec<(u64, u64, u32)> = repo.get_paginated(None).iter().map(|(i, _)| i.key()).collect();

        let is_equal = entries_b.iter().take(entries_a.len()).copied().collect::<Vec<_>>() == entries_a;

        let is_sorted = entries_b.windows(2).all(|w| w[0] <= w[1]);

        assert!(is_equal || is_sorted, "The order is unstable: {is_equal}, or is sorted {is_sorted}.");
    }
}

#[test]
fn it_should_get_paginated() {
    for entries in all_cases() {
        for paginated in [Pagination::new(0, 0), Pagination::new(0, 1), Pagination::new(1, 1)] {
            let mut repo = Registry::default();
            make(&mut repo, &entries);

            let mut info_hashes: Vec<(u64, u64, u32)> =
                repo.get_paginated(None).iter().map(|(i, _)| i.key()).collect();
            info_hashes.sort();

            match paginated {
                // it should return empty if limit is zero.
                Pagination { limit: 0, .. } => {
                    let torrents: Vec<(InfoHash, (SwarmMetadata, Vec<Peer>))> = repo
                        .get_paginated(Some(&paginated))
                        .iter()
                        .map(|(i, swarm)| (*i, contents(swarm)))
                        .collect();

                    assert_eq!(torrents, vec![]);
                }

                // it should return a single entry if the limit is one.
                Pagination { limit: 1, offset: 0 } => {
                    if info_hashes.is_empty() {
                        assert_eq!(repo.get_paginated(Some(&paginated)).len(), 0);
                    } else {
                        let page = repo.get_paginated(Some(&paginated));
                        assert_eq!(page.len(), 1);
                        assert_eq!(page.first().map(|(i, _)| i.key()), info_hashes.first().copied());
                    }
                }

                // it should return the only the second entry if both the limit and the offset are one.
                Pagination { limit: 1, offset: 1 } => {
                    if info_hashes.len() > 1 {
                        let page = repo.get_paginated(Some(&paginated));
                        assert_eq!(page.len(), 1);
                        assert_eq!(page[0].0.key(), info_hashes[1]);
                    }
                }
                // the other cases are not yet tested.
                _ => {}
            }
        }
    }
}

#[test]
fn it_should_get_metrics() {
    for entries in all_cases() {
        let mut repo = Registry::default();
        make(&mut repo, &entries);

        let mut metrics = AggregateSwarmMetadata::zeroed();

        for (_, torrent) in &entries {
            let stats = torrent.metadata();

            metrics.total_torrents += 1;
            metrics.total_incomplete += u64::from(stats.incomplete);
            metrics.total_complete += u64::from(stats.complete);
            metrics.total_downloaded += u64::from(stats.downloaded);
        }

        assert_eq!(repo.get_aggregate_swarm_metadata().unwrap(), metrics);
    }
}

#[test]
fn it_should_import_persistent_torrents() {
    for entries in all_cases() {
        for persistent_torrents in [persistent_empty(), persistent_single(), persistent_three()] {
            let mut repo = Registry::default();
            make(&mut repo, &entries);

            let mut downloaded = repo.get_aggregate_swarm_metadata().unwrap().total_downloaded;
            persistent_torrents.iter().for_each(|(_, d)| downloaded += u64::from(*d));

            repo.import_persistent(&persistent_torrents);

            assert_eq!(repo.get_aggregate_swarm_metadata().unwrap().total_downloaded, downloaded);

            for (entry, _) in persistent_torrents {
                assert!(repo.get(&entry).is_some());
            }
        }
    }
}

#[test]
fn it_should_remove_an_entry() {
    for entries in all_cases() {
        let mut repo = Registry::default();
        make(&mut repo, &entries);

        for (info_hash, torrent) in &entries {
            assert_eq!(repo.get(info_hash).map(contents), Some(contents(torrent)));
            assert_eq!(repo.remove(info_hash).as_ref().map(contents), Some(contents(torrent)));

            assert!(repo.get(info_hash).is_none());
            assert!(repo.remove(info_hash).is_none());
        }

        assert_eq!(repo.get_aggregate_swarm_metadata().unwrap().total_torrents, 0);
    }
}

#[test]
fn it_should_remove_inactive_peers() {
    let timeout = DurationSinceUnixEpoch::from_secs(120);
    let expire = DurationSinceUnixEpoch::from_secs(121);

    for entries in all_cases() {
        let mut repo = Registry::default();
        make(&mut repo, &entries);

        // Generate a new infohash and peer.
        let info_hash = hashed(255);
        let mut peer = a_completed_peer(-1);

        // Set the last updated time of the peer to be 121 seconds ago.
        peer.updated = now().checked_sub(&expire).unwrap();

        // Insert the infohash and peer into the repository
        // and verify there is an extra torrent entry.
        repo.handle_announcement(&info_hash, &peer, None).unwrap();
        assert_eq!(repo.get_aggregate_swarm_metadata().unwrap().total_torrents, entries.len() as u64 + 1);

        // Insert the infohash and peer into the repository
        // and verify the swarm metadata was updated.
        repo.handle_announcement(&info_hash, &peer, None).unwrap();
        let stats = repo.get_swarm_metadata(&info_hash).unwrap();
        assert_eq!(stats, Some(SwarmMetadata { downloaded: 0, complete: 1, incomplete: 0 }));

        // Verify that this new peer was inserted into the repository.
        assert!(repo.get(&info_hash).expect("it_should_get_some").peers(None).contains(&peer));

        // Remove peers that have not been updated since the timeout (120 seconds ago).
        repo.remove_inactive_peers(now().checked_sub(&timeout).unwrap()).unwrap();

        // Verify that the this peer was removed from the repository.
        assert!(!repo.get(&info_hash).expect("it_should_get_some").peers(None).contains(&peer));
    }
}

#[test]
fn it_should_remove_peerless_torrents() {
    let policies = [
        TrackerPolicy { max_peer_timeout: 0, persistent_torrent_completed_stat: false, remove_peerless_torrents: false },
        TrackerPolicy { max_peer_timeout: 0, persistent_torrent_completed_stat: true, remove_peerless_torrents: false },
        TrackerPolicy { max_peer_timeout: 0, persistent_torrent_completed_stat: false, remove_peerless_torrents: true },
        TrackerPolicy { max_peer_timeout: 0, persistent_torrent_completed_stat: true, remove_peerless_torrents: true },
    ];
    for entries in all_cases() {
        for policy in policies {
            let mut repo = Registry::default();
            make(&mut repo, &entries);

            repo.remove_peerless_torrents(&policy).unwrap();

            for (_, entry) in repo.get_paginated(None) {
                assert!(entry.meets_retaining_policy(&policy));
            }
        }
    }
}

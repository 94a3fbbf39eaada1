use torrent_repository::entry::peer_list::PeerList;
use torrent_repository::entry::single::EntrySingle;
use torrent_repository::entry::torrent::TrackedTorrent;
use torrent_repository::primitives::{
    AggregateSwarmMetadata, AnnounceEvent, DurationSinceUnixEpoch, InfoHash, NumberOfBytes, Pagination,
    Peer, PeerAddress, PeerId, SwarmMetadata, TrackerPolicy,
};
use torrent_repository::repository::skip_map_mutex_std::TorrentsSkipMapMutexStd;
use torrent_repository::repository::TorrentRepository;
use torrent_repository::swarm::Swarm;

fn hex_bytes(hex: &str) -> [u8; 20] {
    let mut bytes = [0u8; 20];
    for (i, byte) in bytes.iter_mut().enumerate() {
        *byte = u8::from_str_radix(&hex[2 * i..2 * i + 2], 16).unwrap();
    }
    bytes
}

fn sample_info_hash() -> InfoHash {
    InfoHash::from_bytes(&hex_bytes("3b245504cf5f11bbdbe1201cea6a6bf45aee1bc0"))
}

fn sample_info_hash_after() -> InfoHash {
    InfoHash::from_bytes(&hex_bytes("99c82bb73505a3c0b453f9fa0e881d6e5a32a0c1"))
}

fn numeric_peer_id(two_digits_value: u8) -> PeerId {
    let mut bytes = *b"-qB00000000000000000";
    bytes[18] = b'0' + two_digits_value / 10;
    bytes[19] = b'0' + two_digits_value % 10;
    PeerId::from_bytes(&bytes)
}

fn complete_peer() -> Peer {
    Peer {
        peer_id: PeerId::from_bytes(b"-qB00000000000000000"),
        peer_addr: PeerAddress::v4(126, 0, 0, 1, 8080),
        updated: DurationSinceUnixEpoch::new(1_669_397_478_934, 0),
        uploaded: NumberOfBytes::new(0),
        downloaded: NumberOfBytes::new(0),
        left: NumberOfBytes::new(0),
        event: AnnounceEvent::Completed,
    }
}

fn sample_peer() -> Peer {
    complete_peer()
}

fn leecher() -> Peer {
    Peer { left: NumberOfBytes::new(1000), event: AnnounceEvent::Started, ..complete_peer() }
}

fn seeder() -> Peer {
    complete_peer()
}

fn one_second_after(t: DurationSinceUnixEpoch) -> DurationSinceUnixEpoch {
    t.checked_add(&DurationSinceUnixEpoch::from_secs(1)).unwrap()
}

fn initialize_repository_with_one_torrent_without_peers(info_hash: &InfoHash) -> TorrentRepository {
    let mut repository = TorrentRepository::default();

    // Insert a sample peer for the torrent to force adding the torrent entry
    let mut peer = sample_peer();
    peer.updated = DurationSinceUnixEpoch::new(0, 0);
    let _number_of_downloads_increased = repository.upsert_peer(info_hash, &peer, None);

    // Remove the peer
    repository.remove_inactive_peers(one_second_after(peer.updated));

    repository
}

fn entry_info(entry: &EntrySingle) -> (SwarmMetadata, Vec<Peer>, usize) {
    (entry.get_swarm_metadata(), entry.get_peers(None), entry.get_peers_len())
}

#[test]
fn repository_it_should_add_the_first_peer_to_the_torrent_peer_list() {
    let mut repository = TorrentRepository::default();

    let info_hash = sample_info_hash();

    let _number_of_downloads_increased = repository.upsert_peer(&info_hash, &sample_peer(), None);

    assert!(repository.get(&info_hash).is_some());
}

#[test]
fn repository_it_should_allow_adding_the_same_peer_twice_to_the_torrent_peer_list() {
    let mut repository = TorrentRepository::default();

    let info_hash = sample_info_hash();

    let _number_of_downloads_increased = repository.upsert_peer(&info_hash, &sample_peer(), None);
    let _number_of_downloads_increased = repository.upsert_peer(&info_hash, &sample_peer(), None);

    assert!(repository.get(&info_hash).is_some());
}

#[test]
fn repository_it_should_return_the_peers_for_a_given_torrent() {
    let mut repository = TorrentRepository::default();

    let info_hash = sample_info_hash();
    let peer = sample_peer();

    let _number_of_downloads_increased = repository.upsert_peer(&info_hash, &peer, None);

    let peers = repository.get_torrent_peers(&info_hash, 74);

    assert_eq!(peers, vec![peer]);
}

#[test]
fn repository_it_should_return_an_empty_list_or_peers_for_a_non_existing_torrent() {
    let repository = TorrentRepository::default();

    let peers = repository.get_torrent_peers(&sample_info_hash(), 74);

    assert!(peers.is_empty());
}

#[test]
fn repository_it_should_return_74_peers_at_the_most_for_a_given_torrent() {
    let mut repository = TorrentRepository::default();

    let info_hash = sample_info_hash();

    for idx in 1..=75u8 {
        let peer = Peer {
            peer_id: numeric_peer_id(idx),
            peer_addr: PeerAddress::v4(126, 0, 0, idx, 8080),
            ..complete_peer()
        };

        let _number_of_downloads_increased = repository.upsert_peer(&info_hash, &peer, None);
    }

    let peers = repository.get_torrent_peers(&info_hash, 74);

    assert_eq!(peers.len(), 74);
}

#[test]
fn repository_it_should_return_an_empty_peer_list_for_a_non_existing_torrent() {
    let repository = TorrentRepository::default();

    let peers = repository.get_peers_for(&sample_info_hash(), &sample_peer(), 74);

    assert_eq!(peers, vec![]);
}

#[test]
fn repository_it_should_return_the_peers_for_a_given_torrent_excluding_a_given_peer() {
    let mut repository = TorrentRepository::default();

    let info_hash = sample_info_hash();
    let peer = sample_peer();

    let _number_of_downloads_increased = repository.upsert_peer(&info_hash, &peer, None);

    let peers = repository.get_peers_for(&info_hash, &peer, 74);

    assert_eq!(peers, vec![]);
}

#[test]
fn repository_it_should_return_74_peers_at_the_most_for_a_given_torrent_when_it_filters_out_a_given_peer() {
    let mut repository = TorrentRepository::default();

    let info_hash = sample_info_hash();

    let excluded_peer = sample_peer();

    let _number_of_downloads_increased = repository.upsert_peer(&info_hash, &excluded_peer, None);

    // Add 74 peers
    for idx in 2..=75u8 {
        let peer = Peer {
            peer_id: numeric_peer_id(idx),
            peer_addr: PeerAddress::v4(126, 0, 0, idx, 8080),
            ..complete_peer()
        };

        let _number_of_downloads_increased = repository.upsert_peer(&info_hash, &peer, None);
    }

    let peers = repository.get_peers_for(&info_hash, &excluded_peer, 74);

    assert_eq!(peers.len(), 74);
}

#[test]
fn repository_it_should_remove_a_torrent_entry() {
    let mut repository = TorrentRepository::default();

    let info_hash = sample_info_hash();
    let _number_of_downloads_increased = repository.upsert_peer(&info_hash, &sample_peer(), None);

    let _unused = repository.remove(&info_hash);

    assert!(repository.get(&info_hash).is_none());
}

#[test]
fn repository_it_should_remove_peers_that_have_not_been_updated_after_a_cutoff_time() {
    let mut repository = TorrentRepository::default();

    let info_hash = sample_info_hash();
    let mut peer = sample_peer();
    peer.updated = DurationSinceUnixEpoch::new(0, 0);

    let _number_of_downloads_increased = repository.upsert_peer(&info_hash, &peer, None);

    // Cut off time is 1 second after the peer was updated
    repository.remove_inactive_peers(one_second_after(peer.updated));

    assert!(!repository.get_torrent_peers(&info_hash, 74).contains(&peer));
}

#[test]
fn repository_it_should_remove_torrents_without_peers() {
    let info_hash = sample_info_hash();

    let mut repository = initialize_repository_with_one_torrent_without_peers(&info_hash);

    let tracker_policy = TrackerPolicy { remove_peerless_torrents: true, ..Default::default() };

    repository.remove_peerless_torrents(&tracker_policy);

    assert!(repository.get(&info_hash).is_none());
}

#[test]
fn repository_it_should_return_one_torrent_entry_by_infohash() {
    let mut repository = TorrentRepository::default();

    let info_hash = sample_info_hash();
    let peer = sample_peer();

    let _number_of_downloads_increased = repository.upsert_peer(&info_hash, &peer, None);

    let torrent_entry = repository.get(&info_hash).unwrap();

    assert_eq!(
        (SwarmMetadata { downloaded: 0, complete: 1, incomplete: 0 }, vec![peer], 1),
        entry_info(torrent_entry)
    );
}

#[test]
fn repository_without_pagination() {
    let mut repository = TorrentRepository::default();

    let info_hash = sample_info_hash();
    let peer = sample_peer();
    let _number_of_downloads_increased = repository.upsert_peer(&info_hash, &peer, None);

    let torrent_entries = repository.get_paginated(None);

    assert_eq!(torrent_entries.len(), 1);

    assert_eq!(
        (SwarmMetadata { downloaded: 0, complete: 1, incomplete: 0 }, vec![peer], 1),
        entry_info(torrent_entries.first().unwrap().1)
    );
}

fn repository_with_two_torrents() -> (TorrentRepository, Peer, Peer) {
    let mut repository = TorrentRepository::default();
    let peer_one = Peer {
        peer_id: PeerId::from_bytes(b"-qB00000000000000001"),
        peer_addr: PeerAddress::v4(126, 0, 0, 1, 8081),
        ..complete_peer()
    };
    let peer_two = Peer {
        peer_id: PeerId::from_bytes(b"-qB00000000000000002"),
        peer_addr: PeerAddress::v4(126, 0, 0, 2, 8082),
        ..complete_peer()
    };
    let _unused = repository.upsert_peer(&sample_info_hash(), &peer_one, None);
    let _unused = repository.upsert_peer(&sample_info_hash_after(), &peer_two, None);
    (repository, peer_one, peer_two)
}

#[test]
fn repository_it_should_return_the_first_page() {
    let (repository, peer_one, _peer_two) = repository_with_two_torrents();

    let torrent_entries = repository.get_paginated(Some(&Pagination { offset: 0, limit: 1 }));

    assert_eq!(torrent_entries.len(), 1);
    assert_eq!(
        (SwarmMetadata { downloaded: 0, complete: 1, incomplete: 0 }, vec![peer_one], 1),
        entry_info(torrent_entries.first().unwrap().1)
    );
}

#[test]
fn repository_it_should_return_the_second_page() {
    let (repository, _peer_one, peer_two) = repository_with_two_torrents();

    let torrent_entries = repository.get_paginated(Some(&Pagination { offset: 1, limit: 1 }));

    assert_eq!(torrent_entries.len(), 1);
    assert_eq!(
        (SwarmMetadata { downloaded: 0, complete: 1, incomplete: 0 }, vec![peer_two], 1),
        entry_info(torrent_entries.first().unwrap().1)
    );
}

#[test]
fn repository_it_should_allow_changing_the_page_size() {
    let (repository, _peer_one, _peer_two) = repository_with_two_torrents();

    let torrent_entries = repository.get_paginated(Some(&Pagination { offset: 1, limit: 1 }));

    assert_eq!(torrent_entries.len(), 1);
}

#[test]
fn repository_it_should_get_empty_aggregate_swarm_metadata_when_there_are_no_torrents() {
    let repository = TorrentRepository::default();

    assert_eq!(
        repository.get_aggregate_swarm_metadata(),
        AggregateSwarmMetadata { total_complete: 0, total_downloaded: 0, total_incomplete: 0, total_torrents: 0 }
    );
}

#[test]
fn repository_it_should_return_the_aggregate_swarm_metadata_when_there_is_a_leecher() {
    let mut repository = TorrentRepository::default();

    let _unused = repository.upsert_peer(&sample_info_hash(), &leecher(), None);

    assert_eq!(
        repository.get_aggregate_swarm_metadata(),
        AggregateSwarmMetadata { total_complete: 0, total_downloaded: 0, total_incomplete: 1, total_torrents: 1 }
    );
}

#[test]
fn repository_it_should_return_the_aggregate_swarm_metadata_when_there_is_a_seeder() {
    let mut repository = TorrentRepository::default();

    let _unused = repository.upsert_peer(&sample_info_hash(), &seeder(), None);

    assert_eq!(
        repository.get_aggregate_swarm_metadata(),
        AggregateSwarmMetadata { total_complete: 1, total_downloaded: 0, total_incomplete: 0, total_torrents: 1 }
    );
}

#[test]
fn repository_it_should_return_the_aggregate_swarm_metadata_when_there_is_a_completed_peer() {
    let mut repository = TorrentRepository::default();

    let _unused = repository.upsert_peer(&sample_info_hash(), &complete_peer(), None);

    assert_eq!(
        repository.get_aggregate_swarm_metadata(),
        AggregateSwarmMetadata { total_complete: 1, total_downloaded: 0, total_incomplete: 0, total_torrents: 1 }
    );
}

#[test]
fn repository_it_should_return_the_aggregate_swarm_metadata_when_there_are_multiple_torrents() {
    let mut repository = TorrentRepository::default();

    let torrents = 1_000u32;
    for i in 0..torrents {
        let mut bytes = [0u8; 20];
        bytes[16..20].copy_from_slice(&i.to_be_bytes());
        let _unused = repository.upsert_peer(&InfoHash::from_bytes(&bytes), &leecher(), None);
    }

    assert_eq!(
        repository.get_aggregate_swarm_metadata(),
        AggregateSwarmMetadata {
            total_complete: 0,
            total_downloaded: 0,
            total_incomplete: u64::from(torrents),
            total_torrents: u64::from(torrents),
        }
    );
}

#[test]
fn repository_it_should_get_swarm_metadata_for_an_existing_torrent() {
    let mut repository = TorrentRepository::default();

    let infohash = sample_info_hash();

    let _unused = repository.upsert_peer(&infohash, &leecher(), None);

    assert_eq!(
        repository.get_swarm_metadata_or_default(&infohash),
        SwarmMetadata { complete: 0, downloaded: 0, incomplete: 1 }
    );
}

#[test]
fn repository_it_should_return_zeroed_swarm_metadata_for_a_non_existing_torrent() {
    let repository = TorrentRepository::default();

    assert_eq!(repository.get_swarm_metadata_or_default(&sample_info_hash()), SwarmMetadata::zeroed());
}

#[test]
fn repository_it_should_allow_importing_persisted_torrent_entries() {
    let mut repository = TorrentRepository::default();

    let infohash = sample_info_hash();

    repository.import_persistent(&vec![(infohash, 1)]);

    let swarm_metadata = repository.get_swarm_metadata_or_default(&infohash);

    // Only the number of downloads is persisted.
    assert_eq!(swarm_metadata.downloaded, 1);
}

#[test]
fn repository_counts_a_download_only_for_a_known_peer() {
    let mut repository = TorrentRepository::default();
    let info_hash = sample_info_hash();

    // A peer that is not listed yet adds no download.
    assert!(!repository.upsert_peer(&info_hash, &complete_peer(), Some(4)));
    assert_eq!(repository.get_swarm_metadata(&info_hash).unwrap().downloaded, 4);

    // A listed peer that announces completion for the first time does.
    let _unused = repository.upsert_peer(&info_hash, &leecher(), None);
    assert!(repository.upsert_peer(&info_hash, &complete_peer(), None));
    assert!(!repository.upsert_peer(&info_hash, &complete_peer(), None));
    assert_eq!(repository.get_swarm_metadata(&info_hash).unwrap().downloaded, 5);

    // A stopped peer leaves.
    let stopped = Peer { event: AnnounceEvent::Stopped, ..complete_peer() };
    assert!(!repository.upsert_peer(&info_hash, &stopped, None));
    assert_eq!(repository.get_torrent_peers(&info_hash, 10), vec![]);
}

#[test]
fn repository_keeps_peerless_torrents_with_downloads_when_download_counts_persist() {
    let info_hash = sample_info_hash();
    let mut repository = TorrentRepository::default();
    repository.import_persistent(&vec![(info_hash, 3), (sample_info_hash_after(), 0)]);

    let policy = TrackerPolicy {
        remove_peerless_torrents: true,
        persistent_torrent_completed_stat: true,
        ..Default::default()
    };
    repository.remove_peerless_torrents(&policy);

    assert!(repository.get(&info_hash).is_some());
    assert!(repository.get(&sample_info_hash_after()).is_none());
}

#[test]
fn skip_map_repository_answers_as_the_repository() {
    let mut torrents = TorrentsSkipMapMutexStd::default();
    let info_hash = sample_info_hash();

    assert!(!torrents.upsert_peer(&info_hash, &leecher(), Some(2)));
    assert_eq!(
        torrents.get_swarm_metadata(&info_hash),
        Some(SwarmMetadata { downloaded: 2, complete: 0, incomplete: 1 })
    );
    assert_eq!(
        torrents.get_metrics(),
        AggregateSwarmMetadata { total_complete: 0, total_downloaded: 2, total_incomplete: 1, total_torrents: 1 }
    );
    assert_eq!(torrents.get_paginated(None).len(), 1);
    torrents.remove_inactive_peers(one_second_after(leecher().updated));
    torrents.remove_peerless_torrents(&TrackerPolicy { remove_peerless_torrents: true, ..Default::default() });
    assert!(torrents.get(&info_hash).is_none());
    torrents.import_persistent(&vec![(info_hash, 1)]);
    assert!(torrents.remove(&info_hash).is_some());
}

#[test]
fn entry_single_retaining_policy() {
    let mut entry = EntrySingle { swarm: PeerList::default(), downloaded: 0 };
    let remove = TrackerPolicy { remove_peerless_torrents: true, ..Default::default() };
    let keep = TrackerPolicy { remove_peerless_torrents: false, ..Default::default() };
    let persist = TrackerPolicy {
        remove_peerless_torrents: true,
        persistent_torrent_completed_stat: true,
        ..Default::default()
    };

    assert!(!entry.meets_retaining_policy(&remove));
    assert!(entry.is_good(&keep));
    assert!(!entry.is_good(&persist));

    entry.downloaded = 1;
    assert!(entry.meets_retaining_policy(&persist));

    entry.upsert_peer(&leecher());
    assert!(entry.meets_retaining_policy(&remove));
    assert!(!entry.peers_is_empty());
}

#[test]
fn tracked_torrent_follows_its_swarm() {
    let mut torrent = TrackedTorrent::new(Swarm::new(&sample_info_hash(), 0, false));
    let peer = leecher();

    assert!(torrent.is_empty());
    assert!(!torrent.handle_announcement(&peer));
    assert!(torrent.handle_announcement(&peer.into_completed()));
    assert_eq!(torrent.len(), 1);
    assert_eq!(torrent.metadata(), SwarmMetadata { downloaded: 1, complete: 0, incomplete: 1 });
    assert_eq!(torrent.peers(None), vec![peer.into_completed()]);
    assert!(torrent.peers_excluding(&peer.peer_addr, None).is_empty());
    assert!(torrent.meets_retaining_policy(&TrackerPolicy::default()));

    torrent.remove_inactive(one_second_after(peer.updated));
    assert!(torrent.is_empty());
    assert!(!torrent.meets_retaining_policy(&TrackerPolicy::default()));
    assert!(torrent.take_events().is_empty());
}

#[test]
fn repository_update_torrent_with_peer_and_get_stats_should_count_a_completion_of_a_known_leecher() {
    let mut repository = TorrentRepository::default();
    let info_hash = sample_info_hash();

    let (increased, stats) = repository.update_torrent_with_peer_and_get_stats(&info_hash, &leecher());
    assert!(!increased);
    assert_eq!(stats, SwarmMetadata { downloaded: 0, complete: 0, incomplete: 1 });

    let (increased, stats) = repository.update_torrent_with_peer_and_get_stats(&info_hash, &seeder());
    assert!(increased);
    assert_eq!(stats, SwarmMetadata { downloaded: 1, complete: 1, incomplete: 0 });
}

#[test]
fn repository_it_should_import_the_last_download_count_listed_for_a_torrent() {
    let mut repository = TorrentRepository::default();
    let info_hash = sample_info_hash();

    repository.import_persistent(&vec![(info_hash, 1), (info_hash, 2)]);

    assert_eq!(repository.get_swarm_metadata(&info_hash).map(|m| m.downloaded), Some(2));
}

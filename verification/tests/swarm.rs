use torrent_repository::entry::swarm::Swarm as EntrySwarm;
use torrent_repository::event::Event;
use torrent_repository::primitives::{
    AnnounceEvent, DurationSinceUnixEpoch, InfoHash, NumberOfBytes, Peer, PeerAddress, PeerId,
    SwarmMetadata, TrackerPolicy,
};
use torrent_repository::swarm::Swarm;

fn hex_bytes(hex: &str) -> [u8; 20] {
    let mut bytes = [0u8; 20];
    for (i, byte) in bytes.iter_mut().enumerate() {
        *byte = u8::from_str_radix(&hex[2 * i..2 * i + 2], 16).unwrap();
    }
    bytes
}

fn sample_info_hash() -> InfoHash {
    InfoHash::from_bytes(&hex_bytes("3b245504cf5f11bbdbe1201cea6a6bf45aee1bc0"))
}

fn peer_id(bytes: &[u8; 20]) -> PeerId {
    PeerId::from_bytes(bytes)
}

fn default_peer() -> Peer {
    Peer {
        peer_id: peer_id(b"-qB00000000000000000"),
        peer_addr: PeerAddress::v4(126, 0, 0, 1, 8080),
        updated: DurationSinceUnixEpoch::new(1_669_397_478_934, 0),
        uploaded: NumberOfBytes::new(0),
        downloaded: NumberOfBytes::new(0),
        left: NumberOfBytes::new(0),
        event: AnnounceEvent::Started,
    }
}

fn seeder() -> Peer {
    Peer {
        peer_id: peer_id(b"-qB00000000000000001"),
        peer_addr: PeerAddress::v4(126, 0, 0, 1, 8081),
        left: NumberOfBytes::new(0),
        event: AnnounceEvent::Completed,
        ..default_peer()
    }
}

fn leecher() -> Peer {
    Peer {
        peer_id: peer_id(b"-qB00000000000000002"),
        peer_addr: PeerAddress::v4(126, 0, 0, 2, 8082),
        left: NumberOfBytes::new(10),
        event: AnnounceEvent::Started,
        ..default_peer()
    }
}

fn new_swarm() -> Swarm {
    Swarm::new(&sample_info_hash(), 0, false)
}

fn upsert(swarm: &mut Swarm, peer: Peer) -> Option<Peer> {
    let mut downloads_increased = false;
    swarm.upsert_peer(peer, &mut downloads_increased)
}

fn one_second_after(t: DurationSinceUnixEpoch) -> DurationSinceUnixEpoch {
    t.checked_add(&DurationSinceUnixEpoch::from_secs(1)).unwrap()
}

fn one_second_before(t: DurationSinceUnixEpoch) -> DurationSinceUnixEpoch {
    t.checked_sub(&DurationSinceUnixEpoch::from_secs(1)).unwrap()
}

fn empty_swarm() -> Swarm {
    new_swarm()
}

fn not_empty_swarm() -> Swarm {
    let mut swarm = new_swarm();
    upsert(&mut swarm, default_peer());
    swarm
}

fn not_empty_swarm_with_downloads() -> Swarm {
    let mut swarm = new_swarm();

    let mut peer = leecher();

    upsert(&mut swarm, peer);

    peer.event = AnnounceEvent::Completed;

    upsert(&mut swarm, peer);

    assert!(swarm.metadata().downloads() > 0);

    swarm
}

fn remove_peerless_torrents_policy() -> TrackerPolicy {
    TrackerPolicy { remove_peerless_torrents: true, ..Default::default() }
}

fn do_not_remove_peerless_torrents_policy() -> TrackerPolicy {
    TrackerPolicy { remove_peerless_torrents: false, ..Default::default() }
}

#[test]
fn swarm_it_should_be_empty_when_no_peers_have_been_inserted() {
    let swarm = EntrySwarm::default();
    assert!(swarm.is_empty());

    let swarm = new_swarm();
    assert!(swarm.is_empty());
}

#[test]
fn swarm_it_should_have_zero_length_when_no_peers_have_been_inserted() {
    let swarm = EntrySwarm::default();
    assert_eq!(swarm.len(), 0);

    let swarm = new_swarm();
    assert_eq!(swarm.len(), 0);
}

#[test]
fn swarm_it_should_allow_inserting_a_new_peer() {
    let mut swarm = EntrySwarm::default();
    let peer = default_peer();
    assert_eq!(swarm.handle_announce(peer), None);

    let mut swarm = new_swarm();
    assert_eq!(upsert(&mut swarm, peer), None);
}

#[test]
fn swarm_it_should_allow_updating_a_preexisting_peer() {
    let peer = default_peer();

    let mut swarm = EntrySwarm::default();
    swarm.handle_announce(peer);
    assert_eq!(swarm.handle_announce(peer), Some(peer));

    let mut swarm = new_swarm();
    upsert(&mut swarm, peer);
    assert_eq!(upsert(&mut swarm, peer), Some(peer));
}

#[test]
fn swarm_it_should_allow_getting_all_peers() {
    let peer = default_peer();

    let mut swarm = EntrySwarm::default();
    swarm.handle_announce(peer);
    assert_eq!(swarm.peers(None), vec![peer]);

    let mut swarm = new_swarm();
    upsert(&mut swarm, peer);
    assert_eq!(swarm.peers(None), vec![peer]);
}

#[test]
fn swarm_it_should_allow_getting_one_peer_by_id() {
    let peer = default_peer();

    let mut swarm = EntrySwarm::default();
    swarm.handle_announce(peer);
    assert_eq!(swarm.get(&peer.peer_addr), Some(&peer));

    let mut swarm = new_swarm();
    upsert(&mut swarm, peer);
    assert_eq!(swarm.get(&peer.peer_addr), Some(&peer));
}

#[test]
fn swarm_it_should_increase_the_number_of_peers_after_inserting_a_new_one() {
    let mut swarm = EntrySwarm::default();
    swarm.handle_announce(default_peer());
    assert_eq!(swarm.len(), 1);

    let mut swarm = new_swarm();
    upsert(&mut swarm, default_peer());
    assert_eq!(swarm.len(), 1);
}

#[test]
fn swarm_it_should_decrease_the_number_of_peers_after_removing_one() {
    let peer = default_peer();

    let mut swarm = EntrySwarm::default();
    swarm.handle_announce(peer);
    swarm.remove(&peer);
    assert!(swarm.is_empty());

    let mut swarm = new_swarm();
    upsert(&mut swarm, peer);
    swarm.remove(&peer);
    assert!(swarm.is_empty());
}

#[test]
fn swarm_it_should_allow_removing_an_existing_peer() {
    let peer = default_peer();

    let mut swarm = EntrySwarm::default();
    swarm.handle_announce(peer);
    let old = swarm.remove(&peer);
    assert_eq!(old, Some(peer));
    assert_eq!(swarm.get(&peer.peer_addr), None);

    let mut swarm = new_swarm();
    upsert(&mut swarm, peer);
    let old = swarm.remove(&peer);
    assert_eq!(old, Some(peer));
    assert_eq!(swarm.get(&peer.peer_addr), None);
}

#[test]
fn swarm_it_should_allow_removing_a_non_existing_peer() {
    let peer = default_peer();

    let mut swarm = EntrySwarm::default();
    assert_eq!(swarm.remove(&peer), None);

    let mut swarm = new_swarm();
    assert_eq!(swarm.remove(&peer), None);
}

#[test]
fn swarm_it_should_allow_getting_all_peers_excluding_peers_with_a_given_address() {
    let peer1 = Peer {
        peer_id: peer_id(b"-qB00000000000000001"),
        peer_addr: PeerAddress::v4(127, 0, 0, 1, 6969),
        ..default_peer()
    };
    let peer2 = Peer {
        peer_id: peer_id(b"-qB00000000000000002"),
        peer_addr: PeerAddress::v4(127, 0, 0, 2, 6969),
        ..default_peer()
    };

    let mut swarm = EntrySwarm::default();
    swarm.handle_announce(peer1);
    swarm.handle_announce(peer2);
    assert_eq!(swarm.peers_excluding(&peer2.peer_addr, None), vec![peer1]);

    let mut swarm = new_swarm();
    upsert(&mut swarm, peer1);
    upsert(&mut swarm, peer2);
    assert_eq!(swarm.peers_excluding(&peer2.peer_addr, None), vec![peer1]);
}

#[test]
fn swarm_it_should_remove_inactive_peers() {
    let last_update_time = DurationSinceUnixEpoch::new(1_669_397_478_934, 0);
    let peer = Peer { updated: last_update_time, ..default_peer() };

    let mut swarm = EntrySwarm::default();
    swarm.handle_announce(peer);
    // Remove peers not updated since one second after inserting the peer
    swarm.remove_inactive(one_second_after(last_update_time));
    assert_eq!(swarm.len(), 0);

    let mut swarm = new_swarm();
    upsert(&mut swarm, peer);
    swarm.remove_inactive(one_second_after(last_update_time));
    assert_eq!(swarm.len(), 0);
}

#[test]
fn swarm_it_should_not_remove_active_peers() {
    let last_update_time = DurationSinceUnixEpoch::new(1_669_397_478_934, 0);
    let peer = Peer { updated: last_update_time, ..default_peer() };

    let mut swarm = EntrySwarm::default();
    swarm.handle_announce(peer);
    // Remove peers not updated since one second before inserting the peer.
    swarm.remove_inactive(one_second_before(last_update_time));
    assert_eq!(swarm.len(), 1);

    let mut swarm = new_swarm();
    upsert(&mut swarm, peer);
    swarm.remove_inactive(one_second_before(last_update_time));
    assert_eq!(swarm.len(), 1);
}

#[test]
fn swarm_it_should_allow_inserting_two_identical_peers_except_for_the_socket_address() {
    let peer1 = Peer { peer_addr: PeerAddress::v4(127, 0, 0, 1, 6969), ..default_peer() };
    let peer2 = Peer { peer_addr: PeerAddress::v4(127, 0, 0, 2, 6969), ..default_peer() };

    let mut swarm = EntrySwarm::default();
    swarm.handle_announce(peer1);
    swarm.handle_announce(peer2);
    assert_eq!(swarm.len(), 2);

    let mut swarm = new_swarm();
    upsert(&mut swarm, peer1);
    upsert(&mut swarm, peer2);
    assert_eq!(swarm.len(), 2);
}

#[test]
fn swarm_it_should_not_allow_inserting_two_peers_with_different_peer_id_but_the_same_socket_address() {
    // When that happens the peer ID will be changed in the swarm.
    // In practice, it's like if the peer had changed its ID.
    let peer1 = Peer {
        peer_id: peer_id(b"-qB00000000000000001"),
        peer_addr: PeerAddress::v4(127, 0, 0, 1, 6969),
        ..default_peer()
    };
    let peer2 = Peer {
        peer_id: peer_id(b"-qB00000000000000002"),
        peer_addr: PeerAddress::v4(127, 0, 0, 1, 6969),
        ..default_peer()
    };

    let mut swarm = EntrySwarm::default();
    swarm.handle_announce(peer1);
    swarm.handle_announce(peer2);
    assert_eq!(swarm.len(), 1);

    let mut swarm = new_swarm();
    upsert(&mut swarm, peer1);
    upsert(&mut swarm, peer2);
    assert_eq!(swarm.len(), 1);
}

#[test]
fn it_should_return_the_metadata() {
    let mut swarm = EntrySwarm::default();

    swarm.handle_announce(seeder());
    swarm.handle_announce(leecher());

    assert_eq!(swarm.metadata(), SwarmMetadata { downloaded: 0, complete: 1, incomplete: 1 });
}

#[test]
fn swarm_it_should_return_the_swarm_metadata() {
    let mut swarm = new_swarm();

    upsert(&mut swarm, seeder());
    upsert(&mut swarm, leecher());

    assert_eq!(swarm.metadata(), SwarmMetadata { downloaded: 0, complete: 1, incomplete: 1 });
}

#[test]
fn swarm_it_should_return_the_number_of_seeders_in_the_list() {
    let mut swarm = EntrySwarm::default();
    swarm.handle_announce(seeder());
    swarm.handle_announce(leecher());
    let (seeders, _leechers) = swarm.seeders_and_leechers();
    assert_eq!(seeders, 1);

    let mut swarm = new_swarm();
    upsert(&mut swarm, seeder());
    upsert(&mut swarm, leecher());
    let (seeders, _leechers) = swarm.seeders_and_leechers();
    assert_eq!(seeders, 1);
}

#[test]
fn swarm_it_should_return_the_number_of_leechers_in_the_list() {
    let mut swarm = EntrySwarm::default();
    swarm.handle_announce(seeder());
    swarm.handle_announce(leecher());
    let (_seeders, leechers) = swarm.seeders_and_leechers();
    assert_eq!(leechers, 1);

    let mut swarm = new_swarm();
    upsert(&mut swarm, seeder());
    upsert(&mut swarm, leecher());
    let (_seeders, leechers) = swarm.seeders_and_leechers();
    assert_eq!(leechers, 1);
}

#[test]
fn swarm_it_should_be_a_peerless_swarm_when_it_does_not_contain_any_peers() {
    let swarm = new_swarm();
    assert!(swarm.is_peerless());
}

#[test]
fn swarm_it_should_increase_the_number_of_leechers_if_the_new_peer_is_a_leecher_() {
    let mut swarm = EntrySwarm::default();
    let leechers = swarm.metadata().leechers();
    swarm.handle_announce(leecher());
    assert_eq!(swarm.metadata().leechers(), leechers + 1);

    let mut swarm = new_swarm();
    let leechers = swarm.metadata().leechers();
    upsert(&mut swarm, leecher());
    assert_eq!(swarm.metadata().leechers(), leechers + 1);
}

#[test]
fn swarm_it_should_increase_the_number_of_seeders_if_the_new_peer_is_a_seeder() {
    let mut swarm = EntrySwarm::default();
    let seeders = swarm.metadata().seeders();
    swarm.handle_announce(seeder());
    assert_eq!(swarm.metadata().seeders(), seeders + 1);

    let mut swarm = new_swarm();
    let seeders = swarm.metadata().seeders();
    upsert(&mut swarm, seeder());
    assert_eq!(swarm.metadata().seeders(), seeders + 1);
}

#[test]
fn swarm_it_should_not_increasing_the_number_of_downloads_if_the_new_peer_has_completed_downloading_as_it_was_not_previously_known(
) {
    let mut swarm = EntrySwarm::default();
    let downloads = swarm.metadata().downloads();
    swarm.handle_announce(seeder());
    assert_eq!(swarm.metadata().downloads(), downloads);

    let mut swarm = new_swarm();
    let downloads = swarm.metadata().downloads();
    upsert(&mut swarm, seeder());
    assert_eq!(swarm.metadata().downloads(), downloads);
}

#[test]
fn swarm_it_should_decrease_the_number_of_leechers_if_the_removed_peer_was_a_leecher() {
    let leecher = leecher();

    let mut swarm = EntrySwarm::default();
    swarm.handle_announce(leecher);
    let leechers = swarm.metadata().leechers();
    swarm.remove(&leecher);
    assert_eq!(swarm.metadata().leechers(), leechers - 1);

    let mut swarm = new_swarm();
    upsert(&mut swarm, leecher);
    let leechers = swarm.metadata().leechers();
    swarm.remove(&leecher);
    assert_eq!(swarm.metadata().leechers(), leechers - 1);
}

#[test]
fn swarm_it_should_decrease_the_number_of_seeders_if_the_removed_peer_was_a_seeder() {
    let seeder = seeder();

    let mut swarm = EntrySwarm::default();
    swarm.handle_announce(seeder);
    let seeders = swarm.metadata().seeders();
    swarm.remove(&seeder);
    assert_eq!(swarm.metadata().seeders(), seeders - 1);

    let mut swarm = new_swarm();
    upsert(&mut swarm, seeder);
    let seeders = swarm.metadata().seeders();
    swarm.remove(&seeder);
    assert_eq!(swarm.metadata().seeders(), seeders - 1);
}

#[test]
fn swarm_it_should_decrease_the_number_of_leechers_when_a_removed_peer_is_a_leecher() {
    let leecher = leecher();

    let mut swarm = EntrySwarm::default();
    swarm.handle_announce(leecher);
    let leechers = swarm.metadata().leechers();
    swarm.remove_inactive(one_second_after(leecher.updated));
    assert_eq!(swarm.metadata().leechers(), leechers - 1);

    let mut swarm = new_swarm();
    upsert(&mut swarm, leecher);
    let leechers = swarm.metadata().leechers();
    swarm.remove_inactive(one_second_after(leecher.updated));
    assert_eq!(swarm.metadata().leechers(), leechers - 1);
}

#[test]
fn swarm_it_should_decrease_the_number_of_seeders_when_the_removed_peer_is_a_seeder() {
    let seeder = seeder();

    let mut swarm = EntrySwarm::default();
    swarm.handle_announce(seeder);
    let seeders = swarm.metadata().seeders();
    swarm.remove_inactive(one_second_after(seeder.updated));
    assert_eq!(swarm.metadata().seeders(), seeders - 1);

    let mut swarm = new_swarm();
    upsert(&mut swarm, seeder);
    let seeders = swarm.metadata().seeders();
    swarm.remove_inactive(one_second_after(seeder.updated));
    assert_eq!(swarm.metadata().seeders(), seeders - 1);
}

#[test]
fn swarm_it_should_increase_seeders_and_decreasing_leechers_when_the_peer_changes_from_leecher_to_seeder_() {
    let mut swarm = EntrySwarm::default();
    let mut peer = leecher();
    swarm.handle_announce(peer);
    let leechers = swarm.metadata().leechers();
    let seeders = swarm.metadata().seeders();
    peer.left = NumberOfBytes::new(0); // Convert to seeder
    swarm.handle_announce(peer);
    assert_eq!(swarm.metadata().seeders(), seeders + 1);
    assert_eq!(swarm.metadata().leechers(), leechers - 1);

    let mut swarm = new_swarm();
    let mut peer = leecher();
    upsert(&mut swarm, peer);
    let leechers = swarm.metadata().leechers();
    let seeders = swarm.metadata().seeders();
    peer.left = NumberOfBytes::new(0); // Convert to seeder
    upsert(&mut swarm, peer);
    assert_eq!(swarm.metadata().seeders(), seeders + 1);
    assert_eq!(swarm.metadata().leechers(), leechers - 1);
}

#[test]
fn swarm_it_should_increase_leechers_and_decreasing_seeders_when_the_peer_changes_from_seeder_to_leecher() {
    let mut swarm = EntrySwarm::default();
    let mut peer = seeder();
    swarm.handle_announce(peer);
    let leechers = swarm.metadata().leechers();
    let seeders = swarm.metadata().seeders();
    peer.left = NumberOfBytes::new(10); // Convert to leecher
    swarm.handle_announce(peer);
    assert_eq!(swarm.metadata().leechers(), leechers + 1);
    assert_eq!(swarm.metadata().seeders(), seeders - 1);

    let mut swarm = new_swarm();
    let mut peer = seeder();
    upsert(&mut swarm, peer);
    let leechers = swarm.metadata().leechers();
    let seeders = swarm.metadata().seeders();
    peer.left = NumberOfBytes::new(10); // Convert to leecher
    upsert(&mut swarm, peer);
    assert_eq!(swarm.metadata().leechers(), leechers + 1);
    assert_eq!(swarm.metadata().seeders(), seeders - 1);
}

#[test]
fn swarm_it_should_increase_the_number_of_downloads_when_the_peer_announces_completed_downloading() {
    let mut swarm = EntrySwarm::default();
    let mut peer = leecher();
    swarm.handle_announce(peer);
    let downloads = swarm.metadata().downloads();
    peer.event = AnnounceEvent::Completed;
    swarm.handle_announce(peer);
    assert_eq!(swarm.metadata().downloads(), downloads + 1);

    let mut swarm = new_swarm();
    let mut peer = leecher();
    upsert(&mut swarm, peer);
    let downloads = swarm.metadata().downloads();
    peer.event = AnnounceEvent::Completed;
    upsert(&mut swarm, peer);
    assert_eq!(swarm.metadata().downloads(), downloads + 1);
}

#[test]
fn swarm_it_should_not_increasing_the_number_of_downloads_when_the_peer_announces_completed_downloading_twice_() {
    let mut swarm = EntrySwarm::default();
    let mut peer = leecher();
    swarm.handle_announce(peer);
    let downloads = swarm.metadata().downloads();
    peer.event = AnnounceEvent::Completed;
    swarm.handle_announce(peer);
    swarm.handle_announce(peer);
    assert_eq!(swarm.metadata().downloads(), downloads + 1);

    let mut swarm = new_swarm();
    let mut peer = leecher();
    upsert(&mut swarm, peer);
    let downloads = swarm.metadata().downloads();
    peer.event = AnnounceEvent::Completed;
    upsert(&mut swarm, peer);
    upsert(&mut swarm, peer);
    assert_eq!(swarm.metadata().downloads(), downloads + 1);
}

#[test]
fn swarm_it_should_be_removed_if_the_swarm_is_empty() {
    assert!(empty_swarm().should_be_removed(&remove_peerless_torrents_policy()));
}

#[test]
fn swarm_it_should_not_be_removed_is_the_swarm_is_not_empty() {
    assert!(!not_empty_swarm().should_be_removed(&remove_peerless_torrents_policy()));
    assert!(!not_empty_swarm().should_be_removed(&do_not_remove_peerless_torrents_policy()));
}

#[test]
fn swarm_it_should_not_be_removed_even_if_the_swarm_is_empty_if_we_need_to_track_stats_for_downloads_and_there_has_been_downloads(
) {
    let policy = TrackerPolicy {
        remove_peerless_torrents: true,
        persistent_torrent_completed_stat: true,
        ..Default::default()
    };

    assert!(!not_empty_swarm_with_downloads().should_be_removed(&policy));
}

#[test]
fn swarm_an_empty_swarm_with_downloads_is_kept_when_download_counts_persist() {
    let policy = TrackerPolicy {
        remove_peerless_torrents: true,
        persistent_torrent_completed_stat: true,
        ..Default::default()
    };

    let mut swarm = not_empty_swarm_with_downloads();
    swarm.remove(&leecher());
    assert!(swarm.is_empty());

    assert!(!swarm.should_be_removed(&policy));
    assert!(swarm.should_be_removed(&remove_peerless_torrents_policy()));
}

#[test]
fn swarm_it_should_not_be_removed_even_if_the_swarm_is_empty() {
    assert!(!empty_swarm().should_be_removed(&do_not_remove_peerless_torrents_policy()));
}

#[test]
fn swarm_it_should_trigger_an_event_when_a_new_peer_is_added() {
    let info_hash = sample_info_hash();
    let peer = leecher();
    let mut swarm = Swarm::new(&info_hash, 0, true);

    upsert(&mut swarm, peer);

    assert_eq!(swarm.take_events(), vec![Event::PeerAdded { info_hash, peer }]);
}

#[test]
fn swarm_it_should_trigger_an_event_when_a_peer_is_directly_removed() {
    let info_hash = sample_info_hash();
    let peer = leecher();
    let mut swarm = Swarm::new(&info_hash, 0, true);

    upsert(&mut swarm, peer);
    swarm.remove(&peer);

    assert_eq!(
        swarm.take_events(),
        vec![Event::PeerAdded { info_hash, peer }, Event::PeerRemoved { info_hash, peer }]
    );
}

#[test]
fn swarm_it_should_trigger_an_event_when_a_peer_is_removed_due_to_inactivity() {
    let info_hash = sample_info_hash();
    let peer = leecher();
    let mut swarm = Swarm::new(&info_hash, 0, true);

    upsert(&mut swarm, peer);
    swarm.remove_inactive(one_second_after(peer.updated));

    assert_eq!(
        swarm.take_events(),
        vec![Event::PeerAdded { info_hash, peer }, Event::PeerRemoved { info_hash, peer }]
    );
}

#[test]
fn swarm_it_should_trigger_an_event_when_a_peer_is_updated() {
    let info_hash = sample_info_hash();
    let peer = leecher();
    let mut swarm = Swarm::new(&info_hash, 0, true);

    upsert(&mut swarm, peer);
    upsert(&mut swarm, peer);

    assert_eq!(
        swarm.take_events(),
        vec![
            Event::PeerAdded { info_hash, peer },
            Event::PeerUpdated { info_hash, old_peer: peer, new_peer: peer },
        ]
    );
}

#[test]
fn swarm_it_should_trigger_an_event_when_a_peer_completes_a_download() {
    let info_hash = sample_info_hash();
    let started_peer = leecher();
    let completed_peer = started_peer.into_completed();
    let mut swarm = Swarm::new(&info_hash, 0, true);

    let mut downloads_increased = false;
    swarm.upsert_peer(started_peer, &mut downloads_increased);
    assert!(!downloads_increased);
    swarm.upsert_peer(completed_peer, &mut downloads_increased);
    assert!(downloads_increased);

    assert_eq!(
        swarm.take_events(),
        vec![
            Event::PeerAdded { info_hash, peer: started_peer },
            Event::PeerUpdated { info_hash, old_peer: started_peer, new_peer: completed_peer },
            Event::PeerDownloadCompleted { info_hash, peer: completed_peer },
        ]
    );
}

#[test]
fn swarm_handle_announcement_reports_a_new_download() {
    let mut swarm = new_swarm();
    let peer = leecher();

    assert!(!swarm.handle_announcement(&peer));
    assert!(swarm.handle_announcement(&peer.into_completed()));
    assert!(!swarm.handle_announcement(&peer.into_completed()));
    assert!(!swarm.handle_announcement(&Peer { event: AnnounceEvent::Stopped, ..peer }));
    assert!(swarm.is_empty());
    assert_eq!(swarm.metadata().downloads(), 1);
}

#[test]
fn swarm_meets_the_retaining_policy_when_it_is_not_removed() {
    let empty = empty_swarm();
    assert!(!empty.meets_retaining_policy(&remove_peerless_torrents_policy()));
    assert!(empty.meets_retaining_policy(&do_not_remove_peerless_torrents_policy()));
    assert!(not_empty_swarm().meets_retaining_policy(&remove_peerless_torrents_policy()));
}

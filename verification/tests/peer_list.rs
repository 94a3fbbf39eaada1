use torrent_repository::entry::peer_list::PeerList;
use torrent_repository::primitives::{
    AnnounceEvent, DurationSinceUnixEpoch, NumberOfBytes, Peer, PeerAddress, PeerId,
};

fn peer_id(bytes: &[u8; 20]) -> PeerId {
    PeerId::from_bytes(bytes)
}

fn default_peer() -> Peer {
    Peer {
        peer_id: peer_id(b"-qB00000000000000000"),
        peer_addr: PeerAddress::v4(126, 0, 0, 1, 8080),
        updated: DurationSinceUnixEpoch::new(1_669_397_478_934, 0),
        uploaded: NumberOfBytes::new(0),
        downloaded: NumberOfBytes::new(0),
        left: NumberOfBytes::new(0),
        event: AnnounceEvent::Started,
    }
}

fn seeder() -> Peer {
    Peer {
        peer_id: peer_id(b"-qB00000000000000001"),
        peer_addr: PeerAddress::v4(126, 0, 0, 1, 8081),
        left: NumberOfBytes::new(0),
        event: AnnounceEvent::Completed,
        ..default_peer()
    }
}

fn leecher() -> Peer {
    Peer {
        peer_id: peer_id(b"-qB00000000000000002"),
        peer_addr: PeerAddress::v4(126, 0, 0, 2, 8082),
        left: NumberOfBytes::new(10),
        event: AnnounceEvent::Started,
        ..default_peer()
    }
}

#[test]
fn be_empty_when_no_peers_have_been_inserted() {
    let peer_list = PeerList::default();

    assert!(peer_list.is_empty());
}

#[test]
fn have_zero_length_when_no_peers_have_been_inserted() {
    let peer_list = PeerList::default();

    assert_eq!(peer_list.len(), 0);
}

#[test]
fn allow_inserting_a_new_peer() {
    let mut peer_list = PeerList::default();

    let peer = default_peer();

    assert_eq!(peer_list.upsert(peer), None);
}

#[test]
fn allow_updating_a_preexisting_peer() {
    let mut peer_list = PeerList::default();

    let peer = default_peer();

    peer_list.upsert(peer);

    assert_eq!(peer_list.upsert(peer), Some(peer));
}

#[test]
fn allow_getting_all_peers() {
    let mut peer_list = PeerList::default();

    let peer = default_peer();

    peer_list.upsert(peer);

    assert_eq!(peer_list.get_all(None), vec![peer]);
}

#[test]
fn allow_getting_one_peer_by_id() {
    let mut peer_list = PeerList::default();

    let peer = default_peer();

    peer_list.upsert(peer);

    assert_eq!(peer_list.get(&peer.peer_id), Some(&peer));
}

#[test]
fn increase_the_number_of_peers_after_inserting_a_new_one() {
    let mut peer_list = PeerList::default();

    let peer = default_peer();

    peer_list.upsert(peer);

    assert_eq!(peer_list.len(), 1);
}

#[test]
fn decrease_the_number_of_peers_after_removing_one() {
    let mut peer_list = PeerList::default();

    let peer = default_peer();

    peer_list.upsert(peer);

    peer_list.remove(&peer.peer_id);

    assert!(peer_list.is_empty());
}

#[test]
fn allow_removing_an_existing_peer() {
    let mut peer_list = PeerList::default();

    let peer = default_peer();

    peer_list.upsert(peer);

    peer_list.remove(&peer.peer_id);

    assert_eq!(peer_list.get(&peer.peer_id), None);
}

#[test]
fn allow_getting_all_peers_excluding_peers_with_a_given_address() {
    let mut peer_list = PeerList::default();

    let peer1 = Peer {
        peer_id: peer_id(b"-qB00000000000000001"),
        peer_addr: PeerAddress::v4(127, 0, 0, 1, 6969),
        ..default_peer()
    };
    peer_list.upsert(peer1);

    let peer2 = Peer {
        peer_id: peer_id(b"-qB00000000000000002"),
        peer_addr: PeerAddress::v4(127, 0, 0, 2, 6969),
        ..default_peer()
    };
    peer_list.upsert(peer2);

    assert_eq!(peer_list.get_peers_excluding_addr(&peer2.peer_addr, None), vec![peer1]);
}

#[test]
fn return_the_number_of_seeders_in_the_list() {
    let mut peer_list = PeerList::default();

    peer_list.upsert(seeder());
    peer_list.upsert(leecher());

    let (seeders, _leechers) = peer_list.seeders_and_leechers();

    assert_eq!(seeders, 1);
}

#[test]
fn return_the_number_of_leechers_in_the_list() {
    let mut peer_list = PeerList::default();

    peer_list.upsert(seeder());
    peer_list.upsert(leecher());

    let (_seeders, leechers) = peer_list.seeders_and_leechers();

    assert_eq!(leechers, 1);
}

#[test]
fn remove_inactive_peers() {
    let mut peer_list = PeerList::default();
    let one_second = DurationSinceUnixEpoch::new(1, 0);

    // Insert the peer
    let last_update_time = DurationSinceUnixEpoch::new(1_669_397_478_934, 0);
    let peer = Peer { updated: last_update_time, ..default_peer() };
    peer_list.upsert(peer);

    // Remove peers not updated since one second after inserting the peer
    peer_list.remove_inactive_peers(last_update_time.checked_add(&one_second).unwrap());

    assert_eq!(peer_list.len(), 0);
}

#[test]
fn not_remove_active_peers() {
    let mut peer_list = PeerList::default();
    let one_second = DurationSinceUnixEpoch::new(1, 0);

    // Insert the peer
    let last_update_time = DurationSinceUnixEpoch::new(1_669_397_478_934, 0);
    let peer = Peer { updated: last_update_time, ..default_peer() };
    peer_list.upsert(peer);

    // Remove peers not updated since one second before inserting the peer.
    peer_list.remove_inactive_peers(last_update_time.checked_sub(&one_second).unwrap());

    assert_eq!(peer_list.len(), 1);
}

#[test]
fn allow_inserting_two_identical_peers_except_for_the_id() {
    let mut peer_list = PeerList::default();

    let peer1 = Peer { peer_id: peer_id(b"-qB00000000000000001"), ..default_peer() };
    peer_list.upsert(peer1);

    let peer2 = Peer { peer_id: peer_id(b"-qB00000000000000002"), ..default_peer() };
    peer_list.upsert(peer2);

    assert_eq!(peer_list.len(), 2);
}

#[test]
fn peer_list_lists_peers_in_id_order_up_to_the_limit() {
    let mut peer_list = PeerList::default();
    let p3 = Peer { peer_id: peer_id(b"-qB00000000000000003"), ..default_peer() };
    let p1 = Peer { peer_id: peer_id(b"-qB00000000000000001"), ..default_peer() };
    let p2 = Peer { peer_id: peer_id(b"-qB00000000000000002"), ..default_peer() };
    peer_list.upsert(p3);
    peer_list.upsert(p1);
    peer_list.upsert(p2);

    assert_eq!(peer_list.get_all(None), vec![p1, p2, p3]);
    assert_eq!(peer_list.get_all(Some(2)), vec![p1, p2]);
    assert_eq!(peer_list.get_all(Some(0)), Vec::<Peer>::new());
}

#[test]
fn peer_list_excludes_every_peer_at_the_client_address() {
    let mut peer_list = PeerList::default();
    // Two ids announcing from the same address are both listed.
    let p1 = Peer { peer_id: peer_id(b"-qB00000000000000001"), ..default_peer() };
    let p2 = Peer { peer_id: peer_id(b"-qB00000000000000002"), ..default_peer() };
    let p3 = Peer {
        peer_id: peer_id(b"-qB00000000000000003"),
        peer_addr: PeerAddress::v4(10, 0, 0, 3, 6881),
        ..default_peer()
    };
    peer_list.upsert(p1);
    peer_list.upsert(p2);
    peer_list.upsert(p3);

    assert_eq!(peer_list.get_peers_excluding_addr(&default_peer().peer_addr, None), vec![p3]);
    assert_eq!(peer_list.get_peers_excluding_addr(&p3.peer_addr, Some(1)), vec![p1]);
}

#[test]
fn peer_list_keeps_a_peer_that_announced_exactly_after_the_cutoff() {
    let mut peer_list = PeerList::default();
    let at = DurationSinceUnixEpoch::new(100, 5);
    let peer = Peer { updated: at, ..default_peer() };
    peer_list.upsert(peer);

    // A peer that announced exactly at the cutoff is inactive.
    peer_list.remove_inactive_peers(DurationSinceUnixEpoch::new(100, 4));
    assert_eq!(peer_list.len(), 1);
    peer_list.remove_inactive_peers(at);
    assert_eq!(peer_list.len(), 0);
}

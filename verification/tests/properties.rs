use torrent_repository::coordinator::Coordinator;
use torrent_repository::event::Event;
use torrent_repository::primitives::{
    AnnounceEvent, DurationSinceUnixEpoch, InfoHash, NumberOfBytes, Pagination, Peer, PeerAddress, PeerId,
    PeerRole,
};
use torrent_repository::registry::Registry;
use torrent_repository::repository::TorrentRepository;
use torrent_repository::statistics::describe_metrics;
use torrent_repository::statistics::handler::handle_event;
use torrent_repository::statistics::metrics::{LabelSet, MetricName};

fn info_hash(n: u8) -> InfoHash {
    InfoHash::from_bytes(&[n; 20])
}

fn peer(n: u8, left: i64, event: AnnounceEvent, secs: u64) -> Peer {
    let mut id = *b"-qB00000000000000000";
    id[19] = b'0' + n % 10;
    id[18] = b'0' + n / 10;
    Peer {
        peer_id: PeerId::from_bytes(&id),
        peer_addr: PeerAddress::v4(10, 0, 0, n, 6881),
        updated: DurationSinceUnixEpoch::new(secs, 0),
        uploaded: NumberOfBytes::new(0),
        downloaded: NumberOfBytes::new(0),
        left: NumberOfBytes::new(left),
        event,
    }
}

#[test]
fn properties_seeders_and_leechers_are_all_the_peers() {
    let mut swarm = Coordinator::new(&info_hash(1), 0, false);
    swarm.handle_announcement(&peer(1, 0, AnnounceEvent::Completed, 10));
    swarm.handle_announcement(&peer(2, 5, AnnounceEvent::Started, 10));
    swarm.handle_announcement(&peer(3, 5, AnnounceEvent::Started, 10));
    swarm.handle_announcement(&peer(3, 0, AnnounceEvent::Completed, 11));
    swarm.handle_announcement(&peer(2, 5, AnnounceEvent::Stopped, 12));

    let metadata = swarm.metadata();
    assert_eq!(metadata.complete as usize + metadata.incomplete as usize, swarm.len());
    assert_eq!(metadata.complete, 2);
    assert_eq!(metadata.downloaded, 1);
}

#[test]
fn properties_downloads_never_decrease() {
    let mut swarm = Coordinator::new(&info_hash(1), 0, false);
    let announcements = [
        peer(1, 5, AnnounceEvent::Started, 1),
        peer(1, 0, AnnounceEvent::Completed, 2),
        peer(1, 0, AnnounceEvent::Empty, 3),
        peer(1, 0, AnnounceEvent::Completed, 4),
        peer(1, 0, AnnounceEvent::Stopped, 5),
        peer(1, 0, AnnounceEvent::Completed, 6),
    ];
    let mut previous = swarm.metadata().downloaded;
    for announcement in &announcements {
        swarm.handle_announcement(announcement);
        let now = swarm.metadata().downloaded;
        assert!(now >= previous && now <= previous + 1);
        previous = now;
    }
    // Completion after a regular announcement counts again; a peer that
    // comes back after stopping is new and adds nothing.
    assert_eq!(previous, 2);
}

#[test]
fn properties_registry_activity_and_peer_totals_agree() {
    let mut swarms = Registry::default();
    swarms.handle_announcement(&info_hash(1), &peer(1, 0, AnnounceEvent::Completed, 100), None).unwrap();
    swarms.handle_announcement(&info_hash(1), &peer(2, 9, AnnounceEvent::Started, 300), None).unwrap();
    swarms.handle_announcement(&info_hash(2), &peer(3, 9, AnnounceEvent::Started, 50), None).unwrap();

    let cutoff = DurationSinceUnixEpoch::new(200, 0);
    let activity = swarms.get_activity_metadata(cutoff);
    let peers = swarms.count_peers().unwrap();
    assert_eq!(activity.active_peers_total + activity.inactive_peers_total, peers);
    assert_eq!(activity.active_torrents_total + activity.inactive_torrents_total, swarms.len());

    let aggregate = swarms.get_aggregate_swarm_metadata().unwrap();
    assert_eq!((aggregate.total_complete + aggregate.total_incomplete) as usize, peers);

    // Removing the inactive peers removes exactly those counted, and a
    // second removal changes nothing.
    assert_eq!(swarms.remove_inactive_peers(cutoff).unwrap(), activity.inactive_peers_total);
    assert_eq!(swarms.remove_inactive_peers(cutoff).unwrap(), 0);
    assert_eq!(swarms.count_peers().unwrap(), activity.active_peers_total);
}

#[test]
fn properties_handed_out_peers_exclude_the_client() {
    let mut swarms = Registry::default();
    for n in 1..=6 {
        swarms.handle_announcement(&info_hash(1), &peer(n, 1, AnnounceEvent::Started, 10), None).unwrap();
    }
    let client = peer(3, 1, AnnounceEvent::Started, 10);
    for limit in 0..8 {
        let peers = swarms.get_peers_peers_excluding(&info_hash(1), &client, limit).unwrap();
        assert!(peers.len() <= limit);
        assert!(peers.iter().all(|p| p.peer_addr != client.peer_addr));
    }
    // An announced peer is handed out.
    assert!(swarms.get_swarm_peers(&info_hash(1), 100).unwrap().contains(&client));
}

#[test]
fn properties_consecutive_pages_make_the_spanning_page() {
    let mut swarms = Registry::default();
    for n in 1..=5 {
        swarms.handle_announcement(&info_hash(n), &peer(n, 1, AnnounceEvent::Started, 10), None).unwrap();
    }
    let keys = |pagination: Option<&Pagination>| -> Vec<InfoHash> {
        swarms.get_paginated(pagination).iter().map(|(info_hash, _)| *info_hash).collect()
    };
    let first = keys(Some(&Pagination::new(1, 2)));
    let second = keys(Some(&Pagination::new(3, 3)));
    let both = keys(Some(&Pagination::new(1, 5)));
    assert_eq!([first, second].concat(), both);
    assert_eq!(keys(None).len(), 5);
}

#[test]
fn properties_event_pairs_restore_the_gauges() {
    let mut metrics = describe_metrics();
    let now = DurationSinceUnixEpoch::new(0, 0);
    let p = peer(1, 0, AnnounceEvent::Completed, 10);

    handle_event(&Event::TorrentAdded { info_hash: info_hash(1), announcement: p }, &mut metrics, now);
    handle_event(&Event::TorrentRemoved { info_hash: info_hash(1) }, &mut metrics, now);
    assert_eq!(metrics.gauge(MetricName::TorrentsTotal, LabelSet::Empty), 0);

    handle_event(&Event::PeerAdded { info_hash: info_hash(1), peer: p }, &mut metrics, now);
    handle_event(&Event::PeerRemoved { info_hash: info_hash(1), peer: p }, &mut metrics, now);
    assert_eq!(metrics.gauge(MetricName::PeerConnectionsTotal, LabelSet::PeerRole(PeerRole::Seeder)), 0);

    // A role change keeps the total of connections.
    let as_leecher = Peer { left: NumberOfBytes::new(3), ..p };
    handle_event(&Event::PeerAdded { info_hash: info_hash(1), peer: p }, &mut metrics, now);
    handle_event(&Event::PeerUpdated { info_hash: info_hash(1), old_peer: p, new_peer: as_leecher }, &mut metrics, now);
    let seeders = metrics.gauge(MetricName::PeerConnectionsTotal, LabelSet::PeerRole(PeerRole::Seeder));
    let leechers = metrics.gauge(MetricName::PeerConnectionsTotal, LabelSet::PeerRole(PeerRole::Leecher));
    assert_eq!((seeders, leechers), (0, 1));

    // Counters only grow.
    assert_eq!(metrics.counter(MetricName::TorrentsAddedTotal, LabelSet::Empty), 1);
    assert_eq!(metrics.counter(MetricName::TorrentsRemovedTotal, LabelSet::Empty), 1);
    assert_eq!(metrics.counter(MetricName::PeersAddedTotal, LabelSet::PeerRole(PeerRole::Seeder)), 2);
}

#[test]
fn properties_importing_new_torrents_adds_their_downloads_to_the_total() {
    let mut swarms = Registry::default();
    swarms.handle_announcement(&info_hash(1), &peer(1, 10, AnnounceEvent::Started, 100), Some(4)).unwrap();
    let before = swarms.get_aggregate_swarm_metadata().unwrap().total_downloaded;

    swarms.import_persistent(&vec![(info_hash(2), 3), (info_hash(3), 5)]);

    assert_eq!(swarms.get_aggregate_swarm_metadata().unwrap().total_downloaded, before + 8);

    let mut repository = TorrentRepository::default();
    repository.upsert_peer(&info_hash(1), &peer(1, 10, AnnounceEvent::Started, 100), Some(4));
    let before = repository.get_aggregate_swarm_metadata().total_downloaded;

    repository.import_persistent(&vec![(info_hash(2), 3), (info_hash(3), 5)]);

    assert_eq!(repository.get_aggregate_swarm_metadata().total_downloaded, before + 8);
    assert!(repository.get(&info_hash(2)).is_some() && repository.get(&info_hash(3)).is_some());
}

use torrent_repository::container::{SenderStatus, SwarmCoordinationRegistryContainer, TorrentRepositoryContainer};
use torrent_repository::event::Event;
use torrent_repository::primitives::{
    AnnounceEvent, DurationSinceUnixEpoch, InfoHash, NumberOfBytes, Peer, PeerAddress, PeerId, PeerRole,
};
use torrent_repository::registry::Registry;
use torrent_repository::statistics::activity::{
    gauge_from_count, inactivity_cutoff, update_activity_metrics, update_inactive_peers_total,
    update_inactive_torrents_total, ACTIVITY_METRICS_UPDATE_INTERVAL_SECS,
};
use torrent_repository::statistics::describe_metrics;
use torrent_repository::statistics::handler::{handle_event, label_set_for_peer};
use torrent_repository::repository::statistics as repository_statistics;
use torrent_repository::statistics::listener::{handle_receive_error, handle_receive_result, handle_receive_results, RecvError};
use torrent_repository::statistics::metrics::{LabelSet, MetricKind, MetricName, MetricUnit, Metrics, MetricsError};

fn sample_info_hash() -> InfoHash {
    InfoHash::from_bytes(&[0x3b; 20])
}

fn seeder() -> Peer {
    Peer {
        peer_id: PeerId::from_bytes(b"-qB00000000000000001"),
        peer_addr: PeerAddress::v4(126, 0, 0, 1, 8080),
        updated: DurationSinceUnixEpoch::new(1_669_397_478_934, 0),
        uploaded: NumberOfBytes::new(0),
        downloaded: NumberOfBytes::new(0),
        left: NumberOfBytes::new(0),
        event: AnnounceEvent::Completed,
    }
}

fn leecher() -> Peer {
    Peer {
        peer_id: PeerId::from_bytes(b"-qB00000000000000002"),
        peer_addr: PeerAddress::v4(126, 0, 0, 2, 8080),
        left: NumberOfBytes::new(10),
        event: AnnounceEvent::Started,
        ..seeder()
    }
}

fn now() -> DurationSinceUnixEpoch {
    DurationSinceUnixEpoch::new(0, 0)
}

fn seeders() -> LabelSet {
    LabelSet::PeerRole(PeerRole::Seeder)
}

fn leechers() -> LabelSet {
    LabelSet::PeerRole(PeerRole::Leecher)
}

#[test]
fn it_should_increment_the_number_of_torrents_when_a_torrent_added_event_is_received() {
    let mut metrics = describe_metrics();

    handle_event(&Event::TorrentAdded { info_hash: sample_info_hash(), announcement: seeder() }, &mut metrics, now());

    assert_eq!(metrics.gauge(MetricName::TorrentsTotal, LabelSet::Empty), 1);
}

#[test]
fn it_should_decrement_the_number_of_torrents_when_a_torrent_removed_event_is_received() {
    let mut metrics = describe_metrics();

    // Increment the gauge first to simulate a torrent being added.
    metrics.increment_gauge(MetricName::TorrentsTotal, LabelSet::Empty, now()).unwrap();

    handle_event(&Event::TorrentRemoved { info_hash: sample_info_hash() }, &mut metrics, now());

    assert_eq!(metrics.gauge(MetricName::TorrentsTotal, LabelSet::Empty), 0);
}

#[test]
fn it_should_increment_the_number_of_torrents_added_when_a_torrent_added_event_is_received() {
    let mut metrics = describe_metrics();

    handle_event(&Event::TorrentAdded { info_hash: sample_info_hash(), announcement: seeder() }, &mut metrics, now());

    assert_eq!(metrics.counter(MetricName::TorrentsAddedTotal, LabelSet::Empty), 1);
}

#[test]
fn it_should_increment_the_number_of_torrents_removed_when_a_torrent_removed_event_is_received() {
    let mut metrics = describe_metrics();

    handle_event(&Event::TorrentRemoved { info_hash: sample_info_hash() }, &mut metrics, now());

    assert_eq!(metrics.counter(MetricName::TorrentsRemovedTotal, LabelSet::Empty), 1);
}

#[test]
fn statistics_peer_events_count_connections_by_role() {
    let mut metrics = describe_metrics();
    let info_hash = sample_info_hash();

    handle_event(&Event::PeerAdded { info_hash, peer: seeder() }, &mut metrics, now());
    handle_event(&Event::PeerAdded { info_hash, peer: leecher() }, &mut metrics, now());
    assert_eq!(metrics.gauge(MetricName::PeerConnectionsTotal, seeders()), 1);
    assert_eq!(metrics.gauge(MetricName::PeerConnectionsTotal, leechers()), 1);
    assert_eq!(metrics.counter(MetricName::PeersAddedTotal, seeders()), 1);

    handle_event(&Event::PeerRemoved { info_hash, peer: leecher() }, &mut metrics, now());
    assert_eq!(metrics.gauge(MetricName::PeerConnectionsTotal, leechers()), 0);
    assert_eq!(metrics.counter(MetricName::PeersRemovedTotal, leechers()), 1);
}

#[test]
fn statistics_a_role_change_moves_the_connection() {
    let mut metrics = describe_metrics();
    let info_hash = sample_info_hash();
    let old_peer = leecher();
    let new_peer = Peer { left: NumberOfBytes::new(0), ..old_peer };

    handle_event(&Event::PeerAdded { info_hash, peer: old_peer }, &mut metrics, now());
    handle_event(&Event::PeerUpdated { info_hash, old_peer, new_peer }, &mut metrics, now());

    assert_eq!(metrics.gauge(MetricName::PeerConnectionsTotal, leechers()), 0);
    assert_eq!(metrics.gauge(MetricName::PeerConnectionsTotal, seeders()), 1);
    assert_eq!(metrics.counter(MetricName::PeersUpdatedTotal, seeders()), 1);
    assert_eq!(metrics.counter(MetricName::PeersCompletedStateRevertedTotal, LabelSet::Empty), 0);
}

#[test]
fn statistics_a_reverted_completion_is_counted() {
    let mut metrics = describe_metrics();
    let info_hash = sample_info_hash();
    let old_peer = seeder();
    let new_peer = Peer { event: AnnounceEvent::Started, ..old_peer };

    handle_event(&Event::PeerUpdated { info_hash, old_peer, new_peer }, &mut metrics, now());

    assert_eq!(metrics.counter(MetricName::PeersCompletedStateRevertedTotal, LabelSet::Empty), 1);
    // The role does not change, so no connection moves.
    assert_eq!(metrics.gauge(MetricName::PeerConnectionsTotal, seeders()), 0);
}

#[test]
fn statistics_a_download_is_counted_by_role() {
    let mut metrics = describe_metrics();

    handle_event(&Event::PeerDownloadCompleted { info_hash: sample_info_hash(), peer: seeder() }, &mut metrics, now());

    assert_eq!(metrics.counter(MetricName::TorrentsDownloadsTotal, seeders()), 1);
    assert_eq!(label_set_for_peer(&seeder()), seeders());
    assert_eq!(label_set_for_peer(&leecher()), leechers());
}

#[test]
fn statistics_metrics_of_the_wrong_kind_are_refused() {
    let mut metrics = Metrics::default();

    assert_eq!(
        metrics.increment_counter(MetricName::TorrentsTotal, LabelSet::Empty, now()),
        Err(MetricsError::KindMismatch)
    );
    assert_eq!(
        metrics.increment_gauge(MetricName::TorrentsAddedTotal, LabelSet::Empty, now()),
        Err(MetricsError::KindMismatch)
    );
    assert_eq!(
        metrics.set_gauge(MetricName::PeersAddedTotal, LabelSet::Empty, 3, now()),
        Err(MetricsError::KindMismatch)
    );
    metrics.set_gauge(MetricName::PeersInactiveTotal, LabelSet::Empty, i64::MIN, now()).unwrap();
    assert_eq!(
        metrics.decrement_gauge(MetricName::PeersInactiveTotal, LabelSet::Empty, now()),
        Err(MetricsError::OutOfRange)
    );
    assert_eq!(metrics.gauge(MetricName::PeersInactiveTotal, LabelSet::Empty), i64::MIN);
}

#[test]
fn statistics_all_metrics_are_described() {
    let metrics = describe_metrics();
    let described = metrics.described();

    assert_eq!(described.len(), 12);
    assert_eq!(described[0], (MetricName::TorrentsAddedTotal, MetricKind::Counter, MetricUnit::Count));
    assert_eq!(described[2], (MetricName::TorrentsTotal, MetricKind::Gauge, MetricUnit::Count));
    assert_eq!(described[11], (MetricName::PeersCompletedStateRevertedTotal, MetricKind::Counter, MetricUnit::Count));
    for (name, kind, unit) in described {
        assert_eq!(name.kind(), *kind);
        assert_eq!(*unit, MetricUnit::Count);
    }
    assert_eq!(MetricName::TorrentsTotal.as_str(), "swarm_coordination_registry_torrents_total");
    assert_eq!(MetricName::PeersInactiveTotal.description(), "The total number of inactive peers.");
}

#[test]
fn statistics_the_cutoff_is_the_timeout_before_now() {
    assert_eq!(inactivity_cutoff(DurationSinceUnixEpoch::new(1000, 5), 900), DurationSinceUnixEpoch::new(100, 5));
    // Before the epoch plus the timeout, the cutoff is the epoch.
    assert_eq!(inactivity_cutoff(DurationSinceUnixEpoch::new(10, 0), 900), DurationSinceUnixEpoch::new(0, 0));
    assert_eq!(ACTIVITY_METRICS_UPDATE_INTERVAL_SECS, 15);
    assert_eq!(gauge_from_count(7), 7);
    assert_eq!(gauge_from_count(usize::MAX), if usize::BITS == 64 { i64::MAX } else { usize::MAX as i64 });
}

#[test]
fn statistics_activity_figures_are_published() {
    let mut swarms = Registry::default();
    let old = Peer { updated: DurationSinceUnixEpoch::new(100, 0), ..leecher() };
    swarms.handle_announcement(&sample_info_hash(), &old, None).unwrap();

    let mut metrics = describe_metrics();
    let activity = update_activity_metrics(&swarms, &mut metrics, 900, DurationSinceUnixEpoch::new(2000, 0));

    assert_eq!(activity.inactive_peers_total, 1);
    assert_eq!(activity.inactive_torrents_total, 1);
    assert_eq!(metrics.gauge(MetricName::PeersInactiveTotal, LabelSet::Empty), 1);
    assert_eq!(metrics.gauge(MetricName::TorrentsInactiveTotal, LabelSet::Empty), 1);

    update_inactive_peers_total(&mut metrics, 4, now());
    update_inactive_torrents_total(&mut metrics, 5, now());
    assert_eq!(metrics.gauge(MetricName::PeersInactiveTotal, LabelSet::Empty), 4);
    assert_eq!(metrics.gauge(MetricName::TorrentsInactiveTotal, LabelSet::Empty), 5);
}

#[test]
fn statistics_the_listener_stops_only_when_the_channel_closes() {
    let mut metrics = describe_metrics();

    assert!(!handle_receive_error(&RecvError::Closed));
    assert!(handle_receive_error(&RecvError::Lagged(3)));
    assert!(handle_receive_result(Err(RecvError::Lagged(1)), &mut metrics, now()));
    assert!(!handle_receive_result(Err(RecvError::Closed), &mut metrics, now()));
    assert!(handle_receive_result(
        Ok(Event::TorrentAdded { info_hash: sample_info_hash(), announcement: seeder() }),
        &mut metrics,
        now()
    ));
    assert_eq!(metrics.counter(MetricName::TorrentsAddedTotal, LabelSet::Empty), 1);
}

#[test]
fn statistics_containers_start_empty() {
    let container = SwarmCoordinationRegistryContainer::initialize(SenderStatus::Enabled);
    assert!(container.swarms.is_empty());
    assert_eq!(container.stats_repository.described().len(), 12);

    let mut container = SwarmCoordinationRegistryContainer::initialize(SenderStatus::Disabled);
    container.swarms.handle_announcement(&sample_info_hash(), &seeder(), None).unwrap();
    assert!(container.swarms.take_events().is_empty());

    let container = TorrentRepositoryContainer::initialize();
    assert!(container.swarms.is_empty());
    assert!(container.stats_event_sender_enabled);
}

fn make_peer(role: PeerRole) -> Peer {
    match role {
        PeerRole::Seeder => seeder(),
        PeerRole::Leecher => leecher(),
    }
}

fn make_opposite_role_peer(peer: &Peer) -> Peer {
    let mut opposite_role_peer = *peer;
    match peer.role() {
        PeerRole::Seeder => opposite_role_peer.left = NumberOfBytes::new(1),
        PeerRole::Leecher => opposite_role_peer.left = NumberOfBytes::new(0),
    }
    opposite_role_peer
}

fn role_labels(role: PeerRole) -> LabelSet {
    LabelSet::PeerRole(role)
}

const ROLES: [PeerRole; 2] = [PeerRole::Seeder, PeerRole::Leecher];

#[test]
fn it_should_increment_the_number_of_peer_connections_when_a_peer_added_event_is_received() {
    for role in ROLES {
        let peer = make_peer(role);
        let mut metrics = describe_metrics();

        handle_event(&Event::PeerAdded { info_hash: sample_info_hash(), peer }, &mut metrics, now());

        assert_eq!(metrics.gauge(MetricName::PeerConnectionsTotal, role_labels(role)), 1);
    }
}

#[test]
fn it_should_decrement_the_number_of_peer_connections_when_a_peer_removed_event_is_received() {
    for role in ROLES {
        let peer = make_peer(role);
        let mut metrics = describe_metrics();

        // Increment the gauge first to simulate a peer being added.
        metrics.increment_gauge(MetricName::PeerConnectionsTotal, role_labels(role), now()).unwrap();

        handle_event(&Event::PeerRemoved { info_hash: sample_info_hash(), peer }, &mut metrics, now());

        assert_eq!(metrics.gauge(MetricName::PeerConnectionsTotal, role_labels(role)), 0);
    }
}

#[test]
fn it_should_adjust_the_number_of_seeders_and_leechers_when_a_peer_updated_event_is_received_and_the_peer_changed_its_role() {
    for old_role in ROLES {
        let mut metrics = describe_metrics();

        let old_peer = make_peer(old_role);
        let new_peer = make_opposite_role_peer(&old_peer);

        // Increment the gauge first by simulating a peer was added.
        handle_event(&Event::PeerAdded { info_hash: sample_info_hash(), peer: old_peer }, &mut metrics, now());

        let old_role_total = metrics.gauge(MetricName::PeerConnectionsTotal, role_labels(old_peer.role()));
        let new_role_total = 0;

        handle_event(&Event::PeerUpdated { info_hash: sample_info_hash(), old_peer, new_peer }, &mut metrics, now());

        assert_eq!(metrics.gauge(MetricName::PeerConnectionsTotal, role_labels(new_peer.role())), new_role_total + 1);
        assert_eq!(metrics.gauge(MetricName::PeerConnectionsTotal, role_labels(old_peer.role())), old_role_total - 1);
    }
}

#[test]
fn it_should_increment_the_number_of_peers_added_when_a_peer_added_event_is_received() {
    let mut metrics = describe_metrics();

    handle_event(&Event::PeerAdded { info_hash: sample_info_hash(), peer: seeder() }, &mut metrics, now());

    assert_eq!(metrics.counter(MetricName::PeersAddedTotal, label_set_for_peer(&seeder())), 1);
}

#[test]
fn it_should_increment_the_number_of_peers_removed_when_a_peer_removed_event_is_received() {
    let mut metrics = describe_metrics();

    handle_event(&Event::PeerRemoved { info_hash: sample_info_hash(), peer: seeder() }, &mut metrics, now());

    assert_eq!(metrics.counter(MetricName::PeersRemovedTotal, label_set_for_peer(&seeder())), 1);
}

#[test]
fn it_should_increment_the_number_of_peers_updated_when_a_peer_updated_event_is_received() {
    let mut metrics = describe_metrics();

    handle_event(
        &Event::PeerUpdated { info_hash: sample_info_hash(), old_peer: seeder(), new_peer: seeder() },
        &mut metrics,
        now(),
    );

    assert_eq!(metrics.counter(MetricName::PeersUpdatedTotal, label_set_for_peer(&seeder())), 1);
}

#[test]
fn it_should_increment_the_number_of_downloads_when_a_peer_downloaded_event_is_received() {
    for role in ROLES {
        let peer = make_peer(role);
        let mut metrics = describe_metrics();

        handle_event(&Event::PeerDownloadCompleted { info_hash: sample_info_hash(), peer }, &mut metrics, now());

        assert_eq!(metrics.counter(MetricName::TorrentsDownloadsTotal, label_set_for_peer(&peer)), 1);
    }
}

/// Feeds what a receiver gives, in order, to the listener's decision, until
/// it stops.
fn dispatch_scripted(results: Vec<Result<Event, RecvError>>, metrics: &mut Metrics) {
    for result in results {
        if !handle_receive_result(result, metrics, now()) {
            break;
        }
    }
}

fn peer_added_event() -> Event {
    Event::PeerAdded { info_hash: sample_info_hash(), peer: seeder() }
}

#[test]
fn it_should_handle_an_event_then_stop_when_the_receiver_is_closed() {
    let mut metrics = describe_metrics();

    dispatch_scripted(vec![Ok(peer_added_event()), Err(RecvError::Closed), Ok(peer_added_event())], &mut metrics);

    assert_eq!(metrics.counter(MetricName::PeersAddedTotal, seeders()), 1);
}

#[test]
fn it_should_continue_after_lag_then_handle_an_event_then_stop_when_the_receiver_is_closed() {
    let mut metrics = describe_metrics();

    dispatch_scripted(
        vec![Err(RecvError::Lagged(2)), Ok(peer_added_event()), Err(RecvError::Closed)],
        &mut metrics,
    );

    assert_eq!(metrics.counter(MetricName::PeersAddedTotal, seeders()), 1);
}

#[test]
fn it_should_stop_when_the_receiver_is_closed() {
    let mut metrics = describe_metrics();

    dispatch_scripted(vec![Err(RecvError::Closed), Ok(peer_added_event())], &mut metrics);

    assert_eq!(metrics.counter(MetricName::PeersAddedTotal, seeders()), 0);
}

/// One peer announced at startup, and the inactive peers published after
/// `elapsed_secs` seconds under a timeout of `max_peer_timeout_in_secs`.
fn inactive_peers_published_after(max_peer_timeout_in_secs: u32, elapsed_secs: u64) -> i64 {
    let startup_time = DurationSinceUnixEpoch::new(1_000, 0);
    let mut swarms = Registry::new(false);
    let peer = Peer { updated: startup_time, ..seeder() };
    swarms.handle_announcement(&sample_info_hash(), &peer, None).unwrap();

    let mut metrics = describe_metrics();
    let now = startup_time.checked_add(&DurationSinceUnixEpoch::from_secs(elapsed_secs)).unwrap();
    update_activity_metrics(&swarms, &mut metrics, max_peer_timeout_in_secs, now);
    metrics.gauge(MetricName::PeersInactiveTotal, LabelSet::Empty)
}

#[test]
fn it_should_keep_a_peer_announced_after_startup_active_before_the_timeout_elapses() {
    assert_eq!(inactive_peers_published_after(2, 1), 0);
}

#[test]
fn it_should_count_a_peer_announced_after_startup_inactive_after_the_timeout_elapses() {
    assert_eq!(inactive_peers_published_after(2, 3), 1);
}

#[test]
fn it_should_continue_after_lag_then_handle_an_event_then_stop_when_the_receiver_is_closed_in_one_batch() {
    let mut metrics = describe_metrics();
    let results = vec![
        (Err(RecvError::Lagged(2)), now()),
        (Ok(Event::PeerAdded { info_hash: sample_info_hash(), peer: seeder() }), now()),
        (Err(RecvError::Closed), now()),
        (Ok(Event::PeerAdded { info_hash: sample_info_hash(), peer: seeder() }), now()),
    ];

    assert!(!handle_receive_results(&results, &mut metrics));
    assert_eq!(metrics.counter(MetricName::PeersAddedTotal, seeders()), 1);
}

#[test]
fn it_should_go_on_listening_after_a_batch_without_a_closed_channel() {
    let mut metrics = describe_metrics();
    let results = vec![
        (Ok(Event::PeerAdded { info_hash: sample_info_hash(), peer: seeder() }), now()),
        (Ok(Event::PeerAdded { info_hash: sample_info_hash(), peer: leecher() }), now()),
    ];

    assert!(handle_receive_results(&results, &mut metrics));
    assert_eq!(metrics.counter(MetricName::PeersAddedTotal, seeders()), 1);
    assert_eq!(metrics.counter(MetricName::PeersAddedTotal, leechers()), 1);
}

#[test]
fn it_should_describe_the_metrics_of_the_torrent_repository() {
    let metrics = repository_statistics::describe_metrics();
    let described: Vec<&str> = metrics.described().iter().map(|(name, _, _)| name.as_str()).collect();

    assert_eq!(
        described,
        vec![
            "torrent_repository_torrents_added_total",
            "torrent_repository_torrents_removed_total",
            "torrent_repository_torrents_total",
            "torrent_repository_torrents_downloads_total",
            "torrent_repository_peers_added_total",
            "torrent_repository_peers_removed_total",
            "torrent_repository_peers_updated_total",
            "torrent_repository_peer_connections_total",
            "torrent_repository_unique_peers_total",
        ]
    );
}

#[test]
fn it_should_publish_the_number_of_inactive_peers_of_the_torrent_repository() {
    let mut swarms = Registry::default();
    swarms.handle_announcement(&sample_info_hash(), &seeder(), None).unwrap();
    swarms.handle_announcement(&sample_info_hash(), &leecher(), None).unwrap();
    let mut metrics = repository_statistics::describe_metrics();

    // Both peers announced at the same time; a cutoff at that time makes them inactive.
    let cutoff = seeder().updated;
    let published_at = DurationSinceUnixEpoch::new(1_669_397_500, 0);
    assert_eq!(repository_statistics::update_peers_inactivity_metric(&swarms, &mut metrics, cutoff, published_at), 2);
    assert_eq!(metrics.gauge(MetricName::RepositoryPeersInactiveTotal, LabelSet::Empty), 2);

    // A cutoff before the announcements leaves them active.
    let earlier = DurationSinceUnixEpoch::new(1_669_397_000, 0);
    assert_eq!(repository_statistics::update_peers_inactivity_metric(&swarms, &mut metrics, earlier, published_at), 0);
    assert_eq!(metrics.gauge(MetricName::RepositoryPeersInactiveTotal, LabelSet::Empty), 0);
}

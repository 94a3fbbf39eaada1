//! How the events of the registry update its metrics.
use vstd::prelude::*;

use crate::event::Event;
use crate::primitives::{DurationSinceUnixEpoch, Peer, PeerRole};
use crate::statistics::metrics::{
    counter_incremented, gauge_shifted, series_key, LabelSet, MetricName, Metrics, Sample, SeriesKey,
};

verus! {

/// The label set of the series that count `peer`: its role.
pub open spec fn peer_labels(peer: Peer) -> LabelSet {
    if peer.is_seeder_spec() {
        LabelSet::PeerRole(PeerRole::Seeder)
    } else {
        LabelSet::PeerRole(PeerRole::Leecher)
    }
}

/// The counters after `event` is handled at `now`.
pub open spec fn counters_after_event(
    counters: Map<SeriesKey, Sample<u64>>,
    event: Event,
    now: DurationSinceUnixEpoch,
) -> Map<SeriesKey, Sample<u64>> {
    match event {
        Event::TorrentAdded { .. } => counter_incremented(
            counters,
            series_key(MetricName::TorrentsAddedTotal, LabelSet::Empty),
            now,
        ),
        Event::TorrentRemoved { .. } => counter_incremented(
            counters,
            series_key(MetricName::TorrentsRemovedTotal, LabelSet::Empty),
            now,
        ),
        Event::PeerAdded { peer, .. } => counter_incremented(
            counters,
            series_key(MetricName::PeersAddedTotal, peer_labels(peer)),
            now,
        ),
        Event::PeerRemoved { peer, .. } => counter_incremented(
            counters,
            series_key(MetricName::PeersRemovedTotal, peer_labels(peer)),
            now,
        ),
        Event::PeerUpdated { old_peer, new_peer, .. } => {
            let reverted = if old_peer.is_completed_spec() && !new_peer.is_completed_spec() {
                counter_incremented(
                    counters,
                    series_key(MetricName::PeersCompletedStateRevertedTotal, LabelSet::Empty),
                    now,
                )
            } else {
                counters
            };
            counter_incremented(
                reverted,
                series_key(MetricName::PeersUpdatedTotal, peer_labels(new_peer)),
                now,
            )
        },
        Event::PeerDownloadCompleted { peer, .. } => counter_incremented(
            counters,
            series_key(MetricName::TorrentsDownloadsTotal, peer_labels(peer)),
            now,
        ),
    }
}

/// The gauges after `event` is handled at `now`.
pub open spec fn gauges_after_event(
    gauges: Map<SeriesKey, Sample<i64>>,
    event: Event,
    now: DurationSinceUnixEpoch,
) -> Map<SeriesKey, Sample<i64>> {
    match event {
        Event::TorrentAdded { .. } => gauge_shifted(
            gauges,
            series_key(MetricName::TorrentsTotal, LabelSet::Empty),
            1,
            now,
        ),
        Event::TorrentRemoved { .. } => gauge_shifted(
            gauges,
            series_key(MetricName::TorrentsTotal, LabelSet::Empty),
            -1,
            now,
        ),
        Event::PeerAdded { peer, .. } => gauge_shifted(
            gauges,
            series_key(MetricName::PeerConnectionsTotal, peer_labels(peer)),
            1,
            now,
        ),
        Event::PeerRemoved { peer, .. } => gauge_shifted(
            gauges,
            series_key(MetricName::PeerConnectionsTotal, peer_labels(peer)),
            -1,
            now,
        ),
        Event::PeerUpdated { old_peer, new_peer, .. } => {
            if old_peer.role_spec() != new_peer.role_spec() {
                gauge_shifted(
                    gauge_shifted(
                        gauges,
                        series_key(MetricName::PeerConnectionsTotal, peer_labels(new_peer)),
                        1,
                        now,
                    ),
                    series_key(MetricName::PeerConnectionsTotal, peer_labels(old_peer)),
                    -1,
                    now,
                )
            } else {
                gauges
            }
        },
        Event::PeerDownloadCompleted { .. } => gauges,
    }
}

/// The label set of the series that count `peer`: its role.
pub fn label_set_for_peer(peer: &Peer) -> (r: LabelSet)
    ensures
        r == peer_labels(*peer),
{
    if peer.is_seeder() {
        LabelSet::PeerRole(PeerRole::Seeder)
    } else {
        LabelSet::PeerRole(PeerRole::Leecher)
    }
}

/// Updates the metrics for `event`, handled at `now`. A series at the end
/// of its range is left as it is.
pub fn handle_event(event: &Event, metrics: &mut Metrics, now: DurationSinceUnixEpoch)
    ensures
        final(metrics).described_spec() == old(metrics).described_spec(),
        final(metrics).counters() == counters_after_event(old(metrics).counters(), *event, now),
        final(metrics).gauges() == gauges_after_event(old(metrics).gauges(), *event, now),
{
    match event {
        // Torrent events
        Event::TorrentAdded { .. } => {
            let _unused = metrics.increment_gauge(MetricName::TorrentsTotal, LabelSet::Empty, now);
            let _unused = metrics.increment_counter(MetricName::TorrentsAddedTotal, LabelSet::Empty, now);
        },
        Event::TorrentRemoved { .. } => {
            let _unused = metrics.decrement_gauge(MetricName::TorrentsTotal, LabelSet::Empty, now);
            let _unused = metrics.increment_counter(MetricName::TorrentsRemovedTotal, LabelSet::Empty, now);
        },
        // Peer events
        Event::PeerAdded { peer, .. } => {
            let label_set = label_set_for_peer(peer);
            let _unused = metrics.increment_gauge(MetricName::PeerConnectionsTotal, label_set, now);
            let _unused = metrics.increment_counter(MetricName::PeersAddedTotal, label_set, now);
        },
        Event::PeerRemoved { peer, .. } => {
            let label_set = label_set_for_peer(peer);
            let _unused = metrics.decrement_gauge(MetricName::PeerConnectionsTotal, label_set, now);
            let _unused = metrics.increment_counter(MetricName::PeersRemovedTotal, label_set, now);
        },
        Event::PeerUpdated { old_peer, new_peer, .. } => {
            // A peer that changes its role moves from one connection count
            // to the other.
            let old_role = old_peer.role();
            let new_role = new_peer.role();
            if !matches!((old_role, new_role), (PeerRole::Seeder, PeerRole::Seeder) | (PeerRole::Leecher, PeerRole::Leecher)) {
                let _unused = metrics.increment_gauge(
                    MetricName::PeerConnectionsTotal,
                    label_set_for_peer(new_peer),
                    now,
                );
                let _unused = metrics.decrement_gauge(
                    MetricName::PeerConnectionsTotal,
                    label_set_for_peer(old_peer),
                    now,
                );
            }
            // A peer that had completed and no longer says so is counted.
            if old_peer.is_completed() && !new_peer.is_completed() {
                let _unused = metrics.increment_counter(
                    MetricName::PeersCompletedStateRevertedTotal,
                    LabelSet::Empty,
                    now,
                );
            }
            // Every update is counted.
            let label_set = label_set_for_peer(new_peer);
            let _unused = metrics.increment_counter(MetricName::PeersUpdatedTotal, label_set, now);
        },
        Event::PeerDownloadCompleted { peer, .. } => {
            let _unused = metrics.increment_counter(
                MetricName::TorrentsDownloadsTotal,
                label_set_for_peer(peer),
                now,
            );
        },
    }
}

} // verus!

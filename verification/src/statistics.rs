//! The statistics of the swarm coordination registry: the metrics it keeps,
//! how the events of the registry update them, and the figures about
//! inactive peers and torrents that are published at intervals.
pub mod metrics;
pub mod handler;
pub mod activity;
pub mod listener;

use vstd::prelude::*;

use crate::statistics::metrics::{MetricKind, MetricName, MetricUnit, Metrics, Sample, SeriesKey};

verus! {

/// The metrics of the registry with their kinds, in the order they are
/// described.
pub open spec fn registry_metric_descriptions() -> Seq<(MetricName, MetricKind, MetricUnit)> {
    seq![
        (MetricName::TorrentsAddedTotal, MetricKind::Counter, MetricUnit::Count),
        (MetricName::TorrentsRemovedTotal, MetricKind::Counter, MetricUnit::Count),
        (MetricName::TorrentsTotal, MetricKind::Gauge, MetricUnit::Count),
        (MetricName::TorrentsDownloadsTotal, MetricKind::Counter, MetricUnit::Count),
        (MetricName::TorrentsInactiveTotal, MetricKind::Gauge, MetricUnit::Count),
        (MetricName::PeersAddedTotal, MetricKind::Counter, MetricUnit::Count),
        (MetricName::PeersRemovedTotal, MetricKind::Counter, MetricUnit::Count),
        (MetricName::PeersUpdatedTotal, MetricKind::Counter, MetricUnit::Count),
        (MetricName::PeerConnectionsTotal, MetricKind::Gauge, MetricUnit::Count),
        (MetricName::UniquePeersTotal, MetricKind::Gauge, MetricUnit::Count),
        (MetricName::PeersInactiveTotal, MetricKind::Gauge, MetricUnit::Count),
        (MetricName::PeersCompletedStateRevertedTotal, MetricKind::Counter, MetricUnit::Count),
    ]
}

/// The metrics of the registry, described and without any series.
pub fn describe_metrics() -> (r: Metrics)
    ensures
        r.described_spec() == registry_metric_descriptions(),
        r.counters() == Map::<SeriesKey, Sample<u64>>::empty(),
        r.gauges() == Map::<SeriesKey, Sample<i64>>::empty(),
{
    let mut metrics = Metrics::default();

    // Torrent metrics
    metrics.describe(MetricName::TorrentsAddedTotal, MetricKind::Counter, MetricUnit::Count);
    metrics.describe(MetricName::TorrentsRemovedTotal, MetricKind::Counter, MetricUnit::Count);
    metrics.describe(MetricName::TorrentsTotal, MetricKind::Gauge, MetricUnit::Count);
    metrics.describe(MetricName::TorrentsDownloadsTotal, MetricKind::Counter, MetricUnit::Count);
    metrics.describe(MetricName::TorrentsInactiveTotal, MetricKind::Gauge, MetricUnit::Count);

    // Peer metrics
    metrics.describe(MetricName::PeersAddedTotal, MetricKind::Counter, MetricUnit::Count);
    metrics.describe(MetricName::PeersRemovedTotal, MetricKind::Counter, MetricUnit::Count);
    metrics.describe(MetricName::PeersUpdatedTotal, MetricKind::Counter, MetricUnit::Count);
    metrics.describe(MetricName::PeerConnectionsTotal, MetricKind::Gauge, MetricUnit::Count);
    metrics.describe(MetricName::UniquePeersTotal, MetricKind::Gauge, MetricUnit::Count);
    metrics.describe(MetricName::PeersInactiveTotal, MetricKind::Gauge, MetricUnit::Count);
    metrics.describe(MetricName::PeersCompletedStateRevertedTotal, MetricKind::Counter, MetricUnit::Count);

    proof {
        assert(metrics.described_spec() =~= registry_metric_descriptions());
    }
    metrics
}

} // verus!

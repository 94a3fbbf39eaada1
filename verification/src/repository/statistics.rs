//! The statistics of the torrent repository: the metrics it describes and
//! the figure about inactive peers that is published at intervals.
use vstd::prelude::*;

use crate::primitives::DurationSinceUnixEpoch;
use crate::registry::{inactive_of, Registry};
use crate::statistics::activity::gauge_from_count;
use crate::statistics::metrics::{series_key, LabelSet, MetricKind, MetricName, MetricUnit, Metrics, Sample, SeriesKey};
use crate::sums::sum_by;

verus! {

/// The metrics of the torrent repository with their kinds, in the order they
/// are described.
pub open spec fn repository_metric_descriptions() -> Seq<(MetricName, MetricKind, MetricUnit)> {
    seq![
        (MetricName::RepositoryTorrentsAddedTotal, MetricKind::Counter, MetricUnit::Count),
        (MetricName::RepositoryTorrentsRemovedTotal, MetricKind::Counter, MetricUnit::Count),
        (MetricName::RepositoryTorrentsTotal, MetricKind::Gauge, MetricUnit::Count),
        (MetricName::RepositoryTorrentsDownloadsTotal, MetricKind::Counter, MetricUnit::Count),
        (MetricName::RepositoryPeersAddedTotal, MetricKind::Counter, MetricUnit::Count),
        (MetricName::RepositoryPeersRemovedTotal, MetricKind::Counter, MetricUnit::Count),
        (MetricName::RepositoryPeersUpdatedTotal, MetricKind::Counter, MetricUnit::Count),
        (MetricName::RepositoryPeerConnectionsTotal, MetricKind::Gauge, MetricUnit::Count),
        (MetricName::RepositoryUniquePeersTotal, MetricKind::Gauge, MetricUnit::Count),
    ]
}

/// The metrics of the torrent repository, described and without any series.
pub fn describe_metrics() -> (r: Metrics)
    ensures
        r.described_spec() == repository_metric_descriptions(),
        r.counters() == Map::<SeriesKey, Sample<u64>>::empty(),
        r.gauges() == Map::<SeriesKey, Sample<i64>>::empty(),
{
    let mut metrics = Metrics::default();

    // Torrent metrics
    metrics.describe(MetricName::RepositoryTorrentsAddedTotal, MetricKind::Counter, MetricUnit::Count);
    metrics.describe(MetricName::RepositoryTorrentsRemovedTotal, MetricKind::Counter, MetricUnit::Count);
    metrics.describe(MetricName::RepositoryTorrentsTotal, MetricKind::Gauge, MetricUnit::Count);
    metrics.describe(MetricName::RepositoryTorrentsDownloadsTotal, MetricKind::Counter, MetricUnit::Count);

    // Peer metrics
    metrics.describe(MetricName::RepositoryPeersAddedTotal, MetricKind::Counter, MetricUnit::Count);
    metrics.describe(MetricName::RepositoryPeersRemovedTotal, MetricKind::Counter, MetricUnit::Count);
    metrics.describe(MetricName::RepositoryPeersUpdatedTotal, MetricKind::Counter, MetricUnit::Count);
    metrics.describe(MetricName::RepositoryPeerConnectionsTotal, MetricKind::Gauge, MetricUnit::Count);
    metrics.describe(MetricName::RepositoryUniquePeersTotal, MetricKind::Gauge, MetricUnit::Count);

    proof {
        assert(metrics.described_spec() =~= repository_metric_descriptions());
    }
    metrics
}

/// One update of the peers' inactivity figure: counts the peers of `swarms`
/// that last announced at or before `inactivity_cutoff` and publishes that
/// number, recorded at `now`. Returns the number.
pub fn update_peers_inactivity_metric(
    swarms: &Registry,
    metrics: &mut Metrics,
    inactivity_cutoff: DurationSinceUnixEpoch,
    now: DurationSinceUnixEpoch,
) -> (r: usize)
    requires
        swarms.wf(),
        swarms.peer_total() <= usize::MAX,
    ensures
        r == sum_by(swarms.sorted_keys_spec(), swarms.swarms_map(), inactive_of(inactivity_cutoff)),
        final(metrics).described_spec() == old(metrics).described_spec(),
        final(metrics).counters() == old(metrics).counters(),
        final(metrics).gauges() == old(metrics).gauges().insert(
            series_key(MetricName::RepositoryPeersInactiveTotal, LabelSet::Empty),
            (
                if r <= i64::MAX {
                    r as i64
                } else {
                    i64::MAX
                },
                now,
            ),
        ),
{
    let inactive_peers_total = swarms.count_inactive_peers(inactivity_cutoff);
    let value = gauge_from_count(inactive_peers_total);
    let _unused = metrics.set_gauge(MetricName::RepositoryPeersInactiveTotal, LabelSet::Empty, value, now);
    inactive_peers_total
}

} // verus!

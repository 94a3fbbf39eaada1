//! The metrics of the swarm coordination registry and of the torrent
//! repository: counters and gauges,
//! one series per metric name and label set, each with the time it was last
//! recorded.
use std::collections::BTreeMap;

use vstd::prelude::*;

use crate::primitives::{DurationSinceUnixEpoch, PeerRole};

verus! {

/// The metrics the registry and the torrent repository keep.
#[derive(Clone, Copy, Debug, PartialEq, Eq, Structural)]
pub enum MetricName {
    TorrentsAddedTotal,
    TorrentsRemovedTotal,
    TorrentsTotal,
    TorrentsDownloadsTotal,
    TorrentsInactiveTotal,
    PeersAddedTotal,
    PeersRemovedTotal,
    PeersUpdatedTotal,
    PeerConnectionsTotal,
    UniquePeersTotal,
    PeersInactiveTotal,
    PeersCompletedStateRevertedTotal,
    RepositoryTorrentsAddedTotal,
    RepositoryTorrentsRemovedTotal,
    RepositoryTorrentsTotal,
    RepositoryTorrentsDownloadsTotal,
    RepositoryPeersAddedTotal,
    RepositoryPeersRemovedTotal,
    RepositoryPeersUpdatedTotal,
    RepositoryPeerConnectionsTotal,
    RepositoryUniquePeersTotal,
    RepositoryPeersInactiveTotal,
}

/// The unit a metric is measured in.
#[derive(Clone, Copy, Debug, PartialEq, Eq, Structural)]
pub enum MetricUnit {
    /// A number of things.
    Count,
}

/// Whether a metric only grows (a counter) or goes up and down (a gauge).
#[derive(Clone, Copy, Debug, PartialEq, Eq, Structural)]
pub enum MetricKind {
    Counter,
    Gauge,
}

/// The labels of a series: none, or the role of the peer it counts.
#[derive(Clone, Copy, Debug, PartialEq, Eq, Structural)]
pub enum LabelSet {
    Empty,
    PeerRole(PeerRole),
}

/// The key of a series: the number of its metric and of its label set.
pub type SeriesKey = (u8, u8);

/// The value of a series and the time it was last recorded.
pub type Sample<T> = (T, DurationSinceUnixEpoch);

/// Why a metric could not be recorded.
#[derive(Clone, Copy, Debug, PartialEq, Eq, Structural)]
pub enum MetricsError {
    /// The metric is of the other kind.
    KindMismatch,
    /// The new value is out of the range of the series.
    OutOfRange,
}

/// The kind of each metric.
pub open spec fn kind_of(name: MetricName) -> MetricKind {
    match name {
        MetricName::TorrentsTotal | MetricName::TorrentsInactiveTotal | MetricName::PeerConnectionsTotal
        | MetricName::UniquePeersTotal | MetricName::PeersInactiveTotal
        | MetricName::RepositoryTorrentsTotal
        | MetricName::RepositoryPeerConnectionsTotal
        | MetricName::RepositoryUniquePeersTotal
        | MetricName::RepositoryPeersInactiveTotal => MetricKind::Gauge,
        _ => MetricKind::Counter,
    }
}

/// The name each metric is published under.
pub open spec fn published_name(name: MetricName) -> &'static str {
    match name {
        MetricName::TorrentsAddedTotal => "swarm_coordination_registry_torrents_added_total",
        MetricName::TorrentsRemovedTotal => "swarm_coordination_registry_torrents_removed_total",
        MetricName::TorrentsTotal => "swarm_coordination_registry_torrents_total",
        MetricName::TorrentsDownloadsTotal => "swarm_coordination_registry_torrents_downloads_total",
        MetricName::TorrentsInactiveTotal => "swarm_coordination_registry_torrents_inactive_total",
        MetricName::PeersAddedTotal => "swarm_coordination_registry_peers_added_total",
        MetricName::PeersRemovedTotal => "swarm_coordination_registry_peers_removed_total",
        MetricName::PeersUpdatedTotal => "swarm_coordination_registry_peers_updated_total",
        MetricName::PeerConnectionsTotal => "swarm_coordination_registry_peer_connections_total",
        MetricName::UniquePeersTotal => "swarm_coordination_registry_unique_peers_total",
        MetricName::PeersInactiveTotal => "swarm_coordination_registry_peers_inactive_total",
        MetricName::PeersCompletedStateRevertedTotal => "swarm_coordination_registry_peers_completed_state_reverted_total",
        MetricName::RepositoryTorrentsAddedTotal => "torrent_repository_torrents_added_total",
        MetricName::RepositoryTorrentsRemovedTotal => "torrent_repository_torrents_removed_total",
        MetricName::RepositoryTorrentsTotal => "torrent_repository_torrents_total",
        MetricName::RepositoryTorrentsDownloadsTotal => "torrent_repository_torrents_downloads_total",
        MetricName::RepositoryPeersAddedTotal => "torrent_repository_peers_added_total",
        MetricName::RepositoryPeersRemovedTotal => "torrent_repository_peers_removed_total",
        MetricName::RepositoryPeersUpdatedTotal => "torrent_repository_peers_updated_total",
        MetricName::RepositoryPeerConnectionsTotal => "torrent_repository_peer_connections_total",
        MetricName::RepositoryUniquePeersTotal => "torrent_repository_unique_peers_total",
        MetricName::RepositoryPeersInactiveTotal => "torrent_repository_peers_inactive_total",
    }
}

/// What each metric measures.
pub open spec fn metric_description(name: MetricName) -> &'static str {
    match name {
        MetricName::TorrentsAddedTotal => "The total number of torrents added.",
        MetricName::TorrentsRemovedTotal => "The total number of torrents removed.",
        MetricName::TorrentsTotal => "The total number of torrents.",
        MetricName::TorrentsDownloadsTotal => "The total number of torrent downloads.",
        MetricName::TorrentsInactiveTotal => "The total number of inactive torrents.",
        MetricName::PeersAddedTotal => "The total number of peers added.",
        MetricName::PeersRemovedTotal => "The total number of peers removed.",
        MetricName::PeersUpdatedTotal => "The total number of peers updated.",
        MetricName::PeerConnectionsTotal => "The total number of peer connections (one connection per torrent).",
        MetricName::UniquePeersTotal => "The total number of unique peers.",
        MetricName::PeersInactiveTotal => "The total number of inactive peers.",
        MetricName::PeersCompletedStateRevertedTotal => "The total number of peers whose completed state was reverted.",
        MetricName::RepositoryTorrentsAddedTotal => "The total number of torrents added.",
        MetricName::RepositoryTorrentsRemovedTotal => "The total number of torrents removed.",
        MetricName::RepositoryTorrentsTotal => "The total number of torrents.",
        MetricName::RepositoryTorrentsDownloadsTotal => "The total number of torrent downloads.",
        MetricName::RepositoryPeersAddedTotal => "The total number of peers added.",
        MetricName::RepositoryPeersRemovedTotal => "The total number of peers removed.",
        MetricName::RepositoryPeersUpdatedTotal => "The total number of peers updated.",
        MetricName::RepositoryPeerConnectionsTotal => "The total number of peer connections (one connection per torrent).",
        MetricName::RepositoryUniquePeersTotal => "The total number of unique peers.",
        MetricName::RepositoryPeersInactiveTotal => "The total number of inactive peers.",
    }
}

/// The number of each metric.
pub open spec fn name_index(name: MetricName) -> u8 {
    match name {
        MetricName::TorrentsAddedTotal => 0,
        MetricName::TorrentsRemovedTotal => 1,
        MetricName::TorrentsTotal => 2,
        MetricName::TorrentsDownloadsTotal => 3,
        MetricName::TorrentsInactiveTotal => 4,
        MetricName::PeersAddedTotal => 5,
        MetricName::PeersRemovedTotal => 6,
        MetricName::PeersUpdatedTotal => 7,
        MetricName::PeerConnectionsTotal => 8,
        MetricName::UniquePeersTotal => 9,
        MetricName::PeersInactiveTotal => 10,
        MetricName::PeersCompletedStateRevertedTotal => 11,
        MetricName::RepositoryTorrentsAddedTotal => 12,
        MetricName::RepositoryTorrentsRemovedTotal => 13,
        MetricName::RepositoryTorrentsTotal => 14,
        MetricName::RepositoryTorrentsDownloadsTotal => 15,
        MetricName::RepositoryPeersAddedTotal => 16,
        MetricName::RepositoryPeersRemovedTotal => 17,
        MetricName::RepositoryPeersUpdatedTotal => 18,
        MetricName::RepositoryPeerConnectionsTotal => 19,
        MetricName::RepositoryUniquePeersTotal => 20,
        MetricName::RepositoryPeersInactiveTotal => 21,
    }
}

/// The number of each label set.
pub open spec fn labels_index(labels: LabelSet) -> u8 {
    match labels {
        LabelSet::Empty => 0,
        LabelSet::PeerRole(PeerRole::Seeder) => 1,
        LabelSet::PeerRole(PeerRole::Leecher) => 2,
    }
}

/// The key of the series of `name` with `labels`.
pub open spec fn series_key(name: MetricName, labels: LabelSet) -> SeriesKey {
    (name_index(name), labels_index(labels))
}

/// The value of a counter series; 0 before it is first recorded.
pub open spec fn counter_value(counters: Map<SeriesKey, Sample<u64>>, key: SeriesKey) -> nat {
    if counters.contains_key(key) {
        counters[key].0 as nat
    } else {
        0
    }
}

/// The value of a gauge series; 0 before it is first recorded.
pub open spec fn gauge_value(gauges: Map<SeriesKey, Sample<i64>>, key: SeriesKey) -> int {
    if gauges.contains_key(key) {
        gauges[key].0 as int
    } else {
        0
    }
}

/// The counters after the series `key` is incremented at `now`; unchanged
/// when it is at its largest value.
pub open spec fn counter_incremented(
    counters: Map<SeriesKey, Sample<u64>>,
    key: SeriesKey,
    now: DurationSinceUnixEpoch,
) -> Map<SeriesKey, Sample<u64>> {
    if counter_value(counters, key) < u64::MAX {
        counters.insert(key, ((counter_value(counters, key) + 1) as u64, now))
    } else {
        counters
    }
}

/// The gauges after `delta` is added to the series `key` at `now`;
/// unchanged when the sum is out of range.
pub open spec fn gauge_shifted(
    gauges: Map<SeriesKey, Sample<i64>>,
    key: SeriesKey,
    delta: int,
    now: DurationSinceUnixEpoch,
) -> Map<SeriesKey, Sample<i64>> {
    let v = gauge_value(gauges, key) + delta;
    if i64::MIN <= v <= i64::MAX {
        gauges.insert(key, (v as i64, now))
    } else {
        gauges
    }
}

impl MetricName {
    /// The kind of the metric.
    pub fn kind(&self) -> (r: MetricKind)
        ensures
            r == kind_of(*self),
    {
        match self {
            MetricName::TorrentsTotal | MetricName::TorrentsInactiveTotal
            | MetricName::PeerConnectionsTotal | MetricName::UniquePeersTotal
            | MetricName::PeersInactiveTotal
            | MetricName::RepositoryTorrentsTotal
            | MetricName::RepositoryPeerConnectionsTotal
            | MetricName::RepositoryUniquePeersTotal
            | MetricName::RepositoryPeersInactiveTotal => MetricKind::Gauge,
            _ => MetricKind::Counter,
        }
    }

    /// The number of the metric.
    pub fn index(&self) -> (r: u8)
        ensures
            r == name_index(*self),
    {
        match self {
            MetricName::TorrentsAddedTotal => 0,
            MetricName::TorrentsRemovedTotal => 1,
            MetricName::TorrentsTotal => 2,
            MetricName::TorrentsDownloadsTotal => 3,
            MetricName::TorrentsInactiveTotal => 4,
            MetricName::PeersAddedTotal => 5,
            MetricName::PeersRemovedTotal => 6,
            MetricName::PeersUpdatedTotal => 7,
            MetricName::PeerConnectionsTotal => 8,
            MetricName::UniquePeersTotal => 9,
            MetricName::PeersInactiveTotal => 10,
            MetricName::PeersCompletedStateRevertedTotal => 11,
            MetricName::RepositoryTorrentsAddedTotal => 12,
            MetricName::RepositoryTorrentsRemovedTotal => 13,
            MetricName::RepositoryTorrentsTotal => 14,
            MetricName::RepositoryTorrentsDownloadsTotal => 15,
            MetricName::RepositoryPeersAddedTotal => 16,
            MetricName::RepositoryPeersRemovedTotal => 17,
            MetricName::RepositoryPeersUpdatedTotal => 18,
            MetricName::RepositoryPeerConnectionsTotal => 19,
            MetricName::RepositoryUniquePeersTotal => 20,
            MetricName::RepositoryPeersInactiveTotal => 21,
        }
    }

    /// The name the metric is published under.
    pub fn as_str(&self) -> (r: &'static str)
        ensures
            r@ == published_name(*self)@,
    {
        match self {
            MetricName::TorrentsAddedTotal => "swarm_coordination_registry_torrents_added_total",
            MetricName::TorrentsRemovedTotal => "swarm_coordination_registry_torrents_removed_total",
            MetricName::TorrentsTotal => "swarm_coordination_registry_torrents_total",
            MetricName::TorrentsDownloadsTotal => "swarm_coordination_registry_torrents_downloads_total",
            MetricName::TorrentsInactiveTotal => "swarm_coordination_registry_torrents_inactive_total",
            MetricName::PeersAddedTotal => "swarm_coordination_registry_peers_added_total",
            MetricName::PeersRemovedTotal => "swarm_coordination_registry_peers_removed_total",
            MetricName::PeersUpdatedTotal => "swarm_coordination_registry_peers_updated_total",
            MetricName::PeerConnectionsTotal => "swarm_coordination_registry_peer_connections_total",
            MetricName::UniquePeersTotal => "swarm_coordination_registry_unique_peers_total",
            MetricName::PeersInactiveTotal => "swarm_coordination_registry_peers_inactive_total",
            MetricName::PeersCompletedStateRevertedTotal => "swarm_coordination_registry_peers_completed_state_reverted_total",
            MetricName::RepositoryTorrentsAddedTotal => "torrent_repository_torrents_added_total",
            MetricName::RepositoryTorrentsRemovedTotal => "torrent_repository_torrents_removed_total",
            MetricName::RepositoryTorrentsTotal => "torrent_repository_torrents_total",
            MetricName::RepositoryTorrentsDownloadsTotal => "torrent_repository_torrents_downloads_total",
            MetricName::RepositoryPeersAddedTotal => "torrent_repository_peers_added_total",
            MetricName::RepositoryPeersRemovedTotal => "torrent_repository_peers_removed_total",
            MetricName::RepositoryPeersUpdatedTotal => "torrent_repository_peers_updated_total",
            MetricName::RepositoryPeerConnectionsTotal => "torrent_repository_peer_connections_total",
            MetricName::RepositoryUniquePeersTotal => "torrent_repository_unique_peers_total",
            MetricName::RepositoryPeersInactiveTotal => "torrent_repository_peers_inactive_total",
        }
    }

    /// What the metric measures.
    pub fn description(&self) -> (r: &'static str)
        ensures
            r@ == metric_description(*self)@,
    {
        match self {
            MetricName::TorrentsAddedTotal => "The total number of torrents added.",
            MetricName::TorrentsRemovedTotal => "The total number of torrents removed.",
            MetricName::TorrentsTotal => "The total number of torrents.",
            MetricName::TorrentsDownloadsTotal => "The total number of torrent downloads.",
            MetricName::TorrentsInactiveTotal => "The total number of inactive torrents.",
            MetricName::PeersAddedTotal => "The total number of peers added.",
            MetricName::PeersRemovedTotal => "The total number of peers removed.",
            MetricName::PeersUpdatedTotal => "The total number of peers updated.",
            MetricName::PeerConnectionsTotal => "The total number of peer connections (one connection per torrent).",
            MetricName::UniquePeersTotal => "The total number of unique peers.",
            MetricName::PeersInactiveTotal => "The total number of inactive peers.",
            MetricName::PeersCompletedStateRevertedTotal => "The total number of peers whose completed state was reverted.",
            MetricName::RepositoryTorrentsAddedTotal => "The total number of torrents added.",
            MetricName::RepositoryTorrentsRemovedTotal => "The total number of torrents removed.",
            MetricName::RepositoryTorrentsTotal => "The total number of torrents.",
            MetricName::RepositoryTorrentsDownloadsTotal => "The total number of torrent downloads.",
            MetricName::RepositoryPeersAddedTotal => "The total number of peers added.",
            MetricName::RepositoryPeersRemovedTotal => "The total number of peers removed.",
            MetricName::RepositoryPeersUpdatedTotal => "The total number of peers updated.",
            MetricName::RepositoryPeerConnectionsTotal => "The total number of peer connections (one connection per torrent).",
            MetricName::RepositoryUniquePeersTotal => "The total number of unique peers.",
            MetricName::RepositoryPeersInactiveTotal => "The total number of inactive peers.",
        }
    }
}

impl LabelSet {
    /// The number of the label set.
    pub fn index(&self) -> (r: u8)
        ensures
            r == labels_index(*self),
    {
        match self {
            LabelSet::Empty => 0,
            LabelSet::PeerRole(PeerRole::Seeder) => 1,
            LabelSet::PeerRole(PeerRole::Leecher) => 2,
        }
    }
}

/// The key of the series of `name` with `labels`.
pub fn series(name: MetricName, labels: LabelSet) -> (r: SeriesKey)
    ensures
        r == series_key(name, labels),
{
    (name.index(), labels.index())
}

/// The described metrics and the recorded series.
pub struct Metrics {
    described: Vec<(MetricName, MetricKind, MetricUnit)>,
    counters: BTreeMap<SeriesKey, Sample<u64>>,
    gauges: BTreeMap<SeriesKey, Sample<i64>>,
}

impl Metrics {
    /// The metrics described so far, in the order of their description.
    pub closed spec fn described_spec(&self) -> Seq<(MetricName, MetricKind, MetricUnit)> {
        self.described@
    }

    /// The counter series.
    pub closed spec fn counters(&self) -> Map<SeriesKey, Sample<u64>> {
        self.counters@
    }

    /// The gauge series.
    pub closed spec fn gauges(&self) -> Map<SeriesKey, Sample<i64>> {
        self.gauges@
    }

    /// No metric described and no series recorded.
    pub fn new() -> (r: Self)
        ensures
            r.described_spec() == Seq::<(MetricName, MetricKind, MetricUnit)>::empty(),
            r.counters() == Map::<SeriesKey, Sample<u64>>::empty(),
            r.gauges() == Map::<SeriesKey, Sample<i64>>::empty(),
    {
        Metrics { described: Vec::new(), counters: BTreeMap::new(), gauges: BTreeMap::new() }
    }

    /// Describes `name` as a metric of kind `kind`.
    pub fn describe(&mut self, name: MetricName, kind: MetricKind, unit: MetricUnit)
        ensures
            final(self).described_spec() == old(self).described_spec().push((name, kind, unit)),
            final(self).counters() == old(self).counters(),
            final(self).gauges() == old(self).gauges(),
    {
        self.described.push((name, kind, unit));
    }

    /// The metrics described so far, in the order of their description.
    pub fn described(&self) -> (r: &Vec<(MetricName, MetricKind, MetricUnit)>)
        ensures
            r@ == self.described_spec(),
    {
        &self.described
    }

    /// The value of the counter `name` with `labels`; 0 before it is first
    /// recorded.
    pub fn counter(&self, name: MetricName, labels: LabelSet) -> (r: u64)
        ensures
            r == counter_value(self.counters(), series_key(name, labels)),
    {
        match self.counters.get(&series(name, labels)) {
            Some(sample) => sample.0,
            None => 0,
        }
    }

    /// The value of the gauge `name` with `labels`; 0 before it is first
    /// recorded.
    pub fn gauge(&self, name: MetricName, labels: LabelSet) -> (r: i64)
        ensures
            r == gauge_value(self.gauges(), series_key(name, labels)),
    {
        match self.gauges.get(&series(name, labels)) {
            Some(sample) => sample.0,
            None => 0,
        }
    }

    /// Adds one to the counter `name` with `labels`, recorded at `now`.
    pub fn increment_counter(&mut self, name: MetricName, labels: LabelSet, now: DurationSinceUnixEpoch) -> (r:
        Result<(), MetricsError>)
        ensures
            final(self).described_spec() == old(self).described_spec(),
            final(self).gauges() == old(self).gauges(),
            kind_of(name) != MetricKind::Counter ==> r == Err::<(), MetricsError>(MetricsError::KindMismatch)
                && final(self).counters() == old(self).counters(),
            kind_of(name) == MetricKind::Counter ==> final(self).counters() == counter_incremented(
                old(self).counters(),
                series_key(name, labels),
                now,
            ) && (r is Ok <==> counter_value(old(self).counters(), series_key(name, labels)) < u64::MAX)
                && (r is Err ==> r == Err::<(), MetricsError>(MetricsError::OutOfRange)),
    {
        if !matches!(name.kind(), MetricKind::Counter) {
            return Err(MetricsError::KindMismatch);
        }
        let value = self.counter(name, labels);
        if value == u64::MAX {
            return Err(MetricsError::OutOfRange);
        }
        self.counters.insert(series(name, labels), (value + 1, now));
        Ok(())
    }

    /// Adds `delta` to the gauge `name` with `labels`, recorded at `now`.
    fn shift_gauge(&mut self, name: MetricName, labels: LabelSet, delta: i64, now: DurationSinceUnixEpoch) -> (r:
        Result<(), MetricsError>)
        ensures
            final(self).described_spec() == old(self).described_spec(),
            final(self).counters() == old(self).counters(),
            kind_of(name) != MetricKind::Gauge ==> r == Err::<(), MetricsError>(MetricsError::KindMismatch)
                && final(self).gauges() == old(self).gauges(),
            kind_of(name) == MetricKind::Gauge ==> final(self).gauges() == gauge_shifted(
                old(self).gauges(),
                series_key(name, labels),
                delta as int,
                now,
            ) && (r is Ok <==> i64::MIN <= gauge_value(old(self).gauges(), series_key(name, labels)) + delta
                <= i64::MAX) && (r is Err ==> r == Err::<(), MetricsError>(MetricsError::OutOfRange)),
    {
        if !matches!(name.kind(), MetricKind::Gauge) {
            return Err(MetricsError::KindMismatch);
        }
        let value = self.gauge(name, labels);
        match value.checked_add(delta) {
            Some(v) => {
                self.gauges.insert(series(name, labels), (v, now));
                Ok(())
            },
            None => Err(MetricsError::OutOfRange),
        }
    }

    /// Adds one to the gauge `name` with `labels`, recorded at `now`.
    pub fn increment_gauge(&mut self, name: MetricName, labels: LabelSet, now: DurationSinceUnixEpoch) -> (r:
        Result<(), MetricsError>)
        ensures
            final(self).described_spec() == old(self).described_spec(),
            final(self).counters() == old(self).counters(),
            kind_of(name) != MetricKind::Gauge ==> r == Err::<(), MetricsError>(MetricsError::KindMismatch)
                && final(self).gauges() == old(self).gauges(),
            kind_of(name) == MetricKind::Gauge ==> final(self).gauges() == gauge_shifted(
                old(self).gauges(),
                series_key(name, labels),
                1,
                now,
            ) && (r is Ok <==> gauge_value(old(self).gauges(), series_key(name, labels)) < i64::MAX) && (
            r is Err ==> r == Err::<(), MetricsError>(MetricsError::OutOfRange)),
    {
        self.shift_gauge(name, labels, 1, now)
    }

    /// Takes one from the gauge `name` with `labels`, recorded at `now`.
    pub fn decrement_gauge(&mut self, name: MetricName, labels: LabelSet, now: DurationSinceUnixEpoch) -> (r:
        Result<(), MetricsError>)
        ensures
            final(self).described_spec() == old(self).described_spec(),
            final(self).counters() == old(self).counters(),
            kind_of(name) != MetricKind::Gauge ==> r == Err::<(), MetricsError>(MetricsError::KindMismatch)
                && final(self).gauges() == old(self).gauges(),
            kind_of(name) == MetricKind::Gauge ==> final(self).gauges() == gauge_shifted(
                old(self).gauges(),
                series_key(name, labels),
                -1,
                now,
            ) && (r is Ok <==> gauge_value(old(self).gauges(), series_key(name, labels)) > i64::MIN) && (
            r is Err ==> r == Err::<(), MetricsError>(MetricsError::OutOfRange)),
    {
        self.shift_gauge(name, labels, -1, now)
    }

    /// Sets the gauge `name` with `labels` to `value`, recorded at `now`.
    pub fn set_gauge(&mut self, name: MetricName, labels: LabelSet, value: i64, now: DurationSinceUnixEpoch) -> (r:
        Result<(), MetricsError>)
        ensures
            final(self).described_spec() == old(self).described_spec(),
            final(self).counters() == old(self).counters(),
            kind_of(name) != MetricKind::Gauge ==> r == Err::<(), MetricsError>(MetricsError::KindMismatch)
                && final(self).gauges() == old(self).gauges(),
            kind_of(name) == MetricKind::Gauge ==> r is Ok && final(self).gauges() == old(self).gauges().insert(
                series_key(name, labels),
                (value, now),
            ),
    {
        if !matches!(name.kind(), MetricKind::Gauge) {
            return Err(MetricsError::KindMismatch);
        }
        self.gauges.insert(series(name, labels), (value, now));
        Ok(())
    }
}

impl Default for Metrics {
    /// No metric described and no series recorded.
    fn default() -> (r: Self)
        ensures
            r.described_spec() == Seq::<(MetricName, MetricKind, MetricUnit)>::empty(),
            r.counters() == Map::<SeriesKey, Sample<u64>>::empty(),
            r.gauges() == Map::<SeriesKey, Sample<i64>>::empty(),
    {
        Metrics::new()
    }
}

} // verus!

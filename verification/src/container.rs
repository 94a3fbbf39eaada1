//! The services of the registry wired together: the swarms, whether their
//! events are published, and the metrics the events are counted in.
use vstd::prelude::*;

use crate::event::Event;
use crate::primitives::Id20Key;
use crate::coordinator::Coordinator;
use crate::registry::Registry;
use crate::statistics::describe_metrics;
use crate::statistics::metrics::{MetricKind, MetricName, MetricUnit, Metrics, Sample, SeriesKey};

verus! {

/// Whether events are published.
#[derive(Clone, Copy, Debug, PartialEq, Eq, Structural)]
pub enum SenderStatus {
    Enabled,
    Disabled,
}

/// The swarm coordination registry with its metrics.
pub struct SwarmCoordinationRegistryContainer {
    /// The swarms.
    pub swarms: Registry,
    /// The metrics the events of the swarms are counted in.
    pub stats_repository: Metrics,
}

impl SwarmCoordinationRegistryContainer {
    /// An empty registry that records events when `sender_status` enables
    /// them, and the described metrics without any series.
    pub fn initialize(sender_status: SenderStatus) -> (r: Self)
        ensures
            r.swarms.wf(),
            r.swarms.swarms_map() == Map::<Id20Key, Coordinator>::empty(),
            r.swarms.events_enabled_spec() == (sender_status == SenderStatus::Enabled),
            r.swarms.pending_events() == Seq::<Event>::empty(),
            r.stats_repository.described_spec() == crate::statistics::registry_metric_descriptions(),
            r.stats_repository.counters() == Map::<SeriesKey, Sample<u64>>::empty(),
            r.stats_repository.gauges() == Map::<SeriesKey, Sample<i64>>::empty(),
    {
        let stats_repository = describe_metrics();
        let emits_events = match sender_status {
            SenderStatus::Enabled => true,
            SenderStatus::Disabled => false,
        };
        let swarms = Registry::new(emits_events);
        SwarmCoordinationRegistryContainer { swarms, stats_repository }
    }
}

/// The swarms of the torrent repository with their metrics.
pub struct TorrentRepositoryContainer {
    /// The swarms.
    pub swarms: Registry,
    /// Whether the statistics events are published.
    pub stats_event_sender_enabled: bool,
    /// The metrics the statistics events are counted in.
    pub stats_repository: Metrics,
}

impl TorrentRepositoryContainer {
    /// An empty set of swarms that records no events of its own, statistics
    /// events enabled, and metrics without any series.
    pub fn initialize() -> (r: Self)
        ensures
            r.swarms.wf(),
            r.swarms.swarms_map() == Map::<Id20Key, Coordinator>::empty(),
            !r.swarms.events_enabled_spec(),
            r.swarms.pending_events() == Seq::<Event>::empty(),
            r.stats_event_sender_enabled,
            r.stats_repository.described_spec() == Seq::<(MetricName, MetricKind, MetricUnit)>::empty(),
            r.stats_repository.counters() == Map::<SeriesKey, Sample<u64>>::empty(),
            r.stats_repository.gauges() == Map::<SeriesKey, Sample<i64>>::empty(),
    {
        let swarms = Registry::default();
        let stats_repository = Metrics::new();
        TorrentRepositoryContainer { swarms, stats_event_sender_enabled: true, stats_repository }
    }
}

} // verus!

//! The figures about inactive peers and torrents that are published at
//! intervals: when a peer counts as inactive, and the gauges that hold the
//! totals.
use vstd::prelude::*;

use crate::primitives::DurationSinceUnixEpoch;
use crate::registry::{AggregateActivityMetadata, Registry};
use crate::statistics::metrics::{series_key, LabelSet, MetricName, Metrics};

verus! {

/// The number of seconds between two updates of the activity figures.
pub const ACTIVITY_METRICS_UPDATE_INTERVAL_SECS: u64 = 15;

/// The time before which a peer that has not announced is inactive:
/// `max_peer_timeout` seconds before `now`, or the epoch when `now` is
/// earlier than that.
pub fn inactivity_cutoff(now: DurationSinceUnixEpoch, max_peer_timeout: u32) -> (r: DurationSinceUnixEpoch)
    ensures
        r@ == if max_peer_timeout * 1_000_000_000 <= now@ {
            now@ - max_peer_timeout * 1_000_000_000
        } else {
            0
        },
{
    let timeout = DurationSinceUnixEpoch::from_secs(max_peer_timeout as u64);
    match now.checked_sub(&timeout) {
        Some(cutoff) => cutoff,
        None => DurationSinceUnixEpoch::from_secs(0),
    }
}

/// A count as a gauge value: the count, or the largest gauge value when the
/// count is larger.
pub fn gauge_from_count(count: usize) -> (r: i64)
    ensures
        r == if count <= i64::MAX {
            count as int
        } else {
            i64::MAX as int
        },
{
    if count as u64 <= i64::MAX as u64 {
        count as i64
    } else {
        i64::MAX
    }
}

/// Publishes the number of inactive peers, recorded at `now`.
pub fn update_inactive_peers_total(metrics: &mut Metrics, inactive_peers_total: usize, now: DurationSinceUnixEpoch)
    ensures
        final(metrics).described_spec() == old(metrics).described_spec(),
        final(metrics).counters() == old(metrics).counters(),
        final(metrics).gauges() == old(metrics).gauges().insert(
            series_key(MetricName::PeersInactiveTotal, LabelSet::Empty),
            (
                if inactive_peers_total <= i64::MAX {
                    inactive_peers_total as i64
                } else {
                    i64::MAX
                },
                now,
            ),
        ),
{
    let value = gauge_from_count(inactive_peers_total);
    let _unused = metrics.set_gauge(MetricName::PeersInactiveTotal, LabelSet::Empty, value, now);
}

/// Publishes the number of inactive torrents, recorded at `now`.
pub fn update_inactive_torrents_total(
    metrics: &mut Metrics,
    inactive_torrents_total: usize,
    now: DurationSinceUnixEpoch,
)
    ensures
        final(metrics).described_spec() == old(metrics).described_spec(),
        final(metrics).counters() == old(metrics).counters(),
        final(metrics).gauges() == old(metrics).gauges().insert(
            series_key(MetricName::TorrentsInactiveTotal, LabelSet::Empty),
            (
                if inactive_torrents_total <= i64::MAX {
                    inactive_torrents_total as i64
                } else {
                    i64::MAX
                },
                now,
            ),
        ),
{
    let value = gauge_from_count(inactive_torrents_total);
    let _unused = metrics.set_gauge(MetricName::TorrentsInactiveTotal, LabelSet::Empty, value, now);
}

/// Computes the activity figures of `swarms` at `now`, where peers that
/// have not announced for `max_peer_timeout` seconds are inactive, and
/// publishes the numbers of inactive peers and torrents. Returns the
/// figures.
pub fn update_activity_metrics(
    swarms: &Registry,
    metrics: &mut Metrics,
    max_peer_timeout: u32,
    now: DurationSinceUnixEpoch,
) -> (r: AggregateActivityMetadata)
    requires
        swarms.wf(),
        swarms.peer_total() <= usize::MAX,
    ensures
        ({
            let cutoff = if max_peer_timeout * 1_000_000_000 <= now@ {
                now@ - max_peer_timeout * 1_000_000_000
            } else {
                0
            };
            exists|c: DurationSinceUnixEpoch| c@ == cutoff && r == #[trigger] swarms.activity_figures(c)
        }),
        final(metrics).described_spec() == old(metrics).described_spec(),
        final(metrics).counters() == old(metrics).counters(),
        final(metrics).gauges() == old(metrics).gauges().insert(
            series_key(MetricName::PeersInactiveTotal, LabelSet::Empty),
            (
                if r.inactive_peers_total <= i64::MAX {
                    r.inactive_peers_total as i64
                } else {
                    i64::MAX
                },
                now,
            ),
        ).insert(
            series_key(MetricName::TorrentsInactiveTotal, LabelSet::Empty),
            (
                if r.inactive_torrents_total <= i64::MAX {
                    r.inactive_torrents_total as i64
                } else {
                    i64::MAX
                },
                now,
            ),
        ),
{
    let inactivity_cutoff_timestamp = inactivity_cutoff(now, max_peer_timeout);
    let activity_metadata = swarms.get_activity_metadata(inactivity_cutoff_timestamp);
    update_inactive_peers_total(metrics, activity_metadata.inactive_peers_total, now);
    update_inactive_torrents_total(metrics, activity_metadata.inactive_torrents_total, now);
    activity_metadata
}

} // verus!

//! The decisions of the event listener: what a received event or a
//! receiving error does to the metrics, and whether listening goes on.
use vstd::prelude::*;

use crate::event::Event;
use crate::primitives::DurationSinceUnixEpoch;
use crate::statistics::handler::{counters_after_event, gauges_after_event, handle_event};
use crate::statistics::metrics::{Metrics, Sample, SeriesKey};

verus! {

/// Why no event was received.
#[derive(Clone, Copy, Debug, PartialEq, Eq, Structural)]
pub enum RecvError {
    /// No sender is left; no event will come.
    Closed,
    /// The receiver fell behind and this many events were skipped.
    Lagged(u64),
}

/// Whether listening goes on after `error`: not once the channel is
/// closed, and yes after events were skipped.
pub fn handle_receive_error(error: &RecvError) -> (r: bool)
    ensures
        r == (*error !is Closed),
{
    match error {
        RecvError::Closed => false,
        RecvError::Lagged(_number_of_events) => true,
    }
}

/// Handles what the receiver gave at `now`: an event updates the metrics
/// and listening goes on; an error leaves them and decides as
/// `handle_receive_error` does.
pub fn handle_receive_result(result: Result<Event, RecvError>, metrics: &mut Metrics, now: DurationSinceUnixEpoch) -> (r: bool)
    ensures
        final(metrics).described_spec() == old(metrics).described_spec(),
        match result {
            Ok(event) => {
                &&& r
                &&& final(metrics).counters() == counters_after_event(old(metrics).counters(), event, now)
                &&& final(metrics).gauges() == gauges_after_event(old(metrics).gauges(), event, now)
            },
            Err(error) => {
                &&& r == (error !is Closed)
                &&& final(metrics).counters() == old(metrics).counters()
                &&& final(metrics).gauges() == old(metrics).gauges()
            },
        },
{
    match result {
        Ok(event) => {
            handle_event(&event, metrics, now);
            true
        },
        Err(error) => handle_receive_error(&error),
    }
}

/// The counters after the results received in order are handled, each at
/// the time paired with it, up to the first closed channel: an event updates
/// them, a lag leaves them.
pub open spec fn counters_after_results(
    counters: Map<SeriesKey, Sample<u64>>,
    results: Seq<(Result<Event, RecvError>, DurationSinceUnixEpoch)>,
) -> Map<SeriesKey, Sample<u64>>
    decreases results.len(),
{
    if results.len() == 0 {
        counters
    } else {
        match results[0].0 {
            Ok(event) => counters_after_results(counters_after_event(counters, event, results[0].1), results.drop_first()),
            Err(RecvError::Closed) => counters,
            Err(RecvError::Lagged(_)) => counters_after_results(counters, results.drop_first()),
        }
    }
}

/// The gauges after the results received in order are handled, as
/// `counters_after_results` describes.
pub open spec fn gauges_after_results(
    gauges: Map<SeriesKey, Sample<i64>>,
    results: Seq<(Result<Event, RecvError>, DurationSinceUnixEpoch)>,
) -> Map<SeriesKey, Sample<i64>>
    decreases results.len(),
{
    if results.len() == 0 {
        gauges
    } else {
        match results[0].0 {
            Ok(event) => gauges_after_results(gauges_after_event(gauges, event, results[0].1), results.drop_first()),
            Err(RecvError::Closed) => gauges,
            Err(RecvError::Lagged(_)) => gauges_after_results(gauges, results.drop_first()),
        }
    }
}

/// Whether one of the results says that the channel is closed.
pub open spec fn closed_among(results: Seq<(Result<Event, RecvError>, DurationSinceUnixEpoch)>) -> bool {
    exists|i: int| 0 <= i < results.len() && #[trigger] results[i].0 == Err::<Event, RecvError>(RecvError::Closed)
}

/// Handles the results received in order, each at the time paired with it,
/// until one says that the channel is closed: events update the metrics,
/// lags are skipped, and nothing after a closed channel is handled. Returns
/// whether listening goes on, that is whether no result said the channel is
/// closed.
pub fn handle_receive_results(
    results: &Vec<(Result<Event, RecvError>, DurationSinceUnixEpoch)>,
    metrics: &mut Metrics,
) -> (r: bool)
    ensures
        final(metrics).described_spec() == old(metrics).described_spec(),
        final(metrics).counters() == counters_after_results(old(metrics).counters(), results@),
        final(metrics).gauges() == gauges_after_results(old(metrics).gauges(), results@),
        r == !closed_among(results@),
{
    let mut i: usize = 0;
    proof {
        assert(results@.skip(0) =~= results@);
    }
    while i < results.len()
        invariant
            i <= results@.len(),
            metrics.described_spec() == old(metrics).described_spec(),
            counters_after_results(old(metrics).counters(), results@) == counters_after_results(
                metrics.counters(),
                results@.skip(i as int),
            ),
            gauges_after_results(old(metrics).gauges(), results@) == gauges_after_results(
                metrics.gauges(),
                results@.skip(i as int),
            ),
            forall|j: int| 0 <= j < i ==> #[trigger] results@[j].0 != Err::<Event, RecvError>(RecvError::Closed),
        decreases results@.len() - i,
    {
        let (result, now) = results[i];
        proof {
            assert(results@.skip(i as int)[0] == results@[i as int]);
            assert(results@.skip(i as int).drop_first() =~= results@.skip(i + 1));
        }
        let goes_on = handle_receive_result(result, metrics, now);
        if !goes_on {
            assert(closed_among(results@));
            return false;
        }
        i = i + 1;
    }
    proof {
        assert(results@.skip(i as int) =~= Seq::<(Result<Event, RecvError>, DurationSinceUnixEpoch)>::empty());
    }
    true
}

} // verus!

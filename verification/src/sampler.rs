//! The speed sampler's per-cycle computation.
//!
//! Each cycle the sampler downloads a fixed-size payload, measures the
//! elapsed wall-clock time, and publishes the throughput as a gauge.  The
//! download itself is I/O and happens outside the library; what is decided
//! here is everything else: the throughput arithmetic, and the rule that a
//! failed or anomalous cycle leaves the previously published value
//! untouched.

use vstd::prelude::*;
use crate::store::{Metric, MetricHandle, MetricStore};

verus! {

/// Seconds the sampler sleeps between probe cycles.
pub const PROBE_INTERVAL_SECS: u64 = 300;

/// Size in bytes of the fixed remote payload the probe downloads.
pub const PAYLOAD_BYTES: u64 = 10000000;

/// Largest payload size whose bit count in thousandths still fits the
/// value representation.
pub const MAX_MEASURABLE_BYTES: u64 = 18446744073709551615 / 8000;

/// What one probe cycle observed, reduced to plain values.
#[derive(Clone, Copy, Debug)]
pub enum ProbeOutcome {
    /// The download completed: `payload_bytes` bytes arrived over
    /// `elapsed_us` microseconds of wall-clock time.
    Success { payload_bytes: u64, elapsed_us: u64 },
    /// The download failed: connection error, timeout, non-success status
    /// or truncated body.  Which of these it was does not matter to the
    /// store: none of them updates the gauge.
    Failure,
}

/// Throughput in thousandths of a megabit per second: payload bits per
/// elapsed microsecond.  A zero elapsed time (clock anomaly) and a payload
/// too large to measure yield no value.
pub open spec fn spec_throughput(payload_bytes: u64, elapsed_us: u64) -> Option<u64> {
    if elapsed_us == 0 || payload_bytes > MAX_MEASURABLE_BYTES {
        Option::None
    } else {
        Option::Some(((payload_bytes * 8000) / elapsed_us as int) as u64)
    }
}

/// The value one cycle publishes: the throughput on success, nothing on
/// failure.
pub open spec fn cycle_update(outcome: ProbeOutcome) -> Option<u64> {
    match outcome {
        ProbeOutcome::Success { payload_bytes, elapsed_us } => spec_throughput(
            payload_bytes,
            elapsed_us,
        ),
        ProbeOutcome::Failure => Option::None,
    }
}

/// Compute a transfer's throughput in thousandths of a megabit per second.
pub fn throughput_milli_mbps(payload_bytes: u64, elapsed_us: u64) -> (r: Option<u64>)
    ensures
        r == spec_throughput(payload_bytes, elapsed_us),
{
    if elapsed_us == 0 || payload_bytes > MAX_MEASURABLE_BYTES {
        Option::None
    } else {
        Option::Some((payload_bytes * 8000) / elapsed_us)
    }
}

/// Publish one probe cycle's outcome into the gauge `h` indexes.  A
/// successful, measurable cycle overwrites the gauge with the computed
/// throughput and nothing else; a failed cycle — and a cycle with a zero
/// elapsed time or an unmeasurable payload — changes nothing at all, so a
/// scrape right after still sees the last good value.
pub fn probe_cycle(store: &mut MetricStore, h: MetricHandle, outcome: ProbeOutcome) -> (updated:
    bool)
    requires
        old(store).is_gauge(h),
    ensures
        updated == (cycle_update(outcome) is Some),
        match cycle_update(outcome) {
            Option::Some(v) => final(store).metrics@ == old(store).metrics@.update(
                h.idx as int,
                (Metric {
                    value_milli: Option::Some(v),
                    ..old(store).metrics@[h.idx as int]
                }),
            ),
            Option::None => *final(store) == *old(store),
        },
        final(store).wf() <== old(store).wf(),
{
    match outcome {
        ProbeOutcome::Success { payload_bytes, elapsed_us } => {
            match throughput_milli_mbps(payload_bytes, elapsed_us) {
                Option::Some(v) => {
                    store.set(h, v);
                    true
                },
                Option::None => false,
            }
        },
        ProbeOutcome::Failure => false,
    }
}

} // verus!

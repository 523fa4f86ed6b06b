//! Verified core of a network-speed metrics exporter.
//!
//! The library holds the logic of the exporter: a metric store with a
//! deterministic text exposition, the throughput computation of the download
//! sampler, the parsing of sensor output for the diagnostics probe, and the
//! lifecycle state machine that guarantees the sampler never starts before
//! the HTTP listener is bound.  All numeric metric values are fixed-point
//! with three decimal places (stored in thousandths), so that rendering and
//! parsing are exact.
//!
//! The I/O around this core (the HTTP server, the download itself, the
//! sensor command) lives outside the library and only hands plain values in
//! and out.

pub mod decimal;
pub mod diag;
pub mod expo;
pub mod lifecycle;
pub mod sampler;
pub mod server;
pub mod store;

pub use decimal::milli_to_string;
pub use decimal::u64_to_string;
pub use diag::diagnostics_cycle;
pub use diag::parse_sensor_milli;
pub use expo::check_help;
pub use expo::check_name;
pub use lifecycle::LifecycleAction;
pub use lifecycle::LifecycleEvent;
pub use lifecycle::LifecycleState;
pub use lifecycle::lifecycle_step;
pub use sampler::MAX_MEASURABLE_BYTES;
pub use sampler::PAYLOAD_BYTES;
pub use sampler::PROBE_INTERVAL_SECS;
pub use sampler::ProbeOutcome;
pub use sampler::probe_cycle;
pub use sampler::throughput_milli_mbps;
pub use server::HttpReply;
pub use server::Method;
pub use server::RequestLabels;
pub use server::handle_metrics_request;
pub use server::record_request;
pub use store::Metric;
pub use store::MetricHandle;
pub use store::MetricKind;
pub use store::MetricStore;
pub use store::RegisterError;
pub use store::kind_label;

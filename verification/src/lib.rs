//! Prometheus metrics for the Armature framework.
//!
//! - [`counter`] and [`gauge`]: builders that carry a metric's name, help
//!   text and label names until it is registered.
//! - [`names`]: the naming rules `prometheus` applies to metric names.
//! - [`summary`]: the sliding window of observations behind a summary.
//! - [`middleware`]: path labelling of the HTTP request instrumentation,
//!   with its cardinality bound; [`labelling_laws`] states what holds of it
//!   over any sequence of requests.
//! - [`instrument`]: what the instrumentation records for one request.
//! - [`export`]: the Prometheus text exposition of a registry.
//! - [`outside`]: the `prometheus` and std items the library relies on.

pub mod counter;
pub mod export;
pub mod gauge;
pub mod instrument;
pub mod labelling_laws;
pub mod middleware;
pub mod names;
pub mod outside;
pub mod summary;

pub use counter::{CounterBuilder, CounterVecBuilder};
pub use export::{export_families, export_metrics_from_registry, render_exposition};
pub use gauge::{GaugeBuilder, GaugeVecBuilder};
pub use instrument::{
    finish_request, status_label, MetricAction, MetricUpdate, RequestLabels, RequestMetric,
    RequestOutcome,
};
pub use middleware::{
    path_only, truncate_path, RequestMetricsMiddleware, DEFAULT_PATH_CARDINALITY_CAP,
    OTHER_PATH_LABEL,
};
pub use names::owned_label_names;
pub use prometheus;
pub use summary::{nearest_rank_index, summary_parts, SampleWindow, DEFAULT_MAX_SIZE};

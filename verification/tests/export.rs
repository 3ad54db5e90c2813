use armature_metrics::{export_metrics_from_registry, render_exposition};
use prometheus::{Counter, Registry};

#[test]
fn lib_test_export_metrics() {
    let metrics = export_metrics_from_registry(&Registry::new());
    assert!(metrics.contains("# HELP") || metrics.is_empty());
}

#[test]
fn export_lists_registered_counter() {
    let registry = Registry::new();
    let counter = Counter::new("exported_total", "An exported counter").unwrap();
    registry.register(Box::new(counter.clone())).unwrap();
    counter.inc();
    let text = export_metrics_from_registry(&registry);
    assert!(text.contains("# HELP exported_total An exported counter"));
    assert!(text.contains("exported_total 1"));
}

#[test]
fn render_keeps_valid_text() {
    let text = render_exposition(Ok(b"metric 1\n".to_vec()));
    assert_eq!(text, "metric 1\n");
}

#[test]
fn render_reports_invalid_utf8() {
    let text = render_exposition(Ok(vec![0xff, 0xfe]));
    assert_eq!(text, "# Error converting metrics to UTF-8\n");
}

#[test]
fn render_reports_encoding_error() {
    let text = render_exposition(Err(prometheus::Error::Msg("broken".to_string())));
    assert_eq!(text, "# Error encoding metrics\n");
}

fn family(name: &str, kind: prometheus::proto::MetricType) -> prometheus::proto::MetricFamily {
    let mut mf = prometheus::proto::MetricFamily::default();
    mf.set_name(name.to_string());
    mf.set_help("help".to_string());
    mf.set_field_type(kind);
    let mut metric = prometheus::proto::Metric::from_label(vec![]);
    let mut gauge = prometheus::proto::Gauge::default();
    gauge.set_value(3.0);
    metric.set_gauge(gauge);
    mf.set_metric(vec![metric]);
    mf
}

#[test]
fn untyped_family_is_reported_not_encoded() {
    let families = vec![
        family("typed_gauge", prometheus::proto::MetricType::GAUGE),
        family("untyped_thing", prometheus::proto::MetricType::UNTYPED),
    ];
    assert_eq!(
        armature_metrics::export_families(&families),
        "# Error encoding metrics\n"
    );
}

#[test]
fn typed_families_are_encoded() {
    let families = vec![family("typed_gauge", prometheus::proto::MetricType::GAUGE)];
    let text = armature_metrics::export_families(&families);
    assert!(text.contains("# HELP typed_gauge help"));
    assert!(text.contains("# TYPE typed_gauge gauge"));
    assert!(text.contains("typed_gauge 3"));
}

#[test]
fn empty_family_is_an_encoding_error() {
    let mut mf = family("no_samples", prometheus::proto::MetricType::COUNTER);
    mf.set_metric(vec![]);
    assert_eq!(
        armature_metrics::export_families(&vec![mf]),
        "# Error encoding metrics\n"
    );
}

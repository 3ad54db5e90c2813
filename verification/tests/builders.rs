use armature_metrics::{
    owned_label_names, CounterBuilder, CounterVecBuilder, GaugeBuilder, GaugeVecBuilder,
};

#[test]
fn counter_builder_keeps_name_and_help() {
    let b = CounterBuilder::new("requests_total", "Total requests");
    assert_eq!(b.name(), "requests_total");
    assert_eq!(b.help(), "Total requests");
}

#[test]
fn counter_vec_builder_sets_labels() {
    let b = CounterVecBuilder::new("http_requests_total", "Total HTTP requests");
    assert!(b.label_names().is_empty());
    let b = b.labels(&["method", "status"]);
    assert_eq!(b.label_names(), &vec!["method".to_string(), "status".to_string()]);
    let b = b.labels(&["only"]);
    assert_eq!(b.label_names(), &vec!["only".to_string()]);
    assert_eq!(b.name(), "http_requests_total");
}

#[test]
fn gauge_builders_keep_their_parts() {
    let g = GaugeBuilder::new("active_connections", "Active connections");
    assert_eq!(g.name(), "active_connections");
    assert_eq!(g.help(), "Active connections");
    let v = GaugeVecBuilder::new("queue_size", "Queue size").labels(&["queue_name"]);
    assert_eq!(v.label_names(), &vec!["queue_name".to_string()]);
    assert_eq!(v.help(), "Queue size");
}

#[test]
fn owned_label_names_copies_in_order() {
    assert_eq!(owned_label_names(&["a", "b", "c"]), vec!["a", "b", "c"]);
    assert!(owned_label_names(&[]).is_empty());
}

use armature_metrics::{
    finish_request, path_only, status_label, truncate_path, MetricAction, MetricUpdate,
    RequestMetric, RequestMetricsMiddleware, RequestOutcome,
};

fn labels_of(u: &MetricUpdate) -> Vec<&str> {
    u.labels.iter().map(|s| s.as_str()).collect()
}

#[test]
fn path_only_drops_the_query_string() {
    assert_eq!(path_only("/login?token=SECRET"), "/login");
    assert_eq!(path_only("/query-label-regression?page=2&sort=desc"), "/query-label-regression");
    assert_eq!(path_only("/plain"), "/plain");
    assert_eq!(path_only("?only-query"), "");
    assert_eq!(path_only("/\u{e9}t\u{e9}?x=1"), "/\u{e9}t\u{e9}");
}

#[test]
fn status_label_is_decimal() {
    assert_eq!(status_label(200), "200");
    assert_eq!(status_label(0), "0");
    assert_eq!(status_label(7), "7");
    assert_eq!(status_label(404), "404");
    assert_eq!(status_label(65535), "65535");
}

#[test]
fn truncate_path_matches_label_rule() {
    assert_eq!(truncate_path("/short"), "/short");
    let long = "x".repeat(150);
    assert_eq!(truncate_path(&long), "x".repeat(97) + "...");
}

#[test]
fn query_targets_share_one_label() {
    let mut middleware = RequestMetricsMiddleware::with_path();
    let path = "/query-label-regression";
    let mut labels = Vec::new();
    for target in [
        path.to_string(),
        format!("{path}?token=SECRET"),
        format!("{path}?page=2&sort=desc"),
    ] {
        let (l, _) = middleware.begin_request("QZQUERYLABELTEST", &target, 0);
        labels.push(l.path);
    }
    assert!(labels.iter().all(|l| l == path));
}

#[test]
fn arrival_records_size_then_in_flight() {
    let mut middleware = RequestMetricsMiddleware::with_path();
    let (labels, updates) =
        middleware.begin_request("QZHANDLETEST", "/handle-metrics-regression", 5);
    assert_eq!(labels.method, "QZHANDLETEST");
    assert_eq!(labels.path, "/handle-metrics-regression");
    assert_eq!(updates.len(), 2);
    assert_eq!(updates[0].metric, RequestMetric::RequestSize);
    assert_eq!(updates[0].action, MetricAction::ObserveBytes(5));
    assert_eq!(labels_of(&updates[0]), vec!["QZHANDLETEST", "/handle-metrics-regression"]);
    assert_eq!(updates[1].metric, RequestMetric::RequestsInFlight);
    assert_eq!(updates[1].action, MetricAction::Increment);
}

#[test]
fn response_records_count_duration_and_size() {
    let mut middleware = RequestMetricsMiddleware::with_path();
    let (labels, _) = middleware.begin_request("GET", "/users?id=3", 0);
    let updates = finish_request(
        &labels,
        RequestOutcome::Responded {
            status: 200,
            body_len: 13,
        },
    );
    assert_eq!(updates.len(), 4);
    assert_eq!(updates[0].metric, RequestMetric::RequestsInFlight);
    assert_eq!(updates[0].action, MetricAction::Decrement);
    assert_eq!(labels_of(&updates[0]), vec!["GET", "/users"]);
    assert_eq!(updates[1].metric, RequestMetric::RequestsTotal);
    assert_eq!(updates[1].action, MetricAction::Increment);
    assert_eq!(labels_of(&updates[1]), vec!["GET", "/users", "200"]);
    assert_eq!(updates[2].metric, RequestMetric::RequestDuration);
    assert_eq!(updates[2].action, MetricAction::ObserveElapsed);
    assert_eq!(updates[3].metric, RequestMetric::ResponseSize);
    assert_eq!(updates[3].action, MetricAction::ObserveBytes(13));
}

#[test]
fn failure_records_count_and_duration_only() {
    let mut middleware = RequestMetricsMiddleware::new();
    let (labels, _) = middleware.begin_request("POST", "/anything", 10);
    assert_eq!(labels.path, "/");
    let updates = finish_request(&labels, RequestOutcome::Failed { status: 503 });
    assert_eq!(updates.len(), 3);
    assert_eq!(labels_of(&updates[1]), vec!["POST", "/", "503"]);
    assert!(updates
        .iter()
        .all(|u| u.metric != RequestMetric::ResponseSize));
}

#[test]
fn in_flight_goes_up_and_down_once() {
    let mut middleware = RequestMetricsMiddleware::with_path();
    let (labels, mut updates) = middleware.begin_request("GET", "/x", 1);
    updates.extend(finish_request(&labels, RequestOutcome::Failed { status: 500 }));
    let mut level = 0i32;
    for u in &updates {
        if u.metric == RequestMetric::RequestsInFlight {
            match u.action {
                MetricAction::Increment => level += 1,
                MetricAction::Decrement => level -= 1,
                _ => panic!("unexpected in-flight action"),
            }
        }
    }
    assert_eq!(level, 0);
    let counted = updates
        .iter()
        .filter(|u| u.metric == RequestMetric::RequestsTotal)
        .count();
    assert_eq!(counted, 1);
}

use armature_metrics::{RequestMetricsMiddleware, OTHER_PATH_LABEL};

#[test]
fn test_request_metrics_middleware_new_defaults_to_no_path() {
    // Safe default: no per-path cardinality unless explicitly opted in.
    let middleware = RequestMetricsMiddleware::new();
    assert!(!middleware.include_path());
}

#[test]
fn test_default_does_not_label_per_path() {
    let mut middleware = RequestMetricsMiddleware::default();
    assert_eq!(middleware.sanitize_path("/api/users"), "/");
    assert_eq!(middleware.sanitize_path("/random-9f83a"), "/");
    assert_eq!(middleware.sanitize_path("/another/path"), "/");
}

#[test]
fn test_with_path_enables_path_labels() {
    let mut middleware = RequestMetricsMiddleware::with_path();
    assert!(middleware.include_path());
    assert_eq!(middleware.sanitize_path("/api/users"), "/api/users");
}

#[test]
fn middleware_test_request_metrics_middleware_without_path() {
    let mut middleware = RequestMetricsMiddleware::without_path();
    assert!(!middleware.include_path());
    assert_eq!(middleware.sanitize_path("/api/users"), "/");
}

#[test]
fn test_sanitize_path_truncates_long_paths() {
    let mut middleware = RequestMetricsMiddleware::with_path();
    assert_eq!(middleware.sanitize_path("/api/users"), "/api/users");

    let long_path = "/".to_string() + &"a".repeat(150);
    let sanitized = middleware.sanitize_path(&long_path);
    assert!(sanitized.len() <= 103); // 100 + "..."
}

#[test]
fn test_path_cardinality_is_capped() {
    let cap = 4;
    let mut middleware = RequestMetricsMiddleware::with_path_cardinality(cap);

    let mut labels = std::collections::HashSet::new();
    for i in 0..1000 {
        labels.insert(middleware.sanitize_path(&format!("/item/{i}")));
    }

    assert!(
        labels.len() <= cap + 1,
        "distinct labels {} exceeded cap+1 ({})",
        labels.len(),
        cap + 1
    );
    assert!(labels.contains(OTHER_PATH_LABEL));
}

#[test]
fn test_sanitize_path_multibyte_near_limit_does_not_panic() {
    let mut middleware = RequestMetricsMiddleware::with_path();
    // 40 x 4-byte emoji = 160 bytes; byte index 97 falls in the middle of a
    // codepoint.
    let path = "\u{1F389}".repeat(40);
    let sanitized = middleware.sanitize_path(&path);
    assert!(sanitized.ends_with("..."));
    assert!(sanitized.len() <= 100);
    assert!(std::str::from_utf8(sanitized.as_bytes()).is_ok());
}

#[test]
fn test_seen_paths_get_stable_labels() {
    let mut middleware = RequestMetricsMiddleware::with_path_cardinality(2);
    assert_eq!(middleware.sanitize_path("/a"), "/a");
    assert_eq!(middleware.sanitize_path("/b"), "/b");
    assert_eq!(middleware.sanitize_path("/a"), "/a");
    assert_eq!(middleware.sanitize_path("/c"), OTHER_PATH_LABEL);
}

#[test]
fn test_request_metrics_middleware_new() {
    let _middleware = RequestMetricsMiddleware::new();
}

#[test]
fn integration_tests_test_request_metrics_middleware_without_path() {
    let _middleware = RequestMetricsMiddleware::without_path();
}

#[test]
fn multibyte_truncation_keeps_whole_characters() {
    let mut middleware = RequestMetricsMiddleware::with_path();
    let path = "\u{1F389}".repeat(40);
    // 24 four-byte characters fit in 97 bytes, the 25th would not.
    let expected = "\u{1F389}".repeat(24) + "...";
    assert_eq!(middleware.sanitize_path(&path), expected);
}

#[test]
fn path_of_exactly_one_hundred_bytes_is_kept_whole() {
    let mut middleware = RequestMetricsMiddleware::with_path();
    let path = "/".to_string() + &"b".repeat(99);
    assert_eq!(path.len(), 100);
    assert_eq!(middleware.sanitize_path(&path), path);
    let longer = path.clone() + "c";
    let expected = "/".to_string() + &"b".repeat(96) + "...";
    assert_eq!(middleware.sanitize_path(&longer), expected);
}

#[test]
fn zero_cap_is_taken_as_one() {
    let mut middleware = RequestMetricsMiddleware::with_path_cardinality(0);
    assert_eq!(middleware.sanitize_path("/first"), "/first");
    assert_eq!(middleware.sanitize_path("/second"), OTHER_PATH_LABEL);
    assert_eq!(middleware.sanitize_path("/first"), "/first");
}

#[test]
fn distinct_labels_never_exceed_cap_plus_one_with_repeats() {
    let mut middleware = RequestMetricsMiddleware::with_path_cardinality(3);
    let mut labels = std::collections::HashSet::new();
    for i in 0..200 {
        labels.insert(middleware.sanitize_path(&format!("/r/{}", i % 7)));
    }
    assert_eq!(labels.len(), 4);
    // A folded path stays folded; an admitted one keeps its label.
    assert_eq!(middleware.sanitize_path("/r/6"), OTHER_PATH_LABEL);
    assert_eq!(middleware.sanitize_path("/r/0"), "/r/0");
}

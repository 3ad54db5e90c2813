use armature_metrics::{nearest_rank_index, summary_parts, SampleWindow};

#[test]
fn window_counts_every_observation_but_keeps_max_size() {
    let mut window: SampleWindow<u64> = SampleWindow::new(600_000_000_000, 10);
    for i in 0..1000u64 {
        window.observe(1_000, i);
    }
    assert_eq!(window.count(), 1000);
    assert_eq!(window.len(), 10);
    let mut values = Vec::new();
    window.fill_values(&mut values);
    assert_eq!(values, (990..1000).collect::<Vec<u64>>());
}

#[test]
fn window_drops_expired_observations() {
    let mut window: SampleWindow<u32> = SampleWindow::new(100, 50);
    window.observe(0, 1);
    window.observe(50, 2);
    window.observe(120, 3);
    // At 120 the observation made at 0 is 120 > 100 old.
    let mut values = Vec::new();
    window.fill_values(&mut values);
    assert_eq!(values, vec![2, 3]);
    window.trim(151);
    window.fill_values(&mut values);
    assert_eq!(values, vec![3]);
    // Exactly max_age old is still inside the window.
    window.trim(220);
    window.fill_values(&mut values);
    assert_eq!(values, vec![3]);
    assert_eq!(window.count(), 3);
}

#[test]
fn zero_max_size_is_taken_as_one() {
    let mut window: SampleWindow<u8> = SampleWindow::new(10, 0);
    window.observe(0, 1);
    window.observe(0, 2);
    assert_eq!(window.len(), 1);
    let mut values = vec![9, 9, 9];
    window.fill_values(&mut values);
    assert_eq!(values, vec![2]);
}

#[test]
fn nearest_rank_positions() {
    // Median of 100 values is the 50th (index 49).
    assert_eq!(nearest_rank_index(100, 50), 49);
    assert_eq!(nearest_rank_index(100, 0), 0);
    assert_eq!(nearest_rank_index(100, 100), 99);
    assert_eq!(nearest_rank_index(3, 7), 2);
}

#[test]
fn summary_parts_checks_name_and_help() {
    assert!(summary_parts::<f64>("ok_name".to_string(), "help".to_string(), 1, 1).is_ok());
    assert!(summary_parts::<f64>("ok_name".to_string(), "".to_string(), 1, 1).is_err());
    assert!(summary_parts::<f64>("9bad".to_string(), "help".to_string(), 1, 1).is_err());
    assert!(summary_parts::<f64>("".to_string(), "help".to_string(), 1, 1).is_err());
    assert!(summary_parts::<f64>("a:b_c9".to_string(), "h".to_string(), 1, 1).is_ok());
    let (desc, window) =
        summary_parts::<f64>("with_desc".to_string(), "Help text".to_string(), 5, 0).unwrap();
    assert_eq!(desc.fq_name, "with_desc");
    assert_eq!(desc.help, "Help text");
    assert_eq!(window.len(), 0);
}

fn nearest_rank(window: &SampleWindow<f64>, q: f64) -> Option<f64> {
    let mut values = Vec::new();
    window.fill_values(&mut values);
    if values.is_empty() {
        return None;
    }
    values.sort_by(|a, b| a.partial_cmp(b).unwrap());
    let n = values.len();
    let rank = (q.clamp(0.0, 1.0) * n as f64).ceil() as usize;
    Some(values[nearest_rank_index(n, rank)])
}

#[test]
fn window_supports_nearest_rank_quantiles() {
    let mut window: SampleWindow<f64> = SampleWindow::new(600_000_000_000, 5000);
    assert_eq!(nearest_rank(&window, 0.5), None);
    for v in [0.2, 0.6, 0.4] {
        window.observe(10, v);
    }
    assert_eq!(nearest_rank(&window, 0.5), Some(0.4));

    let mut window: SampleWindow<f64> = SampleWindow::new(600_000_000_000, 5000);
    for i in 1..=100 {
        window.observe(10, i as f64);
    }
    assert_eq!(nearest_rank(&window, 0.5), Some(50.0));
    assert_eq!(nearest_rank(&window, 0.99), Some(99.0));
    assert_eq!(nearest_rank(&window, 1.0), Some(100.0));
}

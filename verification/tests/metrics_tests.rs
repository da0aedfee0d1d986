use state_engine::metrics::AlertLevel;
use state_engine::metrics::MetricsCollector;
use state_engine::metrics::PerformanceMetrics;
use state_engine::metrics::TimeSeries;
use state_engine::metrics::TrendDirection;

#[test]
fn series_never_exceeds_its_sample_bound() {
    let mut ts = TimeSeries::new(3, 1_000_000);
    for i in 0..5i64 {
        ts.add_sample(i, Vec::new(), 1000 + i as u64);
    }
    assert_eq!(ts.get_samples().len(), 3);
    // The oldest two left first.
    assert_eq!(ts.get_samples()[0].value, 2);
    assert_eq!(ts.get_latest().unwrap().value, 4);
}

#[test]
fn series_drops_samples_past_retention() {
    let mut ts = TimeSeries::new(100, 1000);
    ts.add_sample(1, Vec::new(), 0);
    ts.add_sample(2, Vec::new(), 500);
    // At time 2000 the cutoff is 1000, so both earlier samples expire.
    ts.add_sample(3, Vec::new(), 2000);
    assert_eq!(ts.get_samples().len(), 1);
    assert_eq!(ts.get_samples()[0].value, 3);
}

#[test]
fn windowed_average_is_exact() {
    let mut ts = TimeSeries::new(100, 10_000_000);
    ts.add_sample(10, Vec::new(), 60_000);
    ts.add_sample(20, Vec::new(), 120_000);
    ts.add_sample(33, Vec::new(), 180_000);
    // A window of one minute before 180_000 covers the last two samples.
    assert_eq!(ts.calculate_average(1, 180_000), 26);
    // A wide window covers all three.
    assert_eq!(ts.calculate_average(60, 180_000), 21);
}

#[test]
fn anomalies_find_the_spike() {
    let mut ts = TimeSeries::new(100, 10_000_000);
    for i in 0..11u64 {
        let v: i64 = if i == 10 { 1000 } else { 10 };
        ts.add_sample(v, Vec::new(), i * 100);
    }
    let hits = ts.detect_anomalies(2);
    assert_eq!(hits.len(), 1);
    assert_eq!(hits[0].value, 1000);
}

#[test]
fn anomalies_found_even_in_short_series() {
    let mut ts = TimeSeries::new(100, 10_000_000);
    for i in 0..5u64 {
        let v: i64 = if i == 4 { 500 } else { 1 };
        ts.add_sample(v, Vec::new(), i * 10);
    }
    let hits = ts.detect_anomalies(1);
    assert_eq!(hits.len(), 1);
    assert_eq!(hits[0].value, 500);
}

#[test]
fn a_lone_sample_is_no_anomaly() {
    let mut ts = TimeSeries::new(100, 10_000_000);
    ts.add_sample(1000, Vec::new(), 0);
    assert_eq!(ts.detect_anomalies(2).len(), 0);
}

#[test]
fn trend_points_up_down_and_flat() {
    let mut up = TimeSeries::new(100, 10_000_000);
    let mut down = TimeSeries::new(100, 10_000_000);
    let mut flat = TimeSeries::new(100, 10_000_000);
    for i in 0..10i64 {
        up.add_sample(10 * i, Vec::new(), i as u64);
        down.add_sample(-10 * i, Vec::new(), i as u64);
        flat.add_sample(7, Vec::new(), i as u64);
    }
    assert_eq!(up.analyze_trend().direction, TrendDirection::Increasing);
    assert_eq!(down.analyze_trend().direction, TrendDirection::Decreasing);
    assert_eq!(flat.analyze_trend().direction, TrendDirection::Stable);
}

#[test]
fn trend_slope_is_the_exact_rational() {
    let mut ts = TimeSeries::new(100, 10_000_000);
    // y = 3x: slope must be exactly 3.
    for i in 0..5i64 {
        ts.add_sample(3 * i, Vec::new(), i as u64);
    }
    let t = ts.analyze_trend();
    assert_eq!(t.slope_num, 3 * t.slope_den);
    assert!(t.slope_den > 0);
    // A perfect fit has full confidence.
    assert_eq!(t.r2_num, t.r2_den);
}

#[test]
fn counters_fold_calls_and_errors() {
    let mut m = PerformanceMetrics::new();
    m.record_execution(100, true);
    m.record_execution(300, true);
    m.record_execution(50, false);
    assert_eq!(m.function_calls, 3);
    assert_eq!(m.errors, 1);
    assert_eq!(m.total_execution_time, 400);
    assert_eq!(m.min_execution_time, 100);
    assert_eq!(m.max_execution_time, 300);
    assert_eq!(m.avg_execution_time(), 133);
    assert_eq!(m.success_rate_percent(), 66);
    assert_eq!(m.error_rate_percent(), 34);
}

#[test]
fn collector_records_and_reports() {
    let mut c = MetricsCollector::new(0);
    c.register_container("app");
    c.record_function_call("app", "work", 50, 1000);
    c.record_function_call("app", "work", 2000, 2000);
    let m = c.get_container_metrics("app").unwrap();
    assert_eq!(m.function_calls, 2);
    // The second call crossed the execution-time threshold and counts as an
    // error.
    assert_eq!(m.errors, 1);
    let series = c.get_time_series("app", "execution_time").unwrap();
    assert_eq!(series.get_samples().len(), 2);
    assert_eq!(series.get_samples()[1].value, 2000);
}

#[test]
fn alerts_raised_on_crossed_thresholds() {
    let c = MetricsCollector::new(0);
    let mut m = PerformanceMetrics::new();
    m.record_execution(5000, true);
    m.update_resource_usage(95, 10);
    let alerts = c.generate_alerts(&m);
    assert!(alerts.iter().any(|a| a.metric == "execution_time" && a.level == AlertLevel::Warning));
    assert!(alerts.iter().any(|a| a.metric == "memory_pressure" && a.level == AlertLevel::Critical));
}

#[test]
fn quiet_metrics_raise_no_alerts() {
    let c = MetricsCollector::new(0);
    let mut m = PerformanceMetrics::new();
    m.record_execution(10, true);
    assert_eq!(c.generate_alerts(&m).len(), 0);
}

#[test]
fn recommendations_follow_the_counters() {
    let c = MetricsCollector::new(0);
    let mut m = PerformanceMetrics::new();
    m.record_execution(900, true);
    let recs = c.generate_recommendations(&m);
    assert!(recs.iter().any(|r| r.category == "performance"));
}

#[test]
fn monitoring_can_be_switched_off() {
    let mut c = MetricsCollector::new(0);
    c.register_container("quiet");
    c.enable_monitoring(false);
    c.record_function_call("quiet", "work", 50, 1000);
    assert_eq!(c.get_container_metrics("quiet").unwrap().function_calls, 0);
}

#[test]
fn unregister_removes_the_container() {
    let mut c = MetricsCollector::new(0);
    c.register_container("gone");
    c.unregister_container("gone");
    assert!(c.get_container_metrics("gone").is_none());
}

#[test]
fn cpu_alert_raised_past_its_threshold() {
    let c = MetricsCollector::new(0);
    let mut m = PerformanceMetrics::new();
    m.update_resource_usage(10, 95);
    let alerts = c.generate_alerts(&m);
    assert_eq!(alerts.len(), 1);
    assert_eq!(alerts[0].metric, "cpu_utilization");
    assert_eq!(alerts[0].level, AlertLevel::Warning);
    assert_eq!(alerts[0].value, 95);
    assert_eq!(alerts[0].threshold, 80);
}

#[test]
fn report_bundles_counters_trends_and_alerts() {
    let mut c = MetricsCollector::new(0);
    c.register_container("app");
    for i in 0..6u64 {
        c.record_function_call("app", "work", 2000 + i, 1000 * (i + 1));
    }
    let rep = c.generate_performance_report("app", 7000).unwrap();
    assert_eq!(rep.container_id, "app");
    assert_eq!(rep.generated_at, 7000);
    assert_eq!(rep.metrics.function_calls, 6);
    assert_eq!(rep.trends.len(), 5);
    assert_eq!(rep.trends[0].metric, "execution_time");
    assert_eq!(rep.trends[0].trend.direction, TrendDirection::Increasing);
    // Every call failed against the one-second threshold, so the error rate
    // alert fires; with no successful time on record the mean stays zero.
    assert!(rep.alerts.iter().any(|a| a.metric == "error_rate"));
    assert!(c.generate_performance_report("ghost", 0).is_none());
}

#[test]
fn cleanup_drops_expired_series_samples() {
    let mut c = MetricsCollector::new(0);
    c.register_container("old");
    c.record_function_call("old", "f", 5, 1000);
    // A day plus a second later the early sample has expired.
    c.cleanup_old_data(86_401_001);
    let series = c.get_time_series("old", "execution_time").unwrap();
    assert_eq!(series.get_samples().len(), 0);
}

#[test]
fn series_prune_keeps_fresh_samples() {
    let mut ts = TimeSeries::new(10, 1000);
    ts.add_sample(1, Vec::new(), 100);
    ts.add_sample(2, Vec::new(), 1500);
    ts.prune(2000);
    assert_eq!(ts.get_samples().len(), 1);
    assert_eq!(ts.get_samples()[0].value, 2);
}

#[test]
fn percentile_is_the_nearest_rank_order_statistic() {
    let mut ts = TimeSeries::new(100, 10_000_000);
    for v in [50i64, 10, 40, 20, 30] {
        ts.add_sample(v, Vec::new(), 0);
    }
    // Sorted values are 10, 20, 30, 40, 50.
    assert_eq!(ts.calculate_percentile(0), 10);
    assert_eq!(ts.calculate_percentile(50), 30);
    assert_eq!(ts.calculate_percentile(100), 50);
    // 90% of the top index 4 is 3.6, rounding to index 4.
    assert_eq!(ts.calculate_percentile(90), 50);
    // 60% rounds to index 2.
    assert_eq!(ts.calculate_percentile(60), 30);
    let empty = TimeSeries::new(10, 1000);
    assert_eq!(empty.calculate_percentile(50), 0);
}

#[test]
fn recommendations_list_is_exact() {
    let c = MetricsCollector::new(0);
    let mut m = PerformanceMetrics::new();
    // Quiet counters warrant nothing.
    assert_eq!(c.generate_recommendations(&m).len(), 0);
    // Slow calls and high pressure warrant exactly two, in order.
    m.record_execution(900, true);
    m.update_resource_usage(80, 10);
    let recs = c.generate_recommendations(&m);
    assert_eq!(recs.len(), 2);
    assert_eq!(recs[0].category, "performance");
    assert_eq!(recs[1].category, "memory");
}

#[test]
fn throughput_recorded_against_the_window() {
    let mut c = MetricsCollector::new(0);
    c.register_container("tp");
    for i in 0..10u64 {
        c.record_function_call("tp", "f", 1, 100 * i);
    }
    // Ten calls over a five-second window: two calls per second.
    c.record_throughput("tp", 5000);
    let m = c.get_container_metrics("tp").unwrap();
    assert_eq!(m.throughput_per_sec, 2);
    let series = c.get_time_series("tp", "throughput").unwrap();
    assert_eq!(series.get_samples().len(), 1);
    assert_eq!(series.get_samples()[0].value, 2);
}

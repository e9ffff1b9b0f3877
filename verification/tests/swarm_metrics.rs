use atlas_sphere::metrics::{MetricsCollector, SwarmMetrics};

#[test]
fn record_task_counts_everything() {
    let mut m = MetricsCollector::new();
    m.record_task("v1", 10, true, false, 100);
    m.record_task("v1", 30, false, true, 101);
    m.record_task("v2", 5, true, false, 102);
    let s = m.get_swarm_metrics();
    assert_eq!(s.total_tasks, 3);
    assert_eq!(s.successful_tasks, 2);
    assert_eq!(s.failed_tasks, 1);
    assert_eq!(s.divergent_tasks, 1);
    let v1 = m.get_validator_metrics("v1").unwrap();
    assert_eq!(v1.validator_id, "v1");
    assert_eq!(v1.tasks_completed, 2);
    assert_eq!(v1.tasks_failed, 1);
    assert_eq!(v1.divergences, 1);
    assert_eq!(v1.last_task_at, Some(101));
    assert_eq!(v1.total_latency_ms, 40);
    assert!(m.get_validator_metrics("v3").is_none());
    assert_eq!(m.get_counter("tasks_total"), 3);
    assert_eq!(m.get_counter("tasks_success"), 2);
    assert_eq!(m.get_counter("tasks_failed"), 1);
    assert_eq!(m.get_counter("tasks_divergent"), 1);
    assert_eq!(m.get_counter("unknown"), 0);
    assert_eq!(m.latencies(), &vec![10, 30, 5]);
    assert_eq!(m.get_all_validator_metrics().len(), 2);
}

#[test]
fn counters_wrap_and_fallbacks_count() {
    let mut m = MetricsCollector::new();
    m.increment("x", u64::MAX);
    m.increment("x", 2);
    assert_eq!(m.get_counter("x"), 1);
    m.record_cpu_fallback();
    assert_eq!(m.get_counter("cpu_fallbacks"), 1);
    assert_eq!(m.get_swarm_metrics().cpu_fallbacks, 1);
}

#[test]
fn latency_window_drops_the_oldest_thousand() {
    let mut m = MetricsCollector::new();
    for i in 0..10_001u64 {
        m.record_task("v", i, true, false, 0);
    }
    assert_eq!(m.latencies().len(), 9_001);
    assert_eq!(m.latencies()[0], 1_000);
    assert_eq!(m.latencies()[9_000], 10_000);
}

#[test]
fn validator_counts_and_reset() {
    let mut m = MetricsCollector::new();
    m.update_validator_count(5, 4, 1);
    let s = m.get_swarm_metrics();
    assert_eq!((s.total_validators, s.active_validators, s.quarantined_validators), (5, 4, 1));
    m.record_task("v", 1, true, false, 0);
    m.reset();
    assert_eq!(m.get_swarm_metrics(), SwarmMetrics::zero());
    assert!(m.latencies().is_empty());
    assert_eq!(m.get_counter("tasks_total"), 0);
    assert!(m.get_validator_metrics("v").is_none());
}

use knowledge_observer::store::observer_stats::{
    count_in_window, count_within, prune, record_run, set_paused, ObserverStats, RunRec, KEEP_SECS,
};

fn rec(at: u64) -> RunRec {
    RunRec { at, ops: 1, ok: true }
}

#[test]
fn count_within_windows() {
    let now = 1_000_000u64;
    let recent = vec![
        rec(now),                 // 0s ago
        rec(now - 5 * 60),        // 5m ago
        rec(now - 30 * 60),       // 30m ago
        rec(now - 2 * 60 * 60),   // 2h ago
        rec(now - 23 * 60 * 60),  // 23h ago
    ];
    assert_eq!(count_within(&recent, now, 10 * 60), 2); // now + 5m
    assert_eq!(count_within(&recent, now, 60 * 60), 3); // + 30m
    assert_eq!(count_within(&recent, now, 24 * 60 * 60), 5); // all
}

#[test]
fn count_within_handles_clock_skew() {
    // now < record.at must not panic; saturating cutoff → all counted.
    let recent = vec![rec(100), rec(200)];
    assert_eq!(count_within(&recent, 50, 10), 2);
}

#[test]
fn prune_drops_old_keeps_recent() {
    let now = 1_000_000u64;
    let keep = 24 * 60 * 60;
    let recent = vec![
        rec(now),                       // keep
        rec(now - 60),                  // keep
        rec(now - keep + 1),            // keep (just inside)
        rec(now - keep - 1),            // drop (just outside)
        rec(now - 48 * 60 * 60),        // drop (2 days)
    ];
    let pruned = prune(recent, now, keep);
    assert_eq!(pruned.len(), 3);
    assert!(pruned.iter().all(|r| r.at >= now - keep));
}

#[test]
fn old_record_excluded_from_windows() {
    // Synthetic timestamps: an old record is pruned/excluded from the windows.
    let now = 1_000_000u64;
    let recent = vec![
        rec(now),
        rec(now - 25 * 60 * 60), // older than 24h → pruned out
    ];
    let pruned = prune(recent, now, KEEP_SECS);
    assert_eq!(pruned.len(), 1, "the >24h record is pruned");
    assert_eq!(count_within(&pruned, now, 24 * 60 * 60), 1);
    assert_eq!(count_within(&pruned, now, 60 * 60), 1);
}

#[test]
fn record_run_roundtrip_two_calls() {
    let mut stats = ObserverStats::default();
    record_run(&mut stats, 1_000_000, 3, true, 45);
    record_run(&mut stats, 1_000_060, 0, false, 45);
    assert_eq!(stats.schema, 1);
    assert_eq!(stats.total_runs, 2);
    assert_eq!(stats.recent.len(), 2);
    assert_eq!(stats.runs_10m, 2);
    assert_eq!(stats.runs_1h, 2);
    assert_eq!(stats.runs_24h, 2);
    assert_eq!(stats.last_ops, 0);
    assert!(!stats.last_ok);
    assert_eq!(stats.min_interval_secs, 45);
    assert_eq!(stats.last_run_at, 1_000_060);
    assert_eq!(stats.updated_at, 1_000_060);
}

#[test]
fn record_run_forgets_what_is_older_than_a_day() {
    let mut stats = ObserverStats::default();
    record_run(&mut stats, 1_000_000, 1, true, 45);
    record_run(&mut stats, 1_000_000 + KEEP_SECS + 1, 2, true, 45);
    assert_eq!(stats.total_runs, 2);
    assert_eq!(stats.recent, vec![RunRec { at: 1_000_000 + KEEP_SECS + 1, ops: 2, ok: true }]);
    assert_eq!(stats.runs_24h, 1);
}

#[test]
fn count_in_window_counts_recent_runs() {
    let mut stats = ObserverStats::default();
    for _ in 0..3 {
        record_run(&mut stats, 5_000, 1, true, 45);
    }
    assert_eq!(count_in_window(&stats, 5_000, 10 * 60), 3);
    assert_eq!(count_in_window(&stats, 5_000, 0), 3);
    assert_eq!(count_in_window(&stats, 5_001, 0), 0);
    assert_eq!(count_in_window(&ObserverStats::default(), 5_000, 10 * 60), 0);
}

#[test]
fn set_paused_then_record_run_clears_it() {
    let mut s = ObserverStats::default();
    set_paused(&mut s, 77, "circuit breaker tripped");
    assert!(s.paused);
    assert_eq!(s.paused_reason, "circuit breaker tripped");
    assert_eq!(s.updated_at, 77);
    assert_eq!(s.total_runs, 0, "a blocked spawn is not a run");
    assert!(s.recent.is_empty());
    record_run(&mut s, 80, 2, true, 45);
    assert!(!s.paused);
    assert_eq!(s.paused_reason, "");
    assert_eq!(s.total_runs, 1);
}

#[test]
fn wider_windows_count_at_least_as_many() {
    let now = 1_000_000u64;
    let recent = vec![rec(now - 10), rec(now - 700), rec(now - 4_000)];
    assert_eq!(count_within(&recent, now, 600), 1);
    assert_eq!(count_within(&recent, now, 3_600), 2);
    assert_eq!(count_within(&recent, now, 86_400), 3);
    let kept = prune(recent.clone(), now, 3_600);
    assert_eq!(count_within(&kept, now, 600), count_within(&recent, now, 600));
}

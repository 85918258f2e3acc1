use pingzilla::history::{HistoryStore, PingResult, ProbeMethod, compute_statistics};

fn sample(ts: u64, latency: Option<u32>) -> PingResult {
    PingResult {
        timestamp_ms: ts,
        latency_ms: latency,
        target: "1.1.1.1".to_string(),
        method: latency.map(|_| ProbeMethod::Icmp),
    }
}

#[test]
fn stats_over_empty_window() {
    let samples: Vec<PingResult> = Vec::new();
    let stats = compute_statistics(&samples, 1_000_000, 5);
    assert_eq!(stats.min_ms, None);
    assert_eq!(stats.max_ms, None);
    assert_eq!(stats.avg_ms, None);
    assert_eq!(stats.packet_loss_pct_hundredths, 0);
    assert_eq!(stats.total_pings, 0);
    assert_eq!(stats.failed_pings, 0);
}

#[test]
fn stats_ignore_samples_outside_the_window() {
    let now: u64 = 10 * 60_000;
    // One old sample outside the five-minute window, none inside.
    let samples = vec![sample(1_000, Some(42))];
    let stats = compute_statistics(&samples, now, 5);
    assert_eq!(stats.total_pings, 0);
    assert_eq!(stats.min_ms, None);
    assert_eq!(stats.packet_loss_pct_hundredths, 0);
}

#[test]
fn stats_over_mixed_window() {
    let now: u64 = 60_000;
    let samples = vec![
        sample(now - 3_000, Some(50)),
        sample(now - 2_000, None),
        sample(now - 1_000, Some(150)),
    ];
    let stats = compute_statistics(&samples, now, 5);
    assert_eq!(stats.min_ms, Some(50));
    assert_eq!(stats.max_ms, Some(150));
    assert_eq!(stats.avg_ms, Some(100));
    assert_eq!(stats.total_pings, 3);
    assert_eq!(stats.failed_pings, 1);
    assert_eq!(stats.packet_loss_pct_hundredths, 3333);
}

#[test]
fn append_keeps_only_the_most_recent_cap_samples() {
    let mut store = HistoryStore::new(3);
    let target = "1.1.1.1".to_string();
    for i in 0..5u64 {
        store.append(&target, sample(i, Some(i as u32)));
    }
    let kept = store.samples_of(&target);
    assert_eq!(kept.len(), 3);
    assert_eq!(kept[0].timestamp_ms, 2);
    assert_eq!(kept[1].timestamp_ms, 3);
    assert_eq!(kept[2].timestamp_ms, 4);
}

#[test]
fn append_under_cap_keeps_everything_in_order() {
    let mut store = HistoryStore::new(10);
    let target = "t".to_string();
    store.append(&target, sample(1, None));
    store.append(&target, sample(2, Some(7)));
    let kept = store.samples_of(&target);
    assert_eq!(kept.len(), 2);
    assert_eq!(kept[0].timestamp_ms, 1);
    assert_eq!(kept[1].latency_ms, Some(7));
}

#[test]
fn latest_of_returns_the_tail_sample() {
    let mut store = HistoryStore::new(5);
    let target = "t".to_string();
    assert!(store.latest_of(&target).is_none());
    store.append(&target, sample(1, Some(10)));
    store.append(&target, sample(2, Some(20)));
    let last = store.latest_of(&target).unwrap();
    assert_eq!(last.timestamp_ms, 2);
    assert_eq!(last.latency_ms, Some(20));
}

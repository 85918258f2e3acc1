use pingzilla::codec::{encode_snapshot, Snapshot};
use pingzilla::decode::{decode_legacy_samples, decode_snapshot};
use pingzilla::engine::{load_state, restore_snapshot, snapshot_ok};
use pingzilla::history::{PingResult, ProbeMethod, TargetEntry};
use pingzilla::identity::VpnSettings;
use pingzilla::site::SiteMonitorConfig;

fn sample(target: &str, ts: u64, latency: Option<u32>, method: Option<ProbeMethod>) -> PingResult {
    PingResult { timestamp_ms: ts, latency_ms: latency, target: target.to_string(), method }
}

fn vpn() -> VpnSettings {
    VpnSettings {
        enabled: true,
        check_interval_secs: 90,
        alert_on_country_change: true,
        alert_on_ip_change: false,
        expected_country: Some("DE".to_string()),
    }
}

fn populated_snapshot() -> Snapshot {
    Snapshot {
        history: vec![
            TargetEntry {
                target: "1.1.1.1".to_string(),
                samples: vec![
                    sample("1.1.1.1", 1_000, Some(12), Some(ProbeMethod::Icmp)),
                    sample("1.1.1.1", 2_000, None, None),
                    sample("1.1.1.1", 3_000, Some(40), Some(ProbeMethod::TcpHttps)),
                ],
            },
            TargetEntry {
                target: "8.8.8.8".to_string(),
                samples: vec![sample("8.8.8.8", 2_500, Some(9), Some(ProbeMethod::TcpDns))],
            },
        ],
        targets: vec!["1.1.1.1".to_string(), "8.8.8.8".to_string()],
        primary_target: "8.8.8.8".to_string(),
        notification_threshold_ms: 250,
        site_monitors: vec![
            SiteMonitorConfig {
                url: "https://status.example".to_string(),
                name: Some("Status".to_string()),
                enabled: true,
            },
            SiteMonitorConfig {
                url: "http://plain.example:8080".to_string(),
                name: None,
                enabled: false,
            },
        ],
        vpn_settings: vpn(),
        ping_interval_secs: 15,
    }
}

#[test]
fn minimal_snapshot_encodes_to_the_exact_document() {
    let snap = Snapshot {
        history: Vec::new(),
        targets: vec!["a".to_string()],
        primary_target: "a".to_string(),
        notification_threshold_ms: 400,
        site_monitors: Vec::new(),
        vpn_settings: VpnSettings {
            enabled: false,
            check_interval_secs: 60,
            alert_on_country_change: true,
            alert_on_ip_change: true,
            expected_country: None,
        },
        ping_interval_secs: 10,
    };
    let text = encode_snapshot(&snap);
    let expected = "{\"history\":{},\"targets\":[\"a\"],\"primary_target\":\"a\",\"notification_threshold_ms\":400,\"site_monitors\":[],\"vpn_settings\":{\"enabled\":false,\"check_interval_secs\":60,\"alert_on_country_change\":true,\"alert_on_ip_change\":true,\"expected_country\":null},\"ping_interval_secs\":10}";
    assert_eq!(text, expected);
}

#[test]
fn snapshot_round_trips_through_the_codec() {
    let snap = populated_snapshot();
    let text = encode_snapshot(&snap);
    let back = decode_snapshot(&text).expect("canonical document decodes");

    assert_eq!(back.targets, snap.targets);
    assert_eq!(back.primary_target, snap.primary_target);
    assert_eq!(back.notification_threshold_ms, snap.notification_threshold_ms);
    assert_eq!(back.ping_interval_secs, snap.ping_interval_secs);
    assert_eq!(back.history.len(), 2);
    assert_eq!(back.history[0].target, "1.1.1.1");
    assert_eq!(back.history[0].samples.len(), 3);
    assert_eq!(back.history[0].samples[0].latency_ms, Some(12));
    assert_eq!(back.history[0].samples[0].method, Some(ProbeMethod::Icmp));
    assert_eq!(back.history[0].samples[1].latency_ms, None);
    assert_eq!(back.history[0].samples[1].method, None);
    assert_eq!(back.history[1].samples[0].method, Some(ProbeMethod::TcpDns));
    assert_eq!(back.site_monitors.len(), 2);
    assert_eq!(back.site_monitors[0].url, "https://status.example");
    assert_eq!(back.site_monitors[0].name, Some("Status".to_string()));
    assert!(back.site_monitors[0].enabled);
    assert_eq!(back.site_monitors[1].name, None);
    assert!(back.vpn_settings.enabled);
    assert_eq!(back.vpn_settings.expected_country, Some("DE".to_string()));
    assert_eq!(back.vpn_settings.check_interval_secs, 90);
    assert!(!back.vpn_settings.alert_on_ip_change);
}

#[test]
fn decode_rejects_garbage_and_truncation() {
    assert!(decode_snapshot("").is_none());
    assert!(decode_snapshot("not json").is_none());
    let text = encode_snapshot(&populated_snapshot());
    let truncated = &text[..text.len() - 1];
    assert!(decode_snapshot(truncated).is_none());
    let trailing = format!("{} ", text);
    assert!(decode_snapshot(&trailing).is_none());
}

#[test]
fn legacy_bare_array_still_loads() {
    let legacy = "[{\"timestamp\":1000,\"latency_ms\":17,\"target\":\"9.9.9.9\",\"method\":\"Icmp\"},{\"timestamp\":2000,\"latency_ms\":null,\"target\":\"9.9.9.9\",\"method\":null}]";
    let samples = decode_legacy_samples(legacy).expect("legacy array decodes");
    assert_eq!(samples.len(), 2);
    assert_eq!(samples[0].latency_ms, Some(17));
    assert_eq!(samples[1].method, None);

    // Migration infers the single target from the first fresh sample.
    let state = load_state(legacy, 10_000);
    assert_eq!(state.get_targets(), vec!["9.9.9.9".to_string()]);
    let kept = state.get_ping_history(None);
    assert_eq!(kept.len(), 2);
}

#[test]
fn restore_filters_to_the_day_window() {
    let now: u64 = 200_000_000;
    let old_ts = now - 86_400_000; // exactly a day: not strictly newer, dropped
    let fresh_ts = now - 1_000;
    let snap = Snapshot {
        history: vec![TargetEntry {
            target: "1.1.1.1".to_string(),
            samples: vec![
                sample("1.1.1.1", old_ts, Some(5), Some(ProbeMethod::Icmp)),
                sample("1.1.1.1", fresh_ts, Some(6), Some(ProbeMethod::Icmp)),
            ],
        }],
        targets: vec!["1.1.1.1".to_string()],
        primary_target: "1.1.1.1".to_string(),
        notification_threshold_ms: 400,
        site_monitors: Vec::new(),
        vpn_settings: vpn(),
        ping_interval_secs: 10,
    };
    assert!(snapshot_ok(&snap));
    let state = restore_snapshot(&snap, now);
    let kept = state.get_ping_history(None);
    assert_eq!(kept.len(), 1);
    assert_eq!(kept[0].timestamp_ms, fresh_ts);
}

#[test]
fn load_state_round_trips_a_saved_engine() {
    let now: u64 = 500_000;
    let snap = populated_snapshot();
    let text = encode_snapshot(&snap);
    let state = load_state(&text, now);
    assert_eq!(state.get_targets(), snap.targets);
    let (primary, threshold, _) = state.get_settings();
    assert_eq!(primary, "8.8.8.8");
    assert_eq!(threshold, 250);
    assert_eq!(state.get_ping_interval(), 15);
    let restored = state.get_ping_history(Some(&"1.1.1.1".to_string()));
    assert_eq!(restored.len(), 3);
    assert_eq!(restored[2].latency_ms, Some(40));
    let vpn_back = state.get_vpn_settings();
    assert_eq!(vpn_back.expected_country, Some("DE".to_string()));

    // An unreadable file falls back to the out-of-the-box default.
    let fallback = load_state("###", now);
    assert_eq!(fallback.get_targets(), vec!["1.1.1.1".to_string()]);
}

#[test]
fn saving_after_loading_reproduces_the_document() {
    // All timestamps fresh relative to `now`, so the day filter keeps them
    // and a save right after a load writes the identical document.
    let now: u64 = 5_000;
    let snap = populated_snapshot();
    let text = encode_snapshot(&snap);
    let state = load_state(&text, now);
    let again = encode_snapshot(&state.snapshot());
    assert_eq!(again, text);
}


#[test]
fn engine_state_survives_a_save_and_load() {
    let mut state = pingzilla::engine::AppState::default();
    state.add_target("8.8.8.8".to_string()).unwrap();
    let t = "8.8.8.8".to_string();
    state.record_probe(&t, sample("8.8.8.8", 4_000, Some(21), Some(ProbeMethod::Icmp)), 4_000);
    state.set_notification_threshold(123);
    state.set_ping_interval(30).unwrap();

    let text = encode_snapshot(&state.snapshot());
    let back = load_state(&text, 5_000);
    assert_eq!(back.get_targets(), state.get_targets());
    let (primary, threshold, _) = back.get_settings();
    assert_eq!(primary, "1.1.1.1");
    assert_eq!(threshold, 123);
    assert_eq!(back.get_ping_interval(), 30);
    let kept = back.get_ping_history(Some(&t));
    assert_eq!(kept.len(), 1);
    assert_eq!(kept[0].latency_ms, Some(21));
}


#[test]
fn legacy_array_with_mixed_targets_migrates_under_one_key() {
    let legacy = "[{\"timestamp\":1000,\"latency_ms\":3,\"target\":\"9.9.9.9\",\"method\":\"Icmp\"},{\"timestamp\":2000,\"latency_ms\":4,\"target\":\"other.example\",\"method\":\"Icmp\"}]";
    let state = load_state(legacy, 10_000);
    assert_eq!(state.get_targets(), vec!["9.9.9.9".to_string()]);
    let kept = state.get_ping_history(None);
    assert_eq!(kept.len(), 2);
    assert_eq!(kept[1].target, "9.9.9.9");
}

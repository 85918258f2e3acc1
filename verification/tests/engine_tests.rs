use pingzilla::engine::AppState;
use pingzilla::history::{PingResult, ProbeMethod};
use pingzilla::tray::IconClass;

fn sample(target: &str, ts: u64, latency: Option<u32>) -> PingResult {
    PingResult {
        timestamp_ms: ts,
        latency_ms: latency,
        target: target.to_string(),
        method: latency.map(|_| ProbeMethod::Icmp),
    }
}

#[test]
fn default_state_has_one_primary_target() {
    let state = AppState::default();
    assert_eq!(state.get_targets(), vec!["1.1.1.1".to_string()]);
    let (primary, threshold, mode) = state.get_settings();
    assert_eq!(primary, "1.1.1.1");
    assert_eq!(threshold, 400);
    assert_eq!(mode, "icon_and_ping");
    assert_eq!(state.get_ping_interval(), 10);
}

#[test]
fn removing_a_non_primary_member_keeps_the_primary() {
    let mut state = AppState::default();
    state.add_target("8.8.8.8".to_string()).unwrap();
    state.add_target("9.9.9.9".to_string()).unwrap();
    let victim = "8.8.8.8".to_string();
    state.remove_target(&victim).unwrap();
    let (primary, _, _) = state.get_settings();
    assert_eq!(primary, "1.1.1.1");
    assert_eq!(state.get_targets(), vec!["1.1.1.1".to_string(), "9.9.9.9".to_string()]);
}

#[test]
fn removing_the_primary_reassigns_to_a_remaining_member() {
    let mut state = AppState::default();
    state.add_target("8.8.8.8".to_string()).unwrap();
    let old_primary = "1.1.1.1".to_string();
    state.remove_target(&old_primary).unwrap();
    let (primary, _, _) = state.get_settings();
    assert_eq!(primary, "8.8.8.8");
}

#[test]
fn removing_the_last_target_is_rejected() {
    let mut state = AppState::default();
    let only = "1.1.1.1".to_string();
    assert!(state.remove_target(&only).is_err());
    assert_eq!(state.get_targets(), vec!["1.1.1.1".to_string()]);
    let (primary, _, _) = state.get_settings();
    assert_eq!(primary, "1.1.1.1");
}

#[test]
fn adding_an_existing_target_changes_nothing() {
    let mut state = AppState::default();
    state.add_target("1.1.1.1".to_string()).unwrap();
    assert_eq!(state.get_targets().len(), 1);
}

#[test]
fn primary_must_be_a_member() {
    let mut state = AppState::default();
    let missing = "8.8.8.8".to_string();
    assert!(state.set_primary_target(&missing).is_err());
    state.add_target("8.8.8.8".to_string()).unwrap();
    assert!(state.set_primary_target(&missing).is_ok());
    let (primary, _, _) = state.get_settings();
    assert_eq!(primary, "8.8.8.8");
}

#[test]
fn ping_interval_bounds() {
    let mut state = AppState::default();
    assert!(state.set_ping_interval(4).is_err());
    assert_eq!(state.get_ping_interval(), 10);
    assert!(state.set_ping_interval(121).is_err());
    assert_eq!(state.get_ping_interval(), 10);
    assert!(state.set_ping_interval(5).is_ok());
    assert_eq!(state.get_ping_interval(), 5);
    assert!(state.set_ping_interval(120).is_ok());
    assert_eq!(state.get_ping_interval(), 120);
}

#[test]
fn display_mode_names_round_trip() {
    let mut state = AppState::default();
    assert!(state.set_display_mode("garbage").is_err());
    let rendered = state.set_display_mode("ping_only").unwrap();
    assert_eq!(rendered.icon, IconClass::Transparent);
    let (_, _, mode) = state.get_settings();
    assert_eq!(mode, "ping_only");
    assert!(state.set_display_mode("icon_only").is_ok());
    assert!(state.set_display_mode("icon_and_ping").is_ok());
}

#[test]
fn record_probe_renders_and_rate_limits_alerts() {
    let mut state = AppState::default();
    let target = "1.1.1.1".to_string();
    state.set_notification_threshold(100);

    // Below the threshold: a first render, no alert.
    let first = state.record_probe(&target, sample("1.1.1.1", 1_000, Some(50)), 1_000);
    assert!(first.render.is_some());
    assert!(!first.notified);

    // The same reduction again (same latency, same label): no redraw.
    let second = state.record_probe(&target, sample("1.1.1.1", 2_000, Some(50)), 2_000);
    assert!(second.render.is_none());
    assert!(!second.notified);

    // Over the threshold: redraw (label changes) and a first alert.
    let third = state.record_probe(&target, sample("1.1.1.1", 3_000, Some(500)), 3_000);
    assert!(third.render.is_some());
    assert!(third.notified);

    // Still over the threshold 10 s later: suppressed by the cooldown.
    let fourth = state.record_probe(&target, sample("1.1.1.1", 13_000, Some(600)), 13_000);
    assert!(!fourth.notified);

    // After the cooldown the alert fires again.
    let fifth = state.record_probe(&target, sample("1.1.1.1", 64_000, Some(600)), 64_000);
    assert!(fifth.notified);
}

#[test]
fn record_probe_for_secondary_target_never_renders() {
    let mut state = AppState::default();
    state.add_target("8.8.8.8".to_string()).unwrap();
    let secondary = "8.8.8.8".to_string();
    let out = state.record_probe(&secondary, sample("8.8.8.8", 1_000, Some(999)), 1_000);
    assert!(out.render.is_none());
    assert!(!out.notified);
    assert_eq!(state.get_ping_history(Some(&secondary)).len(), 1);
}

#[test]
fn statistics_default_to_the_primary_and_five_minutes() {
    let mut state = AppState::default();
    let target = "1.1.1.1".to_string();
    let now: u64 = 10 * 60_000;
    state.record_probe(&target, sample("1.1.1.1", now - 1_000, Some(30)), now - 1_000);
    state.record_probe(&target, sample("1.1.1.1", now - 2_000, None), now - 2_000);
    let latest = state.get_current_ping(None).unwrap();
    assert_eq!(latest.timestamp_ms, now - 2_000);
    assert_eq!(latest.latency_ms, None);
    assert!(state.get_current_ping(Some(&"nowhere".to_string())).is_none());
    let stats = state.get_statistics(None, None, now);
    assert_eq!(stats.total_pings, 2);
    assert_eq!(stats.failed_pings, 1);
    assert_eq!(stats.min_ms, Some(30));
    assert_eq!(stats.packet_loss_pct_hundredths, 5000);
}


#[test]
fn mutations_carry_the_original_error_messages() {
    let mut state = AppState::default();
    let only = "1.1.1.1".to_string();
    assert_eq!(
        state.remove_target(&only),
        Err("Cannot remove the last target".to_string())
    );
    let missing = "8.8.8.8".to_string();
    assert_eq!(state.set_primary_target(&missing), Err("Target not found".to_string()));
    match state.set_display_mode("bogus") {
        Err(msg) => assert_eq!(msg, "Invalid display mode"),
        Ok(_) => panic!("an unknown mode name must be rejected"),
    }
    assert_eq!(
        state.set_ping_interval(4),
        Err("Ping interval must be between 5 and 120 seconds".to_string())
    );
}

#[test]
fn targets_must_be_plain_strings() {
    let mut state = AppState::default();
    // A quote cannot be carried verbatim by the persisted document.
    assert_eq!(
        state.add_target("bad\"host".to_string()),
        Err("Invalid target".to_string())
    );
    assert_eq!(state.get_targets().len(), 1);
    assert!(state.add_target("good.example".to_string()).is_ok());
    assert_eq!(state.get_targets().len(), 2);
}

#[test]
fn readding_a_removed_target_starts_with_a_fresh_history() {
    let mut state = AppState::default();
    state.add_target("8.8.8.8".to_string()).unwrap();
    let t = "8.8.8.8".to_string();
    state.record_probe(&t, sample("8.8.8.8", 1_000, Some(5)), 1_000);
    assert_eq!(state.get_ping_history(Some(&t)).len(), 1);
    state.remove_target(&t).unwrap();
    state.add_target("8.8.8.8".to_string()).unwrap();
    assert_eq!(state.get_ping_history(Some(&t)).len(), 0);
}

#[test]
fn site_monitors_are_validated_through_the_engine() {
    let mut state = AppState::default();
    let cfg = pingzilla::site::SiteMonitorConfig {
        url: "https://status.example".to_string(),
        name: None,
        enabled: true,
    };
    assert!(state.add_site_monitor(cfg).is_ok());
    let bad = pingzilla::site::SiteMonitorConfig {
        url: "https://bad\"url".to_string(),
        name: None,
        enabled: true,
    };
    assert_eq!(state.add_site_monitor(bad), Err("Invalid site monitor".to_string()));
    let dup = pingzilla::site::SiteMonitorConfig {
        url: "https://status.example".to_string(),
        name: None,
        enabled: true,
    };
    assert_eq!(state.add_site_monitor(dup), Err("Site already monitored".to_string()));
    let gone = "https://nowhere.example".to_string();
    assert_eq!(state.remove_site_monitor(&gone), Err("Site not monitored".to_string()));
    let there = "https://status.example".to_string();
    assert!(state.remove_site_monitor(&there).is_ok());
    assert!(state.sites.list_monitors().is_empty());
}

#[test]
fn vpn_settings_are_validated() {
    let mut state = AppState::default();
    let bad = pingzilla::identity::VpnSettings {
        enabled: true,
        check_interval_secs: 60,
        alert_on_country_change: true,
        alert_on_ip_change: true,
        expected_country: Some("D\"E".to_string()),
    };
    assert_eq!(state.set_vpn_settings(bad), Err("Invalid VPN settings".to_string()));
    let good = pingzilla::identity::VpnSettings {
        enabled: true,
        check_interval_secs: 60,
        alert_on_country_change: true,
        alert_on_ip_change: true,
        expected_country: Some("DE".to_string()),
    };
    assert!(state.set_vpn_settings(good).is_ok());
    assert_eq!(state.get_vpn_settings().expected_country, Some("DE".to_string()));
}

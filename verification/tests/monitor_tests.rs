use pingzilla::gate::{NotificationGate, NotifyCategory};
use pingzilla::identity::{
    classify, IpInfo, NetworkChangeType, NetworkIdentityTracker, VpnSettings,
};
use pingzilla::probe::{
    method_at, parse_ping_time_ms, probe_port, probe_timeout_ms, select_probe_result, ProbeState,
};
use pingzilla::history::ProbeMethod;
use pingzilla::scheduler::{cadence_ticks, interval_valid, next_action, plan_tick, SchedulerAction};
use pingzilla::site::{parse_site_url, SiteMonitor, SiteMonitorConfig, SiteMonitorError};
use pingzilla::tray::{render, DisplayMode, IconClass};

fn ip(addr: &str, cc: &str) -> IpInfo {
    IpInfo {
        ip: addr.to_string(),
        country: "Nowhere".to_string(),
        country_code: cc.to_string(),
        city: None,
        isp: Some("isp-a".to_string()),
    }
}

#[test]
fn gate_fires_once_per_cooldown() {
    let mut gate = NotificationGate::new();
    let t0: u64 = 1_000_000;
    assert!(gate.check_and_record(NotifyCategory::HighLatency, t0));
    assert!(!gate.check_and_record(NotifyCategory::HighLatency, t0 + 10_000));
    assert!(gate.check_and_record(NotifyCategory::HighLatency, t0 + 61_000));
}

#[test]
fn gate_cooldowns_are_per_category() {
    let mut gate = NotificationGate::new();
    let t0: u64 = 5_000;
    assert!(gate.check_and_record(NotifyCategory::HighLatency, t0));
    // An independent clock: the vpn category still fires right away.
    assert!(gate.check_and_record(NotifyCategory::Vpn, t0));
    assert!(!gate.check_and_record(NotifyCategory::Vpn, t0 + 29_999));
    assert!(gate.check_and_record(NotifyCategory::Vpn, t0 + 30_000));
    // Site-down alerts have no cooldown.
    assert!(gate.check_and_record(NotifyCategory::SiteDown, t0));
    assert!(gate.check_and_record(NotifyCategory::SiteDown, t0));
}

#[test]
fn classification_prefers_country_over_ip() {
    let prev = ip("1.1.1.1", "US");
    let cur = ip("1.1.1.1", "DE");
    assert_eq!(classify(&prev, &cur), Some(NetworkChangeType::CountryChanged));

    let cur2 = ip("2.2.2.2", "US");
    assert_eq!(classify(&prev, &cur2), Some(NetworkChangeType::IpChanged));

    let same = ip("1.1.1.1", "US");
    assert_eq!(classify(&prev, &same), None);

    // Both country and address changed: only the country change reports.
    let both = ip("3.3.3.3", "DE");
    assert_eq!(classify(&prev, &both), Some(NetworkChangeType::CountryChanged));
}

#[test]
fn classification_falls_back_to_isp() {
    let prev = ip("1.1.1.1", "US");
    let mut cur = ip("1.1.1.1", "US");
    cur.isp = Some("isp-b".to_string());
    assert_eq!(classify(&prev, &cur), Some(NetworkChangeType::IspChanged));
}

#[test]
fn tracker_records_initial_then_country_change() {
    let mut tracker = NetworkIdentityTracker::new();
    let mut gate = NotificationGate::new();
    let settings = VpnSettings {
        enabled: true,
        check_interval_secs: 60,
        alert_on_country_change: true,
        alert_on_ip_change: true,
        expected_country: None,
    };
    let first = tracker.check_once(ip("1.1.1.1", "US"), 1_000, false, &settings, &mut gate);
    let ev = first.event.expect("initial identity is an event");
    assert_eq!(ev.change_type, NetworkChangeType::Initial);
    assert!(!first.notified);

    let second = tracker.check_once(ip("1.1.1.1", "DE"), 2_000, false, &settings, &mut gate);
    let ev2 = second.event.expect("country change is an event");
    assert_eq!(ev2.change_type, NetworkChangeType::CountryChanged);
    assert!(second.notified);

    // A manual refresh never notifies, though the event is recorded.
    let third = tracker.check_once(ip("1.1.1.1", "FR"), 50_000, true, &settings, &mut gate);
    assert!(third.event.is_some());
    assert!(!third.notified);

    let stability = tracker.stability(60_000);
    assert_eq!(stability.changes_last_hour, 2);
    assert_eq!(stability.last_country_change, Some(50_000));
    assert_eq!(stability.last_ip_change, None);
}

#[test]
fn identity_cache_ttl_gates_background_fetches() {
    let mut tracker = NetworkIdentityTracker::new();
    let mut gate = NotificationGate::new();
    let settings = VpnSettings {
        enabled: true,
        check_interval_secs: 60,
        alert_on_country_change: true,
        alert_on_ip_change: true,
        expected_country: None,
    };
    // Nothing cached yet: fetch.
    assert!(tracker.should_fetch(1_000, false));
    tracker.check_once(ip("1.1.1.1", "US"), 1_000, false, &settings, &mut gate);
    // Fresh cache: only a forced refresh fetches.
    assert!(!tracker.should_fetch(2_000, false));
    assert!(tracker.should_fetch(2_000, true));
    // Past the TTL the background cadence fetches again.
    assert!(!tracker.should_fetch(300_999, false));
    assert!(tracker.should_fetch(301_000, false));
}

#[test]
fn site_edge_detection_notifies_once() {
    let mut monitor = SiteMonitor::new();
    let url = "https://example.com".to_string();
    monitor
        .add_monitor(SiteMonitorConfig { url: url.clone(), name: None, enabled: true })
        .unwrap();

    // up, up, down, down, up
    let d1 = monitor.record_check(&url, Some(12), 1_000);
    assert!(!d1.down_transition);
    let d2 = monitor.record_check(&url, Some(15), 2_000);
    assert!(!d2.down_transition);
    assert!(!d2.flipped);
    let d3 = monitor.record_check(&url, None, 3_000);
    assert!(d3.down_transition);
    assert!(d3.flipped);
    let d4 = monitor.record_check(&url, None, 4_000);
    assert!(!d4.down_transition);
    assert!(!d4.flipped);
    let d5 = monitor.record_check(&url, Some(20), 5_000);
    assert!(!d5.down_transition);
    assert!(d5.flipped);

    // last_down was set on the transition, preserved through the second
    // down and retained across the recovery.
    let statuses = monitor.list_statuses();
    assert_eq!(statuses.len(), 1);
    assert!(statuses[0].is_up);
    assert_eq!(statuses[0].last_down_ms, Some(3_000));
    assert_eq!(statuses[0].last_check_ms, 5_000);
}

#[test]
fn site_monitor_rejects_duplicates_and_an_eleventh() {
    let mut monitor = SiteMonitor::new();
    for i in 0..10 {
        let cfg = SiteMonitorConfig {
            url: format!("https://site{}.example", i),
            name: None,
            enabled: true,
        };
        assert!(monitor.add_monitor(cfg).is_ok());
    }
    let dup = SiteMonitorConfig {
        url: "https://site3.example".to_string(),
        name: None,
        enabled: true,
    };
    assert_eq!(monitor.add_monitor(dup), Err(SiteMonitorError::DuplicateUrl));
    let eleventh = SiteMonitorConfig {
        url: "https://one-more.example".to_string(),
        name: None,
        enabled: true,
    };
    assert_eq!(monitor.add_monitor(eleventh), Err(SiteMonitorError::TooMany));
}

#[test]
fn url_derivation_maps_schemes_and_ports() {
    let a = parse_site_url("https://example.com/path/x");
    assert_eq!(a.host, "example.com");
    assert_eq!(a.port, 443);

    let b = parse_site_url("http://example.com");
    assert_eq!(b.host, "example.com");
    assert_eq!(b.port, 80);

    let c = parse_site_url("example.com");
    assert_eq!(c.host, "example.com");
    assert_eq!(c.port, 443);

    let d = parse_site_url("http://example.com:8080/x");
    assert_eq!(d.host, "example.com");
    assert_eq!(d.port, 8080);

    let e = parse_site_url("host.example:9999");
    assert_eq!(e.host, "host.example");
    assert_eq!(e.port, 9999);

    // A junk port suffix falls back to the scheme default.
    let f = parse_site_url("https://example.com:notaport");
    assert_eq!(f.host, "example.com");
    assert_eq!(f.port, 443);
}

#[test]
fn tray_reduction_by_thresholds_and_mode() {
    let happy = render(Some(42), DisplayMode::IconAndPing);
    assert_eq!(happy.icon, IconClass::Happy);
    assert_eq!(happy.label, "42ms");

    let angry = render(Some(70), DisplayMode::IconOnly);
    assert_eq!(angry.icon, IconClass::Angry);
    assert_eq!(angry.label, "");

    let sad = render(Some(150), DisplayMode::IconAndPing);
    assert_eq!(sad.icon, IconClass::Sad);
    assert_eq!(sad.label, "150ms");

    let dead = render(None, DisplayMode::PingOnly);
    assert_eq!(dead.icon, IconClass::Transparent);
    assert_eq!(dead.label, "---");
}

#[test]
fn scheduler_cadence_and_phase() {
    assert_eq!(cadence_ticks(60, 10), 6);
    assert_eq!(cadence_ticks(300, 10), 30);
    assert_eq!(cadence_ticks(60, 120), 1);

    let plan0 = plan_tick(0, 10);
    assert!(plan0.probe && plan0.site_sweep && plan0.persist);
    assert!(!plan0.identity_check);
    let plan3 = plan_tick(3, 10);
    assert!(plan3.identity_check && !plan3.site_sweep);

    assert_eq!(next_action(true), SchedulerAction::SleepShort);
    assert_eq!(next_action(false), SchedulerAction::RunTick);

    assert!(!interval_valid(4));
    assert!(interval_valid(5));
    assert!(interval_valid(120));
    assert!(!interval_valid(121));
}

#[test]
fn probe_chain_order_and_first_success() {
    assert_eq!(method_at(0), ProbeMethod::Icmp);
    assert_eq!(method_at(1), ProbeMethod::TcpDns);
    assert_eq!(method_at(2), ProbeMethod::TcpHttps);
    assert_eq!(method_at(3), ProbeMethod::TcpHttp);
    assert_eq!(probe_port(ProbeMethod::Icmp), None);
    assert_eq!(probe_port(ProbeMethod::TcpDns), Some(53));
    assert_eq!(probe_port(ProbeMethod::TcpHttps), Some(443));
    assert_eq!(probe_port(ProbeMethod::TcpHttp), Some(80));
    assert_eq!(probe_timeout_ms(ProbeMethod::Icmp), 3000);
    assert_eq!(probe_timeout_ms(ProbeMethod::TcpHttp), 2000);

    let mut st = ProbeState::start();
    assert_eq!(st.pending(), Some(ProbeMethod::Icmp));
    st.advance(None);
    assert_eq!(st.pending(), Some(ProbeMethod::TcpDns));
    st.advance(None);
    assert_eq!(st.pending(), Some(ProbeMethod::TcpHttps));
    st.advance(Some(33));
    assert_eq!(st.pending(), None);
    let target = "1.0.0.1".to_string();
    let sample = st.finish(&target, 99);
    assert_eq!(sample.latency_ms, Some(33));
    assert_eq!(sample.method, Some(ProbeMethod::TcpHttps));
    assert_eq!(sample.timestamp_ms, 99);

    let outcomes = vec![None, None, None, None];
    assert_eq!(select_probe_result(&outcomes), (None, None));
    let outcomes2 = vec![None, Some(8), Some(2), None];
    assert_eq!(select_probe_result(&outcomes2), (Some(8), Some(ProbeMethod::TcpDns)));
}

#[test]
fn ping_output_time_is_parsed_to_whole_milliseconds() {
    let line = "64 bytes from 1.1.1.1: icmp_seq=1 ttl=57 time=12.345 ms";
    assert_eq!(parse_ping_time_ms(line), Some(12));
    assert_eq!(parse_ping_time_ms("time=987 ms"), Some(987));
    assert_eq!(parse_ping_time_ms("no measurement here"), None);
    assert_eq!(parse_ping_time_ms("time= ms"), None);
    // Without the " ms" unit the number is not a measurement.
    assert_eq!(parse_ping_time_ms("time=5"), None);
    assert_eq!(parse_ping_time_ms("time=5 msx"), Some(5));
    assert_eq!(parse_ping_time_ms("time=5.x ms"), None);
}

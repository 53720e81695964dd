use pktscope_core::alert::{Alert, AlertKind, Severity};
use pktscope_core::inspector::state::{InspectorApp, MAX_ALERTS};
use pktscope_core::ipc::protocol::{ConnectionDto, DaemonStatus, Event};

fn conn(id: u64, process: &str, dest: &str, up: u64) -> ConnectionDto {
    ConnectionDto {
        id,
        process: process.into(),
        pid: Some(1),
        dest_name: dest.into(),
        remote_ip: "1.2.3.4".into(),
        remote_port: 443,
        local_port: 5000,
        protocol: 6,
        country: Some("US".into()),
        asn: Some(1),
        as_org: None,
        bytes_up: up,
        bytes_down: 0,
        first_seen_ms: 0,
        last_seen_ms: id as i64,
        outbound: true,
    }
}

fn alert(ts: i64) -> Alert {
    Alert {
        id: None,
        kind: AlertKind::NewGeo,
        severity: Severity::Info,
        ts,
        process_id: None,
        dest_id: None,
        dedup_key: String::new(),
        title: String::from("t"),
        detail: String::new(),
    }
}

#[test]
fn test_apply_flow_and_close() {
    let mut app = InspectorApp::new();
    app.apply(Event::Flow(conn(1, "curl", "example.com", 10)));
    app.apply(Event::Flow(conn(2, "ssh", "github.com", 20)));
    assert_eq!(app.live_count(), 2);
    app.apply(Event::Closed { id: 1 });
    assert_eq!(app.live_count(), 1);
    // Most-recently-active first.
    assert_eq!(app.connections()[0].id, 2);
}

#[test]
fn test_matching() {
    let mut app = InspectorApp::new();
    app.apply(Event::Flow(conn(1, "curl", "example.com", 10)));
    app.apply(Event::Flow(conn(2, "ssh", "github.com", 20)));
    assert_eq!(app.matching("github").len(), 1);
    assert_eq!(app.matching("").len(), 2);
    assert_eq!(app.matching("us").len(), 2); // country US
}

#[test]
fn test_aggs() {
    let mut app = InspectorApp::new();
    app.apply(Event::Flow(conn(1, "curl", "a.example.com", 100)));
    app.apply(Event::Flow(conn(2, "curl", "b.example.com", 50)));
    let procs = app.process_aggs();
    assert_eq!(procs.len(), 1);
    assert_eq!(procs[0].conns, 2);
    assert_eq!(procs[0].bytes_up, 150);
    let domains = app.domain_aggs();
    assert_eq!(domains.len(), 1);
    assert_eq!(domains[0].domain, "example.com");
}

#[test]
fn test_disconnect_retains_state() {
    let mut app = InspectorApp::new();
    app.apply(Event::Flow(conn(1, "curl", "example.com", 10)));
    app.set_disconnected("daemon closed");
    assert!(!app.connected);
    assert_eq!(app.live_count(), 1);
    assert_eq!(app.disconnect_msg.as_deref(), Some("daemon closed"));
}

#[test]
fn test_flow_update_replaces_and_orders_by_recency() {
    let mut app = InspectorApp::new();
    app.apply(Event::Flow(conn(3, "a", "x.com", 1)));
    app.apply(Event::Flow(conn(1, "b", "y.com", 1)));
    let mut newer = conn(1, "b", "y.com", 7);
    newer.last_seen_ms = 99;
    app.apply(Event::Flow(newer));
    assert_eq!(app.live_count(), 2);
    let ids: Vec<u64> = app.connections().iter().map(|c| c.id).collect();
    assert_eq!(ids, vec![1, 3]);
    assert_eq!(app.connections()[0].bytes_up, 7);
    // Equally recent connections keep id order.
    let mut tie = conn(5, "c", "z.com", 1);
    tie.last_seen_ms = 99;
    app.apply(Event::Flow(tie));
    let ids: Vec<u64> = app.connections().iter().map(|c| c.id).collect();
    assert_eq!(ids, vec![1, 5, 3]);
}

#[test]
fn test_close_then_reopen_and_unknown_close() {
    let mut app = InspectorApp::new();
    app.apply(Event::Flow(conn(1, "curl", "example.com", 10)));
    app.apply(Event::Closed { id: 42 });
    assert_eq!(app.live_count(), 1);
    app.apply(Event::Heartbeat { ts_ms: 5 });
    assert_eq!(app.live_count(), 1);
    app.apply(Event::Closed { id: 1 });
    assert_eq!(app.live_count(), 0);
}

#[test]
fn test_alert_feed_is_capped_newest_first() {
    let mut app = InspectorApp::new();
    for ts in 0..(MAX_ALERTS as i64 + 3) {
        app.apply(Event::Alert(alert(ts)));
    }
    assert_eq!(app.alerts.len(), MAX_ALERTS);
    assert_eq!(app.alerts[0].ts, MAX_ALERTS as i64 + 2);
    assert_eq!(app.alerts[MAX_ALERTS - 1].ts, 3);
}

#[test]
fn test_snapshot_and_recent_alerts_replace_state() {
    let mut app = InspectorApp::new();
    app.apply(Event::Flow(conn(9, "old", "old.com", 1)));
    app.set_snapshot(vec![conn(2, "a", "a.com", 1), conn(1, "b", "b.com", 1), conn(2, "c", "c.com", 5)]);
    assert_eq!(app.live_count(), 2);
    let conns = app.connections();
    assert_eq!(conns[0].id, 2);
    assert_eq!(conns[0].process, "c");
    app.set_recent_alerts(vec![alert(1), alert(2)]);
    assert_eq!(app.alerts.len(), 2);
    assert_eq!(app.alerts[0].ts, 1);
}

#[test]
fn test_matching_is_case_insensitive_over_fields() {
    let mut app = InspectorApp::new();
    let mut c = conn(1, "Firefox", "Mozilla.org", 1);
    c.as_org = Some("CLOUDFLARENET".into());
    c.remote_ip = "104.16.0.1".into();
    app.apply(Event::Flow(c));
    app.apply(Event::Flow(conn(2, "ssh", "github.com", 1)));
    assert_eq!(app.matching("FIREFOX").len(), 1);
    assert_eq!(app.matching("mozilla").len(), 1);
    assert_eq!(app.matching("cloudflare").len(), 1);
    assert_eq!(app.matching("104.16").len(), 1);
    assert_eq!(app.matching("nothing-here").len(), 0);
}

#[test]
fn test_aggs_order_by_traffic() {
    let mut app = InspectorApp::new();
    app.apply(Event::Flow(conn(1, "zsh", "a.example.com", 5)));
    app.apply(Event::Flow(conn(2, "curl", "b.other.net", 100)));
    let mut orgd = conn(3, "apt", "mirror.example.com", 5);
    orgd.as_org = Some("Canonical".into());
    orgd.pid = Some(77);
    app.apply(Event::Flow(orgd));
    let procs = app.process_aggs();
    let names: Vec<&str> = procs.iter().map(|p| p.process.as_str()).collect();
    // curl has most traffic; apt and zsh tie and keep name order.
    assert_eq!(names, vec!["curl", "apt", "zsh"]);
    assert_eq!(procs[1].pid, Some(77));
    let domains = app.domain_aggs();
    let names: Vec<&str> = domains.iter().map(|d| d.domain.as_str()).collect();
    assert_eq!(names, vec!["other.net", "Canonical", "example.com"]);
}

#[test]
fn test_default_is_disconnected_and_new_is_connected() {
    let d = InspectorApp::default();
    assert!(!d.connected);
    assert_eq!(d.live_count(), 0);
    let n = InspectorApp::new();
    assert!(n.connected);
    assert!(n.status.is_none());
}

#[test]
fn test_set_status_keeps_connections() {
    let mut app = InspectorApp::new();
    app.apply(Event::Flow(conn(1, "curl", "example.com", 10)));
    app.set_status(DaemonStatus {
        pid: 10,
        uptime_secs: 5,
        interface: "en0".into(),
        baseline: "learning".into(),
        learning_ends_ms: None,
        processes: 1,
        destinations: 1,
        alerts: 0,
        schema_version: 1,
        version: "0.1.0".into(),
    });
    assert_eq!(app.status.as_ref().unwrap().pid, 10);
    assert_eq!(app.live_count(), 1);
}

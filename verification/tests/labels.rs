use pktscope_core::alert::detectors::{
    dest_label, exe_label, planned_alerts, stable_label, FlowEvent, Novelty,
};
use pktscope_core::identity::{BinaryIdentity, IdentityKind, IdentityStatus};
use pktscope_core::flow::Dir;
use pktscope_core::monitor::correlate::{
    byte_split, open_connection, orient, packet_endpoints, touch_connection,
};
use pktscope_core::alert::detectors::{
    egress_alert, identity_alert, new_country_alert, new_dest_alert, new_network_alert,
};
use pktscope_core::alert::{AlertKind, Severity};
use pktscope_core::enrich::geoip::GeoInfo;
use pktscope_core::flow::FlowKey;
use pktscope_core::net::{IpAddr, Ipv4Addr};
use pktscope_core::process::SocketProc;

fn event(name: Option<&str>, org: Option<&str>) -> FlowEvent {
    let local = IpAddr::V4(Ipv4Addr::new(192, 168, 1, 10));
    let dest = IpAddr::V4(Ipv4Addr::new(93, 184, 216, 34));
    FlowEvent {
        ts: 1_000,
        key: FlowKey::new(local, 50000, dest, 443, 6),
        proc_: None,
        identity: None,
        dest_ip: dest,
        dest_port: 443,
        local_port: 50000,
        protocol: 6,
        name: name.map(String::from),
        geo: GeoInfo {
            country: Some("US".into()),
            asn: Some(15133),
            as_org: org.map(String::from),
        },
        bytes_up: 10,
        bytes_down: 20,
        flow_first_seen: true,
        outbound: true,
    }
}

#[test]
fn test_stable_label_prefers_org_then_domain_then_ip() {
    assert_eq!(stable_label(&event(Some("www.example.com"), Some("EDGECAST"))), "EDGECAST");
    assert_eq!(stable_label(&event(Some("cdn.a.example.co.uk"), None)), "example.co.uk");
    assert_eq!(stable_label(&event(None, None)), "93.184.216.34");
}

#[test]
fn test_dest_label_is_name_or_ip() {
    assert_eq!(dest_label(&event(Some("www.example.com"), Some("EDGECAST"))), "www.example.com");
    assert_eq!(dest_label(&event(None, Some("EDGECAST"))), "93.184.216.34");
}

#[test]
fn test_exe_label() {
    let with_path = SocketProc { pid: 42, name: "curl".into(), exe_path: Some("/usr/bin/curl".into()) };
    assert_eq!(exe_label(&with_path), "/usr/bin/curl");
    let without = SocketProc { pid: 4242, name: "x".into(), exe_path: None };
    assert_eq!(exe_label(&without), "pid:4242");
}

#[test]
fn test_orientation_of_a_flow_update() {
    let local = IpAddr::V4(Ipv4Addr::new(192, 168, 1, 10));
    let remote = IpAddr::V4(Ipv4Addr::new(93, 184, 216, 34));
    let key = FlowKey::new(local, 50000, remote, 443, 6);
    // The key keeps the lower endpoint (93.184.216.34:443) first.
    let (s, sp, d, dp) = packet_endpoints(&key, Dir::HighToLow);
    assert_eq!((s, sp, d, dp), (local, 50000, remote, 443));
    assert_eq!(orient(s, sp, d, dp, true, false), (local, 50000, remote, 443, true));
    // A reply: only the destination is local, so the packet came in.
    let (s, sp, d, dp) = packet_endpoints(&key, Dir::LowToHigh);
    assert_eq!((s, sp, d, dp), (remote, 443, local, 50000));
    assert_eq!(orient(s, sp, d, dp, false, true), (local, 50000, remote, 443, false));
    // Both or neither local: the source counts as local.
    assert_eq!(orient(s, sp, d, dp, true, true), (remote, 443, local, 50000, true));
    assert_eq!(orient(s, sp, d, dp, false, false), (remote, 443, local, 50000, true));
    assert_eq!(byte_split(1500, true), (1500, 0));
    assert_eq!(byte_split(1500, false), (0, 1500));
}

#[test]
fn test_live_connection_row_opened_and_updated() {
    let remote = IpAddr::V4(Ipv4Addr::new(93, 184, 216, 34));
    let geo = GeoInfo { country: Some("US".into()), asn: None, as_org: None };
    let mut c = open_connection(7, &None, &None, remote, 443, 50000, 6, &geo, 1_000, true);
    assert_eq!(c.process, "?");
    assert_eq!(c.pid, None);
    assert_eq!(c.dest_name, "93.184.216.34");
    assert_eq!(c.remote_ip, "93.184.216.34");
    assert_eq!((c.bytes_up, c.bytes_down, c.first_seen_ms, c.last_seen_ms), (0, 0, 1_000, 1_000));
    let p = Some(SocketProc { pid: 9, name: "curl".into(), exe_path: None });
    let geo2 = GeoInfo { country: None, asn: Some(15133), as_org: Some("EDGECAST".into()) };
    touch_connection(&mut c, 100, 0, 2_000, &Some("example.com".into()), &geo2, &p);
    touch_connection(&mut c, 0, 40, 3_000, &None, &GeoInfo { country: None, asn: None, as_org: None }, &None);
    assert_eq!((c.bytes_up, c.bytes_down), (100, 40));
    assert_eq!(c.last_seen_ms, 3_000);
    assert_eq!(c.first_seen_ms, 1_000);
    assert_eq!(c.dest_name, "example.com");
    assert_eq!(c.country.as_deref(), Some("US"));
    assert_eq!(c.asn, Some(15133));
    assert_eq!(c.as_org.as_deref(), Some("EDGECAST"));
    assert_eq!(c.process, "curl");
    assert_eq!(c.pid, Some(9));
}

#[test]
fn test_alert_texts() {
    let a = egress_alert(5, 3, 9, "/usr/bin/curl", "curl", "example.com", "{}".into());
    assert!(matches!(a.kind, AlertKind::NewProcessEgress));
    assert!(matches!(a.severity, Severity::Warning));
    assert_eq!(a.dedup_key, "egress|/usr/bin/curl");
    assert_eq!(a.title, "curl made its first outbound connection (→ example.com)");
    assert_eq!((a.id, a.ts, a.process_id, a.dest_id), (None, 5, Some(3), Some(9)));
    assert_eq!(a.detail, "{}");

    let a = identity_alert(5, 3, 9, "/bin/app", "app", "hash2", String::new());
    assert!(matches!(a.severity, Severity::Critical));
    assert_eq!(a.dedup_key, "identity|/bin/app|hash2");
    assert_eq!(a.title, "app binary identity changed since baseline");

    let a = new_dest_alert(5, 42, 9, "curl", "example.com", String::new());
    assert_eq!(a.dedup_key, "dest|42|example.com");
    assert_eq!(a.title, "curl contacted a new destination: example.com");

    let a = new_country_alert(5, 42, 9, "curl", "DE", String::new());
    assert!(matches!(a.kind, AlertKind::NewGeo));
    assert_eq!(a.dedup_key, "geo|42|cc|DE");
    assert_eq!(a.title, "curl connected to a new country: DE");

    let a = new_network_alert(5, 42, 9, "curl", 15133, Some("EDGECAST"), String::new());
    assert_eq!(a.dedup_key, "geo|42|asn|15133");
    assert_eq!(a.title, "curl connected to a new network: AS15133 (EDGECAST)");
    let a = new_network_alert(5, -7, 9, "curl", 0, None, String::new());
    assert_eq!(a.dedup_key, "geo|-7|asn|0");
    assert_eq!(a.title, "curl connected to a new network: AS0");
}

fn details() -> Vec<String> {
    (0..5).map(|i| format!("{{\"n\":{i}}}")).collect()
}

fn novelty(active: bool) -> Novelty {
    Novelty {
        active,
        dest_id: 9,
        process_row: 3,
        process_was_new: true,
        baseline_identity: None,
        label_new: true,
        country_new: true,
        asn_new: true,
    }
}

fn ident(value: &str) -> BinaryIdentity {
    BinaryIdentity {
        path: "/usr/bin/curl".into(),
        kind: IdentityKind::Sha256,
        value: value.into(),
        signing_id: None,
        team_id: None,
        authority: None,
        status: IdentityStatus::Valid,
    }
}

#[test]
fn test_planned_alerts_all_signals_in_order() {
    let mut ev = event(Some("www.example.com"), Some("EDGECAST"));
    ev.proc_ = Some(SocketProc { pid: 42, name: "curl".into(), exe_path: Some("/usr/bin/curl".into()) });
    ev.identity = Some(ident("h2"));
    let mut n = novelty(true);
    n.baseline_identity = Some(ident("h1"));
    let alerts = planned_alerts(&ev, &n, false, details());
    let keys: Vec<&str> = alerts.iter().map(|a| a.dedup_key.as_str()).collect();
    assert_eq!(
        keys,
        vec![
            "egress|/usr/bin/curl",
            "identity|/usr/bin/curl|h2",
            "dest|3|EDGECAST",
            "geo|3|cc|US",
            "geo|3|asn|15133",
        ]
    );
    assert_eq!(alerts[0].title, "curl made its first outbound connection (→ www.example.com)");
    assert_eq!(alerts[4].title, "curl connected to a new network: AS15133 (EDGECAST)");
    assert_eq!(alerts[2].detail, "{\"n\":2}");
    assert!(alerts.iter().all(|a| a.id.is_none() && a.process_id == Some(3) && a.dest_id == Some(9)));
}

#[test]
fn test_learning_window_is_silent_and_inbound_is_quiet() {
    let mut ev = event(Some("www.example.com"), None);
    ev.proc_ = Some(SocketProc { pid: 42, name: "curl".into(), exe_path: None });
    assert!(planned_alerts(&ev, &novelty(false), false, details()).is_empty());
    ev.outbound = false;
    assert!(planned_alerts(&ev, &novelty(true), false, details()).is_empty());
}

#[test]
fn test_planned_alerts_only_what_is_new() {
    let mut ev = event(None, None);
    ev.proc_ = Some(SocketProc { pid: 42, name: "curl".into(), exe_path: None });
    ev.geo = GeoInfo { country: None, asn: Some(1), as_org: None };
    // Same identity as the baseline: no identity alert.
    ev.identity = Some(ident("h1"));
    let n = Novelty {
        active: true,
        dest_id: 1,
        process_row: 2,
        process_was_new: false,
        baseline_identity: Some(ident("h1")),
        label_new: true,
        country_new: true,
        asn_new: false,
    };
    let alerts = planned_alerts(&ev, &n, false, details());
    let keys: Vec<&str> = alerts.iter().map(|a| a.dedup_key.as_str()).collect();
    assert_eq!(keys, vec!["dest|2|93.184.216.34"]);
}

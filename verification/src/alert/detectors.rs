//! The subject of the egress detectors: one correlated flow observation,
//! and the labels the detectors give its process and destination.
use vstd::prelude::*;
use crate::alert::{Alert, AlertKind, Severity};
use crate::enrich::geoip::GeoInfo;
use crate::enrich::names::{registrable_domain_of, spec_registrable_domain};
use crate::flow::FlowKey;
use crate::decode::tls::opt_view;
use crate::identity::{spec_changed_since, BinaryIdentity};
use crate::net::{ip_text, IpAddr};
use crate::process::SocketProc;
use crate::text::{dec, push_char, push_dec};

verus! {

broadcast use vstd::string::group_string_axioms;

/// One correlated flow observation: the unit every detector consumes,
/// produced by the daemon's correlate stage (5-tuple → pid → identity →
/// name → geo). `ts` is in Unix milliseconds.
#[derive(Debug, Clone)]
pub struct FlowEvent {
    pub ts: i64,
    pub key: FlowKey,
    pub proc_: Option<SocketProc>,
    pub identity: Option<BinaryIdentity>,
    pub dest_ip: IpAddr,
    pub dest_port: u16,
    pub local_port: u16,
    pub protocol: u8,
    /// Best known destination name (DNS/SNI), if any.
    pub name: Option<String>,
    pub geo: GeoInfo,
    /// Byte deltas attributed to this event.
    pub bytes_up: u64,
    pub bytes_down: u64,
    pub flow_first_seen: bool,
    /// True when the local side initiated the flow (egress).
    pub outbound: bool,
}

/// How an alert names the destination: its best known name, else its address.
pub open spec fn dest_label_of(name: Option<String>, ip: IpAddr) -> Seq<char> {
    match name {
        Some(n) => n@,
        None => ip_text(ip),
    }
}

/// The label under which a destination counts as new for a process: the
/// organisation of its network, else the registrable domain of its name,
/// else its address (so that CDN hosts of one service count once).
pub open spec fn stable_label_of(as_org: Option<String>, name: Option<String>, ip: IpAddr) -> Seq<
    char,
> {
    match as_org {
        Some(o) => o@,
        None => match name {
            Some(n) => spec_registrable_domain(n@),
            None => ip_text(ip),
        },
    }
}

/// How a process is keyed: its executable path, else `pid:<pid>`.
pub open spec fn exe_label_of(p: SocketProc) -> Seq<char> {
    match p.exe_path {
        Some(e) => e@,
        None => "pid:"@ + dec(p.pid as nat),
    }
}

pub fn dest_label(ev: &FlowEvent) -> (s: String)
    ensures
        s@ == dest_label_of(ev.name, ev.dest_ip),
{
    match &ev.name {
        Some(n) => n.clone(),
        None => ev.dest_ip.to_text(),
    }
}

pub fn stable_label(ev: &FlowEvent) -> (s: String)
    ensures
        s@ == stable_label_of(ev.geo.as_org, ev.name, ev.dest_ip),
{
    if let Some(org) = &ev.geo.as_org {
        return org.clone();
    }
    if let Some(name) = &ev.name {
        return registrable_domain_of(name.as_str());
    }
    ev.dest_ip.to_text()
}

pub fn exe_label(p: &SocketProc) -> (s: String)
    ensures
        s@ == exe_label_of(*p),
{
    match &p.exe_path {
        Some(e) => e.clone(),
        None => {
            let mut s = String::new();
            push_char(&mut s, 'p');
            push_char(&mut s, 'i');
            push_char(&mut s, 'd');
            push_char(&mut s, ':');
            push_dec(&mut s, p.pid as u64);
            proof {
                reveal_strlit("pid:");
                assert(s@ =~= "pid:"@ + dec(p.pid as nat));
            }
            s
        },
    }
}

// ---------------------------------------------------------------------------
// What the alerts of the first, second, third and fifth signals say. The
// structured details come ready as JSON text.
// ---------------------------------------------------------------------------

/// Decimal text of a signed number.
pub open spec fn int_text(v: int) -> Seq<char> {
    if v < 0 {
        "-"@ + dec((-v) as nat)
    } else {
        dec(v as nat)
    }
}

fn push_i64(s: &mut String, v: i64)
    ensures
        final(s)@ == old(s)@ + int_text(v as int),
{
    if v < 0 {
        s.append("-");
        let m: u64 = if v == i64::MIN {
            9223372036854775808u64
        } else {
            (-v) as u64
        };
        push_dec(s, m);
    } else {
        push_dec(s, v as u64);
    }
}

/// Model of an [`Alert`].
pub struct AlertV {
    pub id: Option<i64>,
    pub kind: AlertKind,
    pub severity: Severity,
    pub ts: i64,
    pub process_id: Option<i64>,
    pub dest_id: Option<i64>,
    pub dedup_key: Seq<char>,
    pub title: Seq<char>,
    pub detail: Seq<char>,
}

pub open spec fn alert_view(a: Alert) -> AlertV {
    AlertV {
        id: a.id,
        kind: a.kind,
        severity: a.severity,
        ts: a.ts,
        process_id: a.process_id,
        dest_id: a.dest_id,
        dedup_key: a.dedup_key@,
        title: a.title@,
        detail: a.detail@,
    }
}

pub open spec fn alerts_view(s: Seq<Alert>) -> Seq<AlertV> {
    s.map_values(|a: Alert| alert_view(a))
}

/// A new alert (no database id yet) of the given kind and texts.
pub open spec fn new_alert_v(
    kind: AlertKind,
    severity: Severity,
    ts: i64,
    process_id: i64,
    dest_id: i64,
    dedup_key: Seq<char>,
    title: Seq<char>,
    detail: Seq<char>,
) -> AlertV {
    AlertV {
        id: None,
        kind,
        severity,
        ts,
        process_id: Some(process_id),
        dest_id: Some(dest_id),
        dedup_key,
        title,
        detail,
    }
}

/// Signal 2's alert: keyed by the binary, naming the destination.
pub open spec fn egress_alert_v(
    ts: i64,
    process_id: i64,
    dest_id: i64,
    exe: Seq<char>,
    process: Seq<char>,
    dest: Seq<char>,
    detail: Seq<char>,
) -> AlertV {
    new_alert_v(
        AlertKind::NewProcessEgress,
        Severity::Warning,
        ts,
        process_id,
        dest_id,
        "egress|"@ + exe,
        process + " made its first outbound connection (→ "@ + dest + ")"@,
        detail,
    )
}

/// Signal 5's alert: keyed by the binary and its new identity value.
pub open spec fn identity_alert_v(
    ts: i64,
    process_id: i64,
    dest_id: i64,
    exe: Seq<char>,
    process: Seq<char>,
    new_value: Seq<char>,
    detail: Seq<char>,
) -> AlertV {
    new_alert_v(
        AlertKind::IdentityChange,
        Severity::Critical,
        ts,
        process_id,
        dest_id,
        "identity|"@ + exe + "|"@ + new_value,
        process + " binary identity changed since baseline"@,
        detail,
    )
}

/// Signal 1's alert: keyed by the process row and the destination label.
pub open spec fn new_dest_alert_v(
    ts: i64,
    process_id: i64,
    dest_id: i64,
    process: Seq<char>,
    label: Seq<char>,
    detail: Seq<char>,
) -> AlertV {
    new_alert_v(
        AlertKind::NewProcessDest,
        Severity::Notice,
        ts,
        process_id,
        dest_id,
        "dest|"@ + int_text(process_id as int) + "|"@ + label,
        process + " contacted a new destination: "@ + label,
        detail,
    )
}

/// Signal 3's alert for a new country.
pub open spec fn new_country_alert_v(
    ts: i64,
    process_id: i64,
    dest_id: i64,
    process: Seq<char>,
    country: Seq<char>,
    detail: Seq<char>,
) -> AlertV {
    new_alert_v(
        AlertKind::NewGeo,
        Severity::Notice,
        ts,
        process_id,
        dest_id,
        "geo|"@ + int_text(process_id as int) + "|cc|"@ + country,
        process + " connected to a new country: "@ + country,
        detail,
    )
}

/// Signal 3's alert for a new network (AS), with its organisation when known.
pub open spec fn new_network_alert_v(
    ts: i64,
    process_id: i64,
    dest_id: i64,
    process: Seq<char>,
    asn: u32,
    as_org: Option<Seq<char>>,
    detail: Seq<char>,
) -> AlertV {
    new_alert_v(
        AlertKind::NewGeo,
        Severity::Notice,
        ts,
        process_id,
        dest_id,
        "geo|"@ + int_text(process_id as int) + "|asn|"@ + dec(asn as nat),
        process + " connected to a new network: AS"@ + dec(asn as nat) + match as_org {
            Some(o) => " ("@ + o + ")"@,
            None => Seq::<char>::empty(),
        },
        detail,
    )
}

/// An alert with no database id yet.
pub open spec fn fresh_alert(
    a: Alert,
    kind: AlertKind,
    severity: Severity,
    ts: i64,
    process_id: i64,
    dest_id: i64,
) -> bool {
    &&& a.id is None
    &&& a.kind == kind
    &&& a.severity == severity
    &&& a.ts == ts
    &&& a.process_id == Some(process_id)
    &&& a.dest_id == Some(dest_id)
}

/// Signal 2: a binary's first outbound connection, keyed by the binary.
pub fn egress_alert(
    ts: i64,
    process_id: i64,
    dest_id: i64,
    exe: &str,
    process: &str,
    dest: &str,
    detail: String,
) -> (a: Alert)
    ensures
        fresh_alert(a, AlertKind::NewProcessEgress, Severity::Warning, ts, process_id, dest_id),
        a.dedup_key@ == "egress|"@ + exe@,
        a.title@ == process@ + " made its first outbound connection (→ "@ + dest@ + ")"@,
        a.detail == detail,
        alert_view(a) == egress_alert_v(ts, process_id, dest_id, exe@, process@, dest@, detail@),
{
    let mut key = String::new();
    key.append("egress|");
    key.append(exe);
    let mut title = String::new();
    title.append(process);
    title.append(" made its first outbound connection (→ ");
    title.append(dest);
    title.append(")");
    Alert {
        id: None,
        kind: AlertKind::NewProcessEgress,
        severity: Severity::Warning,
        ts,
        process_id: Some(process_id),
        dest_id: Some(dest_id),
        dedup_key: key,
        title,
        detail,
    }
}

/// Signal 5: a binary's identity changed since baseline, keyed by the binary
/// and its new identity value.
pub fn identity_alert(
    ts: i64,
    process_id: i64,
    dest_id: i64,
    exe: &str,
    process: &str,
    new_value: &str,
    detail: String,
) -> (a: Alert)
    ensures
        fresh_alert(a, AlertKind::IdentityChange, Severity::Critical, ts, process_id, dest_id),
        a.dedup_key@ == "identity|"@ + exe@ + "|"@ + new_value@,
        a.title@ == process@ + " binary identity changed since baseline"@,
        a.detail == detail,
        alert_view(a) == identity_alert_v(ts, process_id, dest_id, exe@, process@, new_value@, detail@),
{
    let mut key = String::new();
    key.append("identity|");
    key.append(exe);
    key.append("|");
    key.append(new_value);
    let mut title = String::new();
    title.append(process);
    title.append(" binary identity changed since baseline");
    Alert {
        id: None,
        kind: AlertKind::IdentityChange,
        severity: Severity::Critical,
        ts,
        process_id: Some(process_id),
        dest_id: Some(dest_id),
        dedup_key: key,
        title,
        detail,
    }
}

/// Signal 1: a process reached a destination label it never had, keyed by
/// the process row and the label.
pub fn new_dest_alert(
    ts: i64,
    process_id: i64,
    dest_id: i64,
    process: &str,
    label: &str,
    detail: String,
) -> (a: Alert)
    ensures
        fresh_alert(a, AlertKind::NewProcessDest, Severity::Notice, ts, process_id, dest_id),
        a.dedup_key@ == "dest|"@ + int_text(process_id as int) + "|"@ + label@,
        a.title@ == process@ + " contacted a new destination: "@ + label@,
        a.detail == detail,
        alert_view(a) == new_dest_alert_v(ts, process_id, dest_id, process@, label@, detail@),
{
    let mut key = String::new();
    key.append("dest|");
    push_i64(&mut key, process_id);
    key.append("|");
    key.append(label);
    let mut title = String::new();
    title.append(process);
    title.append(" contacted a new destination: ");
    title.append(label);
    Alert {
        id: None,
        kind: AlertKind::NewProcessDest,
        severity: Severity::Notice,
        ts,
        process_id: Some(process_id),
        dest_id: Some(dest_id),
        dedup_key: key,
        title,
        detail,
    }
}

/// Signal 3, by country: a process reached a country it never had.
pub fn new_country_alert(
    ts: i64,
    process_id: i64,
    dest_id: i64,
    process: &str,
    country: &str,
    detail: String,
) -> (a: Alert)
    ensures
        fresh_alert(a, AlertKind::NewGeo, Severity::Notice, ts, process_id, dest_id),
        a.dedup_key@ == "geo|"@ + int_text(process_id as int) + "|cc|"@ + country@,
        a.title@ == process@ + " connected to a new country: "@ + country@,
        a.detail == detail,
        alert_view(a) == new_country_alert_v(ts, process_id, dest_id, process@, country@, detail@),
{
    let mut key = String::new();
    key.append("geo|");
    push_i64(&mut key, process_id);
    key.append("|cc|");
    key.append(country);
    let mut title = String::new();
    title.append(process);
    title.append(" connected to a new country: ");
    title.append(country);
    Alert {
        id: None,
        kind: AlertKind::NewGeo,
        severity: Severity::Notice,
        ts,
        process_id: Some(process_id),
        dest_id: Some(dest_id),
        dedup_key: key,
        title,
        detail,
    }
}

/// Signal 3, by network: a process reached an AS it never had; the title
/// names the organisation when it is known.
pub fn new_network_alert(
    ts: i64,
    process_id: i64,
    dest_id: i64,
    process: &str,
    asn: u32,
    as_org: Option<&str>,
    detail: String,
) -> (a: Alert)
    ensures
        fresh_alert(a, AlertKind::NewGeo, Severity::Notice, ts, process_id, dest_id),
        a.dedup_key@ == "geo|"@ + int_text(process_id as int) + "|asn|"@ + dec(asn as nat),
        a.title@ == process@ + " connected to a new network: AS"@ + dec(asn as nat) + match as_org {
            Some(o) => " ("@ + o@ + ")"@,
            None => Seq::<char>::empty(),
        },
        a.detail == detail,
        alert_view(a) == new_network_alert_v(
            ts,
            process_id,
            dest_id,
            process@,
            asn,
            match as_org {
                Some(o) => Some(o@),
                None => None,
            },
            detail@,
        ),
{
    let mut key = String::new();
    key.append("geo|");
    push_i64(&mut key, process_id);
    key.append("|asn|");
    push_dec(&mut key, asn as u64);
    let mut title = String::new();
    title.append(process);
    title.append(" connected to a new network: AS");
    push_dec(&mut title, asn as u64);
    match as_org {
        Some(o) => {
            title.append(" (");
            title.append(o);
            title.append(")");
        },
        None => {},
    }
    Alert {
        id: None,
        kind: AlertKind::NewGeo,
        severity: Severity::Notice,
        ts,
        process_id: Some(process_id),
        dest_id: Some(dest_id),
        dedup_key: key,
        title,
        detail,
    }
}

// ---------------------------------------------------------------------------
// Which alerts one flow event raises
// ---------------------------------------------------------------------------

/// What the store says about a flow event: whether the baseline is past its
/// learning window, the rows of the destination and the process, whether
/// the process, the destination label, the country and the network are new
/// to it, and the process's baseline identity.
#[derive(Debug, Clone)]
pub struct Novelty {
    pub active: bool,
    pub dest_id: i64,
    pub process_row: i64,
    pub process_was_new: bool,
    pub baseline_identity: Option<BinaryIdentity>,
    pub label_new: bool,
    pub country_new: bool,
    pub asn_new: bool,
}

/// The alerts of signals 2, 5, 1 and 3 that an attributed, outbound flow
/// event raises once the baseline is active, in this order:
/// - the process's first outbound connection (signal 2);
/// - a changed binary identity against the baseline one (signal 5);
/// - a destination label new to the process (signal 1);
/// - a new country, then a new network (signal 3), each when known.
///
/// `details` holds each signal's structured details as JSON text, in the
/// order egress, identity, destination, country, network.
pub open spec fn spec_planned_alerts(
    ev: FlowEvent,
    n: Novelty,
    flag_signed_updates: bool,
    details: Seq<String>,
) -> Seq<AlertV> {
    let p = ev.proc_->0;
    let exe = exe_label_of(p);
    let name = p.name@;
    let on = n.active && ev.outbound;
    let egress = if on && n.process_was_new {
        seq![
            egress_alert_v(
                ev.ts,
                n.process_row,
                n.dest_id,
                exe,
                name,
                dest_label_of(ev.name, ev.dest_ip),
                details[0]@,
            ),
        ]
    } else {
        Seq::empty()
    };
    let identity = match (ev.identity, n.baseline_identity) {
        (Some(id), Some(b)) => if on && spec_changed_since(b@, id@, flag_signed_updates) {
            seq![identity_alert_v(ev.ts, n.process_row, n.dest_id, exe, name, id.value@, details[1]@)]
        } else {
            Seq::empty()
        },
        _ => Seq::empty(),
    };
    let dest = if on && n.label_new {
        seq![
            new_dest_alert_v(
                ev.ts,
                n.process_row,
                n.dest_id,
                name,
                stable_label_of(ev.geo.as_org, ev.name, ev.dest_ip),
                details[2]@,
            ),
        ]
    } else {
        Seq::empty()
    };
    let country = match ev.geo.country {
        Some(cc) => if n.country_new && on {
            seq![new_country_alert_v(ev.ts, n.process_row, n.dest_id, name, cc@, details[3]@)]
        } else {
            Seq::empty()
        },
        None => Seq::empty(),
    };
    let network = match ev.geo.asn {
        Some(asn) => if n.asn_new && on {
            seq![
                new_network_alert_v(
                    ev.ts,
                    n.process_row,
                    n.dest_id,
                    name,
                    asn,
                    opt_view(ev.geo.as_org),
                    details[4]@,
                ),
            ]
        } else {
            Seq::empty()
        },
        None => Seq::empty(),
    };
    egress + identity + dest + country + network
}

/// The alerts a flow event raises (see [`spec_planned_alerts`]), before
/// cooldown deduplication by the store.
pub fn planned_alerts(ev: &FlowEvent, n: &Novelty, flag_signed_updates: bool, details: Vec<String>) -> (r: Vec<
    Alert,
>)
    requires
        ev.proc_ is Some,
        details@.len() == 5,
    ensures
        alerts_view(r@) == spec_planned_alerts(*ev, *n, flag_signed_updates, details@),
{
    let p = ev.proc_.as_ref().unwrap();
    let exe = exe_label(p);
    let on = n.active && ev.outbound;
    let mut out: Vec<Alert> = Vec::new();
    let ghost mut want: Seq<AlertV> = Seq::empty();
    assert(alerts_view(out@) =~= want);
    if on && n.process_was_new {
        let dest = dest_label(ev);
        let a = egress_alert(
            ev.ts,
            n.process_row,
            n.dest_id,
            exe.as_str(),
            p.name.as_str(),
            dest.as_str(),
            details[0].clone(),
        );
        out.push(a);
        proof {
            want = want.push(alert_view(a));
            assert(alerts_view(out@) =~= want);
        }
    }
    match (&ev.identity, &n.baseline_identity) {
        (Some(id), Some(b)) => {
            if on && b.changed_since(id, flag_signed_updates) {
                let a = identity_alert(
                    ev.ts,
                    n.process_row,
                    n.dest_id,
                    exe.as_str(),
                    p.name.as_str(),
                    id.value.as_str(),
                    details[1].clone(),
                );
                out.push(a);
                proof {
                    want = want.push(alert_view(a));
                    assert(alerts_view(out@) =~= want);
                }
            }
        },
        _ => {},
    }
    if on && n.label_new {
        let label = stable_label(ev);
        let a = new_dest_alert(
            ev.ts,
            n.process_row,
            n.dest_id,
            p.name.as_str(),
            label.as_str(),
            details[2].clone(),
        );
        out.push(a);
        proof {
            want = want.push(alert_view(a));
            assert(alerts_view(out@) =~= want);
        }
    }
    match &ev.geo.country {
        Some(cc) => {
            if n.country_new && on {
                let a = new_country_alert(
                    ev.ts,
                    n.process_row,
                    n.dest_id,
                    p.name.as_str(),
                    cc.as_str(),
                    details[3].clone(),
                );
                out.push(a);
                proof {
                    want = want.push(alert_view(a));
                    assert(alerts_view(out@) =~= want);
                }
            }
        },
        None => {},
    }
    match ev.geo.asn {
        Some(asn) => {
            if n.asn_new && on {
                let org = match &ev.geo.as_org {
                    Some(o) => Some(o.as_str()),
                    None => None,
                };
                let a = new_network_alert(
                    ev.ts,
                    n.process_row,
                    n.dest_id,
                    p.name.as_str(),
                    asn,
                    org,
                    details[4].clone(),
                );
                out.push(a);
                proof {
                    want = want.push(alert_view(a));
                    assert(alerts_view(out@) =~= want);
                }
            }
        },
        None => {},
    }
    proof {
        assert(want =~= spec_planned_alerts(*ev, *n, flag_signed_updates, details@));
    }
    out
}

/// Nothing fires while the baseline is still learning, nor for a flow that
/// the remote side started.
pub proof fn law_quiet_while_learning_or_inbound(
    ev: FlowEvent,
    n: Novelty,
    flag_signed_updates: bool,
    details: Seq<String>,
)
    requires
        !n.active || !ev.outbound,
    ensures
        spec_planned_alerts(ev, n, flag_signed_updates, details) == Seq::<AlertV>::empty(),
{
    assert(spec_planned_alerts(ev, n, flag_signed_updates, details) =~= Seq::<AlertV>::empty());
}

} // verus!

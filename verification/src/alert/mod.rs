//! Alert types for the five egress signals: what fired, how severe it is,
//! and their stable database spellings.
use vstd::prelude::*;

pub mod detectors;

verus! {

/// The five egress alert signals.
#[derive(Debug, Clone, Copy, PartialEq, Eq)]
pub enum AlertKind {
    /// Signal 1: a process contacted a destination org/domain it never has.
    NewProcessDest,
    /// Signal 2: a binary made its first-ever outbound connection.
    NewProcessEgress,
    /// Signal 3: first contact with a host in a new country or AS.
    NewGeo,
    /// Signal 4: outbound volume far above a process's baseline.
    VolumeSpike,
    /// Signal 5: a process's binary identity changed since baseline.
    IdentityChange,
}

/// The database spelling of a kind.
pub open spec fn kind_db(k: AlertKind) -> Seq<char> {
    match k {
        AlertKind::NewProcessDest => "new_process_dest"@,
        AlertKind::NewProcessEgress => "new_process_egress"@,
        AlertKind::NewGeo => "new_geo"@,
        AlertKind::VolumeSpike => "volume_spike"@,
        AlertKind::IdentityChange => "identity_change"@,
    }
}

/// The kind a database spelling stands for.
pub open spec fn kind_from_db(s: Seq<char>) -> Option<AlertKind> {
    if s == "new_process_dest"@ {
        Some(AlertKind::NewProcessDest)
    } else if s == "new_process_egress"@ {
        Some(AlertKind::NewProcessEgress)
    } else if s == "new_geo"@ {
        Some(AlertKind::NewGeo)
    } else if s == "volume_spike"@ {
        Some(AlertKind::VolumeSpike)
    } else if s == "identity_change"@ {
        Some(AlertKind::IdentityChange)
    } else {
        None
    }
}

pub open spec fn kind_label(k: AlertKind) -> Seq<char> {
    match k {
        AlertKind::NewProcessDest => "New process → destination"@,
        AlertKind::NewProcessEgress => "New process phoning home"@,
        AlertKind::NewGeo => "New country / ASN"@,
        AlertKind::VolumeSpike => "Volume / exfil spike"@,
        AlertKind::IdentityChange => "Program modification"@,
    }
}

fn text_eq(a: &str, b: &str) -> (r: bool)
    ensures
        r == (a@ == b@),
{
    crate::text::str_eq(a, b)
}

impl AlertKind {
    pub fn as_db(self) -> (r: &'static str)
        ensures
            r@ == kind_db(self),
    {
        match self {
            AlertKind::NewProcessDest => "new_process_dest",
            AlertKind::NewProcessEgress => "new_process_egress",
            AlertKind::NewGeo => "new_geo",
            AlertKind::VolumeSpike => "volume_spike",
            AlertKind::IdentityChange => "identity_change",
        }
    }

    pub fn from_db(s: &str) -> (r: Option<AlertKind>)
        ensures
            r == kind_from_db(s@),
    {
        if text_eq(s, "new_process_dest") {
            Some(AlertKind::NewProcessDest)
        } else if text_eq(s, "new_process_egress") {
            Some(AlertKind::NewProcessEgress)
        } else if text_eq(s, "new_geo") {
            Some(AlertKind::NewGeo)
        } else if text_eq(s, "volume_spike") {
            Some(AlertKind::VolumeSpike)
        } else if text_eq(s, "identity_change") {
            Some(AlertKind::IdentityChange)
        } else {
            None
        }
    }

    /// Human-readable label.
    pub fn label(self) -> (r: &'static str)
        ensures
            r@ == kind_label(self),
    {
        match self {
            AlertKind::NewProcessDest => "New process → destination",
            AlertKind::NewProcessEgress => "New process phoning home",
            AlertKind::NewGeo => "New country / ASN",
            AlertKind::VolumeSpike => "Volume / exfil spike",
            AlertKind::IdentityChange => "Program modification",
        }
    }
}

/// How urgent an alert is, from least to most.
#[derive(Debug, Clone, Copy, PartialEq, Eq, PartialOrd, Ord)]
pub enum Severity {
    Info,
    Notice,
    Warning,
    Critical,
}

pub open spec fn severity_db(s: Severity) -> Seq<char> {
    match s {
        Severity::Info => "info"@,
        Severity::Notice => "notice"@,
        Severity::Warning => "warning"@,
        Severity::Critical => "critical"@,
    }
}

pub open spec fn severity_from_db(s: Seq<char>) -> Option<Severity> {
    if s == "info"@ {
        Some(Severity::Info)
    } else if s == "notice"@ {
        Some(Severity::Notice)
    } else if s == "warning"@ {
        Some(Severity::Warning)
    } else if s == "critical"@ {
        Some(Severity::Critical)
    } else {
        None
    }
}

impl Severity {
    pub fn as_db(self) -> (r: &'static str)
        ensures
            r@ == severity_db(self),
    {
        match self {
            Severity::Info => "info",
            Severity::Notice => "notice",
            Severity::Warning => "warning",
            Severity::Critical => "critical",
        }
    }

    pub fn from_db(s: &str) -> (r: Option<Severity>)
        ensures
            r == severity_from_db(s@),
    {
        if text_eq(s, "info") {
            Some(Severity::Info)
        } else if text_eq(s, "notice") {
            Some(Severity::Notice)
        } else if text_eq(s, "warning") {
            Some(Severity::Warning)
        } else if text_eq(s, "critical") {
            Some(Severity::Critical)
        } else {
            None
        }
    }
}

/// Reading back the database spelling of a kind gives the same kind.
pub proof fn law_kind_db_roundtrip(k: AlertKind)
    ensures
        kind_from_db(kind_db(k)) == Some(k),
{
    reveal_strlit("new_process_dest");
    reveal_strlit("new_process_egress");
    reveal_strlit("new_geo");
    reveal_strlit("volume_spike");
    reveal_strlit("identity_change");
    assert("new_process_dest"@.len() == 16);
    assert("new_process_egress"@.len() == 18);
    assert("new_geo"@.len() == 7);
    assert("volume_spike"@.len() == 12);
    assert("identity_change"@.len() == 15);
}

/// Reading back the database spelling of a severity gives the same severity.
pub proof fn law_severity_db_roundtrip(s: Severity)
    ensures
        severity_from_db(severity_db(s)) == Some(s),
{
    reveal_strlit("info");
    reveal_strlit("notice");
    reveal_strlit("warning");
    reveal_strlit("critical");
    assert("info"@.len() == 4);
    assert("notice"@.len() == 6);
    assert("warning"@.len() == 7);
    assert("critical"@.len() == 8);
}

/// One raised alert. `ts` is in Unix milliseconds; `dedup_key` is stable per
/// kind and subject and drives cooldown deduplication; `detail` holds the
/// structured details as JSON text.
#[derive(Debug, Clone)]
pub struct Alert {
    pub id: Option<i64>,
    pub kind: AlertKind,
    pub severity: Severity,
    pub ts: i64,
    pub process_id: Option<i64>,
    pub dest_id: Option<i64>,
    pub dedup_key: String,
    pub title: String,
    pub detail: String,
}

} // verus!

//! The persistent store's stable spellings of identity fields, and the rows
//! it hands out.
use vstd::prelude::*;
use crate::identity::{IdentityKind, IdentityStatus};
use crate::text::str_eq;

pub mod models;

verus! {

/// Whether an alert at `ts` may be stored, when the latest stored alert with
/// the same dedup key is at `prev_ts` (none stored: always): only once
/// `cooldown_ms` have passed since it. Inside the cooldown it is suppressed.
pub fn cooldown_allows(prev_ts: Option<i64>, ts: i64, cooldown_ms: i64) -> (r: bool)
    requires
        prev_ts matches Some(p) ==> i64::MIN <= ts - p <= i64::MAX,
    ensures
        r == match prev_ts {
            None => true,
            Some(p) => ts - p >= cooldown_ms,
        },
{
    match prev_ts {
        None => true,
        Some(p) => !(ts - p < cooldown_ms),
    }
}

/// The database spelling of an identity kind.
pub open spec fn kind_spelling(k: IdentityKind) -> Seq<char> {
    match k {
        IdentityKind::MacCodesign => "mac_codesign"@,
        IdentityKind::Sha256 => "sha256"@,
        IdentityKind::Unknown => "unknown"@,
    }
}

/// The identity kind a database spelling stands for; anything unknown is
/// `Unknown`.
pub open spec fn kind_of_spelling(s: Seq<char>) -> IdentityKind {
    if s == "mac_codesign"@ {
        IdentityKind::MacCodesign
    } else if s == "sha256"@ {
        IdentityKind::Sha256
    } else {
        IdentityKind::Unknown
    }
}

/// The database spelling of an identity status.
pub open spec fn status_spelling(s: IdentityStatus) -> Seq<char> {
    match s {
        IdentityStatus::Valid => "valid"@,
        IdentityStatus::Unsigned => "unsigned"@,
        IdentityStatus::AdHoc => "adhoc"@,
        IdentityStatus::Invalid => "invalid"@,
        IdentityStatus::Unreadable => "unreadable"@,
    }
}

/// The identity status a database spelling stands for; anything unknown is
/// `Unsigned`.
pub open spec fn status_of_spelling(s: Seq<char>) -> IdentityStatus {
    if s == "valid"@ {
        IdentityStatus::Valid
    } else if s == "adhoc"@ {
        IdentityStatus::AdHoc
    } else if s == "invalid"@ {
        IdentityStatus::Invalid
    } else if s == "unreadable"@ {
        IdentityStatus::Unreadable
    } else {
        IdentityStatus::Unsigned
    }
}

pub fn identity_kind_db(kind: &IdentityKind) -> (r: &'static str)
    ensures
        r@ == kind_spelling(*kind),
{
    match kind {
        IdentityKind::MacCodesign => "mac_codesign",
        IdentityKind::Sha256 => "sha256",
        IdentityKind::Unknown => "unknown",
    }
}

pub fn identity_kind_from(s: &str) -> (r: IdentityKind)
    ensures
        r == kind_of_spelling(s@),
{
    if str_eq(s, "mac_codesign") {
        IdentityKind::MacCodesign
    } else if str_eq(s, "sha256") {
        IdentityKind::Sha256
    } else {
        IdentityKind::Unknown
    }
}

pub fn identity_status_db(status: IdentityStatus) -> (r: &'static str)
    ensures
        r@ == status_spelling(status),
{
    match status {
        IdentityStatus::Valid => "valid",
        IdentityStatus::Unsigned => "unsigned",
        IdentityStatus::AdHoc => "adhoc",
        IdentityStatus::Invalid => "invalid",
        IdentityStatus::Unreadable => "unreadable",
    }
}

pub fn identity_status_from(s: &str) -> (r: IdentityStatus)
    ensures
        r == status_of_spelling(s@),
{
    if str_eq(s, "valid") {
        IdentityStatus::Valid
    } else if str_eq(s, "adhoc") {
        IdentityStatus::AdHoc
    } else if str_eq(s, "invalid") {
        IdentityStatus::Invalid
    } else if str_eq(s, "unreadable") {
        IdentityStatus::Unreadable
    } else {
        IdentityStatus::Unsigned
    }
}

/// Reading back the stored spelling of an identity kind gives that kind.
pub proof fn law_identity_kind_roundtrip(k: IdentityKind)
    ensures
        kind_of_spelling(kind_spelling(k)) == k,
{
    reveal_strlit("mac_codesign");
    reveal_strlit("sha256");
    reveal_strlit("unknown");
    assert("mac_codesign"@.len() == 12);
    assert("sha256"@.len() == 6);
    assert("unknown"@.len() == 7);
}

/// Reading back the stored spelling of an identity status gives that status.
pub proof fn law_identity_status_roundtrip(s: IdentityStatus)
    ensures
        status_of_spelling(status_spelling(s)) == s,
{
    reveal_strlit("valid");
    reveal_strlit("unsigned");
    reveal_strlit("adhoc");
    reveal_strlit("invalid");
    reveal_strlit("unreadable");
    assert("valid"@.len() == 5);
    assert("unsigned"@.len() == 8);
    assert("adhoc"@.len() == 5);
    assert("invalid"@.len() == 7);
    assert("unreadable"@.len() == 10);
    assert("valid"@[0] == 'v' && "adhoc"@[0] == 'a');
}

} // verus!

use pktscope_core::identity::{IdentityKind, IdentityStatus};
use pktscope_core::store::cooldown_allows;
use pktscope_core::store::{
    identity_kind_db, identity_kind_from, identity_status_db, identity_status_from,
};

#[test]
fn test_identity_kind_spellings_roundtrip() {
    for k in [IdentityKind::MacCodesign, IdentityKind::Sha256, IdentityKind::Unknown] {
        assert_eq!(identity_kind_from(identity_kind_db(&k)), k);
    }
    assert_eq!(identity_kind_db(&IdentityKind::MacCodesign), "mac_codesign");
    assert_eq!(identity_kind_from("garbage"), IdentityKind::Unknown);
    assert_eq!(identity_kind_from("SHA256"), IdentityKind::Unknown);
}

#[test]
fn test_identity_status_spellings_roundtrip() {
    for s in [
        IdentityStatus::Valid,
        IdentityStatus::Unsigned,
        IdentityStatus::AdHoc,
        IdentityStatus::Invalid,
        IdentityStatus::Unreadable,
    ] {
        assert_eq!(identity_status_from(identity_status_db(s)), s);
    }
    assert_eq!(identity_status_db(IdentityStatus::AdHoc), "adhoc");
    assert_eq!(identity_status_from("whatever"), IdentityStatus::Unsigned);
}

/// The store keeps an alert unless one with the same key is stored less than
/// the cooldown before it; `stored` holds the kept timestamps of one key.
fn keep(stored: &mut Vec<i64>, ts: i64, cooldown_ms: i64) -> bool {
    let prev = stored.iter().copied().max();
    let kept = cooldown_allows(prev, ts, cooldown_ms);
    if kept {
        stored.push(ts);
    }
    kept
}

#[test]
fn test_alert_cooldown() {
    let mut stored = Vec::new();
    assert!(keep(&mut stored, 1_000, 60_000));
    // within cooldown -> suppressed
    assert!(!keep(&mut stored, 30_000, 60_000));
    // after cooldown -> emitted
    assert!(keep(&mut stored, 100_000, 60_000));
    assert_eq!(stored.len(), 2);
}

#[test]
fn test_cooldown_boundary() {
    assert!(cooldown_allows(None, 0, 60_000));
    assert!(cooldown_allows(Some(1_000), 61_000, 60_000));
    assert!(!cooldown_allows(Some(1_000), 60_999, 60_000));
    // An alert stamped before the stored one is inside the cooldown.
    assert!(!cooldown_allows(Some(5_000), 1_000, 60_000));
}

//! Plain rows of the persistent store.
use vstd::prelude::*;

verus! {

#[derive(Debug, Clone)]
pub struct ProcessRow {
    pub id: i64,
    pub exe_path: String,
    pub name: String,
    pub first_seen_ms: i64,
    pub last_seen_ms: i64,
}

#[derive(Debug, Clone)]
pub struct DestRow {
    pub id: i64,
    pub ip: String,
    pub best_name: Option<String>,
    pub asn: Option<u32>,
    pub as_org: Option<String>,
    pub country: Option<String>,
    pub first_seen_ms: i64,
    pub last_seen_ms: i64,
}

#[derive(Debug, Clone)]
pub struct ConnectionRow {
    pub id: i64,
    pub process_id: Option<i64>,
    pub dest_id: Option<i64>,
    pub proto: u8,
    pub local_port: u16,
    pub remote_port: u16,
    pub bytes_up: u64,
    pub bytes_down: u64,
    pub name: Option<String>,
    pub ts_start_ms: i64,
    pub ts_end_ms: i64,
}

#[derive(Debug, Clone, Copy)]
pub struct ProcessUpsert {
    pub id: i64,
    pub was_new: bool,
}

#[derive(Debug, Clone, Copy)]
pub struct PairUpsert {
    pub id: i64,
    pub was_new: bool,
}

/// Whether the baseline is still being learned or alerts are live.
#[derive(Debug, Clone, Copy, PartialEq, Eq)]
pub enum BaselineState {
    Learning,
    Active,
}

} // verus!

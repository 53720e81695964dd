//! Packet decoding, flow tracking, display filters and the egress monitor's
//! decisions, with verified contracts.
use vstd::prelude::*;

pub mod alert;
pub mod analysis;
pub mod capture;
pub mod decode;
pub mod diff;
pub mod enrich;
pub mod filter;
pub mod flow;
pub mod identity;
pub mod inspector;
pub mod ipc;
pub mod monitor;
pub mod net;
pub mod notify;
pub mod output;
pub mod process;
pub mod store;
pub mod text;

verus! {

} // verus!

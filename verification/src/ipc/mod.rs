//! The daemon's IPC protocol: requests, responses and pushed events.
pub mod live;
pub mod protocol;

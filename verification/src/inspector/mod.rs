//! UI-agnostic inspector state: a reducer over the daemon's events plus the
//! queries a front end asks of it.
pub mod state;
pub mod rollup;

//! Attribution of sockets to processes: the result type and the parsers of
//! the platforms' listing tools.
use vstd::prelude::*;
use crate::decode::ProcessInfo;

pub mod linux;
pub mod macos;
pub mod windows;

verus! {

/// Attribution result used by the egress daemon: pid, process name and
/// executable path (needed for binary-identity tracking).
#[derive(Debug, Clone, PartialEq, Eq)]
pub struct SocketProc {
    pub pid: u32,
    pub name: String,
    pub exe_path: Option<String>,
}

impl SocketProc {
    /// Just the pid and name.
    pub fn to_process_info(&self) -> (r: ProcessInfo)
        ensures
            r.pid == self.pid,
            r.name@ == self.name@,
    {
        ProcessInfo { pid: self.pid, name: self.name.clone() }
    }
}

} // verus!

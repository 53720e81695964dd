//! The egress monitor daemon's decisions that need no I/O: where its files
//! live, and what a status or stop request's reply means.
use vstd::prelude::*;
use crate::ipc::protocol::{DaemonStatus, Response};

pub mod correlate;
pub mod paths;

verus! {

broadcast use vstd::string::group_string_axioms;

/// The outcome of a `Status` request, from the daemon's reply: its status, or
/// `daemon error: ...` for an error reply, or `unexpected response`.
pub fn monitor_status(resp: Response) -> (r: Result<DaemonStatus, String>)
    ensures
        match resp {
            Response::Status(s) => r == Ok::<DaemonStatus, String>(s),
            Response::Error { message } => r matches Err(m) && m@ == "daemon error: "@ + message@,
            _ => r matches Err(m) && m@ == "unexpected response"@,
        },
{
    match resp {
        Response::Status(s) => Ok(s),
        Response::Error { message } => {
            let mut m = String::new();
            m.append("daemon error: ");
            m.append(message.as_str());
            Err(m)
        },
        _ => Err("unexpected response".to_string()),
    }
}

/// The outcome of a `Stop` request, from the daemon's reply: done when it is
/// stopping, else `daemon error: ...` or `unexpected response`.
pub fn monitor_stop(resp: Response) -> (r: Result<(), String>)
    ensures
        match resp {
            Response::Stopping => r is Ok,
            Response::Error { message } => r matches Err(m) && m@ == "daemon error: "@ + message@,
            _ => r matches Err(m) && m@ == "unexpected response"@,
        },
{
    match resp {
        Response::Stopping => Ok(()),
        Response::Error { message } => {
            let mut m = String::new();
            m.append("daemon error: ");
            m.append(message.as_str());
            Err(m)
        },
        _ => Err("unexpected response".to_string()),
    }
}

} // verus!

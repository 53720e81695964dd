//! Filesystem locations of the daemon's runtime state.
use vstd::prelude::*;

verus! {

broadcast use vstd::string::group_string_axioms;

/// Filesystem locations for the daemon's runtime state.
#[derive(Debug, Clone)]
pub struct Paths {
    pub state_dir: String,
    pub socket: String,
    pub db: String,
    pub pidfile: String,
    pub log: String,
}

/// `dir` joined with the relative name `name`, Unix style: a `/` is put
/// between them unless `dir` is empty or already ends with one.
pub open spec fn path_join(dir: Seq<char>, name: Seq<char>) -> Seq<char> {
    if dir.len() == 0 {
        name
    } else if dir.last() == '/' {
        dir + name
    } else {
        dir + seq!['/'] + name
    }
}

/// Joins a relative file name onto a directory path.
pub fn join(dir: &String, name: &str) -> (r: String)
    ensures
        r@ == path_join(dir@, name@),
{
    let mut r = String::new();
    r.append(dir.as_str());
    let dv = crate::text::string_chars(dir.as_str());
    if dv.len() > 0 && dv[dv.len() - 1] != '/' {
        r.append("/");
        proof {
            reveal_strlit("/");
        }
    }
    r.append(name);
    r
}

/// The state directory used when none is given: `pktscope` in the
/// platform's local data directory, or `/tmp/pktscope` without one.
pub open spec fn default_state_dir(data_local_dir: Option<Seq<char>>) -> Seq<char> {
    match data_local_dir {
        Some(d) => path_join(d, "pktscope"@),
        None => "/tmp/pktscope"@,
    }
}

/// Resolves the runtime paths: the given state directory, else the default
/// one under `data_local_dir` (the platform's local data directory, when it
/// has one), with the socket, database, pid file and log inside it.
pub fn resolve(state_dir: Option<String>, data_local_dir: Option<String>) -> (r: Paths)
    ensures
        r.state_dir@ == match state_dir {
            Some(d) => d@,
            None => default_state_dir(
                match data_local_dir {
                    Some(x) => Some(x@),
                    None => None,
                },
            ),
        },
        r.socket@ == path_join(r.state_dir@, "pktscope.sock"@),
        r.db@ == path_join(r.state_dir@, "pktscope.db"@),
        r.pidfile@ == path_join(r.state_dir@, "pktscope.pid"@),
        r.log@ == path_join(r.state_dir@, "monitor.log"@),
{
    let dir = match state_dir {
        Some(d) => d,
        None => match data_local_dir {
            Some(x) => join(&x, "pktscope"),
            None => "/tmp/pktscope".to_string(),
        },
    };
    Paths {
        socket: join(&dir, "pktscope.sock"),
        db: join(&dir, "pktscope.db"),
        pidfile: join(&dir, "pktscope.pid"),
        log: join(&dir, "monitor.log"),
        state_dir: dir,
    }
}

} // verus!

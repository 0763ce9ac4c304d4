//! The PID file: one well-known place for each user, so that any launcher's server
//! is found.
use vstd::prelude::*;
use crate::numbers::{decimal, lemma_decimal_round_trip, number_up_to, to_decimal};
use crate::paths::{join_path, joined};

verus! {

/// Where the PID file is: in the run-time directory, or in `/tmp` where there is
/// none.
pub open spec fn pid_file_path(xdg_runtime_dir: Option<Seq<char>>) -> Seq<char> {
    match xdg_runtime_dir {
        Some(dir) if dir.len() > 0 => joined(dir, "lamco-rdp-server.pid"@),
        _ => joined("/tmp"@, "lamco-rdp-server.pid"@),
    }
}

/// Where the PID file is. An empty run-time directory counts as none.
pub fn path_with_base(xdg_runtime_dir: Option<&str>) -> (path: String)
    ensures
        path@ == pid_file_path(
            match xdg_runtime_dir {
                Some(dir) => Some(dir@),
                None => None,
            },
        ),
{
    if let Some(dir) = xdg_runtime_dir {
        if !dir.is_empty() {
            return join_path(dir, "lamco-rdp-server.pid");
        }
    }
    join_path("/tmp", "lamco-rdp-server.pid")
}

/// What the PID file holds.
pub fn content(pid: u32) -> (text: String)
    ensures
        text@ == decimal(pid as nat),
{
    to_decimal(pid as u64)
}

/// A reader gets the number back that was written.
pub proof fn lemma_pid_reads_back(pid: u32)
    ensures
        number_up_to(decimal(pid as nat), u32::MAX as nat) == Some(pid as nat),
{
    lemma_decimal_round_trip(pid as nat);
}

/// The file has one name. It stands in the run-time directory behind one slash, and in
/// `/tmp` where there is no such directory.
pub proof fn lemma_pid_file_places(dir: Seq<char>)
    requires
        dir.len() > 0,
        dir.last() != '/',
    ensures
        pid_file_path(Some(dir)) == dir + "/lamco-rdp-server.pid"@,
        pid_file_path(Some(dir.push('/'))) == dir + "/lamco-rdp-server.pid"@,
        pid_file_path(None) == "/tmp/lamco-rdp-server.pid"@,
        pid_file_path(Some(Seq::empty())) == "/tmp/lamco-rdp-server.pid"@,
{
    reveal_strlit("/tmp");
    reveal_strlit("lamco-rdp-server.pid");
    reveal_strlit("/lamco-rdp-server.pid");
    reveal_strlit("/tmp/lamco-rdp-server.pid");
    assert(dir.push('/') + "lamco-rdp-server.pid"@ =~= dir + "/lamco-rdp-server.pid"@);
    assert("/tmp"@.push('/') + "lamco-rdp-server.pid"@ =~= "/tmp/lamco-rdp-server.pid"@);
}

} // verus!

//! The tick: heartbeat, listings, watched files, sleep; and the heartbeat's
//! request and verdict.

use vstd::prelude::*;
use vstd::string::StringExecFns;

verus! {

/// Where a tick stands.
#[derive(Clone, Copy, Debug, PartialEq, Eq, Structural)]
pub enum Step {
    Heartbeat,
    Processes,
    Packages,
    /// The watched file at this position of the configuration.
    File(usize),
    Sleep,
    Terminate,
}

pub open spec fn first_file(n_files: usize) -> Step {
    if n_files > 0 {
        Step::File(0)
    } else {
        Step::Sleep
    }
}

/// The step after `step`: a lost heartbeat ends in `Terminate`, which is
/// final; the package listing is only visited `with_packages`.
pub open spec fn step_after(step: Step, alive: bool, with_packages: bool, n_files: usize) -> Step {
    match step {
        Step::Heartbeat => if alive {
            Step::Processes
        } else {
            Step::Terminate
        },
        Step::Processes => if with_packages {
            Step::Packages
        } else {
            first_file(n_files)
        },
        Step::Packages => first_file(n_files),
        Step::File(i) => if i + 1 < n_files {
            Step::File((i + 1) as usize)
        } else {
            Step::Sleep
        },
        Step::Sleep => Step::Heartbeat,
        Step::Terminate => Step::Terminate,
    }
}

/// The step that follows `step`; `alive` is the heartbeat's verdict and
/// matters only after `Heartbeat`.
pub fn next_step(step: Step, alive: bool, with_packages: bool, n_files: usize) -> (r: Step)
    ensures
        r == step_after(step, alive, with_packages, n_files),
{
    match step {
        Step::Heartbeat => if alive {
            Step::Processes
        } else {
            Step::Terminate
        },
        Step::Processes => if with_packages {
            Step::Packages
        } else if n_files > 0 {
            Step::File(0)
        } else {
            Step::Sleep
        },
        Step::Packages => if n_files > 0 {
            Step::File(0)
        } else {
            Step::Sleep
        },
        Step::File(i) => if i < n_files && n_files - i > 1 {
            Step::File(i + 1)
        } else {
            Step::Sleep
        },
        Step::Sleep => Step::Heartbeat,
        Step::Terminate => Step::Terminate,
    }
}

/// The controller answered the heartbeat: a response came with status 200
/// exactly.
pub fn heartbeat_alive(status: Option<u16>) -> (r: bool)
    ensures
        r == (status == Some(200u16)),
{
    match status {
        Some(code) => code == 200,
        None => false,
    }
}

pub open spec fn ping_url_of(host: Seq<char>, machine: Seq<char>, uid: Seq<char>, team: Seq<char>) -> Seq<char> {
    "http://"@ + host + ":3000/ping?machine="@ + machine + "&uid="@ + uid + "&id="@ + team
}

/// The heartbeat's URL on the controller `host`, carrying the machine tag,
/// the machine's id and the team's id.
pub fn ping_url(host: &str, machine: &str, uid: &str, team: &str) -> (r: String)
    ensures
        r@ == ping_url_of(host@, machine@, uid@, team@),
{
    let mut url = String::from_str("http://");
    url.append(host);
    url.append(":3000/ping?machine=");
    url.append(machine);
    url.append("&uid=");
    url.append(uid);
    url.append("&id=");
    url.append(team);
    url
}

/// The scoring executable's direction argument: `1` for removed, `0` for
/// added.
pub fn direction_flag(removed: bool) -> (r: String)
    ensures
        r@ == (if removed { "1"@ } else { "0"@ }),
{
    if removed {
        String::from_str("1")
    } else {
        String::from_str("0")
    }
}

} // verus!

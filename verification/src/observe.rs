//! What the supervisor reads of the system, and what it concludes from it:
//! whether a pid is alive, the signature of a running process, the activity
//! of a watched folder, and when the recorded state is written again.
use crate::config::FolderActivityCheckHealth;
use crate::text::{nul_to_space, nul_to_space_spec, trim, trim_spec};
use crate::time::{nanos_between, span_nanos, span_total_nanos, ts_lt, ts_nanos, Timestamp};
use vstd::prelude::*;

verus! {

/// The answer of the system to a signal-less `kill` on a pid.
pub enum SignalProbe {
    /// The pid exists and may be signalled.
    Delivered,
    /// The pid exists, but signalling it is not permitted.
    NotPermitted,
    /// No process has the pid.
    NoSuchProcess,
    /// Any other error.
    Failed,
}

/// A process is taken to be running when the probe reached it, or when only
/// the permission was missing.
pub open spec fn running_spec(p: SignalProbe) -> bool {
    p is Delivered || p is NotPermitted
}

/// Whether the probe of a pid shows a running process.
pub fn is_process_running(probe: SignalProbe) -> (r: bool)
    ensures
        r == running_spec(probe),
{
    match probe {
        SignalProbe::Delivered => true,
        SignalProbe::NotPermitted => true,
        SignalProbe::NoSuchProcess => false,
        SignalProbe::Failed => false,
    }
}

/// The signature of a process from its executable name and its command
/// line: nothing while the command line reads empty, else the trimmed name,
/// a space and the trimmed arguments.
pub open spec fn signature_spec(comm: Seq<char>, cmdline: Seq<char>) -> Option<Seq<char>> {
    let args = trim_spec(nul_to_space_spec(cmdline));
    if args.len() == 0 {
        None
    } else {
        Some(trim_spec(comm) + " "@ + args)
    }
}

/// The signature of a process from the contents of its `comm` and
/// `cmdline` files, or `None` while the command line reads empty.
pub fn get_signature(comm: &str, cmdline: &str) -> (r: Option<String>)
    ensures
        match r {
            Some(s) => signature_spec(comm@, cmdline@) == Some(s@),
            None => signature_spec(comm@, cmdline@) is None,
        },
{
    let spaced = nul_to_space(cmdline);
    let args = trim(spaced.as_str());
    if args.unicode_len() == 0 {
        return None;
    }
    let mut out = trim(comm);
    out.append(" ");
    out.append(args.as_str());
    Some(out)
}

/// The latest of the first `n` times.
pub open spec fn latest_upto(times: Seq<Timestamp>, n: int) -> Option<Timestamp>
    decreases n,
{
    if n <= 0 || n > times.len() {
        None
    } else {
        match latest_upto(times, n - 1) {
            Some(m) => if ts_lt(m, times[n - 1]) {
                Some(times[n - 1])
            } else {
                Some(m)
            },
            None => Some(times[n - 1]),
        }
    }
}

/// The most recent modification among those of a folder's entries.
pub fn latest_update(times: &Vec<Timestamp>) -> (r: Option<Timestamp>)
    ensures
        r == latest_upto(times@, times@.len() as int),
{
    let mut best: Option<Timestamp> = None;
    let mut i: usize = 0;
    while i < times.len()
        invariant
            i <= times@.len(),
            best == latest_upto(times@, i as int),
        decreases times@.len() - i,
    {
        let t = times[i];
        best = match best {
            Some(m) => if m.secs < t.secs || (m.secs == t.secs && m.nanos < t.nanos) {
                Some(t)
            } else {
                Some(m)
            },
            None => Some(t),
        };
        i = i + 1;
    }
    best
}

/// A watched folder is active when its latest modification is not in the
/// future and is less than the inactivity limit old.
pub open spec fn folder_active_spec(latest: Option<Timestamp>, now: Timestamp, limit_nanos: int) -> bool {
    match latest {
        Some(m) => ts_nanos(m) <= ts_nanos(now) && ts_nanos(now) - ts_nanos(m) < limit_nanos,
        None => false,
    }
}

/// Whether a process checked by folder activity is healthy, given the latest
/// modification in its folder.
pub fn folder_activity_healthy(
    check: &FolderActivityCheckHealth,
    latest: Option<Timestamp>,
    now: Timestamp,
) -> (r: bool)
    ensures
        r == folder_active_spec(latest, now, span_nanos(check.inactive_time_spec())),
{
    let limit = span_total_nanos(check.inactive_time());
    match latest {
        Some(m) => {
            let elapsed = nanos_between(m, now);
            elapsed >= 0 && (elapsed as u128) < limit
        },
        None => false,
    }
}

/// The recorded state is written again unless nothing changed since the
/// last write and that write is less than six seconds old.
pub open spec fn save_due_spec(unchanged: bool, last_saved: Option<Timestamp>, now: Timestamp) -> bool {
    !(unchanged && last_saved is Some && ts_nanos(now) - ts_nanos(last_saved->0) < 6_000_000_000)
}

/// Whether the recorded state has to be written.
pub fn save_due(unchanged: bool, last_saved: Option<Timestamp>, now: Timestamp) -> (r: bool)
    ensures
        r == save_due_spec(unchanged, last_saved, now),
{
    match last_saved {
        Some(t) => !(unchanged && nanos_between(t, now) < 6_000_000_000),
        None => true,
    }
}

} // verus!

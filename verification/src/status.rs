//! The recorded state of every watched process.
use crate::config::{CheckHealth, CommandStop, ConfigUid, ProcessId};
use crate::time::Timestamp;
use vstd::prelude::*;

verus! {

/// Where a watched process stands.
#[derive(Debug)]
pub enum ProcessStatus {
    /// The before command still has to run.
    PendingBeforeCmd,
    /// The process has to be launched.
    ShouldBeRunning,
    /// Launched; the init command still has to succeed.
    PendingInitCmd {
        pid: u32,
        procman_uid: String,
        health_check: Option<CheckHealth>,
        stop_command: Option<CommandStop>,
    },
    /// Launched; its pid is awaited in a file.
    WaittingPidFile {
        pid_file: String,
        pid: u32,
        procman_uid: String,
        health_check: Option<CheckHealth>,
        stop_command: Option<CommandStop>,
    },
    /// Running.
    Running {
        pid: u32,
        procman_uid: String,
        health_check: Option<CheckHealth>,
        stop_command: Option<CommandStop>,
    },
    /// Being stopped; `retries` attempts were made, the last one at `last_attempt`.
    Stopping {
        pid: u32,
        procman_uid: String,
        health_check: Option<CheckHealth>,
        retries: u32,
        last_attempt: Timestamp,
        stop_command: Option<CommandStop>,
    },
    /// Stopped.
    Stopped,
    /// To be stopped once its pid shows up in a file.
    StoppingWaittingPidFile {
        pid_file: String,
        pid: u32,
        procman_uid: String,
        health_check: Option<CheckHealth>,
        retries: u32,
        last_attempt: Timestamp,
        stop_command: Option<CommandStop>,
    },
    /// Launched too often lately; left alone for a while.
    TooMuchRuns,
}

/// What is recorded of a watched process.
#[derive(Debug)]
pub struct ProcessWatched {
    pub id: ProcessId,
    /// The `apply_on` of the configuration it was started with.
    pub apply_on: Timestamp,
    pub status: ProcessStatus,
    /// When the status last changed.
    pub applied_on: Timestamp,
    /// When the process was launched lately.
    pub last_runs: Vec<Timestamp>,
}

/// The state recorded for a configuration file.
#[derive(Debug)]
pub struct RunningStatus {
    pub file_uid: ConfigUid,
    pub original_file_full_path: String,
    pub file_format: String,
    pub last_update: Timestamp,
    pub processes: Vec<ProcessWatched>,
}

impl RunningStatus {
    /// The state of a configuration file for which nothing is recorded yet.
    pub fn empty(file_uid: ConfigUid, original_file_full_path: String, now: Timestamp) -> (r: Self)
        ensures
            r.file_uid == file_uid,
            r.original_file_full_path == original_file_full_path,
            r.file_format@ == "0"@,
            r.last_update == now,
            r.processes@.len() == 0,
    {
        RunningStatus {
            file_uid,
            original_file_full_path,
            file_format: String::from_str("0"),
            last_update: now,
            processes: Vec::new(),
        }
    }
}

/// Clones of a status carry the same values.
impl Clone for ProcessStatus {
    fn clone(&self) -> (r: Self)
        ensures
            r == *self,
    {
        match self {
            ProcessStatus::PendingBeforeCmd => ProcessStatus::PendingBeforeCmd,
            ProcessStatus::ShouldBeRunning => ProcessStatus::ShouldBeRunning,
            ProcessStatus::PendingInitCmd { pid, procman_uid, health_check, stop_command } => {
                ProcessStatus::PendingInitCmd {
                    pid: *pid,
                    procman_uid: procman_uid.clone(),
                    health_check: clone_health(health_check),
                    stop_command: clone_stop(stop_command),
                }
            },
            ProcessStatus::WaittingPidFile { pid_file, pid, procman_uid, health_check, stop_command } => {
                ProcessStatus::WaittingPidFile {
                    pid_file: pid_file.clone(),
                    pid: *pid,
                    procman_uid: procman_uid.clone(),
                    health_check: clone_health(health_check),
                    stop_command: clone_stop(stop_command),
                }
            },
            ProcessStatus::Running { pid, procman_uid, health_check, stop_command } => {
                ProcessStatus::Running {
                    pid: *pid,
                    procman_uid: procman_uid.clone(),
                    health_check: clone_health(health_check),
                    stop_command: clone_stop(stop_command),
                }
            },
            ProcessStatus::Stopping {
                pid,
                procman_uid,
                health_check,
                retries,
                last_attempt,
                stop_command,
            } => ProcessStatus::Stopping {
                pid: *pid,
                procman_uid: procman_uid.clone(),
                health_check: clone_health(health_check),
                retries: *retries,
                last_attempt: *last_attempt,
                stop_command: clone_stop(stop_command),
            },
            ProcessStatus::Stopped => ProcessStatus::Stopped,
            ProcessStatus::StoppingWaittingPidFile {
                pid_file,
                pid,
                procman_uid,
                health_check,
                retries,
                last_attempt,
                stop_command,
            } => ProcessStatus::StoppingWaittingPidFile {
                pid_file: pid_file.clone(),
                pid: *pid,
                procman_uid: procman_uid.clone(),
                health_check: clone_health(health_check),
                retries: *retries,
                last_attempt: *last_attempt,
                stop_command: clone_stop(stop_command),
            },
            ProcessStatus::TooMuchRuns => ProcessStatus::TooMuchRuns,
        }
    }
}

fn clone_health(h: &Option<CheckHealth>) -> (r: Option<CheckHealth>)
    ensures
        r == *h,
{
    match h {
        Some(c) => Some(c.clone()),
        None => None,
    }
}

fn clone_stop(c: &Option<CommandStop>) -> (r: Option<CommandStop>)
    ensures
        r == *c,
{
    match c {
        Some(s) => Some(s.clone()),
        None => None,
    }
}

/// Two records carry the same values.
pub open spec fn same_record(a: ProcessWatched, b: ProcessWatched) -> bool {
    &&& a.id == b.id
    &&& a.apply_on == b.apply_on
    &&& a.status == b.status
    &&& a.applied_on == b.applied_on
    &&& a.last_runs@ == b.last_runs@
}

impl ProcessWatched {
    /// A copy of the record.
    pub fn duplicate(&self) -> (r: Self)
        ensures
            same_record(r, *self),
    {
        let mut runs: Vec<Timestamp> = Vec::new();
        let mut i: usize = 0;
        while i < self.last_runs.len()
            invariant
                i <= self.last_runs@.len(),
                runs@ == self.last_runs@.take(i as int),
            decreases self.last_runs@.len() - i,
        {
            runs.push(self.last_runs[i]);
            proof {
                assert(self.last_runs@.take(i + 1) =~= self.last_runs@.take(i as int).push(self.last_runs@[i as int]));
            }
            i = i + 1;
        }
        proof {
            assert(self.last_runs@.take(self.last_runs@.len() as int) =~= self.last_runs@);
        }
        ProcessWatched {
            id: self.id.clone(),
            apply_on: self.apply_on,
            status: self.status.clone(),
            applied_on: self.applied_on,
            last_runs: runs,
        }
    }
}

} // verus!

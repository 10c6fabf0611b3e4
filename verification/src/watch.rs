//! One watch cycle: the table of configured and watched processes, and the
//! steps that move each process through its states.
use crate::config::{unique_ids, ActiveProcessByConfig, pid_of, CheckHealth, CommandStop, CommandType, ConfigUid, ProcessConfig, ProcessId};
use crate::status::{same_record, ProcessStatus, ProcessWatched, RunningStatus};
use crate::text::{contains, contains_spec, parse_u32, parse_u32_spec, split_whitespace, string_views, trim, trim_spec, words_spec};
use crate::time::{day_number, day_of, nanos_between, ts_nanos, Span, Timestamp};
use crate::order::{key_sorted, lemma_text_lt_total, sort_by_text, text_lt, TextKeyed};
use vstd::prelude::*;

verus! {

/// What is known of one process: its active configuration and its recorded state.
#[derive(Debug)]
pub struct WatchNowProcInfo {
    pub process_config: Option<ProcessConfig>,
    pub process_watched: Option<ProcessWatched>,
}

/// One process of the table.
#[derive(Debug)]
pub struct WatchEntry {
    pub id: ProcessId,
    pub info: WatchNowProcInfo,
}

/// The table of a watch cycle, one entry per process id.
#[derive(Debug)]
pub struct WatchNow {
    pub persist_path: String,
    pub file_uid: ConfigUid,
    pub original_file_full_path: String,
    pub file_format: String,
    pub processes: Vec<WatchEntry>,
}

/// The id of an entry, as text.
pub open spec fn entry_id(e: WatchEntry) -> Seq<char> {
    e.id.0@
}

/// No two entries share an id.
pub open spec fn ids_unique(s: Seq<WatchEntry>) -> bool {
    forall|a: int, b: int|
        0 <= a < b < s.len() ==> entry_id(#[trigger] s[a]) != entry_id(#[trigger] s[b])
}

impl WatchNow {
    /// Entries have distinct ids.
    pub open spec fn wf(&self) -> bool {
        ids_unique(self.processes@)
    }

    /// Everything but the entries is the same in both tables.
    pub open spec fn same_header(&self, other: WatchNow) -> bool {
        &&& self.persist_path == other.persist_path
        &&& self.file_uid == other.file_uid
        &&& self.original_file_full_path == other.original_file_full_path
        &&& self.file_format == other.file_format
    }
}

/// An entry with its information replaced.
pub open spec fn with_info(e: WatchEntry, info: WatchNowProcInfo) -> WatchEntry {
    WatchEntry { id: e.id, info }
}

/// Applies `f` to every entry, in order.
pub fn map_entries<F: Fn(WatchEntry) -> WatchEntry>(v: Vec<WatchEntry>, f: F) -> (r: Vec<WatchEntry>)
    requires
        forall|e: WatchEntry| #[trigger] f.requires((e,)),
    ensures
        r@.len() == v@.len(),
        forall|i: int| 0 <= i < v@.len() ==> f.ensures((v@[i],), #[trigger] r@[i]),
{
    let ghost orig = v@;
    let n = v.len();
    let mut rest = v;
    let mut rev: Vec<WatchEntry> = Vec::new();
    while rest.len() > 0
        invariant
            n == orig.len(),
            rest@ == orig.take(rest@.len() as int),
            rev@.len() + rest@.len() == n,
            forall|k: int| 0 <= k < rev@.len() ==> #[trigger] rev@[k] == orig[n - 1 - k],
        decreases rest@.len(),
    {
        let e = rest.pop().unwrap();
        rev.push(e);
    }
    let mut out: Vec<WatchEntry> = Vec::new();
    while rev.len() > 0
        invariant
            n == orig.len(),
            forall|e: WatchEntry| #[trigger] f.requires((e,)),
            out@.len() + rev@.len() == n,
            forall|k: int| 0 <= k < rev@.len() ==> #[trigger] rev@[k] == orig[n - 1 - k],
            forall|k: int| 0 <= k < out@.len() ==> f.ensures((orig[k],), #[trigger] out@[k]),
        decreases rev@.len(),
    {
        let e = rev.pop().unwrap();
        let ghost k = out@.len();
        assert(e == orig[k as int]);
        let r = f(e);
        out.push(r);
    }
    out
}

/// Applies `f` to every entry with the observation made for it, in order.
pub fn map_entries_with<O, F: Fn(WatchEntry, O) -> WatchEntry>(
    v: Vec<WatchEntry>,
    obs: Vec<O>,
    f: F,
) -> (r: Vec<WatchEntry>)
    requires
        obs@.len() == v@.len(),
        forall|e: WatchEntry, o: O| #[trigger] f.requires((e, o)),
    ensures
        r@.len() == v@.len(),
        forall|i: int| 0 <= i < v@.len() ==> f.ensures((v@[i], obs@[i]), #[trigger] r@[i]),
{
    let ghost orig = v@;
    let ghost origo = obs@;
    let n = v.len();
    let mut rest = v;
    let mut resto = obs;
    let mut rev: Vec<WatchEntry> = Vec::new();
    let mut revo: Vec<O> = Vec::new();
    while rest.len() > 0
        invariant
            n == orig.len(),
            n == origo.len(),
            rest@ == orig.take(rest@.len() as int),
            resto@ == origo.take(rest@.len() as int),
            rev@.len() + rest@.len() == n,
            revo@.len() == rev@.len(),
            forall|k: int| 0 <= k < rev@.len() ==> #[trigger] rev@[k] == orig[n - 1 - k],
            forall|k: int| 0 <= k < revo@.len() ==> #[trigger] revo@[k] == origo[n - 1 - k],
        decreases rest@.len(),
    {
        let e = rest.pop().unwrap();
        let o = resto.pop().unwrap();
        rev.push(e);
        revo.push(o);
    }
    let mut out: Vec<WatchEntry> = Vec::new();
    while rev.len() > 0
        invariant
            n == orig.len(),
            n == origo.len(),
            forall|e: WatchEntry, o: O| #[trigger] f.requires((e, o)),
            out@.len() + rev@.len() == n,
            revo@.len() == rev@.len(),
            forall|k: int| 0 <= k < rev@.len() ==> #[trigger] rev@[k] == orig[n - 1 - k],
            forall|k: int| 0 <= k < revo@.len() ==> #[trigger] revo@[k] == origo[n - 1 - k],
            forall|k: int| 0 <= k < out@.len() ==> f.ensures((orig[k], origo[k]), #[trigger] out@[k]),
        decreases rev@.len(),
    {
        let e = rev.pop().unwrap();
        let o = revo.pop().unwrap();
        let ghost k = out@.len();
        assert(e == orig[k as int]);
        assert(o == origo[k as int]);
        let r = f(e, o);
        out.push(r);
    }
    out
}


// ---------------------------------------------------------------------------
// Dependencies

/// The entry is recorded as running.
pub open spec fn recorded_running(e: WatchEntry) -> bool {
    match e.info.process_watched {
        Some(w) => w.status is Running,
        None => false,
    }
}

/// The ids of the entries recorded as running.
pub open spec fn running_ids(s: Seq<WatchEntry>) -> Set<Seq<char>> {
    Set::new(
        |x: Seq<char>|
            exists|i: int|
                0 <= i < s.len() && entry_id(#[trigger] s[i]) == x && recorded_running(s[i]),
    )
}

/// Every dependency of the configuration is running.
pub open spec fn deps_running(c: ProcessConfig, running: Set<Seq<char>>) -> bool {
    forall|k: int| 0 <= k < c.depends_on@.len() ==> running.contains(#[trigger] c.depends_on@[k].0@)
}

/// A configuration whose dependencies are not all running is put aside for this cycle.
pub open spec fn dependencies_next(e: WatchEntry, running: Set<Seq<char>>) -> WatchEntry {
    match e.info.process_config {
        Some(c) => if deps_running(c, running) {
            e
        } else {
            with_info(e, WatchNowProcInfo { process_config: None, process_watched: e.info.process_watched })
        },
        None => e,
    }
}

/// The ids of the entries among the first `n` recorded as running.
pub open spec fn running_upto(s: Seq<WatchEntry>, n: int) -> Set<Seq<char>> {
    Set::new(
        |x: Seq<char>|
            exists|i: int| 0 <= i < n && entry_id(#[trigger] s[i]) == x && recorded_running(s[i]),
    )
}

/// The ids of the running entries.
fn collect_running_ids(v: &Vec<WatchEntry>) -> (r: Vec<String>)
    ensures
        names_set(r@) == running_ids(v@),
{
    let mut out: Vec<String> = Vec::new();
    let mut i: usize = 0;
    assert(names_set(out@) =~= running_upto(v@, 0));
    while i < v.len()
        invariant
            i <= v.len(),
            names_set(out@) == running_upto(v@, i as int),
        decreases v.len() - i,
    {
        let running = match &v[i].info.process_watched {
            Some(w) => match &w.status {
                ProcessStatus::Running { .. } => true,
                _ => false,
            },
            None => false,
        };
        let ghost before = out@;
        if running {
            out.push(v[i].id.0.clone());
        }
        assert forall|x: Seq<char>| #[trigger] running_upto(v@, i + 1).contains(x) implies names_set(
            out@,
        ).contains(x) by {
            let j = choose|j: int|
                0 <= j < i + 1 && entry_id(#[trigger] v@[j]) == x && recorded_running(v@[j]);
            if j == i {
                assert(out@[out@.len() - 1]@ == x);
            } else {
                assert(running_upto(v@, i as int).contains(x));
                let k = choose|k: int| 0 <= k < before.len() && (#[trigger] before[k])@ == x;
                assert(out@[k] == before[k]);
            }
        }
        assert forall|x: Seq<char>| #[trigger] names_set(out@).contains(x) implies running_upto(
            v@,
            i + 1,
        ).contains(x) by {
            let k = choose|k: int| 0 <= k < out@.len() && (#[trigger] out@[k])@ == x;
            if k < before.len() {
                assert(before[k] == out@[k]);
                assert(names_set(before).contains(x));
                let j = choose|j: int|
                    0 <= j < i && entry_id(#[trigger] v@[j]) == x && recorded_running(v@[j]);
                assert(0 <= j < i + 1);
            } else {
                assert(entry_id(v@[i as int]) == x);
            }
        }
        assert(names_set(out@) =~= running_upto(v@, i + 1));
        i = i + 1;
    }
    assert(running_upto(v@, v@.len() as int) =~= running_ids(v@));
    out
}

/// Whether `x` is one of `names`.
fn name_in(names: &Vec<String>, x: &String) -> (r: bool)
    ensures
        r == exists|k: int| 0 <= k < names@.len() && (#[trigger] names@[k])@ == x@,
{
    let mut k: usize = 0;
    while k < names.len()
        invariant
            k <= names.len(),
            forall|m: int| 0 <= m < k ==> (#[trigger] names@[m])@ != x@,
        decreases names.len() - k,
    {
        if names[k] == *x {
            return true;
        }
        k = k + 1;
    }
    false
}

/// The texts of a list of names.
pub open spec fn names_set(v: Seq<String>) -> Set<Seq<char>> {
    Set::new(|x: Seq<char>| exists|k: int| 0 <= k < v.len() && (#[trigger] v[k])@ == x)
}

fn dependencies_step(e: WatchEntry, running: &Vec<String>) -> (r: WatchEntry)
    ensures
        r == dependencies_next(e, names_set(running@)),
{
    let ghost set = names_set(running@);
    let all = match &e.info.process_config {
        Some(c) => {
            let mut k: usize = 0;
            let mut ok = true;
            while k < c.depends_on.len()
                invariant
                    k <= c.depends_on.len(),
                    set == names_set(running@),
                    ok == forall|m: int| 0 <= m < k ==> set.contains(#[trigger] c.depends_on@[m].0@),
                decreases c.depends_on.len() - k,
            {
                let present = name_in(running, &c.depends_on[k].0);
                assert(present == set.contains(c.depends_on@[k as int].0@));
                if !present {
                    ok = false;
                }
                k = k + 1;
            }
            ok
        },
        None => true,
    };
    if all {
        e
    } else {
        WatchEntry {
            id: e.id,
            info: WatchNowProcInfo { process_config: None, process_watched: e.info.process_watched },
        }
    }
}

impl WatchNow {
    /// Puts aside, for this cycle, every configuration whose dependencies are not all running.
    pub fn filter_config_by_dependencies(self) -> (r: Self)
        ensures
            r.same_header(self),
            r.processes@ == self.processes@.map_values(
                |e: WatchEntry| dependencies_next(e, running_ids(self.processes@)),
            ),
    {
        let ghost set = running_ids(self.processes@);
        let ghost old = self.processes@;
        let running = collect_running_ids(&self.processes);
        let f = |e: WatchEntry| -> (r: WatchEntry)
            ensures
                r == dependencies_next(e, names_set(running@)),
            { dependencies_step(e, &running) };
        let out = map_entries(self.processes, f);
        assert(out@ =~= old.map_values(|e: WatchEntry| dependencies_next(e, set)));
        WatchNow {
            persist_path: self.persist_path,
            file_uid: self.file_uid,
            original_file_full_path: self.original_file_full_path,
            file_format: self.file_format,
            processes: out,
        }
    }
}


// ---------------------------------------------------------------------------
// Status tests

/// Whether the status is `Stopped`.
pub fn is_stopped(s: &ProcessStatus) -> (r: bool)
    ensures
        r == (*s is Stopped),
{
    match s {
        ProcessStatus::Stopped => true,
        _ => false,
    }
}

/// Whether the status is `TooMuchRuns`.
pub fn is_too_much_runs(s: &ProcessStatus) -> (r: bool)
    ensures
        r == (*s is TooMuchRuns),
{
    match s {
        ProcessStatus::TooMuchRuns => true,
        _ => false,
    }
}

/// A record with a new status, changed at `now`.
pub open spec fn moved_to(w: ProcessWatched, status: ProcessStatus, now: Timestamp) -> ProcessWatched {
    ProcessWatched { id: w.id, apply_on: w.apply_on, status, applied_on: now, last_runs: w.last_runs }
}

/// An entry with a new recorded state.
pub open spec fn with_watched(e: WatchEntry, w: Option<ProcessWatched>) -> WatchEntry {
    WatchEntry {
        id: e.id,
        info: WatchNowProcInfo { process_config: e.info.process_config, process_watched: w },
    }
}

/// An entry with its configuration put aside.
pub open spec fn without_config(e: WatchEntry) -> WatchEntry {
    WatchEntry {
        id: e.id,
        info: WatchNowProcInfo { process_config: None, process_watched: e.info.process_watched },
    }
}

// ---------------------------------------------------------------------------
// One-shot processes

/// A one-shot process stopped today is not started again today.
pub open spec fn one_shot_next(e: WatchEntry, now: Timestamp) -> WatchEntry {
    match (e.info.process_config, e.info.process_watched) {
        (Some(c), Some(w)) => if w.status is Stopped && c.one_shot && !(day_number(w.applied_on)
            < day_number(now)) {
            without_config(e)
        } else {
            e
        },
        _ => e,
    }
}

fn one_shot_step(e: WatchEntry, now: Timestamp) -> (r: WatchEntry)
    ensures
        r == one_shot_next(e, now),
{
    let put_aside = match (&e.info.process_config, &e.info.process_watched) {
        (Some(c), Some(w)) => is_stopped(&w.status) && c.one_shot && !(day_of(w.applied_on) < day_of(
            now,
        )),
        _ => false,
    };
    if put_aside {
        WatchEntry {
            id: e.id,
            info: WatchNowProcInfo { process_config: None, process_watched: e.info.process_watched },
        }
    } else {
        e
    }
}

// ---------------------------------------------------------------------------
// Old stopped records

/// Nanoseconds in four days.
pub const FOUR_DAYS_NANOS: i128 = 345_600_000_000_000;

/// The date at which a stopped record was stopped, on the clock it was
/// written with; the instant it stands for is read by the caller.
pub open spec fn stop_date(e: WatchEntry) -> Option<Timestamp> {
    match e.info.process_watched {
        Some(w) => if w.status is Stopped {
            Some(w.applied_on)
        } else {
            None
        },
        None => None,
    }
}

/// The date to convert to an instant for an entry, if its record is stopped.
pub fn stopped_record_date(e: &WatchEntry) -> (r: Option<Timestamp>)
    ensures
        r == stop_date(*e),
{
    match &e.info.process_watched {
        Some(w) => if is_stopped(&w.status) {
            Some(w.applied_on)
        } else {
            None
        },
        None => None,
    }
}

/// A stopped record whose stop instant (`stopped_at`) is more than four days
/// before the instant `now` is forgotten.
pub open spec fn delete_old_next(e: WatchEntry, now: Timestamp, stopped_at: Option<Timestamp>) -> WatchEntry {
    match (stop_date(e), stopped_at) {
        (Some(_), Some(t)) => if ts_nanos(now) - ts_nanos(t) > FOUR_DAYS_NANOS {
            with_watched(e, None)
        } else {
            e
        },
        _ => e,
    }
}

fn delete_old_step(e: WatchEntry, stopped_at: Option<Timestamp>, now: Timestamp) -> (r: WatchEntry)
    ensures
        r == delete_old_next(e, now, stopped_at),
{
    let stale = match (stopped_record_date(&e), stopped_at) {
        (Some(_), Some(t)) => nanos_between(t, now) > FOUR_DAYS_NANOS,
        _ => false,
    };
    if stale {
        WatchEntry {
            id: e.id,
            info: WatchNowProcInfo { process_config: e.info.process_config, process_watched: None },
        }
    } else {
        e
    }
}

// ---------------------------------------------------------------------------
// Newly active configurations

/// A configured process without a record gets one, waiting for its before command.
pub open spec fn activated_rel(e: WatchEntry, r: WatchEntry, now: Timestamp) -> bool {
    &&& r.id == e.id
    &&& r.info.process_config == e.info.process_config
    &&& if e.info.process_config is Some && e.info.process_watched is None {
        match r.info.process_watched {
            Some(w) => {
                &&& w.id == e.id
                &&& w.apply_on == e.info.process_config->0.apply_on
                &&& w.status is PendingBeforeCmd
                &&& w.applied_on == now
                &&& w.last_runs@.len() == 0
            },
            None => false,
        }
    } else {
        r.info.process_watched == e.info.process_watched
    }
}

fn activated_step(e: WatchEntry, now: Timestamp) -> (r: WatchEntry)
    ensures
        activated_rel(e, r, now),
{
    match (&e.info.process_config, &e.info.process_watched) {
        (Some(c), None) => {
            let w = ProcessWatched {
                id: e.id.clone(),
                apply_on: c.apply_on,
                status: ProcessStatus::PendingBeforeCmd,
                applied_on: now,
                last_runs: Vec::new(),
            };
            WatchEntry {
                id: e.id,
                info: WatchNowProcInfo { process_config: e.info.process_config, process_watched: Some(w) },
            }
        },
        _ => e,
    }
}

// ---------------------------------------------------------------------------
// Restarting stopped processes

/// Launches within this many nanoseconds of now count as recent (ten whole minutes).
pub const RECENT_RUN_NANOS: i128 = 660_000_000_000;

/// Launches kept before a process is held back.
pub const MAX_RECENT_RUNS: usize = 5;

/// A stopped process that is still configured waits for its before command
/// again, unless it was launched too often lately.
pub open spec fn restart_next(e: WatchEntry, now: Timestamp) -> WatchEntry {
    match (e.info.process_config, e.info.process_watched) {
        (Some(_), Some(w)) => if w.status is Stopped && w.last_runs@.len() < MAX_RECENT_RUNS {
            with_watched(e, Some(moved_to(w, ProcessStatus::PendingBeforeCmd, now)))
        } else {
            e
        },
        _ => e,
    }
}

fn restart_step(e: WatchEntry, now: Timestamp) -> (r: WatchEntry)
    ensures
        r == restart_next(e, now),
{
    let restart = match (&e.info.process_config, &e.info.process_watched) {
        (Some(_), Some(w)) => is_stopped(&w.status) && w.last_runs.len() < MAX_RECENT_RUNS,
        _ => false,
    };
    if restart {
        match e.info.process_watched {
            Some(w) => WatchEntry {
                id: e.id,
                info: WatchNowProcInfo {
                    process_config: e.info.process_config,
                    process_watched: Some(
                        ProcessWatched {
                            id: w.id,
                            apply_on: w.apply_on,
                            status: ProcessStatus::PendingBeforeCmd,
                            applied_on: now,
                            last_runs: w.last_runs,
                        },
                    ),
                },
            },
            None => WatchEntry { id: e.id, info: e.info },
        }
    } else {
        e
    }
}

// ---------------------------------------------------------------------------
// Too many runs

/// A launch at `t` is recent at `now`: at most ten whole minutes apart.
pub open spec fn recent_run(t: Timestamp, now: Timestamp) -> bool {
    -RECENT_RUN_NANOS < ts_nanos(t) - ts_nanos(now) < RECENT_RUN_NANOS
}

/// The recent launches, in order.
pub open spec fn keep_recent(s: Seq<Timestamp>, now: Timestamp) -> Seq<Timestamp>
    decreases s.len(),
{
    if s.len() == 0 {
        s
    } else {
        let r = keep_recent(s.drop_last(), now);
        if recent_run(s.last(), now) {
            r.push(s.last())
        } else {
            r
        }
    }
}

/// A held-back process forgets old launches, and is stopped (and so may be
/// restarted) once fewer than five recent launches remain.
pub open spec fn too_much_runs_rel(e: WatchEntry, r: WatchEntry, now: Timestamp) -> bool {
    &&& r.id == e.id
    &&& r.info.process_config == e.info.process_config
    &&& match e.info.process_watched {
        Some(w) => if w.status is TooMuchRuns {
            match r.info.process_watched {
                Some(w2) => {
                    &&& w2.id == w.id
                    &&& w2.apply_on == w.apply_on
                    &&& w2.applied_on == w.applied_on
                    &&& w2.last_runs@ == keep_recent(w.last_runs@, now)
                    &&& w2.status == if w2.last_runs@.len() < MAX_RECENT_RUNS {
                        ProcessStatus::Stopped
                    } else {
                        ProcessStatus::TooMuchRuns
                    }
                },
                None => false,
            }
        } else {
            r.info.process_watched == e.info.process_watched
        },
        None => r.info.process_watched is None,
    }
}

/// The recent launches among `runs`.
pub fn recent_runs(runs: Vec<Timestamp>, now: Timestamp) -> (r: Vec<Timestamp>)
    ensures
        r@ == keep_recent(runs@, now),
{
    let mut out: Vec<Timestamp> = Vec::new();
    let mut i: usize = 0;
    assert(runs@.take(0) =~= Seq::<Timestamp>::empty());
    while i < runs.len()
        invariant
            i <= runs.len(),
            out@ == keep_recent(runs@.take(i as int), now),
        decreases runs.len() - i,
    {
        let t = runs[i];
        assert(runs@.take(i + 1).drop_last() =~= runs@.take(i as int));
        let d = nanos_between(now, t);
        if -RECENT_RUN_NANOS < d && d < RECENT_RUN_NANOS {
            out.push(t);
        }
        i = i + 1;
    }
    assert(runs@.take(runs.len() as int) =~= runs@);
    out
}

fn too_much_runs_step(e: WatchEntry, now: Timestamp) -> (r: WatchEntry)
    ensures
        too_much_runs_rel(e, r, now),
{
    match e.info.process_watched {
        Some(w) => {
            if is_too_much_runs(&w.status) {
                let runs = recent_runs(w.last_runs, now);
                let status = if runs.len() < MAX_RECENT_RUNS {
                    ProcessStatus::Stopped
                } else {
                    ProcessStatus::TooMuchRuns
                };
                let w2 = ProcessWatched {
                    id: w.id,
                    apply_on: w.apply_on,
                    status,
                    applied_on: w.applied_on,
                    last_runs: runs,
                };
                WatchEntry {
                    id: e.id,
                    info: WatchNowProcInfo {
                        process_config: e.info.process_config,
                        process_watched: Some(w2),
                    },
                }
            } else {
                WatchEntry {
                    id: e.id,
                    info: WatchNowProcInfo {
                        process_config: e.info.process_config,
                        process_watched: Some(w),
                    },
                }
            }
        },
        None => WatchEntry {
            id: e.id,
            info: WatchNowProcInfo { process_config: e.info.process_config, process_watched: None },
        },
    }
}

/// A stopped process launched five times or more lately is held back.
pub open spec fn hold_back_next(e: WatchEntry) -> WatchEntry {
    match e.info.process_watched {
        Some(w) => if w.status is Stopped && w.last_runs@.len() >= MAX_RECENT_RUNS {
            with_watched(
                e,
                Some(
                    ProcessWatched {
                        id: w.id,
                        apply_on: w.apply_on,
                        status: ProcessStatus::TooMuchRuns,
                        applied_on: w.applied_on,
                        last_runs: w.last_runs,
                    },
                ),
            )
        } else {
            e
        },
        None => e,
    }
}

fn hold_back_step(e: WatchEntry) -> (r: WatchEntry)
    ensures
        r == hold_back_next(e),
{
    let hold = match &e.info.process_watched {
        Some(w) => is_stopped(&w.status) && w.last_runs.len() >= MAX_RECENT_RUNS,
        None => false,
    };
    if hold {
        match e.info.process_watched {
            Some(w) => WatchEntry {
                id: e.id,
                info: WatchNowProcInfo {
                    process_config: e.info.process_config,
                    process_watched: Some(
                        ProcessWatched {
                            id: w.id,
                            apply_on: w.apply_on,
                            status: ProcessStatus::TooMuchRuns,
                            applied_on: w.applied_on,
                            last_runs: w.last_runs,
                        },
                    ),
                },
            },
            None => WatchEntry { id: e.id, info: e.info },
        }
    } else {
        e
    }
}

impl WatchNow {
    /// A one-shot process stopped today is not started again today.
    pub fn filter_config_one_shot(self, now: Timestamp) -> (r: Self)
        ensures
            r.same_header(self),
            r.processes@ == self.processes@.map_values(|e: WatchEntry| one_shot_next(e, now)),
    {
        let ghost old = self.processes@;
        let f = |e: WatchEntry| -> (r: WatchEntry)
            ensures
                r == one_shot_next(e, now),
            { one_shot_step(e, now) };
        let out = map_entries(self.processes, f);
        assert(out@ =~= old.map_values(|e: WatchEntry| one_shot_next(e, now)));
        WatchNow {
            persist_path: self.persist_path,
            file_uid: self.file_uid,
            original_file_full_path: self.original_file_full_path,
            file_format: self.file_format,
            processes: out,
        }
    }

    /// Forgets the records of processes stopped more than four days before
    /// the instant `now` (`stopped_at[i]`: the instant the `i`-th entry's
    /// record was stopped, `None` when it is not stopped).
    pub fn delete_old_stopped(self, now: Timestamp, stopped_at: Vec<Option<Timestamp>>) -> (r: Self)
        requires
            stopped_at@.len() == self.processes@.len(),
        ensures
            r.same_header(self),
            r.processes@.len() == self.processes@.len(),
            forall|i: int|
                0 <= i < self.processes@.len() ==> #[trigger] r.processes@[i] == delete_old_next(
                    self.processes@[i],
                    now,
                    stopped_at@[i],
                ),
    {
        let f = |e: WatchEntry, t: Option<Timestamp>| -> (r: WatchEntry)
            ensures
                r == delete_old_next(e, now, t),
            { delete_old_step(e, t, now) };
        let out = map_entries_with(self.processes, stopped_at, f);
        WatchNow {
            persist_path: self.persist_path,
            file_uid: self.file_uid,
            original_file_full_path: self.original_file_full_path,
            file_format: self.file_format,
            processes: out,
        }
    }

    /// Records every configured process that has no record yet.
    pub fn cfg_actived_not_in_watched(self, now: Timestamp) -> (r: Self)
        ensures
            r.same_header(self),
            r.processes@.len() == self.processes@.len(),
            forall|i: int|
                0 <= i < self.processes@.len() ==> activated_rel(
                    self.processes@[i],
                    #[trigger] r.processes@[i],
                    now,
                ),
    {
        let f = |e: WatchEntry| -> (r: WatchEntry)
            ensures
                activated_rel(e, r, now),
            { activated_step(e, now) };
        let out = map_entries(self.processes, f);
        WatchNow {
            persist_path: self.persist_path,
            file_uid: self.file_uid,
            original_file_full_path: self.original_file_full_path,
            file_format: self.file_format,
            processes: out,
        }
    }

    /// A stopped process that is still configured waits for its before command again.
    pub fn stopped_with_active_cfg(self, now: Timestamp) -> (r: Self)
        ensures
            r.same_header(self),
            r.processes@ == self.processes@.map_values(|e: WatchEntry| restart_next(e, now)),
    {
        let ghost old = self.processes@;
        let f = |e: WatchEntry| -> (r: WatchEntry)
            ensures
                r == restart_next(e, now),
            { restart_step(e, now) };
        let out = map_entries(self.processes, f);
        assert(out@ =~= old.map_values(|e: WatchEntry| restart_next(e, now)));
        WatchNow {
            persist_path: self.persist_path,
            file_uid: self.file_uid,
            original_file_full_path: self.original_file_full_path,
            file_format: self.file_format,
            processes: out,
        }
    }

    /// Held-back processes forget old launches, and are stopped once few remain.
    pub fn move2too_much_runs(self, now: Timestamp) -> (r: Self)
        ensures
            r.same_header(self),
            r.processes@.len() == self.processes@.len(),
            forall|i: int|
                0 <= i < self.processes@.len() ==> too_much_runs_rel(
                    self.processes@[i],
                    #[trigger] r.processes@[i],
                    now,
                ),
    {
        let f = |e: WatchEntry| -> (r: WatchEntry)
            ensures
                too_much_runs_rel(e, r, now),
            { too_much_runs_step(e, now) };
        let out = map_entries(self.processes, f);
        WatchNow {
            persist_path: self.persist_path,
            file_uid: self.file_uid,
            original_file_full_path: self.original_file_full_path,
            file_format: self.file_format,
            processes: out,
        }
    }

    /// Stopped processes launched five times or more lately are held back.
    pub fn move4too_much_runs(self) -> (r: Self)
        ensures
            r.same_header(self),
            r.processes@ == self.processes@.map_values(|e: WatchEntry| hold_back_next(e)),
    {
        let ghost old = self.processes@;
        let f = |e: WatchEntry| -> (r: WatchEntry)
            ensures
                r == hold_back_next(e),
            { hold_back_step(e) };
        let out = map_entries(self.processes, f);
        assert(out@ =~= old.map_values(|e: WatchEntry| hold_back_next(e)));
        WatchNow {
            persist_path: self.persist_path,
            file_uid: self.file_uid,
            original_file_full_path: self.original_file_full_path,
            file_format: self.file_format,
            processes: out,
        }
    }
}


// ---------------------------------------------------------------------------
// Helpers for the stopping steps

/// The entry with a record built from `w`, in a new status changed at `now`;
/// the record takes the entry's id.
pub open spec fn record(e: WatchEntry, w: ProcessWatched, status: ProcessStatus, now: Timestamp) -> WatchEntry {
    WatchEntry {
        id: e.id,
        info: WatchNowProcInfo {
            process_config: e.info.process_config,
            process_watched: Some(
                ProcessWatched {
                    id: e.id,
                    apply_on: w.apply_on,
                    status,
                    applied_on: now,
                    last_runs: w.last_runs,
                },
            ),
        },
    }
}

/// A first stopping attempt, requested at `now`.
pub open spec fn stopping(
    pid: u32,
    procman_uid: String,
    health_check: Option<CheckHealth>,
    stop_command: Option<CommandStop>,
    now: Timestamp,
) -> ProcessStatus {
    ProcessStatus::Stopping {
        pid,
        procman_uid,
        health_check,
        retries: 0,
        last_attempt: now,
        stop_command,
    }
}

/// Builds an entry whose record has the entry's id.
fn rebuild(
    id: ProcessId,
    config: Option<ProcessConfig>,
    apply_on: Timestamp,
    status: ProcessStatus,
    now: Timestamp,
    last_runs: Vec<Timestamp>,
) -> (r: WatchEntry)
    ensures
        r == (WatchEntry {
            id: id,
            info: WatchNowProcInfo {
                process_config: config,
                process_watched: Some(
                    ProcessWatched { id: id, apply_on, status, applied_on: now, last_runs },
                ),
            },
        }),
{
    let rid = id.clone();
    WatchEntry {
        id,
        info: WatchNowProcInfo {
            process_config: config,
            process_watched: Some(
                ProcessWatched { id: rid, apply_on, status, applied_on: now, last_runs },
            ),
        },
    }
}

/// Rebuilds an entry from its parts, unchanged.
fn reassemble(id: ProcessId, config: Option<ProcessConfig>, w: Option<ProcessWatched>) -> (r: WatchEntry)
    ensures
        r == (WatchEntry { id, info: WatchNowProcInfo { process_config: config, process_watched: w } }),
{
    WatchEntry { id, info: WatchNowProcInfo { process_config: config, process_watched: w } }
}

// ---------------------------------------------------------------------------
// Processes no longer configured

/// A process without an active configuration is stopped: a running or
/// initialising one is asked to stop, one not launched yet is marked stopped,
/// and one waiting for its pid file is stopped once the pid is known.
pub open spec fn not_actived_next(e: WatchEntry, now: Timestamp) -> WatchEntry {
    match (e.info.process_config, e.info.process_watched) {
        (None, Some(w)) => match w.status {
            ProcessStatus::Running { pid, procman_uid, health_check, stop_command } => record(
                e,
                w,
                stopping(pid, procman_uid, health_check, stop_command, now),
                now,
            ),
            ProcessStatus::PendingInitCmd { pid, procman_uid, health_check, stop_command } => record(
                e,
                w,
                stopping(pid, procman_uid, health_check, stop_command, now),
                now,
            ),
            ProcessStatus::ShouldBeRunning => record(e, w, ProcessStatus::Stopped, now),
            ProcessStatus::PendingBeforeCmd => record(e, w, ProcessStatus::Stopped, now),
            ProcessStatus::WaittingPidFile { pid_file, pid, procman_uid, health_check, stop_command } =>
                record(
                e,
                w,
                ProcessStatus::StoppingWaittingPidFile {
                    pid_file,
                    pid,
                    procman_uid,
                    health_check,
                    retries: 0,
                    last_attempt: now,
                    stop_command,
                },
                now,
            ),
            _ => e,
        },
        _ => e,
    }
}

fn not_actived_step(e: WatchEntry, now: Timestamp) -> (r: WatchEntry)
    ensures
        r == not_actived_next(e, now),
{
    if e.info.process_config.is_some() {
        return e;
    }
    let id = e.id;
    let config = e.info.process_config;
    match e.info.process_watched {
        None => reassemble(id, config, None),
        Some(w) => {
            let apply_on = w.apply_on;
            let wid = w.id;
            let applied_on = w.applied_on;
            let last_runs = w.last_runs;
            match w.status {
                ProcessStatus::Running { pid, procman_uid, health_check, stop_command } => {
                    let st = ProcessStatus::Stopping {
                        pid,
                        procman_uid,
                        health_check,
                        retries: 0,
                        last_attempt: now,
                        stop_command,
                    };
                    rebuild(id, config, apply_on, st, now, last_runs)
                },
                ProcessStatus::PendingInitCmd { pid, procman_uid, health_check, stop_command } => {
                    let st = ProcessStatus::Stopping {
                        pid,
                        procman_uid,
                        health_check,
                        retries: 0,
                        last_attempt: now,
                        stop_command,
                    };
                    rebuild(id, config, apply_on, st, now, last_runs)
                },
                ProcessStatus::ShouldBeRunning => rebuild(
                    id,
                    config,
                    apply_on,
                    ProcessStatus::Stopped,
                    now,
                    last_runs,
                ),
                ProcessStatus::PendingBeforeCmd => rebuild(
                    id,
                    config,
                    apply_on,
                    ProcessStatus::Stopped,
                    now,
                    last_runs,
                ),
                ProcessStatus::WaittingPidFile {
                    pid_file,
                    pid,
                    procman_uid,
                    health_check,
                    stop_command,
                } => {
                    let st = ProcessStatus::StoppingWaittingPidFile {
                        pid_file,
                        pid,
                        procman_uid,
                        health_check,
                        retries: 0,
                        last_attempt: now,
                        stop_command,
                    };
                    rebuild(id, config, apply_on, st, now, last_runs)
                },
                status => reassemble(
                    id,
                    config,
                    Some(ProcessWatched { id: wid, apply_on, status, applied_on, last_runs }),
                ),
            }
        },
    }
}

// ---------------------------------------------------------------------------
// Configuration changed

/// A running, initialising or pid-awaiting process whose configuration now
/// carries another `apply_on` is asked to stop.
pub open spec fn applyon_next(e: WatchEntry, now: Timestamp) -> WatchEntry {
    match (e.info.process_config, e.info.process_watched) {
        (Some(c), Some(w)) => if c.apply_on != w.apply_on {
            match w.status {
                ProcessStatus::Running { pid, procman_uid, health_check, stop_command } => record(
                    e,
                    w,
                    stopping(pid, procman_uid, health_check, stop_command, now),
                    now,
                ),
                ProcessStatus::PendingInitCmd { pid, procman_uid, health_check, stop_command } =>
                    record(e, w, stopping(pid, procman_uid, health_check, stop_command, now), now),
                ProcessStatus::WaittingPidFile {
                    pid_file,
                    pid,
                    procman_uid,
                    health_check,
                    stop_command,
                } => record(
                    e,
                    w,
                    ProcessStatus::StoppingWaittingPidFile {
                        pid_file,
                        pid,
                        procman_uid,
                        health_check,
                        retries: 0,
                        last_attempt: now,
                        stop_command,
                    },
                    now,
                ),
                _ => e,
            }
        } else {
            e
        },
        _ => e,
    }
}

fn applyon_step(e: WatchEntry, now: Timestamp) -> (r: WatchEntry)
    ensures
        r == applyon_next(e, now),
{
    let changed = match (&e.info.process_config, &e.info.process_watched) {
        (Some(c), Some(w)) => c.apply_on != w.apply_on,
        _ => false,
    };
    if !changed {
        return e;
    }
    let id = e.id;
    let config = e.info.process_config;
    match e.info.process_watched {
        None => reassemble(id, config, None),
        Some(w) => {
            let apply_on = w.apply_on;
            let wid = w.id;
            let applied_on = w.applied_on;
            let last_runs = w.last_runs;
            match w.status {
                ProcessStatus::Running { pid, procman_uid, health_check, stop_command } => {
                    let st = ProcessStatus::Stopping {
                        pid,
                        procman_uid,
                        health_check,
                        retries: 0,
                        last_attempt: now,
                        stop_command,
                    };
                    rebuild(id, config, apply_on, st, now, last_runs)
                },
                ProcessStatus::PendingInitCmd { pid, procman_uid, health_check, stop_command } => {
                    let st = ProcessStatus::Stopping {
                        pid,
                        procman_uid,
                        health_check,
                        retries: 0,
                        last_attempt: now,
                        stop_command,
                    };
                    rebuild(id, config, apply_on, st, now, last_runs)
                },
                ProcessStatus::WaittingPidFile {
                    pid_file,
                    pid,
                    procman_uid,
                    health_check,
                    stop_command,
                } => {
                    let st = ProcessStatus::StoppingWaittingPidFile {
                        pid_file,
                        pid,
                        procman_uid,
                        health_check,
                        retries: 0,
                        last_attempt: now,
                        stop_command,
                    };
                    rebuild(id, config, apply_on, st, now, last_runs)
                },
                status => reassemble(
                    id,
                    config,
                    Some(ProcessWatched { id: wid, apply_on, status, applied_on, last_runs }),
                ),
            }
        },
    }
}

impl WatchNow {
    /// Stops the processes that no longer have an active configuration.
    pub fn not_actived_config(self, now: Timestamp) -> (r: Self)
        ensures
            r.same_header(self),
            r.processes@ == self.processes@.map_values(|e: WatchEntry| not_actived_next(e, now)),
    {
        let ghost old = self.processes@;
        let f = |e: WatchEntry| -> (r: WatchEntry)
            ensures
                r == not_actived_next(e, now),
            { not_actived_step(e, now) };
        let out = map_entries(self.processes, f);
        assert(out@ =~= old.map_values(|e: WatchEntry| not_actived_next(e, now)));
        WatchNow {
            persist_path: self.persist_path,
            file_uid: self.file_uid,
            original_file_full_path: self.original_file_full_path,
            file_format: self.file_format,
            processes: out,
        }
    }

    /// Stops the processes whose configuration now carries another `apply_on`.
    pub fn move2stopping_modif_applyon(self, now: Timestamp) -> (r: Self)
        ensures
            r.same_header(self),
            r.processes@ == self.processes@.map_values(|e: WatchEntry| applyon_next(e, now)),
    {
        let ghost old = self.processes@;
        let f = |e: WatchEntry| -> (r: WatchEntry)
            ensures
                r == applyon_next(e, now),
            { applyon_step(e, now) };
        let out = map_entries(self.processes, f);
        assert(out@ =~= old.map_values(|e: WatchEntry| applyon_next(e, now)));
        WatchNow {
            persist_path: self.persist_path,
            file_uid: self.file_uid,
            original_file_full_path: self.original_file_full_path,
            file_format: self.file_format,
            processes: out,
        }
    }
}


// ---------------------------------------------------------------------------
// Pid files

/// A stop that awaits a pid file can count one more retry.
pub open spec fn pid_wait_countable(e: WatchEntry) -> bool {
    match e.info.process_watched {
        Some(w) => match w.status {
            ProcessStatus::StoppingWaittingPidFile { retries, .. } => retries < u32::MAX,
            _ => true,
        },
        None => true,
    }
}

/// A stopping process can count one more attempt.
pub open spec fn stop_countable(e: WatchEntry) -> bool {
    match e.info.process_watched {
        Some(w) => match w.status {
            ProcessStatus::Stopping { retries, .. } => retries < u32::MAX,
            _ => true,
        },
        None => true,
    }
}

/// The pid file awaited by an entry.
pub open spec fn awaited_pid_file(e: WatchEntry) -> Option<Seq<char>> {
    match e.info.process_watched {
        Some(w) => match w.status {
            ProcessStatus::WaittingPidFile { pid_file, .. } => Some(pid_file@),
            ProcessStatus::StoppingWaittingPidFile { pid_file, .. } => Some(pid_file@),
            _ => None,
        },
        None => None,
    }
}

/// The pid file to read for an entry, if it awaits one.
pub fn pid_file_to_read(e: &WatchEntry) -> (r: Option<String>)
    ensures
        r matches Some(p) ==> awaited_pid_file(*e) == Some(p@),
        r is None ==> awaited_pid_file(*e) is None,
{
    match &e.info.process_watched {
        Some(w) => match &w.status {
            ProcessStatus::WaittingPidFile { pid_file, .. } => Some(pid_file.clone()),
            ProcessStatus::StoppingWaittingPidFile { pid_file, .. } => Some(pid_file.clone()),
            _ => None,
        },
        None => None,
    }
}

/// What the content of a pid file (`None` when it could not be read) does:
/// a pid read moves the process on (to initialising, or to a first stop
/// attempt); an unreadable file counts one more retry of a pending stop.
pub open spec fn pid_file_next(e: WatchEntry, content: Option<String>, now: Timestamp) -> WatchEntry {
    match e.info.process_watched {
        Some(w) => match w.status {
            ProcessStatus::WaittingPidFile { pid_file, pid, procman_uid, health_check, stop_command } =>
                match content {
                Some(c) => match parse_u32_spec(trim_spec(c@)) {
                    Some(p) => record(
                        e,
                        w,
                        ProcessStatus::PendingInitCmd {
                            pid: p,
                            procman_uid,
                            health_check,
                            stop_command,
                        },
                        now,
                    ),
                    None => e,
                },
                None => e,
            },
            ProcessStatus::StoppingWaittingPidFile {
                pid_file,
                pid,
                procman_uid,
                health_check,
                retries,
                last_attempt,
                stop_command,
            } => match content {
                Some(c) => match parse_u32_spec(trim_spec(c@)) {
                    Some(p) => record(e, w, stopping(p, procman_uid, health_check, stop_command, now), now),
                    None => e,
                },
                None => record(
                    e,
                    w,
                    ProcessStatus::StoppingWaittingPidFile {
                        pid_file,
                        pid,
                        procman_uid,
                        health_check,
                        retries: (retries + 1) as u32,
                        last_attempt: now,
                        stop_command,
                    },
                    now,
                ),
            },
            _ => e,
        },
        None => e,
    }
}

/// The pid written in a pid file.
pub fn pid_in_file(content: &str) -> (r: Option<u32>)
    ensures
        r == parse_u32_spec(trim_spec(content@)),
{
    let t = trim(content);
    parse_u32(t.as_str())
}

fn pid_file_step(e: WatchEntry, content: Option<String>, now: Timestamp) -> (r: WatchEntry)
    requires
        pid_wait_countable(e),
    ensures
        r == pid_file_next(e, content, now),
{
    let parsed = match &content {
        Some(c) => pid_in_file(c.as_str()),
        None => None,
    };
    let id = e.id;
    let config = e.info.process_config;
    match e.info.process_watched {
        None => reassemble(id, config, None),
        Some(w) => {
            let apply_on = w.apply_on;
            let wid = w.id;
            let applied_on = w.applied_on;
            let last_runs = w.last_runs;
            match w.status {
                ProcessStatus::WaittingPidFile {
                    pid_file,
                    pid,
                    procman_uid,
                    health_check,
                    stop_command,
                } => match parsed {
                    Some(p) => rebuild(
                        id,
                        config,
                        apply_on,
                        ProcessStatus::PendingInitCmd {
                            pid: p,
                            procman_uid,
                            health_check,
                            stop_command,
                        },
                        now,
                        last_runs,
                    ),
                    None => reassemble(
                        id,
                        config,
                        Some(
                            ProcessWatched {
                                id: wid,
                                apply_on,
                                status: ProcessStatus::WaittingPidFile {
                                    pid_file,
                                    pid,
                                    procman_uid,
                                    health_check,
                                    stop_command,
                                },
                                applied_on,
                                last_runs,
                            },
                        ),
                    ),
                },
                ProcessStatus::StoppingWaittingPidFile {
                    pid_file,
                    pid,
                    procman_uid,
                    health_check,
                    retries,
                    last_attempt,
                    stop_command,
                } => {
                    if content.is_none() {
                        rebuild(
                            id,
                            config,
                            apply_on,
                            ProcessStatus::StoppingWaittingPidFile {
                                pid_file,
                                pid,
                                procman_uid,
                                health_check,
                                retries: retries + 1,
                                last_attempt: now,
                                stop_command,
                            },
                            now,
                            last_runs,
                        )
                    } else {
                        match parsed {
                            Some(p) => rebuild(
                                id,
                                config,
                                apply_on,
                                ProcessStatus::Stopping {
                                    pid: p,
                                    procman_uid,
                                    health_check,
                                    retries: 0,
                                    last_attempt: now,
                                    stop_command,
                                },
                                now,
                                last_runs,
                            ),
                            None => reassemble(
                                id,
                                config,
                                Some(
                                    ProcessWatched {
                                        id: wid,
                                        apply_on,
                                        status: ProcessStatus::StoppingWaittingPidFile {
                                            pid_file,
                                            pid,
                                            procman_uid,
                                            health_check,
                                            retries,
                                            last_attempt,
                                            stop_command,
                                        },
                                        applied_on,
                                        last_runs,
                                    },
                                ),
                            ),
                        }
                    }
                },
                status => reassemble(
                    id,
                    config,
                    Some(ProcessWatched { id: wid, apply_on, status, applied_on, last_runs }),
                ),
            }
        },
    }
}

impl WatchNow {
    /// Every stop that awaits a pid file can count one more retry.
    pub open spec fn pid_waits_countable(&self) -> bool {
        forall|i: int| 0 <= i < self.processes@.len() ==> #[trigger] pid_wait_countable(self.processes@[i])
    }

    /// Every stopping process can count one more attempt.
    pub open spec fn stops_countable(&self) -> bool {
        forall|i: int| 0 <= i < self.processes@.len() ==> #[trigger] stop_countable(self.processes@[i])
    }

    /// Applies what was read of each awaited pid file (`contents[i]` for the
    /// `i`-th entry; `None` when it could not be read or none is awaited).
    pub fn check_waitting_pid_file(self, contents: Vec<Option<String>>, now: Timestamp) -> (r: Self)
        requires
            contents@.len() == self.processes@.len(),
            self.pid_waits_countable(),
        ensures
            r.same_header(self),
            r.processes@.len() == self.processes@.len(),
            forall|i: int|
                0 <= i < self.processes@.len() ==> #[trigger] r.processes@[i] == pid_file_next(
                    self.processes@[i],
                    contents@[i],
                    now,
                ),
    {
        let ghost old = self.processes@;
        let f = |e: WatchEntry, c: Option<String>| -> (r: WatchEntry)
            requires
                pid_wait_countable(e),
            ensures
                r == pid_file_next(e, c, now),
            { pid_file_step(e, c, now) };
        let out = map_entries_with_pre(self.processes, contents, f);
        WatchNow {
            persist_path: self.persist_path,
            file_uid: self.file_uid,
            original_file_full_path: self.original_file_full_path,
            file_format: self.file_format,
            processes: out,
        }
    }
}

/// Applies `f` to every entry with the observation made for it, in order;
/// `f` may require of an entry what every entry satisfies.
pub fn map_entries_with_pre<O, F: Fn(WatchEntry, O) -> WatchEntry>(
    v: Vec<WatchEntry>,
    obs: Vec<O>,
    f: F,
) -> (r: Vec<WatchEntry>)
    requires
        obs@.len() == v@.len(),
        forall|i: int, o: O| 0 <= i < v@.len() ==> #[trigger] f.requires((v@[i], o)),
    ensures
        r@.len() == v@.len(),
        forall|i: int| 0 <= i < v@.len() ==> f.ensures((v@[i], obs@[i]), #[trigger] r@[i]),
{
    let ghost orig = v@;
    let ghost origo = obs@;
    let n = v.len();
    let mut rest = v;
    let mut resto = obs;
    let mut rev: Vec<WatchEntry> = Vec::new();
    let mut revo: Vec<O> = Vec::new();
    while rest.len() > 0
        invariant
            n == orig.len(),
            n == origo.len(),
            rest@ == orig.take(rest@.len() as int),
            resto@ == origo.take(rest@.len() as int),
            rev@.len() + rest@.len() == n,
            revo@.len() == rev@.len(),
            forall|k: int| 0 <= k < rev@.len() ==> #[trigger] rev@[k] == orig[n - 1 - k],
            forall|k: int| 0 <= k < revo@.len() ==> #[trigger] revo@[k] == origo[n - 1 - k],
        decreases rest@.len(),
    {
        let e = rest.pop().unwrap();
        let o = resto.pop().unwrap();
        rev.push(e);
        revo.push(o);
    }
    let mut out: Vec<WatchEntry> = Vec::new();
    while rev.len() > 0
        invariant
            n == orig.len(),
            n == origo.len(),
            forall|i: int, o: O| 0 <= i < n ==> #[trigger] f.requires((orig[i], o)),
            out@.len() + rev@.len() == n,
            revo@.len() == rev@.len(),
            forall|k: int| 0 <= k < rev@.len() ==> #[trigger] rev@[k] == orig[n - 1 - k],
            forall|k: int| 0 <= k < revo@.len() ==> #[trigger] revo@[k] == origo[n - 1 - k],
            forall|k: int| 0 <= k < out@.len() ==> f.ensures((orig[k], origo[k]), #[trigger] out@[k]),
        decreases rev@.len(),
    {
        let e = rev.pop().unwrap();
        let o = revo.pop().unwrap();
        let ghost k = out@.len();
        assert(e == orig[k as int]);
        assert(o == origo[k as int]);
        assert(f.requires((orig[k as int], o)));
        let r = f(e, o);
        out.push(r);
    }
    out
}


// ---------------------------------------------------------------------------
// Launching

/// How a process is to be launched.
#[derive(Debug)]
pub enum LaunchRequest {
    /// Run `program` with `args` directly.
    Direct { program: String, args: Vec<String>, work_dir: Option<String> },
    /// Run `line` through `sh -c`.
    Shell { line: String, work_dir: Option<String> },
    /// Run `line` through `sh -c`; it prints a container id whose pid is then looked up.
    Podman { line: String, work_dir: Option<String> },
}

/// What came of a launch.
#[derive(Debug)]
pub enum LaunchOutcome {
    /// Nothing was launched.
    Failed,
    /// A process was launched with this pid; `procman_uid` is its command line, when it could be read.
    Launched { pid: u32, procman_uid: Option<String> },
}

/// The entry is configured, not fake, should be running, and its command type can be launched.
pub open spec fn wants_launch(e: WatchEntry) -> bool {
    match (e.info.process_config, e.info.process_watched) {
        (Some(c), Some(w)) => w.status is ShouldBeRunning && !c.fake && c.command.kind()
            != CommandType::PidFile,
        _ => false,
    }
}

/// `r` is how the entry is to be launched.
pub open spec fn launch_request_spec(e: WatchEntry, r: Option<LaunchRequest>) -> bool {
    if wants_launch(e) {
        let c = e.info.process_config->0;
        match c.command.kind() {
            CommandType::Simple => {
                let ws = words_spec(c.command.line());
                if ws.len() == 0 {
                    r is None
                } else {
                    match r {
                        Some(LaunchRequest::Direct { program, args, work_dir }) => program@ == ws[0]
                            && string_views(args@) == ws.drop_first() && work_dir == c.work_dir,
                        _ => false,
                    }
                }
            },
            CommandType::Expression => match r {
                Some(LaunchRequest::Shell { line, work_dir }) => line@ == c.command.line() && work_dir
                    == c.work_dir,
                _ => false,
            },
            CommandType::PodmanCid => match r {
                Some(LaunchRequest::Podman { line, work_dir }) => line@ == c.command.line() && work_dir
                    == c.work_dir,
                _ => false,
            },
            CommandType::PidFile => r is None,
        }
    } else {
        r is None
    }
}

/// How the entry is to be launched, if it is to be.
pub fn launch_request(e: &WatchEntry) -> (r: Option<LaunchRequest>)
    ensures
        launch_request_spec(*e, r),
{
    match (&e.info.process_config, &e.info.process_watched) {
        (Some(c), Some(w)) => {
            let should = match &w.status {
                ProcessStatus::ShouldBeRunning => true,
                _ => false,
            };
            if !should || c.fake {
                return None;
            }
            let line = c.command.str();
            match c.command.cmd_type() {
                CommandType::Simple => {
                    let mut words = split_whitespace(line);
                    if words.len() == 0 {
                        None
                    } else {
                        let ghost ws = string_views(words@);
                        let program = words.remove(0);
                        assert(string_views(words@) =~= ws.drop_first());
                        Some(LaunchRequest::Direct { program, args: words, work_dir: c.work_dir.clone() })
                    }
                },
                CommandType::Expression => Some(
                    LaunchRequest::Shell { line: line.to_owned(), work_dir: c.work_dir.clone() },
                ),
                CommandType::PodmanCid => Some(
                    LaunchRequest::Podman { line: line.to_owned(), work_dir: c.work_dir.clone() },
                ),
                CommandType::PidFile => None,
            }
        },
        _ => None,
    }
}

/// A launched process whose command line was read is recorded as
/// initialising, with the configuration's stop command and health check, and
/// the launch is counted; anything else leaves the entry as it was.
pub open spec fn launch_rel(e: WatchEntry, o: LaunchOutcome, r: WatchEntry, now: Timestamp) -> bool {
    if wants_launch(e) && (o matches LaunchOutcome::Launched { procman_uid: Some(_), .. }) {
        let c = e.info.process_config->0;
        let w = e.info.process_watched->0;
        &&& r.id == e.id
        &&& r.info.process_config == e.info.process_config
        &&& match (o, r.info.process_watched) {
            (LaunchOutcome::Launched { pid, procman_uid: Some(uid) }, Some(w2)) => {
                &&& w2.id == c.id
                &&& w2.apply_on == c.apply_on
                &&& w2.status == (ProcessStatus::PendingInitCmd {
                    pid,
                    procman_uid: uid,
                    health_check: c.health_check,
                    stop_command: c.stop,
                })
                &&& w2.applied_on == now
                &&& w2.last_runs@ == w.last_runs@.push(now)
            },
            _ => false,
        }
    } else {
        r == e
    }
}

fn launch_step(e: WatchEntry, o: LaunchOutcome, now: Timestamp) -> (r: WatchEntry)
    ensures
        launch_rel(e, o, r, now),
{
    let wanted = match (&e.info.process_config, &e.info.process_watched) {
        (Some(c), Some(w)) => {
            let should = match &w.status {
                ProcessStatus::ShouldBeRunning => true,
                _ => false,
            };
            should && !c.fake && match c.command.cmd_type() {
                CommandType::PidFile => false,
                _ => true,
            }
        },
        _ => false,
    };
    if !wanted {
        return e;
    }
    match o {
        LaunchOutcome::Launched { pid, procman_uid: Some(uid) } => {
            let id = e.id;
            let config = e.info.process_config;
            match (config, e.info.process_watched) {
                (Some(c), Some(w)) => {
                    let mut runs = w.last_runs;
                    runs.push(now);
                    let status = ProcessStatus::PendingInitCmd {
                        pid,
                        procman_uid: uid,
                        health_check: c.health_check.clone(),
                        stop_command: c.stop.clone(),
                    };
                    let w2 = ProcessWatched {
                        id: c.id.clone(),
                        apply_on: c.apply_on,
                        status,
                        applied_on: now,
                        last_runs: runs,
                    };
                    reassemble(id, Some(c), Some(w2))
                },
                (config, watched) => reassemble(id, config, watched),
            }
        },
        _ => e,
    }
}

// ---------------------------------------------------------------------------
// Processes gone from the system

/// The pid to look for on the system: that of a process without a health
/// check that is running, initialising or being stopped.
pub open spec fn pid_to_probe(e: WatchEntry) -> Option<u32> {
    match e.info.process_watched {
        Some(w) => match w.status {
            ProcessStatus::Running { pid, health_check: None, .. } => Some(pid),
            ProcessStatus::Stopping { pid, health_check: None, .. } => Some(pid),
            ProcessStatus::PendingInitCmd { pid, health_check: None, .. } => Some(pid),
            _ => None,
        },
        None => None,
    }
}

/// The pid to look for on the system, if any.
pub fn pid_to_check(e: &WatchEntry) -> (r: Option<u32>)
    ensures
        r == pid_to_probe(*e),
{
    match &e.info.process_watched {
        Some(w) => match &w.status {
            ProcessStatus::Running { pid, health_check: None, .. } => Some(*pid),
            ProcessStatus::Stopping { pid, health_check: None, .. } => Some(*pid),
            ProcessStatus::PendingInitCmd { pid, health_check: None, .. } => Some(*pid),
            _ => None,
        },
        None => None,
    }
}

/// A probed pid found missing from the system (`alive == Some(false)`) marks the process stopped.
pub open spec fn pid_missing_next(e: WatchEntry, alive: Option<bool>, now: Timestamp) -> WatchEntry {
    if pid_to_probe(e) is Some && alive == Some(false) {
        record(e, e.info.process_watched->0, ProcessStatus::Stopped, now)
    } else {
        e
    }
}

fn pid_missing_step(e: WatchEntry, alive: Option<bool>, now: Timestamp) -> (r: WatchEntry)
    ensures
        r == pid_missing_next(e, alive, now),
{
    let probed = pid_to_check(&e).is_some();
    let gone = match alive {
        Some(a) => !a,
        None => false,
    };
    if !(probed && gone) {
        return e;
    }
    let id = e.id;
    let config = e.info.process_config;
    match e.info.process_watched {
        Some(w) => rebuild(id, config, w.apply_on, ProcessStatus::Stopped, now, w.last_runs),
        None => reassemble(id, config, None),
    }
}

// ---------------------------------------------------------------------------
// Signatures

/// The pid whose signature is checked: that of a running or initialising process.
pub open spec fn signature_pid(e: WatchEntry) -> Option<u32> {
    match e.info.process_watched {
        Some(w) => match w.status {
            ProcessStatus::Running { pid, .. } => Some(pid),
            ProcessStatus::PendingInitCmd { pid, .. } => Some(pid),
            _ => None,
        },
        None => None,
    }
}

/// The pid whose signature is to be read, if any.
pub fn pid_for_signature(e: &WatchEntry) -> (r: Option<u32>)
    ensures
        r == signature_pid(*e),
{
    match &e.info.process_watched {
        Some(w) => match &w.status {
            ProcessStatus::Running { pid, .. } => Some(*pid),
            ProcessStatus::PendingInitCmd { pid, .. } => Some(*pid),
            _ => None,
        },
        None => None,
    }
}

/// The command line recorded at launch.
pub open spec fn recorded_uid(e: WatchEntry) -> Seq<char> {
    match e.info.process_watched {
        Some(w) => match w.status {
            ProcessStatus::Running { procman_uid, .. } => procman_uid@,
            ProcessStatus::PendingInitCmd { procman_uid, .. } => procman_uid@,
            _ => Seq::empty(),
        },
        None => Seq::empty(),
    }
}

/// A signature read for the pid that the recorded command line does not
/// contain means the pid now belongs to another program: the process is
/// recorded as stopped (and is not signalled).
pub open spec fn signature_next(e: WatchEntry, sig: Option<String>, now: Timestamp) -> WatchEntry {
    match sig {
        Some(s) => if signature_pid(e) is Some && !contains_spec(recorded_uid(e), trim_spec(s@)) {
            record(e, e.info.process_watched->0, ProcessStatus::Stopped, now)
        } else {
            e
        },
        None => e,
    }
}

/// Whether a signature read for a pid fits the command line recorded at launch.
pub fn signature_compatible(procman_uid: &str, signature: &str) -> (r: bool)
    ensures
        r == contains_spec(procman_uid@, trim_spec(signature@)),
{
    let t = trim(signature);
    contains(procman_uid, t.as_str())
}

fn signature_step(e: WatchEntry, sig: Option<String>, now: Timestamp) -> (r: WatchEntry)
    ensures
        r == signature_next(e, sig, now),
{
    let stale = match &sig {
        Some(s) => match &e.info.process_watched {
            Some(w) => match &w.status {
                ProcessStatus::Running { procman_uid, .. } => !signature_compatible(
                    procman_uid.as_str(),
                    s.as_str(),
                ),
                ProcessStatus::PendingInitCmd { procman_uid, .. } => !signature_compatible(
                    procman_uid.as_str(),
                    s.as_str(),
                ),
                _ => false,
            },
            None => false,
        },
        None => false,
    };
    if !stale {
        return e;
    }
    let id = e.id;
    let config = e.info.process_config;
    match e.info.process_watched {
        Some(w) => rebuild(id, config, w.apply_on, ProcessStatus::Stopped, now, w.last_runs),
        None => reassemble(id, config, None),
    }
}

impl WatchNow {
    /// Records the outcome of each launch (`outcomes[i]` for the `i`-th entry).
    pub fn launch_process(self, outcomes: Vec<LaunchOutcome>, now: Timestamp) -> (r: Self)
        requires
            outcomes@.len() == self.processes@.len(),
        ensures
            r.same_header(self),
            r.processes@.len() == self.processes@.len(),
            forall|i: int|
                0 <= i < self.processes@.len() ==> launch_rel(
                    self.processes@[i],
                    outcomes@[i],
                    #[trigger] r.processes@[i],
                    now,
                ),
    {
        let f = |e: WatchEntry, o: LaunchOutcome| -> (r: WatchEntry)
            ensures
                launch_rel(e, o, r, now),
            { launch_step(e, o, now) };
        let out = map_entries_with(self.processes, outcomes, f);
        WatchNow {
            persist_path: self.persist_path,
            file_uid: self.file_uid,
            original_file_full_path: self.original_file_full_path,
            file_format: self.file_format,
            processes: out,
        }
    }

    /// Marks stopped the processes whose pid is gone from the system
    /// (`alive[i]` for the `i`-th entry; `None` when its pid was not probed).
    pub fn move2stop_pid_missing_on_system(self, alive: Vec<Option<bool>>, now: Timestamp) -> (r: Self)
        requires
            alive@.len() == self.processes@.len(),
        ensures
            r.same_header(self),
            r.processes@.len() == self.processes@.len(),
            forall|i: int|
                0 <= i < self.processes@.len() ==> #[trigger] r.processes@[i] == pid_missing_next(
                    self.processes@[i],
                    alive@[i],
                    now,
                ),
    {
        let f = |e: WatchEntry, a: Option<bool>| -> (r: WatchEntry)
            ensures
                r == pid_missing_next(e, a, now),
            { pid_missing_step(e, a, now) };
        let out = map_entries_with(self.processes, alive, f);
        WatchNow {
            persist_path: self.persist_path,
            file_uid: self.file_uid,
            original_file_full_path: self.original_file_full_path,
            file_format: self.file_format,
            processes: out,
        }
    }

    /// Marks stopped the processes whose pid now runs another program
    /// (`signatures[i]` for the `i`-th entry; `None` when none was read).
    pub fn move2stop_modif_signature(self, signatures: Vec<Option<String>>, now: Timestamp) -> (r: Self)
        requires
            signatures@.len() == self.processes@.len(),
        ensures
            r.same_header(self),
            r.processes@.len() == self.processes@.len(),
            forall|i: int|
                0 <= i < self.processes@.len() ==> #[trigger] r.processes@[i] == signature_next(
                    self.processes@[i],
                    signatures@[i],
                    now,
                ),
    {
        let f = |e: WatchEntry, s: Option<String>| -> (r: WatchEntry)
            ensures
                r == signature_next(e, s, now),
            { signature_step(e, s, now) };
        let out = map_entries_with(self.processes, signatures, f);
        WatchNow {
            persist_path: self.persist_path,
            file_uid: self.file_uid,
            original_file_full_path: self.original_file_full_path,
            file_format: self.file_format,
            processes: out,
        }
    }
}


// ---------------------------------------------------------------------------
// Stopping

/// Attempts made with the stop command (or `SIGTERM`) before `SIGKILL` is sent.
pub const MAX_SOFT_STOPS: u32 = 5;

/// What to do to stop a process.
#[derive(Debug)]
pub enum StopAction {
    /// Send `SIGKILL` when `force`, `SIGTERM` otherwise.
    Kill { pid: u32, force: bool },
    /// Run the stop command with the timeout, then send `SIGTERM`.
    CommandThenKill { pid: u32, line: String, timeout: Span },
    /// The stop command's timeout is under one second: the cycle is refused with this message.
    BadTimeout { message: String },
}

/// Each stopping process counts one more attempt, made now, and gets its
/// action: `SIGKILL` from the fifth retry on; before that its stop command
/// (then `SIGTERM`) when it has one, else `SIGTERM`; a stop command whose
/// timeout is under one second is refused.
pub open spec fn try_stop_rel(e: WatchEntry, r: WatchEntry, act: Option<StopAction>, now: Timestamp) -> bool {
    match e.info.process_watched {
        Some(w) => match w.status {
            ProcessStatus::Stopping {
                pid,
                procman_uid,
                health_check,
                retries,
                last_attempt,
                stop_command,
            } => {
                let force = retries >= MAX_SOFT_STOPS;
                &&& r == record(
                    e,
                    w,
                    ProcessStatus::Stopping {
                        pid,
                        procman_uid,
                        health_check,
                        retries: (retries + 1) as u32,
                        last_attempt: now,
                        stop_command,
                    },
                    now,
                )
                &&& if force || stop_command is None {
                    act == Some(StopAction::Kill { pid, force })
                } else if stop_command->0.timeout_spec().secs > 0 {
                    match act {
                        Some(StopAction::CommandThenKill { pid: p, line, timeout }) => p == pid && line@
                            == stop_command->0.command_spec().line() && timeout
                            == stop_command->0.timeout_spec(),
                        _ => false,
                    }
                } else {
                    match act {
                        Some(StopAction::BadTimeout { message }) => message@ == "["@ + entry_id(e)
                            + "] INCORRECT timeout in configuration: 0"@,
                        _ => false,
                    }
                }
            },
            _ => r == e && act is None,
        },
        None => r == e && act is None,
    }
}

fn stop_action(id: &ProcessId, pid: u32, retries: u32, stop_command: &Option<CommandStop>) -> (r: StopAction)
    ensures
        ({
            let force = retries >= MAX_SOFT_STOPS;
            if force || stop_command is None {
                r == StopAction::Kill { pid, force }
            } else if stop_command->0.timeout_spec().secs > 0 {
                match r {
                    StopAction::CommandThenKill { pid: p, line, timeout } => p == pid && line@
                        == stop_command->0.command_spec().line() && timeout
                        == stop_command->0.timeout_spec(),
                    _ => false,
                }
            } else {
                match r {
                    StopAction::BadTimeout { message } => message@ == "["@ + id.0@
                        + "] INCORRECT timeout in configuration: 0"@,
                    _ => false,
                }
            }
        }),
{
    let force = retries >= MAX_SOFT_STOPS;
    match stop_command {
        Some(cmd) if !force => {
            let timeout = cmd.timeout();
            if timeout.secs > 0 {
                StopAction::CommandThenKill { pid, line: cmd.command().str().to_owned(), timeout }
            } else {
                let mut message = String::from_str("[");
                message.append(id.0.as_str());
                message.append("] INCORRECT timeout in configuration: 0");
                StopAction::BadTimeout { message }
            }
        },
        _ => StopAction::Kill { pid, force },
    }
}

fn try_stop_step(e: WatchEntry, now: Timestamp) -> (r: (WatchEntry, Option<StopAction>))
    requires
        stop_countable(e),
    ensures
        try_stop_rel(e, r.0, r.1, now),
{
    let id = e.id;
    let config = e.info.process_config;
    match e.info.process_watched {
        Some(w) => {
            let apply_on = w.apply_on;
            let wid = w.id;
            let applied_on = w.applied_on;
            let last_runs = w.last_runs;
            match w.status {
                ProcessStatus::Stopping {
                    pid,
                    procman_uid,
                    health_check,
                    retries,
                    last_attempt,
                    stop_command,
                } => {
                    let act = stop_action(&id, pid, retries, &stop_command);
                    let st = ProcessStatus::Stopping {
                        pid,
                        procman_uid,
                        health_check,
                        retries: retries + 1,
                        last_attempt: now,
                        stop_command,
                    };
                    (rebuild(id, config, apply_on, st, now, last_runs), Some(act))
                },
                status => (
                    reassemble(
                        id,
                        config,
                        Some(ProcessWatched { id: wid, apply_on, status, applied_on, last_runs }),
                    ),
                    None,
                ),
            }
        },
        None => (reassemble(id, config, None), None),
    }
}

// ---------------------------------------------------------------------------
// Health checks

/// The health check of a process that is running, initialising or being stopped.
pub open spec fn health_check_of(e: WatchEntry) -> Option<CheckHealth> {
    match e.info.process_watched {
        Some(w) => match w.status {
            ProcessStatus::Stopping { health_check: Some(h), .. } => Some(h),
            ProcessStatus::Running { health_check: Some(h), .. } => Some(h),
            ProcessStatus::PendingInitCmd { health_check: Some(h), .. } => Some(h),
            _ => None,
        },
        None => None,
    }
}

/// The health check to run for an entry, if any.
pub fn health_check_to_run(e: &WatchEntry) -> (r: Option<CheckHealth>)
    ensures
        r == health_check_of(*e),
{
    match &e.info.process_watched {
        Some(w) => match &w.status {
            ProcessStatus::Stopping { health_check: Some(h), .. } => Some(h.clone()),
            ProcessStatus::Running { health_check: Some(h), .. } => Some(h.clone()),
            ProcessStatus::PendingInitCmd { health_check: Some(h), .. } => Some(h.clone()),
            _ => None,
        },
        None => None,
    }
}

/// A failed health check (`healthy == Some(false)`) marks a stopping process
/// stopped, and asks a running or initialising one to stop.
pub open spec fn health_next(e: WatchEntry, healthy: Option<bool>, now: Timestamp) -> WatchEntry {
    if health_check_of(e) is Some && healthy == Some(false) {
        let w = e.info.process_watched->0;
        match w.status {
            ProcessStatus::Stopping { .. } => record(e, w, ProcessStatus::Stopped, now),
            ProcessStatus::Running { pid, procman_uid, health_check, stop_command } => record(
                e,
                w,
                stopping(pid, procman_uid, health_check, stop_command, now),
                now,
            ),
            ProcessStatus::PendingInitCmd { pid, procman_uid, health_check, stop_command } => record(
                e,
                w,
                stopping(pid, procman_uid, health_check, stop_command, now),
                now,
            ),
            _ => e,
        }
    } else {
        e
    }
}

fn health_step(e: WatchEntry, healthy: Option<bool>, now: Timestamp) -> (r: WatchEntry)
    ensures
        r == health_next(e, healthy, now),
{
    let checked = health_check_to_run(&e).is_some();
    let failed = match healthy {
        Some(h) => !h,
        None => false,
    };
    if !(checked && failed) {
        return e;
    }
    let id = e.id;
    let config = e.info.process_config;
    match e.info.process_watched {
        Some(w) => {
            let apply_on = w.apply_on;
            let wid = w.id;
            let applied_on = w.applied_on;
            let last_runs = w.last_runs;
            match w.status {
                ProcessStatus::Stopping { .. } => rebuild(
                    id,
                    config,
                    apply_on,
                    ProcessStatus::Stopped,
                    now,
                    last_runs,
                ),
                ProcessStatus::Running { pid, procman_uid, health_check, stop_command } => {
                    let st = ProcessStatus::Stopping {
                        pid,
                        procman_uid,
                        health_check,
                        retries: 0,
                        last_attempt: now,
                        stop_command,
                    };
                    rebuild(id, config, apply_on, st, now, last_runs)
                },
                ProcessStatus::PendingInitCmd { pid, procman_uid, health_check, stop_command } => {
                    let st = ProcessStatus::Stopping {
                        pid,
                        procman_uid,
                        health_check,
                        retries: 0,
                        last_attempt: now,
                        stop_command,
                    };
                    rebuild(id, config, apply_on, st, now, last_runs)
                },
                status => reassemble(
                    id,
                    config,
                    Some(ProcessWatched { id: wid, apply_on, status, applied_on, last_runs }),
                ),
            }
        },
        None => reassemble(id, config, None),
    }
}

// ---------------------------------------------------------------------------
// Init commands

/// The init command to run (its line and timeout) for a configured process
/// that is initialising and has one.
pub open spec fn init_to_run(e: WatchEntry) -> Option<(Seq<char>, Span)> {
    match (e.info.process_config, e.info.process_watched) {
        (Some(c), Some(w)) => if w.status is PendingInitCmd {
            match c.init {
                Some(i) => Some((i.command_spec().line(), i.timeout_spec())),
                None => None,
            }
        } else {
            None
        },
        _ => None,
    }
}

/// The init command to run for an entry, if any.
pub fn init_command_to_run(e: &WatchEntry) -> (r: Option<(String, Span)>)
    ensures
        match (r, init_to_run(*e)) {
            (Some((l, t)), Some((sl, st))) => l@ == sl && t == st,
            (None, None) => true,
            _ => false,
        },
{
    match (&e.info.process_config, &e.info.process_watched) {
        (Some(c), Some(w)) => match &w.status {
            ProcessStatus::PendingInitCmd { .. } => match &c.init {
                Some(i) => Some((i.command().str().to_owned(), i.timeout())),
                None => None,
            },
            _ => None,
        },
        _ => None,
    }
}

/// The entry with a record carrying the configuration's `apply_on`.
pub open spec fn record_applied(e: WatchEntry, w: ProcessWatched, c: ProcessConfig, status: ProcessStatus, now: Timestamp) -> WatchEntry {
    WatchEntry {
        id: e.id,
        info: WatchNowProcInfo {
            process_config: e.info.process_config,
            process_watched: Some(
                ProcessWatched {
                    id: e.id,
                    apply_on: c.apply_on,
                    status,
                    applied_on: now,
                    last_runs: w.last_runs,
                },
            ),
        },
    }
}

/// An initialising process becomes running when it has no init command or
/// its init command succeeded (`result == Some(true)`), and is asked to stop
/// when it failed; both take the configuration's stop command and health check.
pub open spec fn init_next(e: WatchEntry, result: Option<bool>, now: Timestamp) -> WatchEntry {
    match (e.info.process_config, e.info.process_watched) {
        (Some(c), Some(w)) => match w.status {
            ProcessStatus::PendingInitCmd { pid, procman_uid, .. } => {
                let running = record_applied(
                    e,
                    w,
                    c,
                    ProcessStatus::Running {
                        pid,
                        procman_uid,
                        health_check: c.health_check,
                        stop_command: c.stop,
                    },
                    now,
                );
                if c.init is None || result == Some(true) {
                    running
                } else if result == Some(false) {
                    record_applied(e, w, c, stopping(pid, procman_uid, c.health_check, c.stop, now), now)
                } else {
                    e
                }
            },
            _ => e,
        },
        _ => e,
    }
}

fn init_step(e: WatchEntry, result: Option<bool>, now: Timestamp) -> (r: WatchEntry)
    ensures
        r == init_next(e, result, now),
{
    let applies = match (&e.info.process_config, &e.info.process_watched) {
        (Some(_), Some(w)) => match &w.status {
            ProcessStatus::PendingInitCmd { .. } => true,
            _ => false,
        },
        _ => false,
    };
    if !applies {
        return e;
    }
    let id = e.id;
    match (e.info.process_config, e.info.process_watched) {
        (Some(c), Some(w)) => {
            let apply_on = w.apply_on;
            let wid = w.id;
            let applied_on = w.applied_on;
            let last_runs = w.last_runs;
            match w.status {
                ProcessStatus::PendingInitCmd { pid, procman_uid, health_check, stop_command } => {
                    let succeeded = match result {
                        Some(ok) => ok,
                        None => false,
                    };
                    let failed = match result {
                        Some(ok) => !ok,
                        None => false,
                    };
                    if c.init.is_none() || succeeded {
                        let st = ProcessStatus::Running {
                            pid,
                            procman_uid,
                            health_check: c.health_check.clone(),
                            stop_command: c.stop.clone(),
                        };
                        let capply = c.apply_on;
                        rebuild(id, Some(c), capply, st, now, last_runs)
                    } else if failed {
                        let st = ProcessStatus::Stopping {
                            pid,
                            procman_uid,
                            health_check: c.health_check.clone(),
                            retries: 0,
                            last_attempt: now,
                            stop_command: c.stop.clone(),
                        };
                        let capply = c.apply_on;
                        rebuild(id, Some(c), capply, st, now, last_runs)
                    } else {
                        let st = ProcessStatus::PendingInitCmd {
                            pid,
                            procman_uid,
                            health_check,
                            stop_command,
                        };
                        reassemble(
                            id,
                            Some(c),
                            Some(ProcessWatched { id: wid, apply_on, status: st, applied_on, last_runs }),
                        )
                    }
                },
                status => reassemble(
                    id,
                    Some(c),
                    Some(ProcessWatched { id: wid, apply_on, status, applied_on, last_runs }),
                ),
            }
        },
        (config, watched) => reassemble(id, config, watched),
    }
}

// ---------------------------------------------------------------------------
// Before commands

/// The before command to run (its line and timeout) for a configured process
/// that waits for it and has one.
pub open spec fn before_to_run(e: WatchEntry) -> Option<(Seq<char>, Span)> {
    match (e.info.process_config, e.info.process_watched) {
        (Some(c), Some(w)) => if w.status is PendingBeforeCmd {
            match c.before {
                Some(b) => Some((b.command_spec().line(), b.timeout_spec())),
                None => None,
            }
        } else {
            None
        },
        _ => None,
    }
}

/// The before command to run for an entry, if any.
pub fn before_command_to_run(e: &WatchEntry) -> (r: Option<(String, Span)>)
    ensures
        match (r, before_to_run(*e)) {
            (Some((l, t)), Some((sl, st))) => l@ == sl && t == st,
            (None, None) => true,
            _ => false,
        },
{
    match (&e.info.process_config, &e.info.process_watched) {
        (Some(c), Some(w)) => match &w.status {
            ProcessStatus::PendingBeforeCmd => match &c.before {
                Some(b) => Some((b.command().str().to_owned(), b.timeout())),
                None => None,
            },
            _ => None,
        },
        _ => None,
    }
}

/// A process waiting for its before command is to be launched when it has
/// none or it succeeded, and is stopped when it failed.
pub open spec fn before_next(e: WatchEntry, result: Option<bool>, now: Timestamp) -> WatchEntry {
    match (e.info.process_config, e.info.process_watched) {
        (Some(c), Some(w)) => if w.status is PendingBeforeCmd {
            if c.before is None || result == Some(true) {
                record(e, w, ProcessStatus::ShouldBeRunning, now)
            } else if result == Some(false) {
                record(e, w, ProcessStatus::Stopped, now)
            } else {
                e
            }
        } else {
            e
        },
        _ => e,
    }
}

fn before_step(e: WatchEntry, result: Option<bool>, now: Timestamp) -> (r: WatchEntry)
    ensures
        r == before_next(e, result, now),
{
    let (applies, has_before) = match (&e.info.process_config, &e.info.process_watched) {
        (Some(c), Some(w)) => match &w.status {
            ProcessStatus::PendingBeforeCmd => (true, c.before.is_some()),
            _ => (false, false),
        },
        _ => (false, false),
    };
    if !applies {
        return e;
    }
    let succeeded = match result {
        Some(ok) => ok,
        None => false,
    };
    let failed = match result {
        Some(ok) => !ok,
        None => false,
    };
    if has_before && !succeeded && !failed {
        return e;
    }
    let id = e.id;
    let config = e.info.process_config;
    match e.info.process_watched {
        Some(w) => {
            let status = if !has_before || succeeded {
                ProcessStatus::ShouldBeRunning
            } else {
                ProcessStatus::Stopped
            };
            rebuild(id, config, w.apply_on, status, now, w.last_runs)
        },
        None => reassemble(id, config, None),
    }
}

impl WatchNow {
    /// Counts one more stop attempt for each stopping process and decides its
    /// action (`r.1[i]` for the `i`-th entry).
    pub fn try_stop(self, now: Timestamp) -> (r: (Self, Vec<Option<StopAction>>))
        requires
            self.stops_countable(),
        ensures
            r.0.same_header(self),
            r.0.processes@.len() == self.processes@.len(),
            r.1@.len() == self.processes@.len(),
            forall|i: int|
                0 <= i < self.processes@.len() ==> try_stop_rel(
                    self.processes@[i],
                    #[trigger] r.0.processes@[i],
                    r.1@[i],
                    now,
                ),
    {
        let ghost old = self.processes@;
        let f = |e: WatchEntry| -> (r: (WatchEntry, Option<StopAction>))
            requires
                stop_countable(e),
            ensures
                try_stop_rel(e, r.0, r.1, now),
            { try_stop_step(e, now) };
        let (out, acts) = map_entries_out_pre(self.processes, f);
        (
            WatchNow {
                persist_path: self.persist_path,
                file_uid: self.file_uid,
                original_file_full_path: self.original_file_full_path,
                file_format: self.file_format,
                processes: out,
            },
            acts,
        )
    }

    /// Applies the health checks (`healthy[i]` for the `i`-th entry; `None`
    /// when none was run).
    pub fn move2stop_check_health(self, healthy: Vec<Option<bool>>, now: Timestamp) -> (r: Self)
        requires
            healthy@.len() == self.processes@.len(),
        ensures
            r.same_header(self),
            r.processes@.len() == self.processes@.len(),
            forall|i: int|
                0 <= i < self.processes@.len() ==> #[trigger] r.processes@[i] == health_next(
                    self.processes@[i],
                    healthy@[i],
                    now,
                ),
    {
        let f = |e: WatchEntry, h: Option<bool>| -> (r: WatchEntry)
            ensures
                r == health_next(e, h, now),
            { health_step(e, h, now) };
        let out = map_entries_with(self.processes, healthy, f);
        WatchNow {
            persist_path: self.persist_path,
            file_uid: self.file_uid,
            original_file_full_path: self.original_file_full_path,
            file_format: self.file_format,
            processes: out,
        }
    }

    /// Applies the results of the init commands (`results[i]` for the `i`-th
    /// entry; `None` when none was run).
    pub fn run_init_cmd(self, results: Vec<Option<bool>>, now: Timestamp) -> (r: Self)
        requires
            results@.len() == self.processes@.len(),
        ensures
            r.same_header(self),
            r.processes@.len() == self.processes@.len(),
            forall|i: int|
                0 <= i < self.processes@.len() ==> #[trigger] r.processes@[i] == init_next(
                    self.processes@[i],
                    results@[i],
                    now,
                ),
    {
        let f = |e: WatchEntry, o: Option<bool>| -> (r: WatchEntry)
            ensures
                r == init_next(e, o, now),
            { init_step(e, o, now) };
        let out = map_entries_with(self.processes, results, f);
        WatchNow {
            persist_path: self.persist_path,
            file_uid: self.file_uid,
            original_file_full_path: self.original_file_full_path,
            file_format: self.file_format,
            processes: out,
        }
    }

    /// Applies the results of the before commands (`results[i]` for the
    /// `i`-th entry; `None` when none was run).
    pub fn run_before_cmd(self, results: Vec<Option<bool>>, now: Timestamp) -> (r: Self)
        requires
            results@.len() == self.processes@.len(),
        ensures
            r.same_header(self),
            r.processes@.len() == self.processes@.len(),
            forall|i: int|
                0 <= i < self.processes@.len() ==> #[trigger] r.processes@[i] == before_next(
                    self.processes@[i],
                    results@[i],
                    now,
                ),
    {
        let f = |e: WatchEntry, o: Option<bool>| -> (r: WatchEntry)
            ensures
                r == before_next(e, o, now),
            { before_step(e, o, now) };
        let out = map_entries_with(self.processes, results, f);
        WatchNow {
            persist_path: self.persist_path,
            file_uid: self.file_uid,
            original_file_full_path: self.original_file_full_path,
            file_format: self.file_format,
            processes: out,
        }
    }
}

/// Applies `f` to every entry, in order, and collects what it decides beside;
/// `f` may require of an entry what every entry satisfies.
pub fn map_entries_out_pre<A, F: Fn(WatchEntry) -> (WatchEntry, A)>(v: Vec<WatchEntry>, f: F) -> (r: (
    Vec<WatchEntry>,
    Vec<A>,
))
    requires
        forall|i: int| 0 <= i < v@.len() ==> #[trigger] f.requires((v@[i],)),
    ensures
        r.0@.len() == v@.len(),
        r.1@.len() == v@.len(),
        forall|i: int| 0 <= i < v@.len() ==> f.ensures((v@[i],), (#[trigger] r.0@[i], r.1@[i])),
{
    let ghost orig = v@;
    let n = v.len();
    let mut rest = v;
    let mut rev: Vec<WatchEntry> = Vec::new();
    while rest.len() > 0
        invariant
            n == orig.len(),
            rest@ == orig.take(rest@.len() as int),
            rev@.len() + rest@.len() == n,
            forall|k: int| 0 <= k < rev@.len() ==> #[trigger] rev@[k] == orig[n - 1 - k],
        decreases rest@.len(),
    {
        let e = rest.pop().unwrap();
        rev.push(e);
    }
    let mut out: Vec<WatchEntry> = Vec::new();
    let mut acts: Vec<A> = Vec::new();
    while rev.len() > 0
        invariant
            n == orig.len(),
            forall|i: int| 0 <= i < n ==> #[trigger] f.requires((orig[i],)),
            out@.len() + rev@.len() == n,
            acts@.len() == out@.len(),
            forall|k: int| 0 <= k < rev@.len() ==> #[trigger] rev@[k] == orig[n - 1 - k],
            forall|k: int| 0 <= k < out@.len() ==> f.ensures((orig[k],), (#[trigger] out@[k], acts@[k])),
        decreases rev@.len(),
    {
        let e = rev.pop().unwrap();
        let ghost k = out@.len();
        assert(e == orig[k as int]);
        assert(f.requires((orig[k as int],)));
        let (r, a) = f(e);
        out.push(r);
        acts.push(a);
    }
    (out, acts)
}


// ---------------------------------------------------------------------------
// Building the table and the record

/// The id of a record, as text.
pub open spec fn record_id(w: ProcessWatched) -> Seq<char> {
    w.id.0@
}

/// No two records share an id.
pub open spec fn records_unique(s: Seq<ProcessWatched>) -> bool {
    forall|a: int, b: int|
        0 <= a < b < s.len() ==> record_id(#[trigger] s[a]) != record_id(#[trigger] s[b])
}

/// Some entry of the id of `c` holds `c`.
pub open spec fn config_placed(entries: Seq<WatchEntry>, c: ProcessConfig) -> bool {
    exists|i: int|
        0 <= i < entries.len() && entry_id(#[trigger] entries[i]) == pid_of(c)
            && entries[i].info.process_config == Some(c)
}

/// Some entry of the id of `w` holds `w`.
pub open spec fn record_placed(entries: Seq<WatchEntry>, w: ProcessWatched) -> bool {
    exists|i: int|
        0 <= i < entries.len() && entry_id(#[trigger] entries[i]) == record_id(w)
            && entries[i].info.process_watched == Some(w)
}

/// The table joins the active configurations and the records by id: every
/// configuration and every record stands in the entry of its id, every
/// configuration and record of the table is one of those given, and every
/// entry holds a configuration or a record.
pub open spec fn joins(
    active: Seq<ProcessConfig>,
    records: Seq<ProcessWatched>,
    entries: Seq<WatchEntry>,
) -> bool {
    &&& ids_unique(entries)
    &&& forall|k: int| 0 <= k < active.len() ==> config_placed(entries, #[trigger] active[k])
    &&& forall|m: int| 0 <= m < records.len() ==> record_placed(entries, #[trigger] records[m])
    &&& forall|i: int|
        0 <= i < entries.len() ==> match (#[trigger] entries[i]).info.process_config {
            Some(c) => in_configs(active, c) && pid_of(c) == entry_id(entries[i]),
            None => true,
        }
    &&& forall|i: int|
        0 <= i < entries.len() ==> match (#[trigger] entries[i]).info.process_watched {
            Some(w) => in_records(records, records.len() as int, w) && record_id(w) == entry_id(entries[i]),
            None => true,
        }
    &&& forall|i: int|
        0 <= i < entries.len() ==> (#[trigger] entries[i]).info.process_config is Some
            || entries[i].info.process_watched is Some
}

/// The invariant of `create` once the first `done` records joined.
#[verifier::opaque]
pub open spec fn join_upto(
    act: Seq<ProcessConfig>,
    recs: Seq<ProcessWatched>,
    done: int,
    entries: Seq<WatchEntry>,
) -> bool {
    &&& ids_unique(entries)
    &&& forall|kk: int| 0 <= kk < act.len() ==> config_placed(entries, #[trigger] act[kk])
    &&& forall|m: int| 0 <= m < done ==> record_placed(entries, #[trigger] recs[m])
    &&& forall|i: int|
        0 <= i < entries.len() ==> match (#[trigger] entries[i]).info.process_config {
            Some(c) => in_configs(act, c) && pid_of(c) == entry_id(entries[i]),
            None => true,
        }
    &&& forall|i: int|
        0 <= i < entries.len() ==> match (#[trigger] entries[i]).info.process_watched {
            Some(w) => in_records(recs, done, w) && record_id(w) == entry_id(entries[i]),
            None => true,
        }
    &&& forall|i: int|
        0 <= i < entries.len() ==> (#[trigger] entries[i]).info.process_config is Some
            || entries[i].info.process_watched is Some
}

/// `c` is one of the configurations.
#[verifier::opaque]
pub open spec fn in_configs(act: Seq<ProcessConfig>, c: ProcessConfig) -> bool {
    exists|kk: int| 0 <= kk < act.len() && c == act[kk]
}

/// `w` is one of the first `done` records.
#[verifier::opaque]
pub open spec fn in_records(recs: Seq<ProcessWatched>, done: int, w: ProcessWatched) -> bool {
    exists|m: int| 0 <= m < done && w == recs[m]
}

proof fn lemma_in_configs(act: Seq<ProcessConfig>, k: int)
    requires
        0 <= k < act.len(),
    ensures
        in_configs(act, act[k]),
{
    reveal(in_configs);
}

proof fn lemma_in_records(recs: Seq<ProcessWatched>, done: int, m: int, w: ProcessWatched)
    requires
        0 <= m < done,
        w == recs[m] || in_records(recs, m, w),
    ensures
        in_records(recs, done, w),
{
    reveal(in_records);
}

proof fn lemma_join_init(act: Seq<ProcessConfig>, recs: Seq<ProcessWatched>, entries: Seq<WatchEntry>)
    requires
        entries.len() == act.len(),
        ids_unique(entries),
        forall|k: int|
            0 <= k < entries.len() ==> entry_id(#[trigger] entries[k]) == pid_of(act[k])
                && entries[k].info.process_config == Some(act[k]) && entries[k].info.process_watched is None,
    ensures
        join_upto(act, recs, 0, entries),
{
    reveal(join_upto);
    assert forall|kk: int| 0 <= kk < act.len() implies config_placed(entries, #[trigger] act[kk]) by {
        assert(entry_id(entries[kk]) == pid_of(act[kk]));
    }
    assert forall|i: int| 0 <= i < entries.len() implies match (#[trigger] entries[i]).info.process_config {
        Some(c) => in_configs(act, c) && pid_of(c) == entry_id(entries[i]),
        None => true,
    } by {
        lemma_in_configs(act, i);
    }
    assert forall|i: int| 0 <= i < entries.len() implies match (#[trigger] entries[i]).info.process_watched {
        Some(w) => in_records(recs, 0, w) && record_id(w) == entry_id(entries[i]),
        None => true,
    } by {
        assert(entries[i].info.process_watched is None);
    }
    assert forall|i: int| 0 <= i < entries.len() implies (#[trigger] entries[i]).info.process_config is Some
        || entries[i].info.process_watched is Some by {
        assert(entries[i].info.process_config == Some(act[i]));
    }
    assert(ids_unique(entries));
    assert(forall|m: int| #![trigger recs[m]] 0 <= m < 0 ==> false);
}

proof fn lemma_join_final(act: Seq<ProcessConfig>, recs: Seq<ProcessWatched>, entries: Seq<WatchEntry>)
    requires
        join_upto(act, recs, recs.len() as int, entries),
    ensures
        joins(act, recs, entries),
{
    reveal(join_upto);
}

/// The position of the entry with id `x`, if any.
fn position_of_entry(v: &Vec<WatchEntry>, x: &String) -> (r: Option<usize>)
    ensures
        r matches Some(k) ==> k < v@.len() && entry_id(v@[k as int]) == x@,
        r is None ==> forall|k: int| 0 <= k < v@.len() ==> entry_id(#[trigger] v@[k]) != x@,
{
    let mut k: usize = 0;
    while k < v.len()
        invariant
            k <= v.len(),
            forall|m: int| 0 <= m < k ==> entry_id(#[trigger] v@[m]) != x@,
        decreases v.len() - k,
    {
        if v[k].id.0 == *x {
            return Some(k);
        }
        k = k + 1;
    }
    None
}

/// The elements of `v` in reverse order.
fn reversed<T>(v: Vec<T>) -> (r: Vec<T>)
    ensures
        r@.len() == v@.len(),
        forall|k: int| 0 <= k < v@.len() ==> #[trigger] r@[k] == v@[v@.len() - 1 - k],
{
    let ghost orig = v@;
    let n = v.len();
    let mut rest = v;
    let mut rev: Vec<T> = Vec::new();
    while rest.len() > 0
        invariant
            n == orig.len(),
            rest@ == orig.take(rest@.len() as int),
            rev@.len() + rest@.len() == n,
            forall|k: int| 0 <= k < rev@.len() ==> #[trigger] rev@[k] == orig[n - 1 - k],
        decreases rest@.len(),
    {
        let e = rest.pop().unwrap();
        rev.push(e);
    }
    rev
}

impl TextKeyed for WatchEntry {
    open spec fn key_view(&self) -> Seq<char> {
        self.id.0@
    }

    fn key_text(&self) -> (r: &str) {
        self.id.0.as_str()
    }
}

/// The entries are in the order of their ids.
pub open spec fn ids_sorted(s: Seq<WatchEntry>) -> bool {
    forall|a: int, b: int| 0 <= a < b < s.len() ==> text_lt(entry_id(#[trigger] s[a]), entry_id(#[trigger] s[b]))
}

/// A reordering of a joined table is joined the same way, and a table with
/// distinct ids sorted by id is in strict id order.
proof fn lemma_joins_reordered(
    act: Seq<ProcessConfig>,
    recs: Seq<ProcessWatched>,
    e1: Seq<WatchEntry>,
    e2: Seq<WatchEntry>,
)
    requires
        joins(act, recs, e1),
        e2.to_multiset() == e1.to_multiset(),
        key_sorted(e2),
    ensures
        joins(act, recs, e2),
        ids_sorted(e2),
{
    assert forall|i: int| 0 <= i < e2.len() implies exists|m: int| 0 <= m < e1.len() && e1[m] == #[trigger] e2[i] by {
        vstd::seq_lib::to_multiset_contains(e2, e2[i]);
        vstd::seq_lib::to_multiset_contains(e1, e2[i]);
        assert(e2.contains(e2[i]));
    }
    assert forall|m: int| 0 <= m < e1.len() implies exists|i: int| 0 <= i < e2.len() && e2[i] == #[trigger] e1[m] by {
        vstd::seq_lib::to_multiset_contains(e2, e1[m]);
        vstd::seq_lib::to_multiset_contains(e1, e1[m]);
        assert(e1.contains(e1[m]));
    }
    assert(e1.no_duplicates()) by {
        assert forall|a: int, b: int| 0 <= a < e1.len() && 0 <= b < e1.len() && a != b implies e1[a] != e1[b] by {
            if a < b {
                assert(entry_id(e1[a]) != entry_id(e1[b]));
            } else {
                assert(entry_id(e1[b]) != entry_id(e1[a]));
            }
        }
    }
    e1.lemma_multiset_has_no_duplicates();
    e2.lemma_multiset_has_no_duplicates_conv();
    assert forall|a: int, b: int| 0 <= a < b < e2.len() implies entry_id(#[trigger] e2[a]) != entry_id(
        #[trigger] e2[b],
    ) by {
        let ma = choose|m: int| 0 <= m < e1.len() && e1[m] == e2[a];
        let mb = choose|m: int| 0 <= m < e1.len() && e1[m] == e2[b];
        if ma < mb {
            assert(entry_id(e1[ma]) != entry_id(e1[mb]));
        } else if mb < ma {
            assert(entry_id(e1[mb]) != entry_id(e1[ma]));
        } else {
            assert(e2[a] != e2[b]);
        }
    }
    assert forall|a: int, b: int| 0 <= a < b < e2.len() implies text_lt(entry_id(#[trigger] e2[a]), entry_id(
        #[trigger] e2[b],
    )) by {
        assert(!text_lt(e2[b].key_view(), e2[a].key_view()));
        lemma_text_lt_total(entry_id(e2[a]), entry_id(e2[b]));
    }
    assert forall|k: int| 0 <= k < act.len() implies config_placed(e2, #[trigger] act[k]) by {
        assert(config_placed(e1, act[k]));
        let i = choose|i: int|
            0 <= i < e1.len() && entry_id(#[trigger] e1[i]) == pid_of(act[k]) && e1[i].info.process_config == Some(
                act[k],
            );
        let j = choose|j: int| 0 <= j < e2.len() && e2[j] == e1[i];
        assert(entry_id(e2[j]) == pid_of(act[k]));
    }
    assert forall|m: int| 0 <= m < recs.len() implies record_placed(e2, #[trigger] recs[m]) by {
        assert(record_placed(e1, recs[m]));
        let i = choose|i: int|
            0 <= i < e1.len() && entry_id(#[trigger] e1[i]) == record_id(recs[m]) && e1[i].info.process_watched
                == Some(recs[m]);
        let j = choose|j: int| 0 <= j < e2.len() && e2[j] == e1[i];
        assert(entry_id(e2[j]) == record_id(recs[m]));
    }
    assert forall|i: int| 0 <= i < e2.len() implies match (#[trigger] e2[i]).info.process_config {
        Some(c) => in_configs(act, c) && pid_of(c) == entry_id(e2[i]),
        None => true,
    } by {
        let m = choose|m: int| 0 <= m < e1.len() && e1[m] == e2[i];
        assert(match e1[m].info.process_config {
            Some(c) => in_configs(act, c) && pid_of(c) == entry_id(e1[m]),
            None => true,
        });
    }
    assert forall|i: int| 0 <= i < e2.len() implies match (#[trigger] e2[i]).info.process_watched {
        Some(w) => in_records(recs, recs.len() as int, w) && record_id(w) == entry_id(e2[i]),
        None => true,
    } by {
        let m = choose|m: int| 0 <= m < e1.len() && e1[m] == e2[i];
        assert(match e1[m].info.process_watched {
            Some(w) => in_records(recs, recs.len() as int, w) && record_id(w) == entry_id(e1[m]),
            None => true,
        });
    }
    assert forall|i: int| 0 <= i < e2.len() implies (#[trigger] e2[i]).info.process_config is Some
        || e2[i].info.process_watched is Some by {
        let m = choose|m: int| 0 <= m < e1.len() && e1[m] == e2[i];
        assert(e1[m].info.process_config is Some || e1[m].info.process_watched is Some);
    }
}

impl WatchNow {
    /// The table of a cycle: one entry per active configuration, joined by
    /// id with the recorded state of each process.
    pub fn create(
        persist_path: String,
        file_uid: ConfigUid,
        original_file_full_path: String,
        active: ActiveProcessByConfig,
        status: RunningStatus,
    ) -> (r: Self)
        requires
            unique_ids(active.0@),
            records_unique(status.processes@),
        ensures
            r.persist_path == persist_path,
            r.file_uid == file_uid,
            r.original_file_full_path == original_file_full_path,
            r.file_format@ == "0"@,
            joins(active.0@, status.processes@, r.processes@),
            ids_sorted(r.processes@),
    {
        let ghost act = active.0@;
        let ghost recs = status.processes@;
        let na = active.0.len();
        let mut cfgs = reversed(active.0);
        let mut entries: Vec<WatchEntry> = Vec::new();
        while cfgs.len() > 0
            invariant
                na == act.len(),
                unique_ids(act),
                entries@.len() + cfgs@.len() == na,
                forall|k: int| 0 <= k < cfgs@.len() ==> #[trigger] cfgs@[k] == act[na - 1 - k],
                forall|k: int|
                    0 <= k < entries@.len() ==> entry_id(#[trigger] entries@[k]) == pid_of(act[k])
                        && entries@[k].info.process_config == Some(act[k])
                        && entries@[k].info.process_watched is None,
            decreases cfgs@.len(),
        {
            let c = cfgs.pop().unwrap();
            let ghost k = entries@.len();
            assert(c == act[k as int]);
            let id = c.id.clone();
            entries.push(WatchEntry {
                id,
                info: WatchNowProcInfo { process_config: Some(c), process_watched: None },
            });
        }
        assert(ids_unique(entries@)) by {
            assert forall|a: int, b: int| 0 <= a < b < entries@.len() implies entry_id(
                #[trigger] entries@[a],
            ) != entry_id(#[trigger] entries@[b]) by {
                assert(pid_of(act[a]) != pid_of(act[b]));
            }
        }
        proof {
            lemma_join_init(act, status.processes@, entries@);
        }
        let nr = status.processes.len();
        let mut recs_rev = reversed(status.processes);
        let mut done: usize = 0;
        while recs_rev.len() > 0
            invariant
                na == act.len(),
                nr == recs.len(),
                records_unique(recs),
                done + recs_rev@.len() == nr,
                forall|k: int| 0 <= k < recs_rev@.len() ==> #[trigger] recs_rev@[k] == recs[nr - 1 - k],
                join_upto(act, recs, done as int, entries@),
            decreases recs_rev@.len(),
        {
            let w = recs_rev.pop().unwrap();
            assert(w == recs[done as int]);
            let ghost before = entries@;
            match position_of_entry(&entries, &w.id.0) {
                Some(k) => {
                    let old_entry = entries.remove(k);
                    let new_entry = WatchEntry {
                        id: old_entry.id,
                        info: WatchNowProcInfo {
                            process_config: old_entry.info.process_config,
                            process_watched: Some(w),
                        },
                    };
                    entries.insert(k, new_entry);
                    proof {
                        lemma_join_replace(act, recs, before, entries@, k as int, done as int);
                    }
                },
                None => {
                    let id = w.id.clone();
                    entries.push(WatchEntry {
                        id,
                        info: WatchNowProcInfo { process_config: None, process_watched: Some(w) },
                    });
                    proof {
                        lemma_join_push(act, recs, before, entries@, done as int);
                    }
                },
            }
            done = done + 1;
        }
        proof {
            lemma_join_final(act, recs, entries@);
        }
        let ghost joined = entries@;
        let sorted = sort_by_text(entries);
        proof {
            lemma_joins_reordered(act, recs, joined, sorted@);
        }
        WatchNow {
            persist_path,
            file_uid,
            original_file_full_path,
            file_format: String::from_str("0"),
            processes: sorted,
        }
    }
}

/// The table invariant of `create` after a record joins an existing entry.
#[verifier::rlimit(50)]
proof fn lemma_join_replace(
    act: Seq<ProcessConfig>,
    recs: Seq<ProcessWatched>,
    before: Seq<WatchEntry>,
    after: Seq<WatchEntry>,
    k: int,
    done: int,
)
    requires
        0 <= done < recs.len(),
        records_unique(recs),
        0 <= k < before.len(),
        entry_id(before[k]) == record_id(recs[done]),
        after.len() == before.len(),
        after[k] == (WatchEntry {
            id: before[k].id,
            info: WatchNowProcInfo {
                process_config: before[k].info.process_config,
                process_watched: Some(recs[done]),
            },
        }),
        forall|i: int| 0 <= i < before.len() && i != k ==> after[i] == before[i],
        join_upto(act, recs, done, before),
    ensures
        join_upto(act, recs, done + 1, after),
{
    reveal(join_upto);
    assert forall|a: int, b: int| 0 <= a < b < after.len() implies entry_id(#[trigger] after[a]) != entry_id(
        #[trigger] after[b],
    ) by {
        assert(entry_id(before[a]) != entry_id(before[b]));
    }
    assert forall|kk: int| 0 <= kk < act.len() implies config_placed(after, #[trigger] act[kk]) by {
        assert(config_placed(before, act[kk]));
        let i = choose|i: int|
            0 <= i < before.len() && entry_id(#[trigger] before[i]) == pid_of(act[kk])
                && before[i].info.process_config == Some(act[kk]);
        assert(entry_id(after[i]) == entry_id(before[i]));
    }
    assert forall|m: int| 0 <= m < done + 1 implies record_placed(after, #[trigger] recs[m]) by {
        if m == done {
            assert(entry_id(after[k]) == record_id(recs[m]));
        } else {
            assert(record_placed(before, recs[m]));
            let i = choose|i: int|
                0 <= i < before.len() && entry_id(#[trigger] before[i]) == record_id(recs[m])
                    && before[i].info.process_watched == Some(recs[m]);
            if i == k {
                assert(record_id(recs[m]) != record_id(recs[done]));
            }
            assert(after[i] == before[i]);
        }
    }
    assert forall|i: int| 0 <= i < after.len() implies match (#[trigger] after[i]).info.process_config {
        Some(c) => in_configs(act, c) && pid_of(c) == entry_id(after[i]),
        None => true,
    } by {
        assert(after[i].info.process_config == before[i].info.process_config);
        assert(match before[i].info.process_config {
            Some(c) => in_configs(act, c) && pid_of(c) == entry_id(before[i]),
            None => true,
        });
    }
    assert forall|i: int| 0 <= i < after.len() implies match (#[trigger] after[i]).info.process_watched {
        Some(w) => in_records(recs, done + 1, w) && record_id(w) == entry_id(after[i]),
        None => true,
    } by {
        if i == k {
            lemma_in_records(recs, done + 1, done, recs[done]);
        } else {
            assert(after[i] == before[i]);
            match before[i].info.process_watched {
                Some(w) => {
                    lemma_in_records(recs, done + 1, done, w);
                },
                None => {},
            }
        }
    }
    assert forall|i: int| 0 <= i < after.len() implies (#[trigger] after[i]).info.process_config is Some
        || after[i].info.process_watched is Some by {
        if i != k {
            assert(after[i] == before[i]);
        }
    }
}

/// The table invariant of `create` after a record gets an entry of its own.
#[verifier::rlimit(50)]
proof fn lemma_join_push(
    act: Seq<ProcessConfig>,
    recs: Seq<ProcessWatched>,
    before: Seq<WatchEntry>,
    after: Seq<WatchEntry>,
    done: int,
)
    requires
        0 <= done < recs.len(),
        forall|kk: int| 0 <= kk < before.len() ==> entry_id(#[trigger] before[kk]) != record_id(recs[done]),
        after.len() == before.len() + 1,
        entry_id(after[before.len() as int]) == record_id(recs[done]),
        after[before.len() as int].info.process_config is None,
        after[before.len() as int].info.process_watched == Some(recs[done]),
        forall|i: int| 0 <= i < before.len() ==> after[i] == before[i],
        join_upto(act, recs, done, before),
    ensures
        join_upto(act, recs, done + 1, after),
{
    reveal(join_upto);
    let n = before.len() as int;
    assert forall|a: int, b: int| 0 <= a < b < after.len() implies entry_id(#[trigger] after[a]) != entry_id(
        #[trigger] after[b],
    ) by {
        if b == n {
            assert(entry_id(before[a]) != record_id(recs[done]));
        } else {
            assert(entry_id(before[a]) != entry_id(before[b]));
        }
    }
    assert forall|kk: int| 0 <= kk < act.len() implies config_placed(after, #[trigger] act[kk]) by {
        assert(config_placed(before, act[kk]));
        let i = choose|i: int|
            0 <= i < before.len() && entry_id(#[trigger] before[i]) == pid_of(act[kk])
                && before[i].info.process_config == Some(act[kk]);
        assert(after[i] == before[i]);
    }
    assert forall|m: int| 0 <= m < done + 1 implies record_placed(after, #[trigger] recs[m]) by {
        if m == done {
            assert(entry_id(after[n]) == record_id(recs[m]));
        } else {
            assert(record_placed(before, recs[m]));
            let i = choose|i: int|
                0 <= i < before.len() && entry_id(#[trigger] before[i]) == record_id(recs[m])
                    && before[i].info.process_watched == Some(recs[m]);
            assert(after[i] == before[i]);
        }
    }
    assert forall|i: int| 0 <= i < after.len() implies match (#[trigger] after[i]).info.process_config {
        Some(c) => in_configs(act, c) && pid_of(c) == entry_id(after[i]),
        None => true,
    } by {
        if i < n {
            assert(after[i] == before[i]);
        }
    }
    assert forall|i: int| 0 <= i < after.len() implies match (#[trigger] after[i]).info.process_watched {
        Some(w) => in_records(recs, done + 1, w) && record_id(w) == entry_id(after[i]),
        None => true,
    } by {
        if i < n {
            assert(after[i] == before[i]);
            match before[i].info.process_watched {
                Some(w) => {
                    lemma_in_records(recs, done + 1, done, w);
                },
                None => {},
            }
        } else {
            lemma_in_records(recs, done + 1, done, recs[done]);
        }
    }
    assert forall|i: int| 0 <= i < after.len() implies (#[trigger] after[i]).info.process_config is Some
        || after[i].info.process_watched is Some by {
        if i < n {
            assert(after[i] == before[i]);
        }
    }
}

/// The records held by the first `n` entries, in order.
pub open spec fn recorded_upto(entries: Seq<WatchEntry>, n: int) -> Seq<ProcessWatched>
    decreases n,
{
    if n <= 0 || n > entries.len() {
        Seq::empty()
    } else {
        let p = recorded_upto(entries, n - 1);
        match entries[n - 1].info.process_watched {
            Some(w) => p.push(w),
            None => p,
        }
    }
}

/// The records held by the table, in order.
pub open spec fn recorded(entries: Seq<WatchEntry>) -> Seq<ProcessWatched> {
    recorded_upto(entries, entries.len() as int)
}

impl WatchNow {
    /// The state to record for the configuration file: every record of the
    /// table, in order, updated at `now`.
    pub fn running_status(&self, now: Timestamp) -> (r: RunningStatus)
        ensures
            r.file_uid == self.file_uid,
            r.original_file_full_path == self.original_file_full_path,
            r.file_format == self.file_format,
            r.last_update == now,
            r.processes@.len() == recorded(self.processes@).len(),
            forall|i: int|
                0 <= i < r.processes@.len() ==> same_record(
                    #[trigger] r.processes@[i],
                    recorded(self.processes@)[i],
                ),
    {
        let mut out: Vec<ProcessWatched> = Vec::new();
        let mut i: usize = 0;
        while i < self.processes.len()
            invariant
                i <= self.processes@.len(),
                out@.len() == recorded_upto(self.processes@, i as int).len(),
                forall|k: int|
                    0 <= k < out@.len() ==> same_record(
                        #[trigger] out@[k],
                        recorded_upto(self.processes@, i as int)[k],
                    ),
            decreases self.processes@.len() - i,
        {
            match &self.processes[i].info.process_watched {
                Some(w) => {
                    let ghost before = out@;
                    out.push(w.duplicate());
                    proof {
                        assert forall|k: int| 0 <= k < out@.len() implies same_record(
                            #[trigger] out@[k],
                            recorded_upto(self.processes@, i + 1)[k],
                        ) by {
                            if k < before.len() {
                                assert(out@[k] == before[k]);
                            }
                        }
                    }
                },
                None => {},
            }
            i = i + 1;
        }
        RunningStatus {
            file_uid: self.file_uid.clone(),
            original_file_full_path: self.original_file_full_path.clone(),
            file_format: self.file_format.clone(),
            last_update: now,
            processes: out,
        }
    }
}

// ---------------------------------------------------------------------------
// Laws of the watch steps

/// Every step of a cycle keeps each entry's id, and every step but the two
/// configuration filters keeps each entry's configuration.
pub proof fn law_steps_keep_ids_and_configs(
    e: WatchEntry,
    running: Set<Seq<char>>,
    now: Timestamp,
    stopped_at: Option<Timestamp>,
    content: Option<String>,
    alive: Option<bool>,
    sig: Option<String>,
    healthy: Option<bool>,
    result: Option<bool>,
)
    ensures
        dependencies_next(e, running).id == e.id,
        one_shot_next(e, now).id == e.id,
        delete_old_next(e, now, stopped_at).id == e.id,
        restart_next(e, now).id == e.id,
        hold_back_next(e).id == e.id,
        not_actived_next(e, now).id == e.id,
        applyon_next(e, now).id == e.id,
        pid_file_next(e, content, now).id == e.id,
        pid_missing_next(e, alive, now).id == e.id,
        signature_next(e, sig, now).id == e.id,
        health_next(e, healthy, now).id == e.id,
        init_next(e, result, now).id == e.id,
        before_next(e, result, now).id == e.id,
        delete_old_next(e, now, stopped_at).info.process_config == e.info.process_config,
        restart_next(e, now).info.process_config == e.info.process_config,
        hold_back_next(e).info.process_config == e.info.process_config,
        not_actived_next(e, now).info.process_config == e.info.process_config,
        applyon_next(e, now).info.process_config == e.info.process_config,
        pid_file_next(e, content, now).info.process_config == e.info.process_config,
        pid_missing_next(e, alive, now).info.process_config == e.info.process_config,
        signature_next(e, sig, now).info.process_config == e.info.process_config,
        health_next(e, healthy, now).info.process_config == e.info.process_config,
        init_next(e, result, now).info.process_config == e.info.process_config,
        before_next(e, result, now).info.process_config == e.info.process_config,
{
}

/// The two configuration filters never add a configuration: an entry keeps
/// its own or loses it.
pub proof fn law_filters_only_drop_configs(e: WatchEntry, running: Set<Seq<char>>, now: Timestamp)
    ensures
        dependencies_next(e, running).info.process_config == e.info.process_config
            || dependencies_next(e, running).info.process_config is None,
        one_shot_next(e, now).info.process_config == e.info.process_config
            || one_shot_next(e, now).info.process_config is None,
        dependencies_next(e, running).info.process_watched == e.info.process_watched,
        one_shot_next(e, now).info.process_watched == e.info.process_watched,
{
}

/// After the dependency filter, a process keeps its configuration only when
/// every process it depends on is running.
pub proof fn law_kept_configs_have_running_deps(e: WatchEntry, running: Set<Seq<char>>)
    ensures
        dependencies_next(e, running).info.process_config matches Some(c) ==> deps_running(c, running),
{
}

/// A process that is not configured, or is configured as fake, is never
/// launched: its entry comes out of the launch step as it went in.
pub proof fn law_never_launch_unconfigured_or_fake(e: WatchEntry, o: LaunchOutcome, r: WatchEntry, now: Timestamp)
    requires
        launch_rel(e, o, r, now),
        e.info.process_config is None || e.info.process_config->0.fake,
    ensures
        r == e,
{
}

/// A configured process without a record gets one when the configurations
/// are activated, waiting for its before command.
pub proof fn law_configured_entries_get_a_record(e: WatchEntry, r: WatchEntry, now: Timestamp)
    requires
        activated_rel(e, r, now),
        e.info.process_config is Some,
    ensures
        r.info.process_watched is Some,
        e.info.process_watched is None ==> r.info.process_watched->0.status is PendingBeforeCmd,
{
}

/// Once the configurations no longer active are handled, no process without
/// a configuration is left running, starting or waiting to start.
pub proof fn law_unconfigured_not_left_active(e: WatchEntry, now: Timestamp)
    requires
        e.info.process_config is None,
    ensures
        not_actived_next(e, now).info.process_watched matches Some(w) ==> !(w.status is ShouldBeRunning
            || w.status is PendingBeforeCmd || w.status is Running || w.status is PendingInitCmd
            || w.status is WaittingPidFile),
{
}

/// Stopping escalates: after `MAX_SOFT_STOPS` attempts the process is killed
/// by force; before that, a process without a stop command gets a plain
/// kill. Every attempt is counted.
pub proof fn law_stop_escalates(e: WatchEntry, r: WatchEntry, act: Option<StopAction>, now: Timestamp)
    requires
        try_stop_rel(e, r, act, now),
        e.info.process_watched matches Some(w) && w.status is Stopping,
    ensures
        ({
            let w = e.info.process_watched->0;
            match w.status {
                ProcessStatus::Stopping { pid, retries, stop_command, .. } => {
                    &&& retries >= MAX_SOFT_STOPS ==> act == Some(StopAction::Kill { pid, force: true })
                    &&& retries < MAX_SOFT_STOPS && stop_command is None ==> act == Some(
                        StopAction::Kill { pid, force: false },
                    )
                    &&& r.info.process_watched matches Some(w2) && w2.status matches ProcessStatus::Stopping {
                        retries: r2,
                        ..
                    } && r2 == (retries + 1) as u32
                },
                _ => false,
            }
        }),
{
}

/// A step that keeps every entry's id keeps the table in id order and its
/// ids distinct; with `law_steps_keep_ids_and_configs`, every step of a cycle
/// keeps the order that `create` gives the table.
pub proof fn law_same_ids_keep_order(old: Seq<WatchEntry>, new: Seq<WatchEntry>)
    requires
        new.len() == old.len(),
        forall|i: int| 0 <= i < old.len() ==> entry_id(#[trigger] new[i]) == entry_id(old[i]),
    ensures
        ids_sorted(old) ==> ids_sorted(new),
        ids_unique(old) ==> ids_unique(new),
{
    if ids_sorted(old) {
        assert forall|a: int, b: int| 0 <= a < b < new.len() implies text_lt(
            entry_id(#[trigger] new[a]),
            entry_id(#[trigger] new[b]),
        ) by {
            assert(text_lt(entry_id(old[a]), entry_id(old[b])));
        }
    }
    if ids_unique(old) {
        assert forall|a: int, b: int| 0 <= a < b < new.len() implies entry_id(#[trigger] new[a]) != entry_id(
            #[trigger] new[b],
        ) by {
            assert(entry_id(old[a]) != entry_id(old[b]));
        }
    }
}

/// Only a change of `apply_on` stops a process: a running or initialising
/// process whose configuration carries the `apply_on` it was started with is
/// left as it is, and one whose configuration carries another is asked to stop
/// (first attempt, now), keeping its pid, uid, health check and stop command.
pub proof fn law_apply_on_change_stops(e: WatchEntry, now: Timestamp)
    requires
        e.info.process_config is Some,
        e.info.process_watched is Some,
        e.info.process_watched->0.status is Running || e.info.process_watched->0.status is PendingInitCmd,
    ensures
        ({
            let c = e.info.process_config->0;
            let w = e.info.process_watched->0;
            let r = applyon_next(e, now);
            &&& c.apply_on == w.apply_on ==> r == e
            &&& c.apply_on != w.apply_on ==> {
                &&& r.id == e.id
                &&& r.info.process_config == e.info.process_config
                &&& r.info.process_watched is Some
                &&& r.info.process_watched->0.apply_on == w.apply_on
                &&& r.info.process_watched->0.applied_on == now
                &&& match w.status {
                    ProcessStatus::Running { pid, procman_uid, health_check, stop_command }
                    | ProcessStatus::PendingInitCmd { pid, procman_uid, health_check, stop_command } =>
                        r.info.process_watched->0.status == (ProcessStatus::Stopping {
                        pid,
                        procman_uid,
                        health_check,
                        retries: 0,
                        last_attempt: now,
                        stop_command,
                    }),
                    _ => false,
                }
            }
        }),
{
}

/// Only one-shot processes are held back by the one-shot filter: an entry
/// whose configuration is not one-shot, or that has no record, comes out as
/// it went in; a one-shot process stopped today loses its configuration for
/// this cycle, and one stopped on an earlier day keeps it.
pub proof fn law_one_shot_filter(e: WatchEntry, now: Timestamp)
    ensures
        e.info.process_config matches Some(c) && !c.one_shot ==> one_shot_next(e, now) == e,
        e.info.process_config is None || e.info.process_watched is None ==> one_shot_next(e, now) == e,
        e.info.process_watched matches Some(w) && !(w.status is Stopped) ==> one_shot_next(e, now) == e,
        e.info.process_config is Some && e.info.process_config->0.one_shot && e.info.process_watched is Some
            && e.info.process_watched->0.status is Stopped ==> {
            let w = e.info.process_watched->0;
            &&& day_number(w.applied_on) < day_number(now) ==> one_shot_next(e, now) == e
            &&& day_number(w.applied_on) >= day_number(now) ==> {
                &&& one_shot_next(e, now).id == e.id
                &&& one_shot_next(e, now).info.process_config is None
                &&& one_shot_next(e, now).info.process_watched == e.info.process_watched
            }
        },
{
}

/// A process waiting for its before command is launched only when it has
/// none or the command succeeded; a failed before command records it as
/// stopped (now), and an awaited result leaves it waiting.
pub proof fn law_before_command_gates_launch(e: WatchEntry, result: Option<bool>, now: Timestamp)
    requires
        e.info.process_config is Some,
        e.info.process_watched is Some,
        e.info.process_watched->0.status is PendingBeforeCmd,
    ensures
        ({
            let c = e.info.process_config->0;
            let r = before_next(e, result, now);
            &&& c.before is Some && result == Some(false) ==> r.info.process_watched is Some
                && r.info.process_watched->0.status is Stopped
                && r.info.process_watched->0.applied_on == now
            &&& (c.before is None || result == Some(true)) ==> r.info.process_watched is Some
                && r.info.process_watched->0.status is ShouldBeRunning
                && r.info.process_watched->0.applied_on == now
            &&& c.before is Some && result is None ==> r == e
            &&& r.id == e.id && r.info.process_config == e.info.process_config
        }),
{
}

/// A failed health check stops what it checks: a running or initialising
/// process is asked to stop (first attempt, now, same pid, uid, health check
/// and stop command), a stopping one is recorded stopped; a check that did
/// not fail leaves the entry as it is.
pub proof fn law_failed_health_check_stops(e: WatchEntry, healthy: Option<bool>, now: Timestamp)
    requires
        e.info.process_watched is Some,
        match e.info.process_watched->0.status {
            ProcessStatus::Running { health_check, .. } => health_check is Some,
            ProcessStatus::PendingInitCmd { health_check, .. } => health_check is Some,
            ProcessStatus::Stopping { health_check, .. } => health_check is Some,
            _ => false,
        },
    ensures
        ({
            let w = e.info.process_watched->0;
            let r = health_next(e, healthy, now);
            &&& healthy != Some(false) ==> r == e
            &&& healthy == Some(false) ==> {
                &&& r.id == e.id
                &&& r.info.process_config == e.info.process_config
                &&& r.info.process_watched is Some
                &&& r.info.process_watched->0.applied_on == now
                &&& match w.status {
                    ProcessStatus::Running { pid, procman_uid, health_check, stop_command }
                    | ProcessStatus::PendingInitCmd { pid, procman_uid, health_check, stop_command } =>
                        r.info.process_watched->0.status == (ProcessStatus::Stopping {
                        pid,
                        procman_uid,
                        health_check,
                        retries: 0,
                        last_attempt: now,
                        stop_command,
                    }),
                    ProcessStatus::Stopping { .. } => r.info.process_watched->0.status is Stopped,
                    _ => false,
                }
            }
        }),
{
}

/// The dependency filter keeps a configuration exactly when every process it
/// depends on is running, and never touches the record.
pub proof fn law_dependency_filter_exact(e: WatchEntry, running: Set<Seq<char>>)
    requires
        e.info.process_config is Some,
    ensures
        ({
            let c = e.info.process_config->0;
            let r = dependencies_next(e, running);
            &&& (forall|k: int| 0 <= k < c.depends_on@.len() ==> running.contains(#[trigger] c.depends_on@[k].0@))
                ==> r == e
            &&& (exists|k: int| 0 <= k < c.depends_on@.len() && !running.contains(#[trigger] c.depends_on@[k].0@))
                ==> r.id == e.id && r.info.process_config is None && r.info.process_watched == e.info.process_watched
        }),
{
}

/// A process that lost its configuration is stopped: running or
/// initialising, it is asked to stop (first attempt, now, same pid);
/// not launched yet, it is recorded stopped; waiting for its pid file, it is
/// to be stopped once the pid is known. Other records, and every configured
/// entry, stay as they are.
pub proof fn law_unconfigured_processes_stop(e: WatchEntry, now: Timestamp)
    ensures
        e.info.process_config is Some ==> not_actived_next(e, now) == e,
        e.info.process_config is None && e.info.process_watched is Some ==> {
            let w = e.info.process_watched->0;
            let r = not_actived_next(e, now);
            match w.status {
                ProcessStatus::Running { pid, procman_uid, health_check, stop_command }
                | ProcessStatus::PendingInitCmd { pid, procman_uid, health_check, stop_command } => r.info.process_watched
                    is Some && r.info.process_watched->0.applied_on == now && r.info.process_watched->0.status == (
                ProcessStatus::Stopping {
                    pid,
                    procman_uid,
                    health_check,
                    retries: 0,
                    last_attempt: now,
                    stop_command,
                }),
                ProcessStatus::ShouldBeRunning | ProcessStatus::PendingBeforeCmd => r.info.process_watched is Some
                    && r.info.process_watched->0.status is Stopped,
                ProcessStatus::WaittingPidFile { pid_file, pid, procman_uid, health_check, stop_command } =>
                    r.info.process_watched is Some && r.info.process_watched->0.status == (
                ProcessStatus::StoppingWaittingPidFile {
                    pid_file,
                    pid,
                    procman_uid,
                    health_check,
                    retries: 0,
                    last_attempt: now,
                    stop_command,
                }),
                _ => r == e,
            }
        },
{
}

/// A process watched by its pid (no health check) whose pid is reported
/// gone is recorded stopped; a pid found, or not probed, changes nothing.
pub proof fn law_missing_pid_stops(e: WatchEntry, alive: Option<bool>, now: Timestamp)
    ensures
        alive != Some(false) ==> pid_missing_next(e, alive, now) == e,
        alive == Some(false) && e.info.process_watched is Some && match e.info.process_watched->0.status {
            ProcessStatus::Running { health_check, .. } => health_check is None,
            ProcessStatus::PendingInitCmd { health_check, .. } => health_check is None,
            ProcessStatus::Stopping { health_check, .. } => health_check is None,
            _ => false,
        } ==> {
            let r = pid_missing_next(e, alive, now);
            &&& r.info.process_watched is Some
            &&& r.info.process_watched->0.status is Stopped
            &&& r.info.process_watched->0.applied_on == now
            &&& r.info.process_config == e.info.process_config
        },
{
}

/// A running or initialising process whose pid now shows a signature that
/// its recorded command line does not contain is recorded stopped; a
/// contained signature, or none, changes nothing.
pub proof fn law_foreign_signature_stops(e: WatchEntry, sig: Option<String>, now: Timestamp)
    ensures
        sig is None ==> signature_next(e, sig, now) == e,
        e.info.process_watched is Some && sig is Some && match e.info.process_watched->0.status {
            ProcessStatus::Running { procman_uid, .. } | ProcessStatus::PendingInitCmd { procman_uid, .. } =>
                contains_spec(procman_uid@, trim_spec(sig->0@)),
            _ => true,
        } ==> signature_next(e, sig, now) == e,
        e.info.process_watched is Some && sig is Some && match e.info.process_watched->0.status {
            ProcessStatus::Running { procman_uid, .. } | ProcessStatus::PendingInitCmd { procman_uid, .. } =>
                !contains_spec(procman_uid@, trim_spec(sig->0@)),
            _ => false,
        } ==> signature_next(e, sig, now).info.process_watched is Some
            && signature_next(e, sig, now).info.process_watched->0.status is Stopped,
{
}

/// An initialising process becomes running once its init command succeeded
/// (or when it has none), with the configuration's `apply_on`, stop command
/// and health check; a failed init command asks it to stop; an awaited
/// result leaves it as it is.
pub proof fn law_init_command_result(e: WatchEntry, result: Option<bool>, now: Timestamp)
    requires
        e.info.process_config is Some,
        e.info.process_watched is Some,
        e.info.process_watched->0.status is PendingInitCmd,
    ensures
        ({
            let c = e.info.process_config->0;
            let w = e.info.process_watched->0;
            let r = init_next(e, result, now);
            match w.status {
                ProcessStatus::PendingInitCmd { pid, procman_uid, .. } => {
                    &&& (c.init is None || result == Some(true)) ==> r.info.process_watched is Some
                        && r.info.process_watched->0.apply_on == c.apply_on
                        && r.info.process_watched->0.status == (ProcessStatus::Running {
                        pid,
                        procman_uid,
                        health_check: c.health_check,
                        stop_command: c.stop,
                    })
                    &&& c.init is Some && result == Some(false) ==> r.info.process_watched is Some
                        && r.info.process_watched->0.status == (ProcessStatus::Stopping {
                        pid,
                        procman_uid,
                        health_check: c.health_check,
                        retries: 0,
                        last_attempt: now,
                        stop_command: c.stop,
                    })
                    &&& c.init is Some && result is None ==> r == e
                },
                _ => false,
            }
        }),
{
}

/// A stopped process that is still configured is started again (waiting for
/// its before command) unless it was launched five times or more lately;
/// one launched that often is held back instead.
pub proof fn law_restart_or_hold_back(e: WatchEntry, now: Timestamp)
    requires
        e.info.process_watched is Some,
        e.info.process_watched->0.status is Stopped,
    ensures
        ({
            let w = e.info.process_watched->0;
            &&& e.info.process_config is Some && w.last_runs@.len() < 5 ==> restart_next(e, now).info.process_watched
                is Some && restart_next(e, now).info.process_watched->0.status is PendingBeforeCmd
                && restart_next(e, now).info.process_watched->0.applied_on == now
            &&& e.info.process_config is None || w.last_runs@.len() >= 5 ==> restart_next(e, now) == e
            &&& w.last_runs@.len() >= 5 ==> hold_back_next(e).info.process_watched is Some
                && hold_back_next(e).info.process_watched->0.status is TooMuchRuns
            &&& w.last_runs@.len() < 5 ==> hold_back_next(e) == e
        }),
{
}

/// A stopped record is forgotten exactly when it was stopped more than four
/// days (345,600 seconds) before `now`; no other record is.
pub proof fn law_old_stopped_forgotten(e: WatchEntry, now: Timestamp, stopped_at: Option<Timestamp>)
    ensures
        e.info.process_watched is Some && e.info.process_watched->0.status is Stopped && stopped_at is Some
            && ts_nanos(now) - ts_nanos(stopped_at->0) > 345_600_000_000_000 ==> delete_old_next(
            e,
            now,
            stopped_at,
        ).info.process_watched is None && delete_old_next(e, now, stopped_at).info.process_config
            == e.info.process_config,
        !(e.info.process_watched is Some && e.info.process_watched->0.status is Stopped && stopped_at is Some
            && ts_nanos(now) - ts_nanos(stopped_at->0) > 345_600_000_000_000) ==> delete_old_next(e, now, stopped_at)
            == e,
{
}

/// A pid read from the awaited pid file moves the process on: to
/// initialising with that pid, or, for a pending stop, to a first stop
/// attempt on that pid; an unreadable file counts one more retry of a
/// pending stop and leaves a start waiting.
pub proof fn law_pid_file_read(e: WatchEntry, content: Option<String>, now: Timestamp)
    requires
        e.info.process_watched is Some,
        pid_wait_countable(e),
    ensures
        ({
            let w = e.info.process_watched->0;
            let r = pid_file_next(e, content, now);
            match w.status {
                ProcessStatus::WaittingPidFile { procman_uid, health_check, stop_command, .. } => {
                    &&& content is None ==> r == e
                    &&& content is Some && parse_u32_spec(trim_spec(content->0@)) is Some ==> r.info.process_watched
                        is Some && r.info.process_watched->0.status == (ProcessStatus::PendingInitCmd {
                        pid: parse_u32_spec(trim_spec(content->0@))->0,
                        procman_uid,
                        health_check,
                        stop_command,
                    })
                },
                ProcessStatus::StoppingWaittingPidFile { procman_uid, health_check, stop_command, retries, .. } => {
                    &&& content is None ==> r.info.process_watched is Some
                        && r.info.process_watched->0.status is StoppingWaittingPidFile
                        && r.info.process_watched->0.status->StoppingWaittingPidFile_retries == retries + 1
                    &&& content is Some && parse_u32_spec(trim_spec(content->0@)) is Some ==> r.info.process_watched
                        is Some && r.info.process_watched->0.status == (ProcessStatus::Stopping {
                        pid: parse_u32_spec(trim_spec(content->0@))->0,
                        procman_uid,
                        health_check,
                        retries: 0,
                        last_attempt: now,
                        stop_command,
                    })
                },
                _ => r == e,
            }
        }),
{
}

/// A launch that succeeded records the process as initialising with the
/// launched pid and its command line, the configuration's stop command and
/// health check, and counts the launch; a failed launch changes nothing.
pub proof fn law_launch_outcome(e: WatchEntry, o: LaunchOutcome, r: WatchEntry, now: Timestamp)
    requires
        launch_rel(e, o, r, now),
        e.info.process_config is Some,
        !e.info.process_config->0.fake,
        e.info.process_config->0.command.kind() != CommandType::PidFile,
        e.info.process_watched is Some,
        e.info.process_watched->0.status is ShouldBeRunning,
    ensures
        o is Failed ==> r == e,
        o matches LaunchOutcome::Launched { pid, procman_uid: Some(uid) } ==> {
            let c = e.info.process_config->0;
            &&& r.info.process_watched is Some
            &&& r.info.process_watched->0.status == (ProcessStatus::PendingInitCmd {
                pid,
                procman_uid: uid,
                health_check: c.health_check,
                stop_command: c.stop,
            })
            &&& r.info.process_watched->0.last_runs@ == e.info.process_watched->0.last_runs@.push(now)
        },
{
}

/// The apply-on step, case by case: without a configuration or a record, or
/// with the `apply_on` the process was started with, the entry is left as it
/// is; with another `apply_on`, a running or initialising process gets a
/// first stop attempt and a process awaiting its pid file a pending stop,
/// both now and with the same pid, uid, health check, stop command, recorded
/// `apply_on` and launches; any other record is left as it is.
pub proof fn law_apply_on_step_cases(e: WatchEntry, now: Timestamp)
    ensures
        applyon_next(e, now).id == e.id,
        applyon_next(e, now).info.process_config == e.info.process_config,
        e.info.process_config is None || e.info.process_watched is None ==> applyon_next(e, now) == e,
        e.info.process_config is Some && e.info.process_watched is Some
            && e.info.process_config->0.apply_on == e.info.process_watched->0.apply_on ==> applyon_next(e, now)
            == e,
        e.info.process_config is Some && e.info.process_watched is Some
            && e.info.process_config->0.apply_on != e.info.process_watched->0.apply_on ==> {
            let w = e.info.process_watched->0;
            let r = applyon_next(e, now);
            match w.status {
                ProcessStatus::Running { pid, procman_uid, health_check, stop_command }
                | ProcessStatus::PendingInitCmd { pid, procman_uid, health_check, stop_command } =>
                    r.info.process_watched == Some(
                    ProcessWatched {
                        id: e.id,
                        apply_on: w.apply_on,
                        status: ProcessStatus::Stopping {
                            pid,
                            procman_uid,
                            health_check,
                            retries: 0,
                            last_attempt: now,
                            stop_command,
                        },
                        applied_on: now,
                        last_runs: w.last_runs,
                    },
                ),
                ProcessStatus::WaittingPidFile { pid_file, pid, procman_uid, health_check, stop_command } =>
                    r.info.process_watched == Some(
                    ProcessWatched {
                        id: e.id,
                        apply_on: w.apply_on,
                        status: ProcessStatus::StoppingWaittingPidFile {
                            pid_file,
                            pid,
                            procman_uid,
                            health_check,
                            retries: 0,
                            last_attempt: now,
                            stop_command,
                        },
                        applied_on: now,
                        last_runs: w.last_runs,
                    },
                ),
                _ => r == e,
            }
        },
{
}

/// The before-command step touches only a configured process waiting for its
/// before command; such a process is recorded (now, same recorded `apply_on`
/// and launches) as to be launched when it has no before command or the
/// command succeeded, and as stopped when the command failed.
pub proof fn law_before_step_cases(e: WatchEntry, result: Option<bool>, now: Timestamp)
    ensures
        !(e.info.process_config is Some && e.info.process_watched is Some
            && e.info.process_watched->0.status is PendingBeforeCmd) ==> before_next(e, result, now) == e,
        e.info.process_config is Some && e.info.process_watched is Some
            && e.info.process_watched->0.status is PendingBeforeCmd ==> {
            let c = e.info.process_config->0;
            let w = e.info.process_watched->0;
            let r = before_next(e, result, now);
            &&& r.id == e.id
            &&& r.info.process_config == e.info.process_config
            &&& (c.before is None || result == Some(true)) ==> r.info.process_watched == Some(
                ProcessWatched {
                    id: e.id,
                    apply_on: w.apply_on,
                    status: ProcessStatus::ShouldBeRunning,
                    applied_on: now,
                    last_runs: w.last_runs,
                },
            )
            &&& (c.before is Some && result == Some(false)) ==> r.info.process_watched == Some(
                ProcessWatched {
                    id: e.id,
                    apply_on: w.apply_on,
                    status: ProcessStatus::Stopped,
                    applied_on: now,
                    last_runs: w.last_runs,
                },
            )
        },
{
}

/// The health step touches only a running, initialising or stopping process
/// that has a health check and whose check failed; a failure moves a running
/// or initialising one to a first stop attempt and a stopping one to stopped,
/// recorded now with the same recorded `apply_on` and launches.
pub proof fn law_health_step_cases(e: WatchEntry, healthy: Option<bool>, now: Timestamp)
    ensures
        health_next(e, healthy, now).id == e.id,
        health_next(e, healthy, now).info.process_config == e.info.process_config,
        healthy != Some(false) ==> health_next(e, healthy, now) == e,
        e.info.process_watched is None ==> health_next(e, healthy, now) == e,
        e.info.process_watched is Some && healthy == Some(false) ==> {
            let w = e.info.process_watched->0;
            let r = health_next(e, healthy, now);
            match w.status {
                ProcessStatus::Running { pid, procman_uid, health_check, stop_command }
                | ProcessStatus::PendingInitCmd { pid, procman_uid, health_check, stop_command } => {
                    &&& health_check is None ==> r == e
                    &&& health_check is Some ==> r.info.process_watched == Some(
                        ProcessWatched {
                            id: e.id,
                            apply_on: w.apply_on,
                            status: ProcessStatus::Stopping {
                                pid,
                                procman_uid,
                                health_check,
                                retries: 0,
                                last_attempt: now,
                                stop_command,
                            },
                            applied_on: now,
                            last_runs: w.last_runs,
                        },
                    )
                },
                ProcessStatus::Stopping { health_check, .. } => {
                    &&& health_check is None ==> r == e
                    &&& health_check is Some ==> r.info.process_watched == Some(
                        ProcessWatched {
                            id: e.id,
                            apply_on: w.apply_on,
                            status: ProcessStatus::Stopped,
                            applied_on: now,
                            last_runs: w.last_runs,
                        },
                    )
                },
                _ => r == e,
            }
        },
{
}

} // verus!

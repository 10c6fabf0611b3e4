//! The process configuration: commands, schedules, and the checks that a
//! configuration file must pass before it is used.
use crate::time::{
    time_of_day, time_of_day_of, timestamp_before, ts_lt, weekday, weekday_at, weekday_of,
    span_from_secs, time_of_day_before, tod_lt, tod_valid, weekday_index, Span, TimeOfDay, Timestamp,
    Weekday,
};
use crate::deps::{
    circular_refs, cycle_refusal, cyclic_root, dep_id, deps_all_exist, has_id, last_with_id,
};
use vstd::prelude::*;

verus! {

/// Identification of a watched process, unique within a configuration.
#[derive(Debug)]
pub struct ProcessId(pub String);

/// Unique identification of a configuration file.
#[derive(Debug)]
pub struct ConfigUid(pub String);

impl Clone for ProcessId {
    fn clone(&self) -> (r: Self)
        ensures
            r == *self,
    {
        ProcessId(self.0.clone())
    }
}

impl Clone for ConfigUid {
    fn clone(&self) -> (r: Self)
        ensures
            r == *self,
    {
        ConfigUid(self.0.clone())
    }
}

/// How a command line is launched.
#[derive(Clone, Copy, Debug, PartialEq, Eq, Structural)]
pub enum CommandType {
    /// Split on whitespace and run the program directly.
    Simple,
    /// Run through `sh -c`.
    Expression,
    /// The process reports its pid through a file.
    PidFile,
    /// `podman run -d`: the output is a container id whose pid is looked up.
    PodmanCid,
}

impl Default for CommandType {
    fn default() -> (r: Self)
        ensures
            r == CommandType::Simple,
    {
        CommandType::Simple
    }
}

/// A command line with an explicit launch type.
#[derive(Debug)]
pub struct CommandDetail {
    pub line: String,
    pub cmd_type: CommandType,
}

/// A command: a bare line, or a line with its launch type.
#[derive(Debug)]
pub enum Command {
    Simple(String),
    Detailed(CommandDetail),
}

impl Clone for CommandDetail {
    fn clone(&self) -> (r: Self)
        ensures
            r == *self,
    {
        CommandDetail { line: self.line.clone(), cmd_type: self.cmd_type }
    }
}

impl Clone for Command {
    fn clone(&self) -> (r: Self)
        ensures
            r == *self,
    {
        match self {
            Command::Simple(s) => Command::Simple(s.clone()),
            Command::Detailed(d) => Command::Detailed(d.clone()),
        }
    }
}

impl Command {
    /// The command line.
    pub open spec fn line(&self) -> Seq<char> {
        match self {
            Command::Simple(s) => s@,
            Command::Detailed(d) => d.line@,
        }
    }

    /// The launch type; a bare line is a simple command.
    pub open spec fn kind(&self) -> CommandType {
        match self {
            Command::Simple(_) => CommandType::Simple,
            Command::Detailed(d) => d.cmd_type,
        }
    }

    /// Returns the command line.
    pub fn str(&self) -> (r: &str)
        ensures
            r@ == self.line(),
    {
        match self {
            Command::Simple(s) => s.as_str(),
            Command::Detailed(d) => d.line.as_str(),
        }
    }

    /// Returns the command type.
    pub fn cmd_type(&self) -> (r: CommandType)
        ensures
            r == self.kind(),
    {
        match self {
            Command::Simple(_) => CommandType::Simple,
            Command::Detailed(d) => d.cmd_type,
        }
    }
}

/// Seconds waited by default for an init command.
pub const INIT_TIMEOUT_SECS: u64 = 10;

/// Seconds waited by default for a before command.
pub const BEFORE_TIMEOUT_SECS: u64 = 10;

/// Seconds waited by default for a stop command.
pub const STOP_TIMEOUT_SECS: u64 = 5;

/// Seconds waited by default for a health-check command.
pub const HEALTH_TIMEOUT_SECS: u64 = 5;

/// Seconds of folder inactivity accepted by default.
pub const INACTIVE_SECS: u64 = 300;

/// Command run once the process is launched; the process is running once it succeeds.
#[derive(Debug)]
pub enum CommandInit {
    Simple(Command),
    Detailed { command: Command, timeout: Option<Span> },
}

/// Command run before the process is launched; the process is launched only if it succeeds.
#[derive(Debug)]
pub enum CommandBefore {
    Simple(Command),
    Detailed { command: Command, timeout: Option<Span> },
}

/// Command run to stop the process, in place of a `SIGTERM`.
#[derive(Debug)]
pub enum CommandStop {
    Simple(Command),
    Detailed { command: Command, timeout: Option<Span> },
}

/// Command whose success tells that the process is healthy.
#[derive(Debug)]
pub enum CommandCheckHealth {
    Simple(Command),
    Detailed { command: Command, timeout: Option<Span> },
}

/// The timeout of a wrapped command: the given one, or the default.
pub open spec fn timeout_or(t: Option<Span>, default_secs: u64) -> Span {
    match t {
        Some(s) => s,
        None => Span { secs: default_secs, nanos: 0 },
    }
}

impl CommandInit {
    pub open spec fn command_spec(&self) -> Command {
        match self {
            CommandInit::Simple(c) => *c,
            CommandInit::Detailed { command, .. } => *command,
        }
    }

    pub open spec fn timeout_spec(&self) -> Span {
        match self {
            CommandInit::Simple(_) => timeout_or(None, INIT_TIMEOUT_SECS),
            CommandInit::Detailed { timeout, .. } => timeout_or(*timeout, INIT_TIMEOUT_SECS),
        }
    }

    pub fn command(&self) -> (r: &Command)
        ensures
            *r == self.command_spec(),
    {
        match self {
            CommandInit::Simple(c) => c,
            CommandInit::Detailed { command, .. } => command,
        }
    }

    pub fn timeout(&self) -> (r: Span)
        ensures
            r == self.timeout_spec(),
    {
        match self {
            CommandInit::Simple(_) => span_from_secs(INIT_TIMEOUT_SECS),
            CommandInit::Detailed { timeout, .. } => match timeout {
                Some(t) => *t,
                None => span_from_secs(INIT_TIMEOUT_SECS),
            },
        }
    }
}

impl CommandBefore {
    pub open spec fn command_spec(&self) -> Command {
        match self {
            CommandBefore::Simple(c) => *c,
            CommandBefore::Detailed { command, .. } => *command,
        }
    }

    pub open spec fn timeout_spec(&self) -> Span {
        match self {
            CommandBefore::Simple(_) => timeout_or(None, BEFORE_TIMEOUT_SECS),
            CommandBefore::Detailed { timeout, .. } => timeout_or(*timeout, BEFORE_TIMEOUT_SECS),
        }
    }

    pub fn command(&self) -> (r: &Command)
        ensures
            *r == self.command_spec(),
    {
        match self {
            CommandBefore::Simple(c) => c,
            CommandBefore::Detailed { command, .. } => command,
        }
    }

    pub fn timeout(&self) -> (r: Span)
        ensures
            r == self.timeout_spec(),
    {
        match self {
            CommandBefore::Simple(_) => span_from_secs(BEFORE_TIMEOUT_SECS),
            CommandBefore::Detailed { timeout, .. } => match timeout {
                Some(t) => *t,
                None => span_from_secs(BEFORE_TIMEOUT_SECS),
            },
        }
    }
}

impl CommandStop {
    pub open spec fn command_spec(&self) -> Command {
        match self {
            CommandStop::Simple(c) => *c,
            CommandStop::Detailed { command, .. } => *command,
        }
    }

    pub open spec fn timeout_spec(&self) -> Span {
        match self {
            CommandStop::Simple(_) => timeout_or(None, STOP_TIMEOUT_SECS),
            CommandStop::Detailed { timeout, .. } => timeout_or(*timeout, STOP_TIMEOUT_SECS),
        }
    }

    pub fn command(&self) -> (r: &Command)
        ensures
            *r == self.command_spec(),
    {
        match self {
            CommandStop::Simple(c) => c,
            CommandStop::Detailed { command, .. } => command,
        }
    }

    pub fn timeout(&self) -> (r: Span)
        ensures
            r == self.timeout_spec(),
    {
        match self {
            CommandStop::Simple(_) => span_from_secs(STOP_TIMEOUT_SECS),
            CommandStop::Detailed { timeout, .. } => match timeout {
                Some(t) => *t,
                None => span_from_secs(STOP_TIMEOUT_SECS),
            },
        }
    }
}

impl CommandCheckHealth {
    pub open spec fn command_spec(&self) -> Command {
        match self {
            CommandCheckHealth::Simple(c) => *c,
            CommandCheckHealth::Detailed { command, .. } => *command,
        }
    }

    pub open spec fn timeout_spec(&self) -> Span {
        match self {
            CommandCheckHealth::Simple(_) => timeout_or(None, HEALTH_TIMEOUT_SECS),
            CommandCheckHealth::Detailed { timeout, .. } => timeout_or(*timeout, HEALTH_TIMEOUT_SECS),
        }
    }

    pub fn command(&self) -> (r: &Command)
        ensures
            *r == self.command_spec(),
    {
        match self {
            CommandCheckHealth::Simple(c) => c,
            CommandCheckHealth::Detailed { command, .. } => command,
        }
    }

    pub fn timeout(&self) -> (r: Span)
        ensures
            r == self.timeout_spec(),
    {
        match self {
            CommandCheckHealth::Simple(_) => span_from_secs(HEALTH_TIMEOUT_SECS),
            CommandCheckHealth::Detailed { timeout, .. } => match timeout {
                Some(t) => *t,
                None => span_from_secs(HEALTH_TIMEOUT_SECS),
            },
        }
    }
}

impl Clone for CommandInit {
    fn clone(&self) -> (r: Self)
        ensures
            r == *self,
    {
        match self {
            CommandInit::Simple(c) => CommandInit::Simple(c.clone()),
            CommandInit::Detailed { command, timeout } => CommandInit::Detailed {
                command: command.clone(),
                timeout: *timeout,
            },
        }
    }
}

impl Clone for CommandBefore {
    fn clone(&self) -> (r: Self)
        ensures
            r == *self,
    {
        match self {
            CommandBefore::Simple(c) => CommandBefore::Simple(c.clone()),
            CommandBefore::Detailed { command, timeout } => CommandBefore::Detailed {
                command: command.clone(),
                timeout: *timeout,
            },
        }
    }
}

impl Clone for CommandStop {
    fn clone(&self) -> (r: Self)
        ensures
            r == *self,
    {
        match self {
            CommandStop::Simple(c) => CommandStop::Simple(c.clone()),
            CommandStop::Detailed { command, timeout } => CommandStop::Detailed {
                command: command.clone(),
                timeout: *timeout,
            },
        }
    }
}

impl Clone for CommandCheckHealth {
    fn clone(&self) -> (r: Self)
        ensures
            r == *self,
    {
        match self {
            CommandCheckHealth::Simple(c) => CommandCheckHealth::Simple(c.clone()),
            CommandCheckHealth::Detailed { command, timeout } => CommandCheckHealth::Detailed {
                command: command.clone(),
                timeout: *timeout,
            },
        }
    }
}

/// Health by activity: the process is healthy while something in the folder
/// was modified recently enough.
#[derive(Debug)]
pub struct FolderActivityCheckHealth {
    pub folder: String,
    pub inactive_time: Option<Span>,
}

impl FolderActivityCheckHealth {
    pub open spec fn inactive_time_spec(&self) -> Span {
        timeout_or(self.inactive_time, INACTIVE_SECS)
    }

    /// The accepted inactivity, five minutes unless configured.
    pub fn inactive_time(&self) -> (r: Span)
        ensures
            r == self.inactive_time_spec(),
    {
        match self.inactive_time {
            Some(t) => t,
            None => span_from_secs(INACTIVE_SECS),
        }
    }
}

impl Clone for FolderActivityCheckHealth {
    fn clone(&self) -> (r: Self)
        ensures
            r == *self,
    {
        FolderActivityCheckHealth { folder: self.folder.clone(), inactive_time: self.inactive_time }
    }
}

/// How the health of a process is checked, in place of looking for its pid.
#[derive(Debug)]
pub enum CheckHealth {
    Command(CommandCheckHealth),
    FolderActivity(FolderActivityCheckHealth),
}

impl Clone for CheckHealth {
    fn clone(&self) -> (r: Self)
        ensures
            r == *self,
    {
        match self {
            CheckHealth::Command(c) => CheckHealth::Command(c.clone()),
            CheckHealth::FolderActivity(f) => CheckHealth::FolderActivity(f.clone()),
        }
    }
}


/// The days of the week on which a schedule applies.
#[derive(Debug)]
pub enum DaySelection {
    Days(Vec<Weekday>),
    Mon2Fri,
    All,
}

impl Default for DaySelection {
    fn default() -> (r: Self)
        ensures
            r == DaySelection::All,
    {
        DaySelection::All
    }
}

impl DaySelection {
    /// The selection holds the given day.
    pub open spec fn selects(&self, w: Weekday) -> bool {
        match self {
            DaySelection::Days(days) => days@.contains(w),
            DaySelection::Mon2Fri => 0 <= weekday_index(w) <= 4,
            DaySelection::All => true,
        }
    }

    /// Two selections hold the same days written the same way.
    pub open spec fn same_as(&self, other: DaySelection) -> bool {
        match (self, other) {
            (DaySelection::Days(a), DaySelection::Days(b)) => a@ == b@,
            (DaySelection::Mon2Fri, DaySelection::Mon2Fri) => true,
            (DaySelection::All, DaySelection::All) => true,
            _ => false,
        }
    }

    /// Whether the selection holds the given day.
    pub fn matches(&self, weekday: Weekday) -> (r: bool)
        ensures
            r == self.selects(weekday),
    {
        match self {
            DaySelection::Days(days) => {
                let mut i: usize = 0;
                while i < days.len()
                    invariant
                        i <= days.len(),
                        self.selects(weekday) == days@.contains(weekday),
                        forall|k: int| 0 <= k < i ==> days@[k] != weekday,
                    decreases days.len() - i,
                {
                    if days[i] == weekday {
                        assert(days@[i as int] == weekday);
                        assert(days@.contains(weekday));
                        return true;
                    }
                    i = i + 1;
                }
                false
            },
            DaySelection::Mon2Fri => {
                let w = weekday_number(weekday);
                w <= 4
            },
            DaySelection::All => true,
        }
    }
}

/// Position of a weekday counted from Monday.
pub fn weekday_number(w: Weekday) -> (r: u8)
    ensures
        r == weekday_index(w),
{
    match w {
        Weekday::Mon => 0,
        Weekday::Tue => 1,
        Weekday::Wed => 2,
        Weekday::Thu => 3,
        Weekday::Fri => 4,
        Weekday::Sat => 5,
        Weekday::Sun => 6,
    }
}

impl Clone for DaySelection {
    fn clone(&self) -> (r: Self)
        ensures
            r.same_as(*self),
    {
        match self {
            DaySelection::Days(days) => {
                let d = days.clone();
                assert(d@ =~= days@);
                DaySelection::Days(d)
            },
            DaySelection::Mon2Fri => DaySelection::Mon2Fri,
            DaySelection::All => DaySelection::All,
        }
    }
}

/// Days and hours during which a process is active.
#[derive(Debug)]
pub struct Schedule {
    pub week_days: DaySelection,
    pub start_time: TimeOfDay,
    pub stop_time: TimeOfDay,
}

impl Schedule {
    /// Two schedules hold the same days and hours.
    pub open spec fn same_as(&self, other: Schedule) -> bool {
        self.week_days.same_as(other.week_days) && self.start_time == other.start_time
            && self.stop_time == other.stop_time
    }
}

impl Clone for Schedule {
    fn clone(&self) -> (r: Self)
        ensures
            r.same_as(*self),
    {
        Schedule {
            week_days: self.week_days.clone(),
            start_time: self.start_time,
            stop_time: self.stop_time,
        }
    }
}

/// The configuration of one watched process.
#[derive(Debug)]
pub struct ProcessConfig {
    pub id: ProcessId,
    pub command: Command,
    /// Date from which this configuration applies.
    pub apply_on: Timestamp,
    pub work_dir: Option<String>,
    /// Run once the process is launched; the process is running once it succeeds.
    pub init: Option<CommandInit>,
    /// Run before the process is launched; the process is launched only if it succeeds.
    pub before: Option<CommandBefore>,
    /// Run to stop the process; without it a `SIGTERM` is sent, and a `SIGKILL` after retries.
    pub stop: Option<CommandStop>,
    /// Checks the process in place of looking for its pid.
    pub health_check: Option<CheckHealth>,
    pub schedule: Option<Schedule>,
    pub one_shot: bool,
    pub depends_on: Vec<ProcessId>,
    pub fake: bool,
}

/// The id of a configuration, as text.
pub open spec fn pid_of(p: ProcessConfig) -> Seq<char> {
    p.id.0@
}

impl ProcessConfig {
    /// The schedule's times are times a clock can show.
    pub open spec fn wf(&self) -> bool {
        match self.schedule {
            Some(s) => tod_valid(s.start_time) && tod_valid(s.stop_time),
            None => true,
        }
    }

    /// Two configurations hold the same values.
    pub open spec fn same_as(&self, other: ProcessConfig) -> bool {
        &&& self.id == other.id
        &&& self.command == other.command
        &&& self.apply_on == other.apply_on
        &&& self.work_dir == other.work_dir
        &&& self.init == other.init
        &&& self.before == other.before
        &&& self.stop == other.stop
        &&& self.health_check == other.health_check
        &&& match (self.schedule, other.schedule) {
            (Some(a), Some(b)) => a.same_as(b),
            (None, None) => true,
            _ => false,
        }
        &&& self.one_shot == other.one_shot
        &&& self.depends_on@ == other.depends_on@
        &&& self.fake == other.fake
    }

    /// The configuration is accepted: a non-empty command, and a schedule
    /// whose start is before its stop.
    pub open spec fn valid(&self) -> bool {
        self.command.line().len() > 0 && match self.schedule {
            Some(s) => tod_lt(s.start_time, s.stop_time),
            None => true,
        }
    }

    /// The message of the refusal of a configuration that is not valid.
    pub open spec fn refusal(&self) -> Seq<char> {
        if self.command.line().len() == 0 {
            "Command cannot be empty"@
        } else {
            range_refusal(self.schedule->0.start_time, self.schedule->0.stop_time)
        }
    }

    /// Checks that the command is not empty and that the schedule is a valid range.
    pub fn check_config(&self) -> (r: Result<(), ConfigError>)
        requires
            self.wf(),
        ensures
            r is Ok <==> self.valid(),
            r matches Err(e) ==> e.0@ == self.refusal(),
    {
        if self.command.str().is_empty() {
            return Err(ConfigError(String::from_str("Command cannot be empty")));
        }
        is_valid_start_stop(self)
    }
}

impl Clone for ProcessConfig {
    fn clone(&self) -> (r: Self)
        ensures
            r.same_as(*self),
    {
        let depends_on = self.depends_on.clone();
        assert(depends_on@ =~= self.depends_on@);
        let schedule = match &self.schedule {
            Some(s) => Some(s.clone()),
            None => None,
        };
        ProcessConfig {
            id: self.id.clone(),
            command: self.command.clone(),
            apply_on: self.apply_on,
            work_dir: self.work_dir.clone(),
            init: self.init.clone(),
            before: self.before.clone(),
            stop: self.stop.clone(),
            health_check: self.health_check.clone(),
            schedule,
            one_shot: self.one_shot,
            depends_on,
            fake: self.fake,
        }
    }
}

/// A refused configuration, with the reason.
#[derive(Debug)]
pub struct ConfigError(pub String);

/// A configuration file: its unique id, its format and its processes.
#[derive(Debug)]
pub struct Config {
    pub uid: ConfigUid,
    pub file_format: String,
    pub process: Vec<ProcessConfig>,
}

/// The decimal digit of value `n`.
pub open spec fn digit_char(n: int) -> char {
    (n + 48) as char
}

/// `n` written with exactly `width` decimal digits (the last `width` ones).
pub open spec fn padded(n: int, width: nat) -> Seq<char>
    decreases width,
{
    if width == 0 {
        Seq::empty()
    } else {
        padded(n / 10, (width - 1) as nat).push(digit_char(n % 10))
    }
}

/// The fraction of a second as chrono writes it: nothing, or a dot and 3, 6
/// or 9 digits, the fewest that hold it exactly.
pub open spec fn fraction_text(nano: int) -> Seq<char> {
    if nano == 0 {
        Seq::empty()
    } else if nano % 1_000_000 == 0 {
        "."@ + padded(nano / 1_000_000, 3)
    } else if nano % 1_000 == 0 {
        "."@ + padded(nano / 1_000, 6)
    } else {
        "."@ + padded(nano, 9)
    }
}

/// How chrono writes a time of day (`NaiveTime`'s `Display`): `HH:MM:SS`
/// and the fraction, a leap second counting as second 60.
pub open spec fn naive_time_text(secs: u32, nanos: u32) -> Seq<char> {
    let leap = nanos >= 1_000_000_000;
    let nano: int = if leap { nanos - 1_000_000_000 } else { nanos as int };
    let sec: int = if leap { secs % 60 + 1 } else { (secs % 60) as int };
    padded((secs / 3600) as int, 2) + ":"@ + padded((secs / 60 % 60) as int, 2) + ":"@ + padded(sec, 2)
        + fraction_text(nano)
}

/// `chrono::NaiveTime::from_num_seconds_from_midnight_opt` then its
/// `Display`: the claim is the text `naive_time_text` describes, as chrono's
/// `Debug` for `NaiveTime` writes it.
#[verifier::external_body]
fn time_of_day_text(t: TimeOfDay) -> (r: String)
    requires
        tod_valid(t),
    ensures
        r@ == naive_time_text(t.secs, t.nanos),
{
    chrono::NaiveTime::from_num_seconds_from_midnight_opt(t.secs, t.nanos).unwrap().to_string()
}

/// The refusal of a schedule whose start is not before its stop.
pub open spec fn range_refusal(start: TimeOfDay, stop: TimeOfDay) -> Seq<char> {
    "Invalid time range: start_time ("@ + naive_time_text(start.secs, start.nanos)
        + ") is not before stop_time ("@ + naive_time_text(stop.secs, stop.nanos) + ")"@
}

/// Checks that a schedule, when there is one, starts before it stops.
pub fn is_valid_start_stop(proc_conf: &ProcessConfig) -> (r: Result<(), ConfigError>)
    requires
        proc_conf.wf(),
    ensures
        r is Ok <==> match proc_conf.schedule {
            Some(s) => tod_lt(s.start_time, s.stop_time),
            None => true,
        },
        r matches Err(e) ==> e.0@ == range_refusal(
            proc_conf.schedule->0.start_time,
            proc_conf.schedule->0.stop_time,
        ),
{
    match &proc_conf.schedule {
        Some(schedule) => {
            if time_of_day_before(schedule.start_time, schedule.stop_time) {
                Ok(())
            } else {
                let mut msg = String::from_str("Invalid time range: start_time (");
                msg.append(time_of_day_text(schedule.start_time).as_str());
                msg.append(") is not before stop_time (");
                msg.append(time_of_day_text(schedule.stop_time).as_str());
                msg.append(")");
                Err(ConfigError(msg))
            }
        },
        None => Ok(()),
    }
}


/// The `k`-th dependency of the `a`-th configuration names no configured process.
pub open spec fn dep_missing(procs: Seq<ProcessConfig>, a: int, k: int) -> bool {
    0 <= a < procs.len() && 0 <= k < procs[a].depends_on@.len() && !has_id(
        procs,
        dep_id(procs, a, k),
    )
}

/// `(a, k)` is the first missing dependency, configurations first, then dependencies.
pub open spec fn first_missing(procs: Seq<ProcessConfig>, a: int, k: int) -> bool {
    dep_missing(procs, a, k) && forall|a2: int, k2: int|
        (a2 < a || (a2 == a && k2 < k)) ==> !#[trigger] dep_missing(procs, a2, k2)
}

/// The refusal of a dependency on a process that is not configured.
pub open spec fn missing_refusal(procs: Seq<ProcessConfig>, a: int, k: int) -> Seq<char> {
    "Process '"@ + pid_of(procs[a]) + "' depends on non-existent process '"@ + dep_id(procs, a, k)
        + "'"@
}

/// `i` is the first configuration that is not valid.
pub open spec fn first_invalid(procs: Seq<ProcessConfig>, i: int) -> bool {
    0 <= i < procs.len() && !procs[i].valid() && forall|j: int|
        0 <= j < i ==> #[trigger] procs[j].valid()
}

/// `i` is the first configuration from which a circular dependency can be reached.
pub open spec fn first_cyclic(procs: Seq<ProcessConfig>, i: int) -> bool {
    0 <= i < procs.len() && cyclic_root(procs, i) && forall|j: int|
        0 <= j < i ==> !#[trigger] cyclic_root(procs, j)
}

impl Config {
    /// Every schedule holds times a clock can show.
    pub open spec fn wf(&self) -> bool {
        forall|i: int| 0 <= i < self.process@.len() ==> #[trigger] self.process@[i].wf()
    }

    /// The configuration passes every check.
    pub open spec fn accepted(&self) -> bool {
        let procs = self.process@;
        &&& self.uid.0@.len() > 0
        &&& procs.len() > 0
        &&& forall|i: int| 0 <= i < procs.len() ==> #[trigger] procs[i].valid()
        &&& deps_all_exist(procs)
        &&& forall|i: int| 0 <= i < procs.len() ==> !#[trigger] cyclic_root(procs, i)
    }

    /// Why the configuration is refused: the first check that fails, in the
    /// order uid, process list, each process, dependencies, circular dependencies.
    pub open spec fn refusal(&self) -> Seq<char> {
        let procs = self.process@;
        if self.uid.0@.len() == 0 {
            "UID cannot be empty"@
        } else if procs.len() == 0 {
            "Process list cannot be empty"@
        } else if exists|i: int| first_invalid(procs, i) {
            procs[choose|i: int| first_invalid(procs, i)].refusal()
        } else if exists|a: int, k: int| first_missing(procs, a, k) {
            let (a, k) = choose|a: int, k: int| first_missing(procs, a, k);
            missing_refusal(procs, a, k)
        } else {
            cycle_refusal(pid_of(procs[choose|i: int| first_cyclic(procs, i)]))
        }
    }

    /// Checks the configuration and hands it back when it is accepted.
    pub fn check(self) -> (r: Result<Self, ConfigError>)
        requires
            self.wf(),
        ensures
            r is Ok <==> self.accepted(),
            r matches Ok(c) ==> c == self,
            r matches Err(e) ==> e.0@ == self.refusal(),
    {
        check(self)
    }
}

/// Checks that every dependency names a configured process; the refusal names
/// the first dependency that does not.
pub fn depends_exists(cfg: &Config) -> (r: Result<(), ConfigError>)
    ensures
        r is Ok <==> deps_all_exist(cfg.process@),
        r matches Err(e) ==> exists|a: int, k: int|
            first_missing(cfg.process@, a, k) && e.0@ == missing_refusal(cfg.process@, a, k),
{
    let procs = &cfg.process;
    let mut a: usize = 0;
    while a < procs.len()
        invariant
            procs == &cfg.process,
            a <= procs.len(),
            forall|a2: int, k2: int| 0 <= a2 < a ==> !#[trigger] dep_missing(procs@, a2, k2),
        decreases procs.len() - a,
    {
        let deps = &procs[a].depends_on;
        let mut k: usize = 0;
        while k < deps.len()
            invariant
                procs == &cfg.process,
                a < procs.len(),
                deps == &procs@[a as int].depends_on,
                k <= deps.len(),
                forall|a2: int, k2: int| 0 <= a2 < a ==> !#[trigger] dep_missing(procs@, a2, k2),
                forall|k2: int| 0 <= k2 < k ==> !#[trigger] dep_missing(procs@, a as int, k2),
            decreases deps.len() - k,
        {
            if last_with_id(procs, &deps[k].0).is_none() {
                let mut msg = String::from_str("Process '");
                msg.append(procs[a].id.0.as_str());
                msg.append("' depends on non-existent process '");
                msg.append(deps[k].0.as_str());
                msg.append("'");
                assert(dep_missing(procs@, a as int, k as int));
                assert(first_missing(procs@, a as int, k as int));
                return Err(ConfigError(msg));
            }
            k = k + 1;
        }
        assert forall|a2: int, k2: int| 0 <= a2 < a + 1 implies !#[trigger] dep_missing(
            procs@,
            a2,
            k2,
        ) by {
            if a2 == a && 0 <= k2 < deps@.len() {
                assert(!dep_missing(procs@, a as int, k2));
            }
        }
        a = a + 1;
    }
    assert forall|a2: int, k2: int|
        0 <= a2 < procs@.len() && 0 <= k2 < procs@[a2].depends_on@.len() implies has_id(
        procs@,
        #[trigger] dep_id(procs@, a2, k2),
    ) by {
        assert(!dep_missing(procs@, a2, k2));
    }
    Ok(())
}

proof fn lemma_first_invalid_unique(procs: Seq<ProcessConfig>, i: int, j: int)
    requires
        first_invalid(procs, i),
        first_invalid(procs, j),
    ensures
        i == j,
{
    if i < j {
        assert(procs[i].valid());
    } else if j < i {
        assert(procs[j].valid());
    }
}

proof fn lemma_first_missing_unique(procs: Seq<ProcessConfig>, a: int, k: int, a2: int, k2: int)
    requires
        first_missing(procs, a, k),
        first_missing(procs, a2, k2),
    ensures
        a == a2 && k == k2,
{
    if a < a2 || (a == a2 && k < k2) {
        assert(!dep_missing(procs, a, k));
    } else if a2 < a || (a2 == a && k2 < k) {
        assert(!dep_missing(procs, a2, k2));
    }
}

proof fn lemma_first_cyclic_unique(procs: Seq<ProcessConfig>, i: int, j: int)
    requires
        first_cyclic(procs, i),
        first_cyclic(procs, j),
    ensures
        i == j,
{
    if i < j {
        assert(!cyclic_root(procs, i));
    } else if j < i {
        assert(!cyclic_root(procs, j));
    }
}

/// Checks a configuration: a non-empty uid, at least one process, every
/// process valid, every dependency configured and no circular dependency.
pub fn check(cfg: Config) -> (r: Result<Config, ConfigError>)
    requires
        cfg.wf(),
    ensures
        r is Ok <==> cfg.accepted(),
        r matches Ok(c) ==> c == cfg,
        r matches Err(e) ==> e.0@ == cfg.refusal(),
{
    if cfg.uid.0.as_str().is_empty() {
        return Err(ConfigError(String::from_str("UID cannot be empty")));
    }
    if cfg.process.len() == 0 {
        return Err(ConfigError(String::from_str("Process list cannot be empty")));
    }
    let mut i: usize = 0;
    while i < cfg.process.len()
        invariant
            cfg.wf(),
            cfg.uid.0@.len() > 0,
            cfg.process@.len() > 0,
            i <= cfg.process.len(),
            forall|j: int| 0 <= j < i ==> #[trigger] cfg.process@[j].valid(),
        decreases cfg.process.len() - i,
    {
        match cfg.process[i].check_config() {
            Ok(()) => {},
            Err(e) => {
                proof {
                    assert(first_invalid(cfg.process@, i as int));
                    let c = choose|c: int| first_invalid(cfg.process@, c);
                    lemma_first_invalid_unique(cfg.process@, i as int, c);
                    assert(cfg.uid.0@.len() > 0);
                    assert(e.0@ == cfg.process@[i as int].refusal());
                    assert(cfg.refusal() == cfg.process@[c].refusal());
                }
                return Err(e);
            },
        }
        i = i + 1;
    }
    assert(!exists|c: int| first_invalid(cfg.process@, c));
    match depends_exists(&cfg) {
        Ok(()) => {},
        Err(e) => {
            proof {
                let (a, k) = choose|a: int, k: int|
                    first_missing(cfg.process@, a, k) && e.0@ == missing_refusal(cfg.process@, a, k);
                let (a2, k2) = choose|a2: int, k2: int| first_missing(cfg.process@, a2, k2);
                lemma_first_missing_unique(cfg.process@, a, k, a2, k2);
            }
            return Err(e);
        },
    }
    assert(!exists|a: int, k: int| first_missing(cfg.process@, a, k)) by {
        if exists|a: int, k: int| first_missing(cfg.process@, a, k) {
            let (a, k) = choose|a: int, k: int| first_missing(cfg.process@, a, k);
            assert(dep_missing(cfg.process@, a, k));
        }
    }
    match circular_refs(&cfg.process) {
        Ok(()) => Ok(cfg),
        Err(e) => {
            proof {
                let i = choose|i: int|
                    0 <= i < cfg.process@.len() && #[trigger] cyclic_root(cfg.process@, i) && (forall|j: int|
                        0 <= j < i ==> !#[trigger] cyclic_root(cfg.process@, j)) && e@ == cycle_refusal(
                        pid_of(cfg.process@[i]),
                    );
                assert(first_cyclic(cfg.process@, i));
                let c = choose|c: int| first_cyclic(cfg.process@, c);
                lemma_first_cyclic_unique(cfg.process@, i, c);
            }
            Err(ConfigError(e))
        },
    }
}


/// The configuration applies at `now`: it is not fake, its `apply_on` has
/// come, and `now` falls on a selected day between the schedule's start
/// (included) and stop (excluded).
pub open spec fn active_at(p: ProcessConfig, now: Timestamp) -> bool {
    &&& !p.fake
    &&& !ts_lt(now, p.apply_on)
    &&& match p.schedule {
        Some(s) => {
            &&& s.week_days.selects(weekday_at(weekday_of(now)))
            &&& !tod_lt(time_of_day_of(now), s.start_time)
            &&& tod_lt(time_of_day_of(now), s.stop_time)
        },
        None => true,
    }
}

/// Among the first `n` configurations, the `j`-th is the one kept for its id:
/// active, with the most recent `apply_on`, the first such.
pub open spec fn chosen_upto(procs: Seq<ProcessConfig>, now: Timestamp, n: int, j: int) -> bool {
    &&& 0 <= j < n <= procs.len()
    &&& active_at(procs[j], now)
    &&& forall|i: int|
        0 <= i < n && active_at(#[trigger] procs[i], now) && pid_of(procs[i]) == pid_of(procs[j])
            ==> !ts_lt(procs[j].apply_on, procs[i].apply_on)
    &&& forall|i: int|
        0 <= i < j && active_at(#[trigger] procs[i], now) && pid_of(procs[i]) == pid_of(procs[j])
            ==> ts_lt(procs[i].apply_on, procs[j].apply_on)
}

/// The `j`-th configuration is the one kept for its id.
pub open spec fn chosen(procs: Seq<ProcessConfig>, now: Timestamp, j: int) -> bool {
    chosen_upto(procs, now, procs.len() as int, j)
}

/// No two configurations share an id.
pub open spec fn unique_ids(procs: Seq<ProcessConfig>) -> bool {
    forall|a: int, b: int|
        0 <= a < b < procs.len() ==> pid_of(#[trigger] procs[a]) != pid_of(#[trigger] procs[b])
}

/// `c` holds the values of a configuration kept among the first `n`.
pub open spec fn kept_entry(procs: Seq<ProcessConfig>, now: Timestamp, n: int, c: ProcessConfig) -> bool {
    exists|j: int| #[trigger] chosen_upto(procs, now, n, j) && c.same_as(procs[j])
}

/// Some configuration of `result` has the id `x`.
pub open spec fn has_entry_for(result: Seq<ProcessConfig>, x: Seq<char>) -> bool {
    exists|r: int| 0 <= r < result.len() && pid_of(#[trigger] result[r]) == x
}

/// `result` holds one configuration per id kept among the first `n`.
pub open spec fn keeps_chosen(
    procs: Seq<ProcessConfig>,
    now: Timestamp,
    n: int,
    result: Seq<ProcessConfig>,
) -> bool {
    &&& unique_ids(result)
    &&& forall|r: int| 0 <= r < result.len() ==> #[trigger] kept_entry(procs, now, n, result[r])
    &&& forall|j: int| #[trigger] chosen_upto(procs, now, n, j) ==> has_entry_for(result, pid_of(procs[j]))
}

/// The processes active by configuration at a time: one per id.
#[derive(Debug)]
pub struct ActiveProcessByConfig(pub Vec<ProcessConfig>);

/// Position in `v` of the configuration with id `x`, if any.
fn position_of_id(v: &Vec<ProcessConfig>, x: &String) -> (r: Option<usize>)
    ensures
        r matches Some(k) ==> k < v.len() && pid_of(v@[k as int]) == x@,
        r is None ==> forall|k: int| 0 <= k < v.len() ==> pid_of(#[trigger] v@[k]) != x@,
{
    let mut k: usize = 0;
    while k < v.len()
        invariant
            k <= v.len(),
            forall|m: int| 0 <= m < k ==> pid_of(#[trigger] v@[m]) != x@,
        decreases v.len() - k,
    {
        if v[k].id.0 == *x {
            return Some(k);
        }
        k = k + 1;
    }
    None
}

/// Whether a configuration applies at `now`.
pub fn is_active_at(p: &ProcessConfig, now: Timestamp) -> (r: bool)
    ensures
        r == active_at(*p, now),
{
    if p.fake || timestamp_before(now, p.apply_on) {
        return false;
    }
    match &p.schedule {
        Some(schedule) => {
            let day = weekday(now);
            let time = time_of_day(now);
            schedule.week_days.matches(day) && !time_of_day_before(time, schedule.start_time)
                && time_of_day_before(time, schedule.stop_time)
        },
        None => true,
    }
}

/// The configurations that apply at `now`, one per id: the one with the most
/// recent `apply_on`, the first such when several share it.
pub fn get_active_procs_by_config(config: &Config, now: Timestamp) -> (r: ActiveProcessByConfig)
    ensures
        keeps_chosen(config.process@, now, config.process@.len() as int, r.0@),
{
    let procs = &config.process;
    let mut result: Vec<ProcessConfig> = Vec::new();
    let mut i: usize = 0;
    while i < procs.len()
        invariant
            procs == &config.process,
            i <= procs.len(),
            keeps_chosen(procs@, now, i as int, result@),
        decreases procs.len() - i,
    {
        let p = &procs[i];
        let ghost ps = procs@;
        let ghost old_result = result@;
        if is_active_at(p, now) {
            match position_of_id(&result, &p.id.0) {
                None => {
                    let c = p.clone();
                    result.push(c);
                    proof {
                        lemma_new_id_keeps(ps, now, i as int, old_result, result@);
                    }
                },
                Some(k) => {
                    assert(kept_entry(ps, now, i as int, old_result[k as int]));
                    let ghost j0 = choose|j: int|
                        #[trigger] chosen_upto(ps, now, i as int, j) && old_result[k as int].same_as(
                            ps[j],
                        );
                    if timestamp_before(result[k].apply_on, p.apply_on) {
                        let c = p.clone();
                        result.set(k, c);
                        proof {
                            lemma_replace_keeps(ps, now, i as int, j0, k as int, old_result, result@);
                        }
                    } else {
                        proof {
                            lemma_keep_keeps(ps, now, i as int, j0, k as int, old_result);
                        }
                    }
                },
            }
        } else {
            proof {
                lemma_inactive_keeps(ps, now, i as int, result@);
            }
        }
        i = i + 1;
    }
    ActiveProcessByConfig(result)
}

/// An active configuration with an id not kept yet is kept.
proof fn lemma_new_id_keeps(
    ps: Seq<ProcessConfig>,
    now: Timestamp,
    i: int,
    old_result: Seq<ProcessConfig>,
    result: Seq<ProcessConfig>,
)
    requires
        0 <= i < ps.len(),
        active_at(ps[i], now),
        keeps_chosen(ps, now, i, old_result),
        forall|k: int| 0 <= k < old_result.len() ==> pid_of(#[trigger] old_result[k]) != pid_of(ps[i]),
        result.len() == old_result.len() + 1,
        forall|k: int| 0 <= k < old_result.len() ==> result[k] == old_result[k],
        result[old_result.len() as int].same_as(ps[i]),
    ensures
        keeps_chosen(ps, now, i + 1, result),
{
    assert forall|j: int| #[trigger] chosen_upto(ps, now, i, j) implies pid_of(ps[j]) != pid_of(ps[i]) by {
        assert(has_entry_for(old_result, pid_of(ps[j])));
        let r = choose|r: int| 0 <= r < old_result.len() && pid_of(#[trigger] old_result[r]) == pid_of(ps[j]);
        assert(pid_of(old_result[r]) != pid_of(ps[i]));
    }
    assert forall|a: int, b: int| 0 <= a < b < result.len() implies pid_of(#[trigger] result[a]) != pid_of(
        #[trigger] result[b],
    ) by {
        if b == result.len() - 1 {
            assert(pid_of(old_result[a]) != pid_of(ps[i]));
        } else {
            assert(result[a] == old_result[a] && result[b] == old_result[b]);
        }
    }
    assert(chosen_upto(ps, now, i + 1, i)) by {
        assert forall|m: int|
            0 <= m < i && active_at(#[trigger] ps[m], now) && pid_of(ps[m]) == pid_of(ps[i]) implies false by {
            lemma_some_chosen(ps, now, i, m);
        }
    }
    assert forall|r: int| 0 <= r < result.len() implies #[trigger] kept_entry(ps, now, i + 1, result[r]) by {
        if r == result.len() - 1 {
            assert(chosen_upto(ps, now, i + 1, i) && result[r].same_as(ps[i]));
        } else {
            assert(result[r] == old_result[r]);
            assert(kept_entry(ps, now, i, old_result[r]));
            let j = choose|j: int| #[trigger] chosen_upto(ps, now, i, j) && old_result[r].same_as(ps[j]);
            assert(chosen_upto(ps, now, i + 1, j));
        }
    }
    assert forall|j: int| #[trigger] chosen_upto(ps, now, i + 1, j) implies has_entry_for(result, pid_of(ps[j])) by {
        if j == i {
            assert(pid_of(result[result.len() - 1]) == pid_of(ps[j]));
        } else {
            assert(chosen_upto(ps, now, i, j));
            assert(has_entry_for(old_result, pid_of(ps[j])));
            let r = choose|r: int| 0 <= r < old_result.len() && pid_of(#[trigger] old_result[r]) == pid_of(ps[j]);
            assert(result[r] == old_result[r]);
        }
    }
}

/// An active configuration among the first `n` has a kept one with its id.
proof fn lemma_some_chosen(procs: Seq<ProcessConfig>, now: Timestamp, n: int, m: int)
    requires
        0 <= m < n <= procs.len(),
        active_at(procs[m], now),
    ensures
        exists|j: int| chosen_upto(procs, now, n, j) && pid_of(procs[j]) == pid_of(procs[m]),
    decreases n - m,
{
    let better = exists|i: int|
        0 <= i < n && active_at(#[trigger] procs[i], now) && pid_of(procs[i]) == pid_of(procs[m])
            && ts_lt(procs[m].apply_on, procs[i].apply_on);
    let earlier = exists|i: int|
        0 <= i < m && active_at(#[trigger] procs[i], now) && pid_of(procs[i]) == pid_of(procs[m])
            && !ts_lt(procs[i].apply_on, procs[m].apply_on);
    if better {
        let i = choose|i: int|
            0 <= i < n && active_at(#[trigger] procs[i], now) && pid_of(procs[i]) == pid_of(procs[m])
                && ts_lt(procs[m].apply_on, procs[i].apply_on);
        lemma_some_chosen_from(procs, now, n, i, m);
    } else if earlier {
        let i = choose|i: int|
            0 <= i < m && active_at(#[trigger] procs[i], now) && pid_of(procs[i]) == pid_of(procs[m])
                && !ts_lt(procs[i].apply_on, procs[m].apply_on);
        lemma_some_chosen_from(procs, now, n, i, m);
    } else {
        assert(chosen_upto(procs, now, n, m));
    }
}

/// Helper of `lemma_some_chosen`: from a configuration at least as recent as the
/// `m`-th, by induction on a measure that combines recency and position.
proof fn lemma_some_chosen_from(procs: Seq<ProcessConfig>, now: Timestamp, n: int, i: int, m: int)
    requires
        0 <= m < n <= procs.len(),
        0 <= i < n,
        active_at(procs[i], now),
        pid_of(procs[i]) == pid_of(procs[m]),
    ensures
        exists|j: int| chosen_upto(procs, now, n, j) && pid_of(procs[j]) == pid_of(procs[m]),
    decreases rank_below(procs, now, n, i), i,
{
    let better = exists|k: int|
        0 <= k < n && active_at(#[trigger] procs[k], now) && pid_of(procs[k]) == pid_of(procs[m])
            && ts_lt(procs[i].apply_on, procs[k].apply_on);
    let earlier = exists|k: int|
        0 <= k < i && active_at(#[trigger] procs[k], now) && pid_of(procs[k]) == pid_of(procs[m])
            && !ts_lt(procs[k].apply_on, procs[i].apply_on);
    if better {
        let k = choose|k: int|
            0 <= k < n && active_at(#[trigger] procs[k], now) && pid_of(procs[k]) == pid_of(procs[m])
                && ts_lt(procs[i].apply_on, procs[k].apply_on);
        lemma_rank_below_decreases(procs, now, n, i, k);
        lemma_some_chosen_from(procs, now, n, k, m);
    } else if earlier {
        let k = choose|k: int|
            0 <= k < i && active_at(#[trigger] procs[k], now) && pid_of(procs[k]) == pid_of(procs[m])
                && !ts_lt(procs[k].apply_on, procs[i].apply_on);
        lemma_rank_below_equal(procs, now, n, i, k);
        lemma_some_chosen_from(procs, now, n, k, m);
    } else {
        assert(chosen_upto(procs, now, n, i));
    }
}

/// Number of configurations among the first `n` strictly more recent than the `i`-th.
pub open spec fn rank_below(procs: Seq<ProcessConfig>, now: Timestamp, n: int, i: int) -> nat {
    count_more_recent(procs, n, procs[i].apply_on)
}

/// Number of configurations among the first `n` more recent than `t`.
pub open spec fn count_more_recent(procs: Seq<ProcessConfig>, n: int, t: Timestamp) -> nat
    decreases n,
{
    if n <= 0 {
        0
    } else {
        count_more_recent(procs, n - 1, t) + if ts_lt(t, procs[n - 1].apply_on) {
            1nat
        } else {
            0nat
        }
    }
}

proof fn lemma_count_more_recent_mono(procs: Seq<ProcessConfig>, n: int, t: Timestamp, u: Timestamp)
    requires
        !ts_lt(t, u),
    ensures
        count_more_recent(procs, n, t) <= count_more_recent(procs, n, u),
    decreases n,
{
    if n > 0 {
        lemma_count_more_recent_mono(procs, n - 1, t, u);
    }
}

proof fn lemma_count_more_recent_strict(
    procs: Seq<ProcessConfig>,
    n: int,
    t: Timestamp,
    u: Timestamp,
    k: int,
)
    requires
        ts_lt(u, t),
        0 <= k < n <= procs.len(),
        procs[k].apply_on == t,
    ensures
        count_more_recent(procs, n, t) < count_more_recent(procs, n, u),
    decreases n,
{
    if n - 1 == k {
        lemma_count_more_recent_mono(procs, n - 1, t, u);
    } else {
        lemma_count_more_recent_strict(procs, n - 1, t, u, k);
    }
}

proof fn lemma_rank_below_decreases(procs: Seq<ProcessConfig>, now: Timestamp, n: int, i: int, k: int)
    requires
        0 <= i < n <= procs.len(),
        0 <= k < n,
        ts_lt(procs[i].apply_on, procs[k].apply_on),
    ensures
        rank_below(procs, now, n, k) < rank_below(procs, now, n, i),
{
    lemma_count_more_recent_strict(procs, n, procs[k].apply_on, procs[i].apply_on, k);
}

proof fn lemma_rank_below_equal(procs: Seq<ProcessConfig>, now: Timestamp, n: int, i: int, k: int)
    requires
        0 <= i < n <= procs.len(),
        0 <= k < n,
        !ts_lt(procs[k].apply_on, procs[i].apply_on),
    ensures
        rank_below(procs, now, n, k) <= rank_below(procs, now, n, i),
{
    lemma_count_more_recent_mono(procs, n, procs[k].apply_on, procs[i].apply_on);
}

/// An inactive configuration changes nothing of what is kept.
proof fn lemma_inactive_keeps(
    procs: Seq<ProcessConfig>,
    now: Timestamp,
    i: int,
    result: Seq<ProcessConfig>,
)
    requires
        0 <= i < procs.len(),
        !active_at(procs[i], now),
        keeps_chosen(procs, now, i, result),
    ensures
        keeps_chosen(procs, now, i + 1, result),
{
    assert forall|r: int| 0 <= r < result.len() implies #[trigger] kept_entry(procs, now, i + 1, result[r]) by {
        assert(kept_entry(procs, now, i, result[r]));
            let j = choose|j: int| #[trigger] chosen_upto(procs, now, i, j) && result[r].same_as(procs[j]);
        assert(chosen_upto(procs, now, i + 1, j));
    }
    assert forall|j: int| #[trigger] chosen_upto(procs, now, i + 1, j) implies has_entry_for(result, pid_of(procs[j])) by {
        assert(j != i);
        assert(chosen_upto(procs, now, i, j));
    }
    assert(unique_ids(result));
}

/// A configuration no more recent than the kept one of its id changes nothing.
proof fn lemma_keep_keeps(
    procs: Seq<ProcessConfig>,
    now: Timestamp,
    i: int,
    j0: int,
    k: int,
    result: Seq<ProcessConfig>,
)
    requires
        0 <= i < procs.len(),
        active_at(procs[i], now),
        keeps_chosen(procs, now, i, result),
        0 <= k < result.len(),
        pid_of(result[k]) == pid_of(procs[i]),
        chosen_upto(procs, now, i, j0),
        result[k].same_as(procs[j0]),
        !ts_lt(result[k].apply_on, procs[i].apply_on),
    ensures
        keeps_chosen(procs, now, i + 1, result),
{
    assert forall|r: int| 0 <= r < result.len() implies #[trigger] kept_entry(procs, now, i + 1, result[r]) by {
        assert(kept_entry(procs, now, i, result[r]));
            let j = choose|j: int| #[trigger] chosen_upto(procs, now, i, j) && result[r].same_as(procs[j]);
        if pid_of(procs[j]) == pid_of(procs[i]) {
            lemma_chosen_unique(procs, now, i, j, j0);
        }
        assert(chosen_upto(procs, now, i + 1, j));
    }
    assert forall|j: int| #[trigger] chosen_upto(procs, now, i + 1, j) implies has_entry_for(result, pid_of(procs[j])) by {
        if j == i {
            assert(!ts_lt(procs[j0].apply_on, procs[i].apply_on));
            assert(ts_lt(procs[j0].apply_on, procs[i].apply_on));
        }
        assert(chosen_upto(procs, now, i, j));
    }
}

/// The `i`-th configuration, more recent than the kept `j0`-th of its id, is kept among the first `i + 1`.
proof fn lemma_newest_chosen(procs: Seq<ProcessConfig>, now: Timestamp, i: int, j0: int)
    requires
        0 <= i < procs.len(),
        active_at(procs[i], now),
        chosen_upto(procs, now, i, j0),
        pid_of(procs[j0]) == pid_of(procs[i]),
        ts_lt(procs[j0].apply_on, procs[i].apply_on),
    ensures
        chosen_upto(procs, now, i + 1, i),
{
    assert forall|m: int|
        0 <= m < i && active_at(#[trigger] procs[m], now) && pid_of(procs[m]) == pid_of(procs[i])
            implies ts_lt(procs[m].apply_on, procs[i].apply_on) by {
        assert(!ts_lt(procs[j0].apply_on, procs[m].apply_on));
    }
}

/// Once the `i`-th replaces the kept one of its id, the others kept are those kept before.
proof fn lemma_others_chosen(procs: Seq<ProcessConfig>, now: Timestamp, i: int, j0: int, j: int)
    requires
        0 <= i < procs.len(),
        active_at(procs[i], now),
        chosen_upto(procs, now, i, j0),
        pid_of(procs[j0]) == pid_of(procs[i]),
        ts_lt(procs[j0].apply_on, procs[i].apply_on),
        chosen_upto(procs, now, i + 1, j),
        j != i,
    ensures
        chosen_upto(procs, now, i, j),
        pid_of(procs[j]) != pid_of(procs[i]),
{
    assert(chosen_upto(procs, now, i, j));
    if pid_of(procs[j]) == pid_of(procs[i]) {
        lemma_chosen_unique(procs, now, i, j, j0);
        assert(!ts_lt(procs[j].apply_on, procs[i].apply_on));
    }
}

/// A configuration more recent than the kept one of its id replaces it.
#[verifier::rlimit(30)]
proof fn lemma_replace_keeps(
    procs: Seq<ProcessConfig>,
    now: Timestamp,
    i: int,
    j0: int,
    k: int,
    result: Seq<ProcessConfig>,
    new_result: Seq<ProcessConfig>,
)
    requires
        0 <= i < procs.len(),
        active_at(procs[i], now),
        keeps_chosen(procs, now, i, result),
        0 <= k < result.len(),
        pid_of(result[k]) == pid_of(procs[i]),
        chosen_upto(procs, now, i, j0),
        result[k].same_as(procs[j0]),
        ts_lt(result[k].apply_on, procs[i].apply_on),
        new_result.len() == result.len(),
        new_result[k].same_as(procs[i]),
        forall|r: int| 0 <= r < result.len() && r != k ==> new_result[r] == result[r],
    ensures
        keeps_chosen(procs, now, i + 1, new_result),
{
    lemma_newest_chosen(procs, now, i, j0);
    assert forall|a: int, b: int|
        0 <= a < b < new_result.len() implies pid_of(#[trigger] new_result[a]) != pid_of(
        #[trigger] new_result[b],
    ) by {
        assert(pid_of(result[a]) != pid_of(result[b]));
    }
    assert forall|r: int| 0 <= r < new_result.len() implies #[trigger] kept_entry(procs, now, i + 1, new_result[r]) by {
        if r == k {
            assert(chosen_upto(procs, now, i + 1, i) && new_result[r].same_as(procs[i]));
        } else {
            assert(kept_entry(procs, now, i, result[r]));
            let j = choose|j: int| #[trigger] chosen_upto(procs, now, i, j) && result[r].same_as(procs[j]);
            assert(pid_of(result[r]) != pid_of(result[k]));
            assert(chosen_upto(procs, now, i + 1, j));
        }
    }
    assert forall|j: int| #[trigger] chosen_upto(procs, now, i + 1, j) implies has_entry_for(new_result, pid_of(procs[j])) by {
        if j == i {
            assert(pid_of(new_result[k]) == pid_of(procs[j]));
        } else {
            lemma_others_chosen(procs, now, i, j0, j);
            assert(has_entry_for(result, pid_of(procs[j])));
            let r = choose|r: int| 0 <= r < result.len() && pid_of(#[trigger] result[r]) == pid_of(procs[j]);
            assert(r != k);
            assert(new_result[r] == result[r]);
        }
    }
}

/// Two kept configurations with one id are the same one.
proof fn lemma_chosen_unique(procs: Seq<ProcessConfig>, now: Timestamp, n: int, a: int, b: int)
    requires
        chosen_upto(procs, now, n, a),
        chosen_upto(procs, now, n, b),
        pid_of(procs[a]) == pid_of(procs[b]),
    ensures
        a == b,
{
    if a < b {
        assert(ts_lt(procs[a].apply_on, procs[b].apply_on));
    } else if b < a {
        assert(ts_lt(procs[b].apply_on, procs[a].apply_on));
    }
}

impl Config {
    /// The configurations that apply at `now`, one per id.
    pub fn get_active_procs_by_config(&self, now: Timestamp) -> (r: ActiveProcessByConfig)
        ensures
            keeps_chosen(self.process@, now, self.process@.len() as int, r.0@),
    {
        get_active_procs_by_config(self, now)
    }
}

/// An accepted configuration has no circular dependency: no walk along the
/// dependencies of its processes passes any process twice.
pub proof fn law_accepted_config_is_acyclic(cfg: Config, p: Seq<int>)
    requires
        cfg.accepted(),
        crate::deps::is_walk(cfg.process@, p),
        0 <= p[0] < cfg.process@.len(),
    ensures
        !crate::deps::has_repeat(p),
{
    crate::deps::law_no_walk_repeats(cfg.process@, p);
}

/// A configuration is active only when it is not fake, its `apply_on` has
/// come, and, with a schedule, `now` falls on one of the schedule's days
/// (Monday to Friday for `mon-fri`; Monday is day 0 of the week, 1970-01-01
/// a Thursday) between its start (included) and its stop (excluded).
pub proof fn law_active_needs_day_and_hours(p: ProcessConfig, now: Timestamp)
    requires
        active_at(p, now),
    ensures
        !p.fake,
        !ts_lt(now, p.apply_on),
        p.schedule matches Some(s) ==> {
            let day = (now.secs / 86400 + 3) % 7;
            &&& match s.week_days {
                DaySelection::Mon2Fri => day <= 4,
                DaySelection::Days(ds) => exists|k: int| 0 <= k < ds@.len() && weekday_index(#[trigger] ds@[k]) == day,
                DaySelection::All => true,
            }
            &&& !tod_lt(time_of_day_of(now), s.start_time)
            &&& tod_lt(time_of_day_of(now), s.stop_time)
        },
{
    if let Some(s) = p.schedule {
        let day = (now.secs / 86400 + 3) % 7;
        let w = weekday_at(weekday_of(now));
        assert(weekday_index(w) == day);
        match s.week_days {
            DaySelection::Days(ds) => {
                assert(ds@.contains(w));
                let k = choose|k: int| 0 <= k < ds@.len() && ds@[k] == w;
                assert(weekday_index(ds@[k]) == day);
            },
            _ => {},
        }
    }
}

/// A configuration is active whenever it is not fake, its `apply_on` has
/// come and, with a schedule, `now` falls on one of the schedule's days
/// between its start (included) and its stop (excluded): nothing else can
/// keep it out.
pub proof fn law_active_when_day_and_hours(p: ProcessConfig, now: Timestamp)
    requires
        !p.fake,
        !ts_lt(now, p.apply_on),
        p.schedule matches Some(s) ==> {
            let day = (now.secs / 86400 + 3) % 7;
            &&& match s.week_days {
                DaySelection::Mon2Fri => day <= 4,
                DaySelection::Days(ds) => exists|k: int| 0 <= k < ds@.len() && weekday_index(#[trigger] ds@[k]) == day,
                DaySelection::All => true,
            }
            &&& !tod_lt(time_of_day_of(now), s.start_time)
            &&& tod_lt(time_of_day_of(now), s.stop_time)
        },
    ensures
        active_at(p, now),
{
    if let Some(s) = p.schedule {
        let day = (now.secs / 86400 + 3) % 7;
        let w = weekday_at(weekday_of(now));
        assert(weekday_index(w) == day);
        match s.week_days {
            DaySelection::Days(ds) => {
                let k = choose|k: int| 0 <= k < ds@.len() && weekday_index(#[trigger] ds@[k]) == day;
                let d = ds@[k];
                assert(d == w) by {
                    match d {
                        Weekday::Mon => {},
                        Weekday::Tue => {},
                        Weekday::Wed => {},
                        Weekday::Thu => {},
                        Weekday::Fri => {},
                        Weekday::Sat => {},
                        Weekday::Sun => {},
                    }
                }
                assert(ds@.contains(w));
            },
            _ => {},
        }
    }
}

} // verus!

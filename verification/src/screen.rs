//! The decisions of the terminal interface: how keys move the selection of
//! a list, which screen comes next, and what each row of the process table
//! shows.
use crate::config::{pid_of, ProcessConfig};
use crate::order::{key_sorted, sort_by_text, TextKeyed};
use crate::status::ProcessStatus;
use crate::watch::{entry_id, WatchEntry, WatchNow};
use vstd::prelude::*;

verus! {

/// A key as the interface reads it.
pub enum Key {
    Down,
    Up,
    PageDown,
    PageUp,
    Esc,
    Enter,
    /// A character typed alone.
    Char(char),
    /// A character typed with Control held.
    CtrlChar(char),
    Other,
}

/// What the interface does after a key.
pub enum ScreenCommand {
    /// Stay on the current screen.
    Nothing,
    /// Go to the choice of a configuration file.
    ChooseFile,
    /// Open the processes of the chosen configuration file.
    OpenFile(String),
}

/// The rows a page key moves.
pub const PAGE_STEP: usize = 10;

/// The key that ends the interface: `q`, or Control-`c`.
pub open spec fn quits_spec(key: Key) -> bool {
    key == Key::Char('q') || key == Key::CtrlChar('c')
}

/// Whether a key ends the interface.
pub fn quits(key: &Key) -> (r: bool)
    ensures
        r == quits_spec(*key),
{
    match key {
        Key::Char(c) => *c == 'q',
        Key::CtrlChar(c) => *c == 'c',
        _ => false,
    }
}

/// The selection after a key that moves it through a list of `len` rows:
/// down and up wrap around, and select the first row when none is.
pub open spec fn step_selection(selected: Option<usize>, len: int, down: bool) -> Option<usize> {
    match selected {
        Some(s) => if down {
            Some(((s + 1) % len) as usize)
        } else if s == 0 {
            Some((len - 1) as usize)
        } else {
            Some((s - 1) as usize)
        },
        None => Some(0),
    }
}

/// The keys of the process table: moves of the selection, page moves, and
/// `Esc`, which clears the selection or, with none, goes back to the choice
/// of a file.
pub open spec fn processes_key_spec(selected: Option<usize>, len: int, key: Key) -> (Option<usize>, ScreenCommand) {
    match key {
        Key::Down => (step_selection(selected, len, true), ScreenCommand::Nothing),
        Key::Up => (step_selection(selected, len, false), ScreenCommand::Nothing),
        Key::PageDown => {
            let next = PAGE_STEP + match selected {
                Some(s) => s as int,
                None => 0,
            };
            (Some((if next >= len { len - 1 } else { next }) as usize), ScreenCommand::Nothing)
        },
        Key::PageUp => {
            let current = match selected {
                Some(s) => s as int,
                None => 0,
            };
            (Some((if current > PAGE_STEP { current - PAGE_STEP } else { 0 }) as usize), ScreenCommand::Nothing)
        },
        Key::Esc => match selected {
            Some(_) => (None, ScreenCommand::Nothing),
            None => (None, ScreenCommand::ChooseFile),
        },
        _ => (selected, ScreenCommand::Nothing),
    }
}

/// Keys that would divide by, or count down from, an empty table are not
/// handled.
pub open spec fn processes_key_allowed(selected: Option<usize>, len: int, key: Key) -> bool {
    &&& (key is Down || key is Up) && selected is Some ==> len > 0
    &&& key is Down && selected is Some ==> selected->0 < usize::MAX
    &&& key is PageDown ==> len > 0 && match selected {
        Some(s) => s + PAGE_STEP <= usize::MAX,
        None => true,
    }
}

/// The selection and the next screen after a key on the process table.
pub fn processes_key(selected: Option<usize>, len: usize, key: &Key) -> (r: (Option<usize>, ScreenCommand))
    requires
        processes_key_allowed(selected, len as int, *key),
    ensures
        r == processes_key_spec(selected, len as int, *key),
{
    match key {
        Key::Down => (
            match selected {
                Some(s) => Some((s + 1) % len),
                None => Some(0),
            },
            ScreenCommand::Nothing,
        ),
        Key::Up => (
            match selected {
                Some(s) => if s == 0 {
                    Some(len - 1)
                } else {
                    Some(s - 1)
                },
                None => Some(0),
            },
            ScreenCommand::Nothing,
        ),
        Key::PageDown => {
            let current = match selected {
                Some(s) => s,
                None => 0,
            };
            let next = PAGE_STEP + current;
            if next >= len {
                (Some(len - 1), ScreenCommand::Nothing)
            } else {
                (Some(next), ScreenCommand::Nothing)
            }
        },
        Key::PageUp => {
            let current = match selected {
                Some(s) => s,
                None => 0,
            };
            if current > PAGE_STEP {
                (Some(current - PAGE_STEP), ScreenCommand::Nothing)
            } else {
                (Some(0), ScreenCommand::Nothing)
            }
        },
        Key::Esc => match selected {
            Some(_) => (None, ScreenCommand::Nothing),
            None => (None, ScreenCommand::ChooseFile),
        },
        _ => (selected, ScreenCommand::Nothing),
    }
}

/// The keys of the file choice: moves of the selection, and `Enter`, which
/// opens the selected file.
pub open spec fn choose_file_key_spec(selected: Option<usize>, files: Seq<String>, key: Key) -> (
    Option<usize>,
    ScreenCommand,
) {
    match key {
        Key::Down => (step_selection(selected, files.len() as int, true), ScreenCommand::Nothing),
        Key::Up => (step_selection(selected, files.len() as int, false), ScreenCommand::Nothing),
        Key::Enter => match selected {
            Some(s) => (selected, ScreenCommand::OpenFile(files[s as int])),
            None => (selected, ScreenCommand::Nothing),
        },
        _ => (selected, ScreenCommand::Nothing),
    }
}

/// Keys that would divide by an empty list, or open a row past its end, are
/// not handled.
pub open spec fn choose_file_key_allowed(selected: Option<usize>, len: int, key: Key) -> bool {
    &&& (key is Down || key is Up) && selected is Some ==> len > 0
    &&& key is Down && selected is Some ==> selected->0 < usize::MAX
    &&& key is Enter ==> match selected {
        Some(s) => s < len,
        None => true,
    }
}

/// The selection and the next screen after a key on the file choice.
pub fn choose_file_key(selected: Option<usize>, files: &Vec<String>, key: &Key) -> (r: (Option<usize>, ScreenCommand))
    requires
        choose_file_key_allowed(selected, files@.len() as int, *key),
    ensures
        r == choose_file_key_spec(selected, files@, *key),
{
    let len = files.len();
    match key {
        Key::Down => (
            match selected {
                Some(s) => Some((s + 1) % len),
                None => Some(0),
            },
            ScreenCommand::Nothing,
        ),
        Key::Up => (
            match selected {
                Some(s) => if s == 0 {
                    Some(len - 1)
                } else {
                    Some(s - 1)
                },
                None => Some(0),
            },
            ScreenCommand::Nothing,
        ),
        Key::Enter => match selected {
            Some(s) => (selected, ScreenCommand::OpenFile(files[s].clone())),
            None => (selected, ScreenCommand::Nothing),
        },
        _ => (selected, ScreenCommand::Nothing),
    }
}

/// The selection once the list of files is read again: none for an empty
/// list, the first file where none was selected.
pub open spec fn refreshed_selection_spec(selected: Option<usize>, len: int) -> Option<usize> {
    if len == 0 {
        None
    } else if selected is None {
        Some(0)
    } else {
        selected
    }
}

/// The selection once the list of files is read again.
pub fn refreshed_selection(selected: Option<usize>, len: usize) -> (r: Option<usize>)
    ensures
        r == refreshed_selection_spec(selected, len as int),
{
    if len == 0 {
        None
    } else if selected.is_none() {
        Some(0)
    } else {
        selected
    }
}

// ---------------------------------------------------------------------------
// The process table

/// The colour of a status cell.
#[derive(PartialEq, Eq, Structural)]
pub enum CellColor {
    Red,
    Green,
    Yellow,
}

/// The status cell of a row: its text, colour, and whether it is bold or
/// italic.
pub struct StatusCell {
    pub text: String,
    pub color: CellColor,
    pub bold: bool,
    pub italic: bool,
}

/// The text, colour and weight of the status of a process, by whether it is
/// configured and what is recorded of it.
pub open spec fn status_look(configured: bool, status: Option<ProcessStatus>) -> (Seq<char>, CellColor, bool) {
    match status {
        Some(s) => match s {
            ProcessStatus::ShouldBeRunning => ("sould be running"@, CellColor::Red, true),
            ProcessStatus::Running { .. } => if configured {
                ("running"@, CellColor::Green, false)
            } else {
                ("running"@, CellColor::Red, true)
            },
            ProcessStatus::PendingBeforeCmd => ("pend before cmd"@, CellColor::Yellow, false),
            ProcessStatus::PendingInitCmd { .. } => if configured {
                ("pend init cmd"@, CellColor::Yellow, false)
            } else {
                ("pend init cmd"@, CellColor::Red, true)
            },
            ProcessStatus::Stopping { .. } => ("stopping"@, CellColor::Red, true),
            ProcessStatus::Stopped => if configured {
                ("stopped"@, CellColor::Red, true)
            } else {
                ("stopped"@, CellColor::Yellow, false)
            },
            ProcessStatus::WaittingPidFile { .. } => ("waitting pid file"@, CellColor::Red, true),
            ProcessStatus::StoppingWaittingPidFile { .. } => ("stopping waitting pidfile"@, CellColor::Red, true),
            ProcessStatus::TooMuchRuns => ("too much runs"@, CellColor::Red, true),
        },
        None => if configured {
            ("PENDING"@, CellColor::Red, true)
        } else {
            ("INCONSISTENCY"@, CellColor::Red, true)
        },
    }
}

fn cell(text: &str, color: CellColor, bold: bool) -> (r: StatusCell)
    ensures
        r.text@ == text@,
        r.color == color,
        r.bold == bold,
        !r.italic,
{
    StatusCell { text: String::from_str(text), color, bold, italic: false }
}

/// The status cell of a table entry.
pub fn status_cell(e: &WatchEntry) -> (r: StatusCell)
    ensures
        (r.text@, r.color, r.bold) == status_look(
            e.info.process_config is Some,
            match e.info.process_watched {
                Some(w) => Some(w.status),
                None => None,
            },
        ),
        !r.italic,
{
    let configured = e.info.process_config.is_some();
    match &e.info.process_watched {
        Some(w) => match &w.status {
            ProcessStatus::ShouldBeRunning => cell("sould be running", CellColor::Red, true),
            ProcessStatus::Running { .. } => if configured {
                cell("running", CellColor::Green, false)
            } else {
                cell("running", CellColor::Red, true)
            },
            ProcessStatus::PendingBeforeCmd => cell("pend before cmd", CellColor::Yellow, false),
            ProcessStatus::PendingInitCmd { .. } => if configured {
                cell("pend init cmd", CellColor::Yellow, false)
            } else {
                cell("pend init cmd", CellColor::Red, true)
            },
            ProcessStatus::Stopping { .. } => cell("stopping", CellColor::Red, true),
            ProcessStatus::Stopped => if configured {
                cell("stopped", CellColor::Red, true)
            } else {
                cell("stopped", CellColor::Yellow, false)
            },
            ProcessStatus::WaittingPidFile { .. } => cell("waitting pid file", CellColor::Red, true),
            ProcessStatus::StoppingWaittingPidFile { .. } => cell(
                "stopping waitting pidfile",
                CellColor::Red,
                true,
            ),
            ProcessStatus::TooMuchRuns => cell("too much runs", CellColor::Red, true),
        },
        None => if configured {
            cell("PENDING", CellColor::Red, true)
        } else {
            cell("INCONSISTENCY", CellColor::Red, true)
        },
    }
}

/// A row of the process table.
pub struct TableRow {
    pub id: String,
    pub status: StatusCell,
    pub command: String,
}

/// The command column of an entry: its configured command line, or
/// `No command`.
pub open spec fn command_text(e: WatchEntry) -> Seq<char> {
    match e.info.process_config {
        Some(c) => c.command.line(),
        None => "No command"@,
    }
}

/// Some entry of the table has the id `x`.
pub open spec fn watched_id(entries: Seq<WatchEntry>, x: Seq<char>) -> bool {
    exists|i: int| 0 <= i < entries.len() && entry_id(#[trigger] entries[i]) == x
}

/// The configurations, among the first `n`, that have no entry in the table,
/// the first of each id only.
pub open spec fn only_in_config_upto(procs: Seq<ProcessConfig>, entries: Seq<WatchEntry>, n: int) -> Seq<ProcessConfig>
    decreases n,
{
    if n <= 0 || n > procs.len() {
        Seq::empty()
    } else {
        let p = only_in_config_upto(procs, entries, n - 1);
        let c = procs[n - 1];
        if !watched_id(entries, pid_of(c)) && !(exists|k: int| 0 <= k < p.len() && pid_of(#[trigger] p[k]) == pid_of(c)) {
            p.push(c)
        } else {
            p
        }
    }
}

fn watched_has(entries: &Vec<WatchEntry>, x: &String) -> (r: bool)
    ensures
        r == watched_id(entries@, x@),
{
    let mut i: usize = 0;
    while i < entries.len()
        invariant
            i <= entries@.len(),
            forall|k: int| 0 <= k < i ==> entry_id(#[trigger] entries@[k]) != x@,
        decreases entries@.len() - i,
    {
        if entries[i].id.0 == *x {
            proof {
                assert(entry_id(entries@[i as int]) == x@);
            }
            return true;
        }
        i = i + 1;
    }
    false
}

fn config_has(procs: &Vec<ProcessConfig>, x: &String) -> (r: bool)
    ensures
        r == (exists|k: int| 0 <= k < procs@.len() && pid_of(#[trigger] procs@[k]) == x@),
{
    let mut i: usize = 0;
    while i < procs.len()
        invariant
            i <= procs@.len(),
            forall|k: int| 0 <= k < i ==> pid_of(#[trigger] procs@[k]) != x@,
        decreases procs@.len() - i,
    {
        if procs[i].id.0 == *x {
            proof {
                assert(pid_of(procs@[i as int]) == x@);
            }
            return true;
        }
        i = i + 1;
    }
    false
}

impl TextKeyed for ProcessConfig {
    open spec fn key_view(&self) -> Seq<char> {
        self.id.0@
    }

    fn key_text(&self) -> (r: &str) {
        self.id.0.as_str()
    }
}

/// `c` holds the same values as some configuration of `s`.
pub open spec fn like_one_of(c: ProcessConfig, s: Seq<ProcessConfig>) -> bool {
    exists|j: int| 0 <= j < s.len() && c.same_as(#[trigger] s[j])
}

proof fn lemma_same_as_symmetric(a: ProcessConfig, b: ProcessConfig)
    requires
        a.same_as(b),
    ensures
        b.same_as(a),
{
}

/// The configured processes that have no entry in the table, the first of
/// each id only, in the order of their ids.
pub fn get_only_in_config(procs: &Vec<ProcessConfig>, watched: &WatchNow) -> (r: Vec<ProcessConfig>)
    ensures
        key_sorted(r@),
        r@.len() == only_in_config_upto(procs@, watched.processes@, procs@.len() as int).len(),
        forall|k: int|
            0 <= k < r@.len() ==> like_one_of(
                #[trigger] r@[k],
                only_in_config_upto(procs@, watched.processes@, procs@.len() as int),
            ),
        forall|j: int|
            0 <= j < r@.len() ==> like_one_of(
                #[trigger] only_in_config_upto(procs@, watched.processes@, procs@.len() as int)[j],
                r@,
            ),
{
    let ghost es = watched.processes@;
    let mut out: Vec<ProcessConfig> = Vec::new();
    let mut i: usize = 0;
    while i < procs.len()
        invariant
            i <= procs@.len(),
            es == watched.processes@,
            out@.len() == only_in_config_upto(procs@, es, i as int).len(),
            forall|k: int|
                0 <= k < out@.len() ==> (#[trigger] out@[k]).same_as(only_in_config_upto(procs@, es, i as int)[k]),
        decreases procs@.len() - i,
    {
        let ghost p = only_in_config_upto(procs@, es, i as int);
        let c = &procs[i];
        let seen = config_has(&out, &c.id.0);
        proof {
            assert(forall|k: int| 0 <= k < out@.len() ==> pid_of(#[trigger] out@[k]) == pid_of(p[k]));
            if seen {
                let k = choose|k: int| 0 <= k < out@.len() && pid_of(#[trigger] out@[k]) == c.id.0@;
                assert(pid_of(p[k]) == pid_of(*c));
            } else {
                assert forall|k: int| 0 <= k < p.len() implies pid_of(#[trigger] p[k]) != pid_of(*c) by {
                    assert(pid_of(out@[k]) == pid_of(p[k]));
                }
            }
        }
        if !watched_has(&watched.processes, &c.id.0) && !seen {
            let ghost before = out@;
            out.push(c.clone());
            proof {
                assert forall|k: int| 0 <= k < out@.len() implies (#[trigger] out@[k]).same_as(
                    only_in_config_upto(procs@, es, i + 1)[k],
                ) by {
                    if k < before.len() {
                        assert(out@[k] == before[k]);
                    }
                }
            }
        }
        i = i + 1;
    }
    let ghost unsorted = out@;
    let sorted = sort_by_text(out);
    proof {
        let spec_list = only_in_config_upto(procs@, watched.processes@, procs@.len() as int);
        vstd::seq_lib::to_multiset_len(sorted@);
        vstd::seq_lib::to_multiset_len(unsorted);
        assert forall|k: int| 0 <= k < sorted@.len() implies like_one_of(#[trigger] sorted@[k], spec_list) by {
            vstd::seq_lib::to_multiset_contains(sorted@, sorted@[k]);
            vstd::seq_lib::to_multiset_contains(unsorted, sorted@[k]);
            assert(sorted@.contains(sorted@[k]));
            let m = choose|m: int| 0 <= m < unsorted.len() && unsorted[m] == sorted@[k];
            assert(unsorted[m].same_as(spec_list[m]));
        }
        assert forall|j: int| 0 <= j < sorted@.len() implies like_one_of(#[trigger] spec_list[j], sorted@) by {
            vstd::seq_lib::to_multiset_contains(sorted@, unsorted[j]);
            vstd::seq_lib::to_multiset_contains(unsorted, unsorted[j]);
            assert(unsorted.contains(unsorted[j]));
            let k = choose|k: int| 0 <= k < sorted@.len() && sorted@[k] == unsorted[j];
            assert(unsorted[j].same_as(spec_list[j]));
            lemma_same_as_symmetric(sorted@[k], spec_list[j]);
        }
    }
    sorted
}

/// The status cell of a configured process that has no entry in the table.
pub open spec fn inactive_look() -> (Seq<char>, CellColor, bool) {
    ("cfg inactive"@, CellColor::Yellow, false)
}

/// The configurations of `only` that have no entry in the table.
pub open spec fn inactive_upto(only: Seq<ProcessConfig>, entries: Seq<WatchEntry>, n: int) -> Seq<ProcessConfig>
    decreases n,
{
    if n <= 0 || n > only.len() {
        Seq::empty()
    } else {
        let p = inactive_upto(only, entries, n - 1);
        if watched_id(entries, pid_of(only[n - 1])) {
            p
        } else {
            p.push(only[n - 1])
        }
    }
}

/// The rows of the process table: one per table entry, in order, then one
/// per configuration of `only` that has no entry, marked inactive.
pub fn process_rows(watched: &WatchNow, only: &Vec<ProcessConfig>) -> (r: Vec<TableRow>)
    ensures
        r@.len() == watched.processes@.len() + inactive_upto(only@, watched.processes@, only@.len() as int).len(),
        forall|i: int|
            0 <= i < watched.processes@.len() ==> {
                let e = watched.processes@[i];
                &&& (#[trigger] r@[i]).id@ == entry_id(e)
                &&& r@[i].command@ == command_text(e)
                &&& (r@[i].status.text@, r@[i].status.color, r@[i].status.bold) == status_look(
                    e.info.process_config is Some,
                    match e.info.process_watched {
                        Some(w) => Some(w.status),
                        None => None,
                    },
                )
                &&& !r@[i].status.italic
            },
        forall|k: int|
            0 <= k < inactive_upto(only@, watched.processes@, only@.len() as int).len() ==> {
                let c = inactive_upto(only@, watched.processes@, only@.len() as int)[k];
                let row = #[trigger] r@[watched.processes@.len() + k];
                &&& row.id@ == pid_of(c)
                &&& row.command@ == c.command.line()
                &&& (row.status.text@, row.status.color, row.status.bold) == inactive_look()
                &&& row.status.italic
            },
{
    let ghost es = watched.processes@;
    let mut rows: Vec<TableRow> = Vec::new();
    let mut i: usize = 0;
    while i < watched.processes.len()
        invariant
            i <= es.len(),
            es == watched.processes@,
            rows@.len() == i,
            forall|j: int|
                0 <= j < i ==> {
                    let e = es[j];
                    &&& (#[trigger] rows@[j]).id@ == entry_id(e)
                    &&& rows@[j].command@ == command_text(e)
                    &&& (rows@[j].status.text@, rows@[j].status.color, rows@[j].status.bold) == status_look(
                        e.info.process_config is Some,
                        match e.info.process_watched {
                            Some(w) => Some(w.status),
                            None => None,
                        },
                    )
                    &&& !rows@[j].status.italic
                },
        decreases es.len() - i,
    {
        let e = &watched.processes[i];
        let command = match &e.info.process_config {
            Some(c) => String::from_str(c.command.str()),
            None => String::from_str("No command"),
        };
        rows.push(TableRow { id: e.id.0.clone(), status: status_cell(e), command });
        i = i + 1;
    }
    let n = watched.processes.len();
    let mut k: usize = 0;
    while k < only.len()
        invariant
            k <= only@.len(),
            es == watched.processes@,
            n == es.len(),
            rows@.len() == n + inactive_upto(only@, es, k as int).len(),
            forall|j: int|
                0 <= j < n ==> {
                    let e = es[j];
                    &&& (#[trigger] rows@[j]).id@ == entry_id(e)
                    &&& rows@[j].command@ == command_text(e)
                    &&& (rows@[j].status.text@, rows@[j].status.color, rows@[j].status.bold) == status_look(
                        e.info.process_config is Some,
                        match e.info.process_watched {
                            Some(w) => Some(w.status),
                            None => None,
                        },
                    )
                    &&& !rows@[j].status.italic
                },
            forall|q: int|
                0 <= q < inactive_upto(only@, es, k as int).len() ==> {
                    let c = inactive_upto(only@, es, k as int)[q];
                    let row = #[trigger] rows@[n + q];
                    &&& row.id@ == pid_of(c)
                    &&& row.command@ == c.command.line()
                    &&& (row.status.text@, row.status.color, row.status.bold) == inactive_look()
                    &&& row.status.italic
                },
        decreases only@.len() - k,
    {
        let c = &only[k];
        if !watched_has(&watched.processes, &c.id.0) {
            let status = StatusCell {
                text: String::from_str("cfg inactive"),
                color: CellColor::Yellow,
                bold: false,
                italic: true,
            };
            rows.push(TableRow { id: c.id.0.clone(), status, command: String::from_str(c.command.str()) });
        }
        k = k + 1;
    }
    rows
}

/// Moving through a list of `len` rows keeps the selection on a row, and
/// moving up undoes moving down.
pub proof fn law_selection_moves(s: usize, len: int)
    requires
        0 <= s < len <= usize::MAX,
    ensures
        step_selection(Some(s), len, true) matches Some(n) && n < len,
        step_selection(Some(s), len, false) matches Some(n) && n < len,
        step_selection(step_selection(Some(s), len, true), len, false) == Some(s),
        step_selection(step_selection(Some(s), len, false), len, true) == Some(s),
{
    if s + 1 < len {
        assert((s + 1) % len == s + 1) by (nonlinear_arith)
            requires
                0 <= s + 1 < len,
        ;
    } else {
        assert((s + 1) % len == 0) by (nonlinear_arith)
            requires
                s + 1 == len,
                len > 0,
        ;
    }
    if s == 0 {
        assert((len - 1 + 1) % len == 0) by (nonlinear_arith)
            requires
                len > 0,
        ;
    } else {
        assert((s - 1 + 1) % len == s) by (nonlinear_arith)
            requires
                0 < s < len,
        ;
    }
}

} // verus!

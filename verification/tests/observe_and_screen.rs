use procman::config::{Command, ConfigUid, FolderActivityCheckHealth, ProcessConfig, ProcessId};
use procman::observe::{
    folder_activity_healthy, get_signature, is_process_running, latest_update, save_due, SignalProbe,
};
use procman::screen::{
    choose_file_key, get_only_in_config, process_rows, processes_key, quits, refreshed_selection,
    status_cell, CellColor, Key, ScreenCommand, PAGE_STEP,
};
use procman::status::{ProcessStatus, ProcessWatched};
use procman::time::{Span, Timestamp};
use procman::watch::{WatchEntry, WatchNow, WatchNowProcInfo};

fn ts(secs: i64, nanos: u32) -> Timestamp {
    Timestamp { secs, nanos }
}

fn proc_cfg(id: &str, command: &str) -> ProcessConfig {
    ProcessConfig {
        id: ProcessId(id.to_string()),
        command: Command::Simple(command.to_string()),
        apply_on: ts(0, 0),
        work_dir: None,
        init: None,
        before: None,
        stop: None,
        health_check: None,
        schedule: None,
        one_shot: false,
        depends_on: vec![],
        fake: false,
    }
}

fn entry(id: &str, c: Option<ProcessConfig>, st: Option<ProcessStatus>) -> WatchEntry {
    WatchEntry {
        id: ProcessId(id.to_string()),
        info: WatchNowProcInfo {
            process_config: c,
            process_watched: st.map(|status| ProcessWatched { id: ProcessId(id.to_string()), apply_on: ts(0, 0), status, applied_on: ts(0, 0), last_runs: vec![] }),
        },
    }
}

fn table(processes: Vec<WatchEntry>) -> WatchNow {
    WatchNow {
        persist_path: "/tmp/procman".to_string(),
        file_uid: ConfigUid("u".to_string()),
        original_file_full_path: "/p.toml".to_string(),
        file_format: "0".to_string(),
        processes,
    }
}

#[test]
fn probes_of_a_pid() {
    assert!(is_process_running(SignalProbe::Delivered));
    assert!(is_process_running(SignalProbe::NotPermitted));
    assert!(!is_process_running(SignalProbe::NoSuchProcess));
    assert!(!is_process_running(SignalProbe::Failed));
}

#[test]
fn signature_from_proc_files() {
    assert_eq!(get_signature("sleep\n", "sleep\05555\0"), Some("sleep sleep 5555".to_string()));
    assert_eq!(get_signature("sleep\n", ""), None);
    assert_eq!(get_signature("x", "\0\0"), None);
}

#[test]
fn folder_activity() {
    let check = FolderActivityCheckHealth { folder: "/d".to_string(), inactive_time: Some(Span { secs: 60, nanos: 0 }) };
    let latest = latest_update(&vec![ts(10, 0), ts(50, 5), ts(20, 0)]);
    assert_eq!(latest, Some(ts(50, 5)));
    assert!(folder_activity_healthy(&check, latest, ts(110, 4)));
    assert!(!folder_activity_healthy(&check, latest, ts(110, 5)));
    assert!(!folder_activity_healthy(&check, latest, ts(40, 0)));
    assert!(!folder_activity_healthy(&check, None, ts(40, 0)));
    assert_eq!(latest_update(&vec![]), None);
}

#[test]
fn saving_decision() {
    assert!(save_due(false, Some(ts(100, 0)), ts(101, 0)));
    assert!(!save_due(true, Some(ts(100, 0)), ts(105, 999_999_999)));
    assert!(save_due(true, Some(ts(100, 0)), ts(106, 0)));
    assert!(save_due(true, None, ts(1, 0)));
}

#[test]
fn process_table_keys() {
    assert_eq!(PAGE_STEP, 10);
    assert!(matches!(processes_key(Some(4), 5, &Key::Down), (Some(0), ScreenCommand::Nothing)));
    assert!(matches!(processes_key(Some(0), 5, &Key::Up), (Some(4), ScreenCommand::Nothing)));
    assert!(matches!(processes_key(None, 5, &Key::Up), (Some(0), ScreenCommand::Nothing)));
    assert!(matches!(processes_key(Some(2), 30, &Key::PageDown), (Some(12), ScreenCommand::Nothing)));
    assert!(matches!(processes_key(Some(25), 30, &Key::PageDown), (Some(29), ScreenCommand::Nothing)));
    assert!(matches!(processes_key(Some(25), 30, &Key::PageUp), (Some(15), ScreenCommand::Nothing)));
    assert!(matches!(processes_key(Some(10), 30, &Key::PageUp), (Some(0), ScreenCommand::Nothing)));
    assert!(matches!(processes_key(Some(3), 30, &Key::Esc), (None, ScreenCommand::Nothing)));
    assert!(matches!(processes_key(None, 30, &Key::Esc), (None, ScreenCommand::ChooseFile)));
    assert!(quits(&Key::Char('q')));
    assert!(quits(&Key::CtrlChar('c')));
    assert!(!quits(&Key::Char('c')));
}

#[test]
fn file_choice_keys() {
    let files = vec!["/a.toml".to_string(), "/b.toml".to_string()];
    match choose_file_key(Some(1), &files, &Key::Enter) {
        (Some(1), ScreenCommand::OpenFile(f)) => assert_eq!(f, "/b.toml"),
        _ => panic!("expected the file"),
    }
    assert!(matches!(choose_file_key(Some(1), &files, &Key::Down), (Some(0), ScreenCommand::Nothing)));
    assert!(matches!(choose_file_key(None, &files, &Key::Enter), (None, ScreenCommand::Nothing)));
    assert_eq!(refreshed_selection(Some(3), 0), None);
    assert_eq!(refreshed_selection(None, 2), Some(0));
    assert_eq!(refreshed_selection(Some(1), 2), Some(1));
}

#[test]
fn status_cells() {
    let running = ProcessStatus::Running { pid: 1, procman_uid: "x".to_string(), health_check: None, stop_command: None };
    let c = status_cell(&entry("a", Some(proc_cfg("a", "x")), Some(running)));
    assert_eq!(c.text, "running");
    assert!(c.color == CellColor::Green && !c.bold);
    let running2 = ProcessStatus::Running { pid: 1, procman_uid: "x".to_string(), health_check: None, stop_command: None };
    let c = status_cell(&entry("a", None, Some(running2)));
    assert!(c.color == CellColor::Red && c.bold);
    let c = status_cell(&entry("a", Some(proc_cfg("a", "x")), None));
    assert_eq!(c.text, "PENDING");
    let c = status_cell(&entry("a", None, None));
    assert_eq!(c.text, "INCONSISTENCY");
    let c = status_cell(&entry("a", None, Some(ProcessStatus::Stopped)));
    assert!(c.text == "stopped" && c.color == CellColor::Yellow);
}

#[test]
fn rows_and_configs_only() {
    let w = table(vec![entry("a", Some(proc_cfg("a", "sleep 1")), None), entry("b", None, Some(ProcessStatus::Stopped))]);
    let procs = vec![proc_cfg("a", "sleep 1"), proc_cfg("d", "sleep 4"), proc_cfg("c", "sleep 3"), proc_cfg("c", "other")];
    let only = get_only_in_config(&procs, &w);
    assert_eq!(only.len(), 2);
    assert_eq!(only[0].command.str(), "sleep 3");
    assert_eq!(only[1].command.str(), "sleep 4");
    let rows = process_rows(&w, &only);
    assert_eq!(rows.len(), 4);
    assert_eq!(rows[0].command, "sleep 1");
    assert_eq!(rows[1].command, "No command");
    assert_eq!(rows[2].id, "c");
    assert_eq!(rows[3].id, "d");
    assert_eq!(rows[2].status.text, "cfg inactive");
    assert!(rows[2].status.italic && rows[2].status.color == CellColor::Yellow);
}

#[test]
fn up_undoes_down() {
    for len in 1..5usize {
        for s in 0..len {
            let (down, _) = processes_key(Some(s), len, &Key::Down);
            let down = down.unwrap();
            assert!(down < len);
            let (back, _) = processes_key(Some(down), len, &Key::Up);
            assert_eq!(back, Some(s));
        }
    }
}

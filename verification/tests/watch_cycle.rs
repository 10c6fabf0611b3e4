use procman::config::{
    ActiveProcessByConfig, Command, CommandInit, CommandStop, ConfigUid, ProcessConfig, ProcessId,
};
use procman::status::{ProcessStatus, ProcessWatched, RunningStatus};
use procman::time::{Span, Timestamp};
use procman::watch::{
    init_command_to_run, launch_request, stopped_record_date, pid_in_file, pid_to_check, signature_compatible,
    LaunchOutcome, LaunchRequest, StopAction, WatchEntry, WatchNow, WatchNowProcInfo,
};

fn ts(secs: i64) -> Timestamp {
    Timestamp { secs, nanos: 0 }
}

fn proc_cfg(id: &str, command: &str) -> ProcessConfig {
    ProcessConfig {
        id: ProcessId(id.to_string()),
        command: Command::Simple(command.to_string()),
        apply_on: ts(100),
        work_dir: None,
        init: None,
        before: None,
        stop: None,
        health_check: None,
        schedule: None,
        one_shot: false,
        depends_on: vec![],
        fake: false,
    }
}

fn watched(id: &str, status: ProcessStatus, applied_on: i64) -> ProcessWatched {
    ProcessWatched { id: ProcessId(id.to_string()), apply_on: ts(100), status, applied_on: ts(applied_on), last_runs: vec![] }
}

fn running(pid: u32, uid: &str) -> ProcessStatus {
    ProcessStatus::Running { pid, procman_uid: uid.to_string(), health_check: None, stop_command: None }
}

fn table(entries: Vec<(Option<ProcessConfig>, Option<ProcessWatched>)>, ids: Vec<&str>) -> WatchNow {
    let processes = entries
        .into_iter()
        .zip(ids)
        .map(|((c, w), id)| WatchEntry {
            id: ProcessId(id.to_string()),
            info: WatchNowProcInfo { process_config: c, process_watched: w },
        })
        .collect();
    WatchNow {
        persist_path: "/tmp/procman".to_string(),
        file_uid: ConfigUid("u".to_string()),
        original_file_full_path: "/etc/p.toml".to_string(),
        file_format: "0".to_string(),
        processes,
    }
}

fn status_of(w: &WatchNow, i: usize) -> &ProcessStatus {
    &w.processes[i].info.process_watched.as_ref().unwrap().status
}

#[test]
fn create_joins_configs_and_records() {
    let active = ActiveProcessByConfig(vec![proc_cfg("b", "sleep 2"), proc_cfg("a", "sleep 1")]);
    let status = RunningStatus {
        file_uid: ConfigUid("u".to_string()),
        original_file_full_path: "/etc/p.toml".to_string(),
        file_format: "0".to_string(),
        last_update: ts(0),
        processes: vec![watched("b", ProcessStatus::Stopped, 0), watched("old", running(7, "x"), 0)],
    };
    let w = WatchNow::create("/tmp/procman".to_string(), ConfigUid("u".to_string()), "/etc/p.toml".to_string(), active, status);
    assert_eq!(w.file_format, "0");
    assert_eq!(w.processes.len(), 3);
    let ids: Vec<&str> = w.processes.iter().map(|e| e.id.0.as_str()).collect();
    assert_eq!(ids, vec!["a", "b", "old"]);
    let find = |id: &str| w.processes.iter().find(|e| e.id.0 == id).unwrap();
    assert!(find("a").info.process_config.is_some() && find("a").info.process_watched.is_none());
    assert!(find("b").info.process_config.is_some() && find("b").info.process_watched.is_some());
    assert!(find("old").info.process_config.is_none() && find("old").info.process_watched.is_some());
}

#[test]
fn activation_then_before_then_launch_then_init() {
    let mut c = proc_cfg("a", "sleep 5555");
    c.init = Some(CommandInit::Simple(Command::Simple("true".to_string())));
    let w = table(vec![(Some(c), None)], vec!["a"]);
    let w = w.cfg_actived_not_in_watched(ts(200));
    assert!(matches!(status_of(&w, 0), ProcessStatus::PendingBeforeCmd));
    assert_eq!(w.processes[0].info.process_watched.as_ref().unwrap().applied_on, ts(200));
    // No before command: the process should run.
    let w = w.run_before_cmd(vec![None], ts(201));
    assert!(matches!(status_of(&w, 0), ProcessStatus::ShouldBeRunning));
    match launch_request(&w.processes[0]) {
        Some(LaunchRequest::Direct { program, args, .. }) => {
            assert_eq!(program, "sleep");
            assert_eq!(args, vec!["5555"]);
        }
        _ => panic!("expected a direct launch"),
    }
    let w = w.launch_process(vec![LaunchOutcome::Launched { pid: 42, procman_uid: Some("sleep 5555 ".to_string()) }], ts(202));
    match status_of(&w, 0) {
        ProcessStatus::PendingInitCmd { pid, procman_uid, .. } => {
            assert_eq!(*pid, 42);
            assert_eq!(procman_uid, "sleep 5555 ");
        }
        _ => panic!("expected pending init"),
    }
    assert_eq!(w.processes[0].info.process_watched.as_ref().unwrap().last_runs, vec![ts(202)]);
    let (line, timeout) = init_command_to_run(&w.processes[0]).unwrap();
    assert_eq!(line, "true");
    assert_eq!(timeout, Span { secs: 10, nanos: 0 });
    let w = w.run_init_cmd(vec![Some(true)], ts(203));
    assert!(matches!(status_of(&w, 0), ProcessStatus::Running { pid: 42, .. }));
}

#[test]
fn failed_init_starts_stopping() {
    let mut c = proc_cfg("a", "x");
    c.init = Some(CommandInit::Simple(Command::Simple("false".to_string())));
    let st = ProcessStatus::PendingInitCmd { pid: 9, procman_uid: "x".to_string(), health_check: None, stop_command: None };
    let w = table(vec![(Some(c), Some(watched("a", st, 0)))], vec!["a"]);
    let w = w.run_init_cmd(vec![Some(false)], ts(50));
    assert!(matches!(status_of(&w, 0), ProcessStatus::Stopping { pid: 9, retries: 0, .. }));
}

#[test]
fn fake_process_is_never_launched() {
    let mut c = proc_cfg("a", "sleep 1");
    c.fake = true;
    let w = table(vec![(Some(c), Some(watched("a", ProcessStatus::ShouldBeRunning, 0)))], vec!["a"]);
    assert!(launch_request(&w.processes[0]).is_none());
    let w = w.launch_process(vec![LaunchOutcome::Launched { pid: 1, procman_uid: Some("x".to_string()) }], ts(5));
    assert!(matches!(status_of(&w, 0), ProcessStatus::ShouldBeRunning));
}

#[test]
fn unconfigured_running_process_is_stopped() {
    let w = table(
        vec![(None, Some(watched("a", running(3, "x"), 0))), (None, Some(watched("b", ProcessStatus::PendingBeforeCmd, 0)))],
        vec!["a", "b"],
    );
    let w = w.not_actived_config(ts(60));
    assert!(matches!(status_of(&w, 0), ProcessStatus::Stopping { pid: 3, retries: 0, .. }));
    assert!(matches!(status_of(&w, 1), ProcessStatus::Stopped));
}

#[test]
fn stop_escalates_to_force_kill() {
    let st = |retries: u32| ProcessStatus::Stopping {
        pid: 11,
        procman_uid: "x".to_string(),
        health_check: None,
        retries,
        last_attempt: ts(0),
        stop_command: Some(CommandStop::Simple(Command::Simple("stopit".to_string()))),
    };
    let w = table(
        vec![(None, Some(watched("a", st(0), 0))), (None, Some(watched("b", st(5), 0)))],
        vec!["a", "b"],
    );
    let (w, actions) = w.try_stop(ts(70));
    match &actions[0] {
        Some(StopAction::CommandThenKill { pid, line, timeout }) => {
            assert_eq!(*pid, 11);
            assert_eq!(line, "stopit");
            assert_eq!(*timeout, Span { secs: 5, nanos: 0 });
        }
        _ => panic!("expected the stop command"),
    }
    assert!(matches!(actions[1], Some(StopAction::Kill { pid: 11, force: true })));
    assert!(matches!(status_of(&w, 0), ProcessStatus::Stopping { retries: 1, .. }));
    assert!(matches!(status_of(&w, 1), ProcessStatus::Stopping { retries: 6, .. }));
}

#[test]
fn stop_with_zero_timeout_is_refused() {
    let st = ProcessStatus::Stopping {
        pid: 11,
        procman_uid: "x".to_string(),
        health_check: None,
        retries: 0,
        last_attempt: ts(0),
        stop_command: Some(CommandStop::Detailed { command: Command::Simple("s".to_string()), timeout: Some(Span { secs: 0, nanos: 0 }) }),
    };
    let w = table(vec![(None, Some(watched("p", st, 0)))], vec!["p"]);
    let (_, actions) = w.try_stop(ts(1));
    match &actions[0] {
        Some(StopAction::BadTimeout { message }) => assert_eq!(message, "[p] INCORRECT timeout in configuration: 0"),
        _ => panic!("expected a refusal"),
    }
}

#[test]
fn missing_pid_and_changed_signature_stop() {
    let w = table(
        vec![(Some(proc_cfg("a", "x")), Some(watched("a", running(5, "sleep 10 ", ), 0))), (Some(proc_cfg("b", "y")), Some(watched("b", running(6, "sleep 20 "), 0)))],
        vec!["a", "b"],
    );
    assert_eq!(pid_to_check(&w.processes[0]), Some(5));
    let w = w.move2stop_pid_missing_on_system(vec![Some(false), Some(true)], ts(9));
    assert!(matches!(status_of(&w, 0), ProcessStatus::Stopped));
    assert!(matches!(status_of(&w, 1), ProcessStatus::Running { .. }));
    assert!(signature_compatible("sleep 20 ", "sleep 20"));
    assert!(!signature_compatible("sleep 20 ", "bash"));
    let w = w.move2stop_modif_signature(vec![None, Some("bash -c x".to_string())], ts(10));
    assert!(matches!(status_of(&w, 1), ProcessStatus::Stopped));
}

#[test]
fn too_many_recent_runs_hold_a_process_back() {
    let mut w0 = watched("a", ProcessStatus::Stopped, 0);
    w0.last_runs = vec![ts(1000), ts(1010), ts(1020), ts(1030), ts(1040)];
    let w = table(vec![(Some(proc_cfg("a", "x")), Some(w0))], vec!["a"]);
    let w = w.stopped_with_active_cfg(ts(1050));
    assert!(matches!(status_of(&w, 0), ProcessStatus::Stopped));
    let w = w.move4too_much_runs();
    assert!(matches!(status_of(&w, 0), ProcessStatus::TooMuchRuns));
    // Eleven minutes later the old runs no longer count.
    let w = w.move2too_much_runs(ts(1040 + 660));
    assert!(matches!(status_of(&w, 0), ProcessStatus::Stopped));
    assert!(w.processes[0].info.process_watched.as_ref().unwrap().last_runs.is_empty());
    let w = w.stopped_with_active_cfg(ts(1800));
    assert!(matches!(status_of(&w, 0), ProcessStatus::PendingBeforeCmd));
}

#[test]
fn old_stopped_records_are_forgotten() {
    let four_days: i64 = 4 * 86400;
    let w = table(
        vec![(None, Some(watched("a", ProcessStatus::Stopped, 0))), (None, Some(watched("b", ProcessStatus::Stopped, 10)))],
        vec!["a", "b"],
    );
    let w = w.delete_old_stopped(ts(four_days + 5), vec![Some(ts(0)), Some(ts(10))]);
    assert!(w.processes[0].info.process_watched.is_none());
    assert!(w.processes[1].info.process_watched.is_some());
}

#[test]
fn dependencies_not_running_put_config_aside() {
    let mut b = proc_cfg("b", "y");
    b.depends_on = vec![ProcessId("a".to_string())];
    let mut c = proc_cfg("c", "z");
    c.depends_on = vec![ProcessId("b".to_string())];
    let w = table(
        vec![(Some(proc_cfg("a", "x")), Some(watched("a", running(1, "x"), 0))), (Some(b), None), (Some(c), None)],
        vec!["a", "b", "c"],
    );
    let w = w.filter_config_by_dependencies();
    assert!(w.processes[0].info.process_config.is_some());
    assert!(w.processes[1].info.process_config.is_some());
    assert!(w.processes[2].info.process_config.is_none());
}

#[test]
fn pid_file_gives_the_pid() {
    assert_eq!(pid_in_file(" 1234\n"), Some(1234));
    assert_eq!(pid_in_file("abc"), None);
    let st = ProcessStatus::WaittingPidFile { pid_file: "/run/x.pid".to_string(), pid: 1, procman_uid: "x".to_string(), health_check: None, stop_command: None };
    let w = table(vec![(Some(proc_cfg("a", "x")), Some(watched("a", st, 0)))], vec!["a"]);
    let w = w.check_waitting_pid_file(vec![Some("77\n".to_string())], ts(3));
    assert!(matches!(status_of(&w, 0), ProcessStatus::PendingInitCmd { pid: 77, .. }));
}

#[test]
fn running_status_lists_the_records() {
    let w = table(
        vec![(Some(proc_cfg("a", "x")), None), (None, Some(watched("b", ProcessStatus::Stopped, 4)))],
        vec!["a", "b"],
    );
    let rs = w.running_status(ts(99));
    assert_eq!(rs.last_update, ts(99));
    assert_eq!(rs.processes.len(), 1);
    assert_eq!(rs.processes[0].id.0, "b");
    assert_eq!(rs.file_uid.0, "u");
}

#[test]
fn steps_keep_ids_and_order() {
    let active = ActiveProcessByConfig(vec![proc_cfg("zeta", "sleep 1"), proc_cfg("alpha", "sleep 2")]);
    let status = RunningStatus {
        file_uid: ConfigUid("u".to_string()),
        original_file_full_path: "/p.toml".to_string(),
        file_format: "0".to_string(),
        last_update: ts(0),
        processes: vec![watched("mid", running(4, "x"), 0)],
    };
    let w = WatchNow::create("/tmp/procman".to_string(), ConfigUid("u".to_string()), "/p.toml".to_string(), active, status);
    let ids = |w: &WatchNow| w.processes.iter().map(|e| e.id.0.clone()).collect::<Vec<String>>();
    let before = ids(&w);
    assert_eq!(before, vec!["alpha", "mid", "zeta"]);
    let n = w.processes.len();
    let w = w.filter_config_by_dependencies().filter_config_one_shot(ts(10)).delete_old_stopped(ts(10), vec![None; n]);
    let w = w.cfg_actived_not_in_watched(ts(10)).stopped_with_active_cfg(ts(10));
    let w = w.check_waitting_pid_file(vec![None; n], ts(10)).move2too_much_runs(ts(10)).move4too_much_runs();
    let w = w.launch_process((0..n).map(|_| LaunchOutcome::Failed).collect(), ts(10));
    let w = w.not_actived_config(ts(10)).move2stop_pid_missing_on_system(vec![None; n], ts(10));
    let (w, _) = w.try_stop(ts(10));
    let w = w.move2stop_check_health(vec![None; n], ts(10)).move2stop_modif_signature(vec![None; n], ts(10));
    let w = w.move2stopping_modif_applyon(ts(10)).run_init_cmd(vec![None; n], ts(10)).run_before_cmd(vec![None; n], ts(10));
    assert_eq!(ids(&w), before);
    assert!(w.processes[0].info.process_config.is_some());
    assert!(w.processes[1].info.process_config.is_none());
    assert!(matches!(status_of(&w, 1), ProcessStatus::Stopping { pid: 4, .. }));
}

#[test]
fn stopped_records_need_their_instant() {
    let w = table(
        vec![(None, Some(watched("a", ProcessStatus::Stopped, 0))), (None, Some(watched("b", running(1, "x"), 0)))],
        vec!["a", "b"],
    );
    assert_eq!(stopped_record_date(&w.processes[0]), Some(ts(0)));
    assert_eq!(stopped_record_date(&w.processes[1]), None);
    let w = w.delete_old_stopped(ts(5 * 86400), vec![None, Some(ts(0))]);
    assert!(w.processes[0].info.process_watched.is_some());
    assert!(w.processes[1].info.process_watched.is_some());
}

use procman::config::{
    check, depends_exists, get_active_procs_by_config, is_active_at, is_valid_start_stop,
    weekday_number, CheckHealth, Command, CommandCheckHealth, CommandDetail, CommandInit, CommandStop,
    CommandType, Config, ConfigUid, DaySelection, FolderActivityCheckHealth, ProcessConfig, ProcessId,
    Schedule,
};
use procman::deps::circular_refs;
use procman::time::{Span, TimeOfDay, Timestamp, Weekday};

fn proc_cfg(id: &str, command: &str) -> ProcessConfig {
    ProcessConfig {
        id: ProcessId(id.to_string()),
        command: Command::Simple(command.to_string()),
        apply_on: Timestamp { secs: 0, nanos: 0 },
        work_dir: None,
        init: None,
        before: None,
        stop: None,
        health_check: None,
        schedule: None,
        one_shot: false,
        depends_on: vec![],
        fake: false,
    }
}

fn tod(h: u32, m: u32) -> TimeOfDay {
    TimeOfDay { secs: h * 3600 + m * 60, nanos: 0 }
}

fn config(procs: Vec<ProcessConfig>) -> Config {
    Config { uid: ConfigUid("uid-1".to_string()), file_format: "0".to_string(), process: procs }
}

#[test]
fn command_str_and_type() {
    let simple = Command::Simple("sleep 5".to_string());
    assert_eq!(simple.str(), "sleep 5");
    assert_eq!(simple.cmd_type(), CommandType::Simple);
    let detailed = Command::Detailed(CommandDetail {
        line: "echo $HOME".to_string(),
        cmd_type: CommandType::Expression,
    });
    assert_eq!(detailed.str(), "echo $HOME");
    assert_eq!(detailed.cmd_type(), CommandType::Expression);
    assert_eq!(CommandType::default(), CommandType::Simple);
}

#[test]
fn command_timeouts_default() {
    let init = CommandInit::Simple(Command::Simple("true".to_string()));
    assert_eq!(init.timeout(), Span { secs: 10, nanos: 0 });
    assert_eq!(init.command().str(), "true");
    let stop = CommandStop::Simple(Command::Simple("kill".to_string()));
    assert_eq!(stop.timeout(), Span { secs: 5, nanos: 0 });
    let stop2 = CommandStop::Detailed {
        command: Command::Simple("kill".to_string()),
        timeout: Some(Span { secs: 2, nanos: 0 }),
    };
    assert_eq!(stop2.timeout(), Span { secs: 2, nanos: 0 });
    let health = CommandCheckHealth::Simple(Command::Simple("true".to_string()));
    assert_eq!(health.timeout(), Span { secs: 5, nanos: 0 });
    let folder = FolderActivityCheckHealth { folder: "/tmp".to_string(), inactive_time: None };
    assert_eq!(folder.inactive_time(), Span { secs: 300, nanos: 0 });
}

#[test]
fn day_selection_matches() {
    assert!(DaySelection::Mon2Fri.matches(Weekday::Fri));
    assert!(!DaySelection::Mon2Fri.matches(Weekday::Sat));
    assert!(DaySelection::All.matches(Weekday::Sun));
    assert!(DaySelection::Days(vec![Weekday::Wed]).matches(Weekday::Wed));
    assert!(!DaySelection::Days(vec![Weekday::Wed]).matches(Weekday::Thu));
    assert_eq!(weekday_number(Weekday::Mon), 0);
    assert_eq!(weekday_number(Weekday::Sun), 6);
}

#[test]
fn check_accepts_valid_config() {
    let mut b = proc_cfg("b", "sleep 1");
    b.depends_on = vec![ProcessId("a".to_string())];
    let cfg = config(vec![proc_cfg("a", "sleep 1"), b]);
    assert!(check(cfg).is_ok());
}

#[test]
fn check_refuses_empty_uid() {
    let mut cfg = config(vec![proc_cfg("a", "x")]);
    cfg.uid = ConfigUid(String::new());
    assert_eq!(check(cfg).unwrap_err().0, "UID cannot be empty");
}

#[test]
fn check_refuses_empty_process_list() {
    assert_eq!(check(config(vec![])).unwrap_err().0, "Process list cannot be empty");
}

#[test]
fn check_refuses_empty_command() {
    assert_eq!(check(config(vec![proc_cfg("a", "")])).unwrap_err().0, "Command cannot be empty");
}

#[test]
fn check_refuses_bad_schedule() {
    let mut a = proc_cfg("a", "x");
    a.schedule = Some(Schedule { week_days: DaySelection::All, start_time: tod(10, 0), stop_time: tod(9, 0) });
    let err = is_valid_start_stop(&a).unwrap_err().0;
    assert_eq!(err, "Invalid time range: start_time (10:00:00) is not before stop_time (09:00:00)");
    assert_eq!(check(config(vec![a])).unwrap_err().0, err);
}

#[test]
fn check_refuses_missing_dependency() {
    let mut a = proc_cfg("a", "x");
    a.depends_on = vec![ProcessId("ghost".to_string())];
    let cfg = config(vec![a]);
    assert_eq!(
        depends_exists(&cfg).unwrap_err().0,
        "Process 'a' depends on non-existent process 'ghost'"
    );
    assert_eq!(check(cfg).unwrap_err().0, "Process 'a' depends on non-existent process 'ghost'");
}

#[test]
fn check_refuses_cycle() {
    let mut a = proc_cfg("a", "x");
    a.depends_on = vec![ProcessId("b".to_string())];
    let mut b = proc_cfg("b", "x");
    b.depends_on = vec![ProcessId("a".to_string())];
    let c = proc_cfg("c", "x");
    let procs = vec![c, a, b];
    assert_eq!(
        circular_refs(&procs).unwrap_err(),
        "Circular dependency detected involving process 'a'"
    );
    assert_eq!(
        check(config(procs)).unwrap_err().0,
        "Circular dependency detected involving process 'a'"
    );
}

#[test]
fn self_dependency_is_a_cycle() {
    let mut a = proc_cfg("a", "x");
    a.depends_on = vec![ProcessId("a".to_string())];
    assert!(circular_refs(&vec![a]).is_err());
}

#[test]
fn active_processes_by_date_and_schedule() {
    // 1970-01-05 is a Monday; 10:00 that day.
    let now = Timestamp { secs: 4 * 86400 + 10 * 3600, nanos: 0 };
    let mut future = proc_cfg("future", "x");
    future.apply_on = Timestamp { secs: now.secs + 1, nanos: 0 };
    assert!(!is_active_at(&future, now));
    let mut morning = proc_cfg("morning", "x");
    morning.schedule = Some(Schedule { week_days: DaySelection::Mon2Fri, start_time: tod(9, 0), stop_time: tod(10, 0) });
    assert!(!is_active_at(&morning, now));
    let mut day = proc_cfg("day", "x");
    day.schedule = Some(Schedule { week_days: DaySelection::Mon2Fri, start_time: tod(9, 0), stop_time: tod(18, 0) });
    assert!(is_active_at(&day, now));
    let cfg = config(vec![future, morning, day, proc_cfg("plain", "y")]);
    let active = get_active_procs_by_config(&cfg, now);
    let ids: Vec<String> = active.0.iter().map(|p| p.id.0.clone()).collect();
    assert_eq!(ids.len(), 2);
    assert!(ids.contains(&"day".to_string()));
    assert!(ids.contains(&"plain".to_string()));
}

#[test]
fn active_processes_keep_the_most_recent_apply_on() {
    let now = Timestamp { secs: 1000, nanos: 0 };
    let mut old = proc_cfg("a", "old");
    old.apply_on = Timestamp { secs: 10, nanos: 0 };
    let mut new = proc_cfg("a", "new");
    new.apply_on = Timestamp { secs: 20, nanos: 0 };
    let cfg = config(vec![new, old]);
    let active = cfg.get_active_procs_by_config(now);
    assert_eq!(active.0.len(), 1);
    assert_eq!(active.0[0].command.str(), "new");
}

#[test]
fn health_check_holds_folder() {
    let h = CheckHealth::FolderActivity(FolderActivityCheckHealth { folder: "/data".to_string(), inactive_time: Some(Span { secs: 60, nanos: 0 }) });
    match h {
        CheckHealth::FolderActivity(f) => assert_eq!(f.inactive_time(), Span { secs: 60, nanos: 0 }),
        _ => panic!("wrong variant"),
    }
}

#[test]
fn fake_configurations_are_not_active() {
    let now = Timestamp { secs: 1000, nanos: 0 };
    let mut fake = proc_cfg("f", "sleep 1");
    fake.fake = true;
    assert!(!is_active_at(&fake, now));
    let active = get_active_procs_by_config(&config(vec![fake, proc_cfg("g", "sleep 2")]), now);
    assert_eq!(active.0.len(), 1);
    assert_eq!(active.0[0].id.0, "g");
}

#[test]
fn missing_dependencies_are_no_cycle() {
    let mut a = proc_cfg("a", "x");
    a.depends_on = vec![ProcessId("ghost".to_string())];
    assert_eq!(circular_refs(&vec![a]), Ok(()));
}

#[test]
fn schedule_refusal_writes_fractions_like_chrono() {
    let mut a = proc_cfg("a", "x");
    a.schedule = Some(Schedule {
        week_days: DaySelection::All,
        start_time: TimeOfDay { secs: 10 * 3600, nanos: 500_000_000 },
        stop_time: TimeOfDay { secs: 9 * 3600, nanos: 1_000 },
    });
    assert_eq!(
        is_valid_start_stop(&a).unwrap_err().0,
        "Invalid time range: start_time (10:00:00.500) is not before stop_time (09:00:00.000001)"
    );
    let mut b = proc_cfg("b", "x");
    b.schedule = Some(Schedule {
        week_days: DaySelection::All,
        start_time: TimeOfDay { secs: 23 * 3600 + 59 * 60 + 59, nanos: 1_500_000_000 },
        stop_time: TimeOfDay { secs: 3600, nanos: 7 },
    });
    assert_eq!(
        is_valid_start_stop(&b).unwrap_err().0,
        "Invalid time range: start_time (23:59:60.500) is not before stop_time (01:00:00.000000007)"
    );
}

use psy::names::NameMap;
use psy::protocol::{HistoryResponse, ProcessInfo, PsResponse, RestartPolicy, RunInfo};
use psy::tables::{format_history_table, format_ps_table, format_uptime, policy_name};

fn process(name: &str) -> ProcessInfo {
    ProcessInfo {
        name: name.to_string(),
        pid: Some(12345),
        status: "running".to_string(),
        restart_policy: RestartPolicy::No,
        started_at: None,
        uptime_secs: Some(7984),
        exit_code: None,
        signal: None,
        restarts: 0,
        ready: None,
        ports: None,
        subroot_socket: None,
        is_subroot: false,
        metadata: NameMap::new(),
    }
}

#[test]
fn uptime_is_shown_in_its_largest_units() {
    assert_eq!(format_uptime(14), "14s");
    assert_eq!(format_uptime(107), "1m 47s");
    assert_eq!(format_uptime(7984), "2h 13m 4s");
    assert_eq!(format_uptime(0), "0s");
}

#[test]
fn policies_have_names() {
    assert_eq!(policy_name(RestartPolicy::No), "no");
    assert_eq!(policy_name(RestartPolicy::OnFailure), "on-failure");
    assert_eq!(policy_name(RestartPolicy::Always), "always");
}

#[test]
fn process_table_has_a_line_per_process() {
    let mut crasher = process("crasher");
    crasher.pid = None;
    crasher.status = "failed".to_string();
    crasher.exit_code = Some(1);
    crasher.uptime_secs = None;
    crasher.restarts = 5;
    crasher.restart_policy = RestartPolicy::OnFailure;
    let mut db = process("db");
    db.ready = Some("ready".to_string());
    let table = format_ps_table(&PsResponse { processes: vec![process("main"), db, crasher] });
    let lines: Vec<&str> = table.lines().collect();
    assert_eq!(
        lines[0],
        "NAME                 PID      STATUS     READY    EXIT     UPTIME         RESTARTS   RESTART"
    );
    assert_eq!(lines[1], "-".repeat(86));
    assert_eq!(
        lines[2],
        "main                 12345    running    -        -        2h 13m 4s      0          no"
    );
    assert_eq!(
        lines[3],
        "db                   12345    running    ready    -        2h 13m 4s      0          no"
    );
    assert_eq!(
        lines[4],
        "crasher              -        failed     -        1        -              5          on-failure"
    );
    assert_eq!(lines.len(), 5);
}

#[test]
fn process_table_shows_ports_where_there_are_some() {
    let mut p = process("web");
    let mut ports = NameMap::new();
    ports.insert("http".to_string(), 8080);
    p.ports = Some(ports);
    let table = format_ps_table(&PsResponse { processes: vec![p, process("main")] });
    let lines: Vec<&str> = table.lines().collect();
    assert!(lines[0].trim_end().ends_with("PORTS"));
    assert!(lines[2].contains("8080"));
    assert!(lines[3].trim_end().ends_with("-"));
}

#[test]
fn history_table_has_a_line_per_run() {
    let runs = vec![
        RunInfo {
            run_id: 1,
            status: "stopped".to_string(),
            exit_code: None,
            signal: Some("SIG15".to_string()),
            started_at: Some("2026-03-13T20:10:39+00:00".to_string()),
            duration_secs: Some(107),
        },
        RunInfo {
            run_id: 2,
            status: "running".to_string(),
            exit_code: None,
            signal: None,
            started_at: Some("2026-03-13T20:12:40+00:00".to_string()),
            duration_secs: Some(62),
        },
    ];
    let table = format_history_table(&HistoryResponse { name: "web".to_string(), runs });
    let lines: Vec<&str> = table.lines().collect();
    assert_eq!(lines[0], "RUN    STATUS     EXIT     STARTED                      DURATION");
    assert_eq!(lines[1], "-".repeat(68));
    assert_eq!(lines[2], "1      stopped    SIG15    2026-03-13T20:10:39+00:00    1m 47s");
    assert_eq!(lines[3], "2      running    -        2026-03-13T20:12:40+00:00    1m 2s");
}

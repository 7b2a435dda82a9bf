use psy::json;
use psy::json::Json;
use psy::logs::{follow_line, follow_passes};
use psy::names::NameMap;
use psy::pattern::Search;
use psy::platform::System;
use psy::process::{ProcessState, StdinMode};
use psy::protocol::{DependencyArg, ErrorCode, HistoryArgs, LogsArgs, PortDefArg, RegisterSubrootArgs};
use psy::protocol::{Request, Response, RestartArgs, RestartPolicy, RunArgs, SendArgs, SendWaitArgs};
use psy::protocol::{StopArgs, StreamFilter, WaitFor};
use psy::psyfile::{parse_str, Psyfile};
use psy::ring_buffer::{LogLine, Stream};
use psy::root::control::{restart_failed, unit_name, RestartStep, StopStep};
use psy::root::input::{send_answer, wait_write_answer, Collector, SendStep, WaitStep, WriteResult};
use psy::root::life::{ExitInfo, ExitStep};
use psy::root::run::{dependency_failed, dependency_timed_out, prepare_adhoc, spawn_failed, RunStep};
use psy::root::serve::{boot_failure, exit_code, handle_request, is_blank, not_a_request};
use psy::root::serve::{pick_main_command, prepare_main, Ending, Route};
use psy::root::start::{Start, StartStep};
use psy::root::wait::{any_line_with, wait_limit, Waiting};
use psy::root::SharedRoot;
use psy::time::{Duration, Timestamp};

type Loaded = Result<Option<Psyfile>, String>;

fn at(secs: i64) -> Timestamp {
    Timestamp::new(1_700_000_000 + secs, 0).unwrap()
}

fn root() -> SharedRoot {
    SharedRoot::new("/tmp/psy.sock".to_string(), 77, System::Unix)
}

fn run_args(name: &str, command: &[&str]) -> RunArgs {
    RunArgs {
        name: name.to_string(),
        command: command.iter().map(|s| s.to_string()).collect(),
        restart: RestartPolicy::No,
        env: NameMap::new(),
        attach: false,
        interactive: false,
        raw_stdio: false,
        extra_args: None,
        wait_for: None,
        wait_timeout: None,
        ports: vec![],
        cwd: None,
        ready: None,
        healthcheck: None,
        depends_on: vec![],
        metadata: NameMap::new(),
    }
}

fn logs_args(name: &str) -> LogsArgs {
    LogsArgs {
        name: name.to_string(),
        tail: None,
        stream: StreamFilter::All,
        since: None,
        until: None,
        grep: None,
        run: None,
        previous: false,
        probe: false,
    }
}

fn loaded(text: &str) -> Loaded {
    Ok(Some(parse_str(text).unwrap()))
}

fn none() -> Loaded {
    Ok(None)
}

fn start(r: &mut SharedRoot, a: &RunArgs, pid: u32, when: i64) {
    let s = prepare_adhoc("1", a, &vec![]).unwrap();
    let e = r.prepare_spawn("1", s).unwrap();
    r.commit_spawn("1", e, Some(pid), at(when), a.attach, a.interactive);
}

fn start_unit(r: &mut SharedRoot, p: &Loaded, name: &str, ports: Vec<(String, u16)>, pid: u32) {
    let unit = match p {
        Ok(Some(f)) => f.units.get(name).unwrap(),
        _ => panic!("no units"),
    };
    let s = r.prepare_unit(&run_args(name, &[]), unit, &NameMap::new(), &ports);
    let e = r.prepare_spawn("1", s).unwrap();
    r.commit_spawn("1", e, Some(pid), at(0), false, false);
}

fn exit(r: &mut SharedRoot, name: &str, code: i32, when: i64) -> ExitStep {
    let run = r.begin_wait(name).unwrap();
    r.on_exit(name, run, ExitInfo { code: Some(code), signal: None }, at(when))
}

fn message(a: &Response) -> &str {
    a.error.as_ref().unwrap()
}

#[test]
fn requests_are_told_apart() {
    assert!(matches!(handle_request(&Request::ps()), Ok(Route::Ps)));
    assert!(matches!(handle_request(&Request::clean()), Ok(Route::Clean)));
    assert!(matches!(handle_request(&Request::register_subroot(Json::Null)), Ok(Route::RegisterSubroot)));
    let bad = handle_request(&Request::new("dance", None)).unwrap_err();
    assert_eq!(message(&bad), "unknown command: dance");
    assert!(!not_a_request("eof").ok);
    assert!(is_blank("  "));
    assert!(!is_blank(" x "));
}

#[test]
fn a_run_is_decided_before_it_starts() {
    let r = root();
    assert!(matches!(r.begin_run("1", &Some(run_args("a", &["x"])), &none()), RunStep::Adhoc));
    match r.begin_run("1", &None, &none()) {
        RunStep::Answer(a) => assert_eq!(message(&a), "invalid or missing run args"),
        x => panic!("{:?}", x),
    }
    match r.begin_run("1", &Some(run_args("-a", &["x"])), &none()) {
        RunStep::Answer(a) => assert_eq!(a.error_code, Some(ErrorCode::InvalidName)),
        x => panic!("{:?}", x),
    }
    match r.begin_run("1", &Some(run_args("a", &[])), &none()) {
        RunStep::Answer(a) => assert_eq!(message(&a), "no command provided for ad-hoc process 'a'"),
        x => panic!("{:?}", x),
    }
    match r.begin_run("1", &Some(run_args("a", &[])), &Err("bad".to_string())) {
        RunStep::Answer(a) => assert_eq!(message(&a), "Psyfile error: bad"),
        x => panic!("{:?}", x),
    }
    let p = loaded("[db]\ncommand = \"db\"\n[api]\ncommand = \"api\"\ndepends_on = [\"db\"]\n");
    match r.begin_run("1", &Some(run_args("api", &[])), &p) {
        RunStep::Unit(o) => assert_eq!(o, vec!["db"]),
        x => panic!("{:?}", x),
    }
}

#[test]
fn a_running_name_is_taken() {
    let mut r = root();
    start(&mut r, &run_args("a", &["sleep"]), 10, 0);
    let s = prepare_adhoc("2", &run_args("a", &["x"]), &vec![]).unwrap();
    let e = r.prepare_spawn("2", s).unwrap_err();
    assert_eq!(message(&e), "process 'a' is already running");
    assert_eq!(e.error_code, Some(ErrorCode::AlreadyExists));
}

#[test]
fn a_process_that_ended_can_run_again_with_its_history() {
    let mut r = root();
    start(&mut r, &run_args("a", &["x"]), 10, 0);
    r.log_output("a", 1, at(1), Stream::Stdout, "first".to_string());
    assert!(matches!(exit(&mut r, "a", 1, 2), ExitStep::End));
    assert_eq!(r.entry("a").unwrap().state, ProcessState::Failed);
    start(&mut r, &run_args("a", &["x"]), 11, 3);
    r.log_output("a", 2, at(4), Stream::Stdout, "second".to_string());
    let h = r.handle_history_at("1", &Some(HistoryArgs { name: "a".to_string() }), &at(5)).unwrap();
    assert_eq!(h.runs.len(), 2);
    assert_eq!(h.runs[0].run_id, 1);
    assert_eq!(h.runs[0].exit_code, Some(1));
    assert_eq!(h.runs[0].duration_secs, Some(2));
    assert_eq!(h.runs[1].run_id, 2);
    assert_eq!(h.runs[1].status, "running");
    let now = r.collect_logs(&Some(logs_args("a")), &none()).unwrap();
    assert_eq!(now[0].content, "second");
    let mut before = logs_args("a");
    before.previous = true;
    assert_eq!(r.collect_logs(&Some(before), &none()).unwrap()[0].content, "first");
    let mut one = logs_args("a");
    one.run = Some(1);
    assert_eq!(r.collect_logs(&Some(one), &none()).unwrap()[0].content, "first");
    let mut nine = logs_args("a");
    nine.run = Some(9);
    assert!(r.collect_logs(&Some(nine), &none()).is_err());
}

#[test]
fn late_output_belongs_to_the_run_that_wrote_it() {
    let mut r = root();
    start(&mut r, &run_args("a", &["x"]), 10, 0);
    exit(&mut r, "a", 0, 1);
    start(&mut r, &run_args("a", &["x"]), 11, 2);
    r.log_output("a", 1, at(3), Stream::Stderr, "late".to_string());
    assert!(r.collect_logs(&Some(logs_args("a")), &none()).unwrap().is_empty());
    let mut one = logs_args("a");
    one.run = Some(1);
    assert_eq!(r.collect_logs(&Some(one), &none()).unwrap().len(), 1);
}

#[test]
fn failing_processes_restart_with_a_delay_and_a_limit() {
    let mut r = root();
    let mut a = run_args("a", &["x"]);
    a.restart = RestartPolicy::OnFailure;
    start(&mut r, &a, 10, 0);
    let delays = [1, 2, 4, 8, 16];
    for (i, d) in delays.iter().enumerate() {
        match exit(&mut r, "a", 1, i as i64) {
            ExitStep::Restart(x) => assert_eq!(x, Duration::from_secs(*d)),
            x => panic!("{:?}", x),
        }
        let plan = r.begin_respawn("a").unwrap().unwrap();
        assert_eq!(plan.program, "x");
        assert!(r.commit_respawn("a", Some(20 + i as u32), at(i as i64)).is_some());
    }
    assert!(matches!(exit(&mut r, "a", 1, 9), ExitStep::End));
    assert_eq!(r.entry("a").unwrap().restarts, 5);
    assert_eq!(r.entry("a").unwrap().run_history.len(), 5);
}

#[test]
fn a_clean_exit_ends_a_process_that_restarts_on_failure() {
    let mut r = root();
    let mut a = run_args("a", &["x"]);
    a.restart = RestartPolicy::OnFailure;
    start(&mut r, &a, 10, 0);
    assert!(matches!(exit(&mut r, "a", 0, 1), ExitStep::End));
    assert_eq!(r.entry("a").unwrap().state, ProcessState::Stopped);
}

#[test]
fn stopping_on_purpose_is_no_failure() {
    let mut r = root();
    start(&mut r, &run_args("a", &["x"]), 10, 0);
    match r.begin_stop("1", &Some(StopArgs { name: "a".to_string() }), &none()) {
        StopStep::Kill(pids, answer) => {
            assert_eq!(pids, vec![10]);
            assert!(answer.ok);
        }
        x => panic!("{:?}", x),
    }
    let run = r.begin_wait("a").unwrap();
    let x = ExitInfo { code: None, signal: Some(15) };
    assert!(matches!(r.on_exit("a", run, x, at(1)), ExitStep::End));
    let e = r.entry("a").unwrap();
    assert_eq!(e.state, ProcessState::Stopped);
    assert_eq!(e.signal.as_ref().unwrap(), "SIG15");
    match r.begin_stop("1", &Some(StopArgs { name: "a".to_string() }), &none()) {
        StopStep::Answer(a) => assert_eq!(message(&a), "process 'a' is not running"),
        x => panic!("{:?}", x),
    }
    match r.begin_stop("1", &Some(StopArgs { name: "b".to_string() }), &none()) {
        StopStep::Answer(a) => assert_eq!(message(&a), "process 'b' not found"),
        x => panic!("{:?}", x),
    }
    match r.begin_stop("1", &Some(StopArgs { name: "main".to_string() }), &none()) {
        StopStep::Answer(a) => {
            assert_eq!(message(&a), "cannot stop the main process (use 'down' instead)")
        }
        x => panic!("{:?}", x),
    }
}

#[test]
fn units_start_in_a_shell_with_their_variables() {
    let mut r = root();
    let p = loaded("[web]\ncommand = \"serve $PORT\"\nenv = { PORT = \"${P:-80}\" }\nworking_dir = \"/srv\"\n");
    let unit = match &p {
        Ok(Some(f)) => f.units.get("web").unwrap(),
        _ => panic!("no units"),
    };
    let mut a = run_args("web", &[]);
    a.extra_args = Some(vec!["--x".to_string()]);
    let s = r.prepare_unit(&a, unit, &NameMap::new(), &vec![]);
    assert_eq!(s.command[0], "sh");
    assert_eq!(s.command[1], "-c");
    assert!(s.command[2].ends_with("--x"));
    assert_eq!(s.env.get("PORT").unwrap(), "80");
    assert_eq!(s.working_dir.as_ref().unwrap(), "/srv");
}

#[test]
fn templates_get_numbered_instances() {
    let mut r = root();
    let p = loaded("[w]\ncommand = \"w $PSY_INSTANCE\"\nsingleton = false\n");
    start_unit(&mut r, &p, "w", vec![], 10);
    start_unit(&mut r, &p, "w", vec![], 11);
    assert!(r.is_running("w.1"));
    assert!(r.is_running("w.2"));
    assert_eq!(r.entry("w.2").unwrap().env.get("PSY_INSTANCE").unwrap(), "2");
    match r.begin_stop("1", &Some(StopArgs { name: "w".to_string() }), &p) {
        StopStep::Kill(pids, _) => assert_eq!(pids, vec![10, 11]),
        x => panic!("{:?}", x),
    }
    match r.begin_restart("1", &Some(RestartArgs { name: "w".to_string() }), &p, &NameMap::new()) {
        RestartStep::Each(names, _) => assert_eq!(names, vec!["w.1", "w.2"]),
        x => panic!("{:?}", x),
    }
    assert_eq!(unit_name("w.2"), "w");
    assert_eq!(unit_name("w"), "w");
}

#[test]
fn a_unit_restarts_as_its_psyfile_says_now() {
    let mut r = root();
    let p = loaded("[web]\ncommand = \"old\"\n");
    start_unit(&mut r, &p, "web", vec![], 10);
    let q = loaded("[web]\ncommand = \"new\"\n");
    let args = Some(RestartArgs { name: "web".to_string() });
    match r.begin_restart("1", &args, &q, &NameMap::new()) {
        RestartStep::One(pid, s) => {
            assert_eq!(pid, Some(10));
            assert_eq!(s.command, vec!["sh", "-c", "new"]);
            let e = r.prepare_restart(s);
            assert_eq!(e.current_run_id, 2);
            assert_eq!(e.run_history.len(), 1);
            assert!(r.entry("web").is_none());
        }
        x => panic!("{:?}", x),
    }
    let gone = Some(RestartArgs { name: "x".to_string() });
    assert!(matches!(r.begin_restart("1", &gone, &q, &NameMap::new()), RestartStep::Answer(_)));
    assert_eq!(message(&restart_failed("1", "no")), "restart spawn failed: no");
    assert_eq!(message(&spawn_failed("1", "no")), "spawn failed: no");
}

#[test]
fn ports_reach_processes_and_their_dependents() {
    let mut r = root();
    let p = loaded(
        r#"
[db]
command = "pg -p ${port.pg}"
ports = [{ name = "pg", default = 5432 }]
ready = { tcp = "${port.pg}" }
[api]
command = "api --db ${port.pg@db}"
env = { DB = "x:${port.pg@db}" }
depends_on = ["db"]
"#,
    );
    let asked = vec![PortDefArg { name: "pg".to_string(), default: Some(5432) }];
    assert_eq!(r.ports_wanted("db", &asked)[0].tries, vec![5432, 0]);
    start_unit(&mut r, &p, "db", vec![("pg".to_string(), 6000)], 10);
    let e = r.entry("db").unwrap();
    assert_eq!(e.command[2], "pg -p 6000");
    assert_eq!(e.env.get("PSY_PORT_PG").unwrap(), "6000");
    assert!(format!("{:?}", e.ready_config).contains("localhost:6000"));
    start_unit(&mut r, &p, "api", vec![], 11);
    let e = r.entry("api").unwrap();
    assert_eq!(e.command[2], "api --db 6000");
    assert_eq!(e.env.get("DB").unwrap(), "x:6000");
    assert_eq!(r.ports_wanted("db", &asked)[0].tries, vec![6000, 5432, 0]);
    let ps = r.handle_ps_at(&at(1));
    assert_eq!(ps.processes[0].ports.as_ref().unwrap().get("pg"), Some(&6000));
    assert!(ps.processes[1].ports.is_none());
}

#[test]
fn dependencies_of_a_request_must_be_known() {
    let mut r = root();
    start(&mut r, &run_args("db", &["x"]), 10, 0);
    let dep = |n: &str| DependencyArg { name: n.to_string(), restart: false };
    assert!(r.check_dependencies("1", &vec![dep("db")]).is_none());
    let a = r.check_dependencies("1", &vec![dep("db"), dep("mq")]).unwrap();
    assert_eq!(message(&a), "process 'mq' not found");
    let a = dependency_failed("1", "db", &Response::err("2", "boom"));
    assert_eq!(message(&a), "failed to start dependency 'db': boom");
    let a = dependency_timed_out("1", "db");
    assert_eq!(message(&a), "dependency 'db' readiness probe timed out");
}

#[test]
fn readiness_is_noted_and_waited_for() {
    let mut r = root();
    let p = loaded("[db]\ncommand = \"db\"\nready = { exec = \"ok\", timeout = \"5s\" }\n");
    start_unit(&mut r, &p, "db", vec![], 10);
    match &p {
        Ok(Some(f)) => assert!(r.dependency_running(f, "db")),
        _ => panic!("no units"),
    }
    assert_eq!(r.ready_wait("db"), Some(Duration::from_secs(5)));
    assert_eq!(r.waiting("db", &WaitFor::Ready), Waiting::Pending);
    assert_eq!(r.handle_ps_at(&at(1)).processes[0].ready.as_ref().unwrap(), "waiting");
    r.note_readiness("db", true);
    assert_eq!(r.ready_wait("db"), None);
    assert_eq!(r.waiting("db", &WaitFor::Ready), Waiting::Met);
    assert_eq!(r.handle_ps_at(&at(1)).processes[0].ready.as_ref().unwrap(), "ready");
}

#[test]
fn a_failed_probe_loses_the_wait() {
    let mut r = root();
    let p = loaded("[db]\ncommand = \"db\"\nready = { exec = \"ok\" }\n");
    start_unit(&mut r, &p, "db", vec![], 10);
    r.note_readiness("db", false);
    assert_eq!(r.waiting("db", &WaitFor::Ready), Waiting::Lost);
    let d = WaitFor::Dependency { name: "db".to_string() };
    assert_eq!(r.waiting("x", &d), Waiting::Lost);
    assert_eq!(r.handle_ps_at(&at(1)).processes[0].ready.as_ref().unwrap(), "failed");
}

#[test]
fn waiting_for_output_and_exit() {
    let mut r = root();
    start(&mut r, &run_args("a", &["x"]), 10, 0);
    let up = WaitFor::Log { pattern: "listening".to_string() };
    assert_eq!(r.waiting("a", &up), Waiting::Pending);
    r.log_output("a", 1, at(1), Stream::Stdout, "now listening".to_string());
    assert_eq!(r.waiting("a", &up), Waiting::Met);
    assert_eq!(r.waiting("a", &WaitFor::Exit), Waiting::Pending);
    let late = r.wait_answer("1", "a", &WaitFor::Exit, true);
    assert_eq!(json::get_flag(late.data.as_ref().unwrap(), "timed_out"), Some(true));
    exit(&mut r, "a", 3, 2);
    assert_eq!(r.waiting("a", &WaitFor::Exit), Waiting::Met);
    let done = r.wait_answer("1", "a", &WaitFor::Exit, false);
    let data = done.data.as_ref().unwrap();
    assert_eq!(json::get_number(data, "exit_code"), Some(3));
    assert_eq!(json::get_array(data, "logs").unwrap().len(), 1);
    assert!(json::get(data, "timed_out").is_none());
    assert_eq!(wait_limit("1", &None).unwrap(), Duration::from_secs(120));
    assert_eq!(wait_limit("1", &Some("60s".to_string())).unwrap(), Duration::from_secs(60));
    assert!(wait_limit("1", &Some("x".to_string())).is_err());
}

#[test]
fn logs_are_filtered() {
    let mut r = root();
    start(&mut r, &run_args("a", &["x"]), 10, 0);
    r.log_output("a", 1, at(3), Stream::Stdout, "third".to_string());
    r.log_output("a", 1, at(1), Stream::Stderr, "first ERROR".to_string());
    r.log_output("a", 1, at(2), Stream::ProbeStderr, "probe".to_string());
    let all = r.collect_logs(&Some(logs_args("a")), &none()).unwrap();
    let texts: Vec<&str> = all.iter().map(|l| l.content.as_str()).collect();
    assert_eq!(texts, vec!["first ERROR", "third"]);
    let mut q = logs_args("a");
    q.grep = Some("error".to_string());
    assert_eq!(r.collect_logs(&Some(q), &none()).unwrap().len(), 1);
    let mut q = logs_args("a");
    q.tail = Some(1);
    assert_eq!(r.collect_logs(&Some(q), &none()).unwrap()[0].content, "third");
    let mut q = logs_args("a");
    q.probe = true;
    assert_eq!(r.collect_logs(&Some(q), &none()).unwrap()[0].content, "probe");
    let mut q = logs_args("a");
    q.since = Some(at(2).to_rfc3339());
    assert_eq!(r.collect_logs(&Some(q), &none()).unwrap().len(), 1);
    let mut q = logs_args("a");
    q.until = Some("x".to_string());
    assert!(r.collect_logs(&Some(q), &none()).unwrap_err().starts_with("invalid until timestamp"));
    let a = r.handle_logs("1", &Some(logs_args("b")), &none());
    assert_eq!(message(&a), "process 'b' not found");
    assert_eq!(r.begin_follow("1", &Some(logs_args("a"))).unwrap().len(), 2);
}

#[test]
fn instances_of_a_template_share_a_log() {
    let mut r = root();
    let p = loaded("[w]\ncommand = \"w\"\nsingleton = false\n");
    start_unit(&mut r, &p, "w", vec![], 10);
    start_unit(&mut r, &p, "w", vec![], 11);
    r.log_output("w.2", 1, at(1), Stream::Stdout, "b".to_string());
    r.log_output("w.1", 1, at(2), Stream::Stdout, "a".to_string());
    let all = r.collect_logs(&Some(logs_args("w")), &p).unwrap();
    assert_eq!(all[0].content, "[w.2] b");
    assert_eq!(all[1].content, "[w.1] a");
}

#[test]
fn only_what_is_new_since_the_last_request() {
    let mut r = root();
    start(&mut r, &run_args("a", &["x"]), 10, 0);
    r.log_output("a", 1, at(1), Stream::Stdout, "old".to_string());
    let mut q = logs_args("a");
    q.since = Some("last".to_string());
    let first = r.note_logs_asked(q, at(2));
    assert!(first.since.is_none());
    assert_eq!(r.collect_logs(&Some(first), &none()).unwrap().len(), 1);
    r.log_output("a", 1, at(3), Stream::Stdout, "new".to_string());
    let mut q = logs_args("a");
    q.since = Some("last".to_string());
    let second = r.note_logs_asked(q, at(4));
    let lines = r.collect_logs(&Some(second), &none()).unwrap();
    assert_eq!(lines.len(), 1);
    assert_eq!(lines[0].content, "new");
}

#[test]
fn input_reaches_interactive_processes_only() {
    let mut r = root();
    start(&mut r, &run_args("a", &["cat"]), 10, 0);
    let send = |input: Option<&str>, eof: bool| {
        Some(SendArgs { name: "a".to_string(), input: input.map(|s| s.to_string()), eof })
    };
    match r.begin_send("1", &send(Some("x"), false)) {
        SendStep::Answer(a) => assert_eq!(a.error_code, Some(ErrorCode::NotInteractive)),
        x => panic!("{:?}", x),
    }
    let mut r = root();
    let mut a = run_args("a", &["cat"]);
    a.interactive = true;
    start(&mut r, &a, 10, 0);
    match r.begin_send("1", &send(Some("x\n"), false)) {
        SendStep::Write(t) => assert_eq!(t, "x\n"),
        x => panic!("{:?}", x),
    }
    assert!(matches!(r.begin_send("1", &send(None, true)), SendStep::Close(_)));
    match r.begin_send("1", &send(Some("x"), false)) {
        SendStep::Answer(a) => assert_eq!(a.error_code, Some(ErrorCode::StdinClosed)),
        x => panic!("{:?}", x),
    }
    assert!(send_answer("1", "a", "x", &WriteResult::Done).ok);
    let a = send_answer("1", "a", "x", &WriteResult::TimedOut);
    assert_eq!(message(&a), "write to stdin timed out (pipe buffer full?)");
    assert!(wait_write_answer("1", &WriteResult::Done).is_none());
    assert!(wait_write_answer("1", &WriteResult::Failed("x".to_string())).is_some());
}

#[test]
fn a_blocking_send_has_limits_and_a_prompt() {
    let mut r = root();
    let mut a = run_args("a", &["cat"]);
    a.interactive = true;
    start(&mut r, &a, 10, 0);
    let mut w = SendWaitArgs {
        name: "a".to_string(),
        input: "x".to_string(),
        timeout: None,
        idle_timeout: None,
        prompt: None,
    };
    match r.begin_send_wait("1", &Some(w)) {
        WaitStep::Write(_, all, idle) => {
            assert_eq!(all, Duration::from_secs(5));
            assert_eq!(idle, Duration::from_millis(200));
        }
        x => panic!("{:?}", x),
    }
    w = SendWaitArgs {
        name: "a".to_string(),
        input: "x".to_string(),
        timeout: Some("ages".to_string()),
        idle_timeout: None,
        prompt: None,
    };
    match r.begin_send_wait("1", &Some(w)) {
        WaitStep::Answer(a) => assert!(message(&a).starts_with("invalid timeout")),
        x => panic!("{:?}", x),
    }
    let line = |s: &str| LogLine { timestamp: at(0), stream: Stream::Stdout, content: s.to_string() };
    let mut c = Collector::new(&Some("READY>".to_string()));
    assert!(!c.take_line(&line("4")));
    assert!(c.take_line(&line("ready> ")));
    let a = c.answer("1", "a");
    assert_eq!(json::get_flag(a.data.as_ref().unwrap(), "matched_prompt"), Some(true));
}

#[test]
fn ended_processes_can_be_forgotten() {
    let mut r = root();
    start(&mut r, &run_args("a", &["x"]), 10, 0);
    start(&mut r, &run_args("b", &["x"]), 11, 0);
    start(&mut r, &run_args("c", &["x"]), 12, 0);
    exit(&mut r, "a", 0, 1);
    exit(&mut r, "c", 1, 1);
    let a = r.handle_clean("1");
    assert_eq!(json::get_number(a.data.as_ref().unwrap(), "removed"), Some(2));
    assert!(r.entry("a").is_none());
    assert!(r.is_running("b"));
    let a = r.handle_clean("1");
    assert_eq!(json::get_number(a.data.as_ref().unwrap(), "removed"), Some(0));
}

#[test]
fn teardown_kills_the_newest_first() {
    let mut r = root();
    start(&mut r, &run_args("a", &["x"]), 10, 0);
    start(&mut r, &run_args("b", &["x"]), 11, 0);
    let order: Vec<(String, Option<u32>)> = r.begin_teardown();
    assert_eq!(order, vec![("b".to_string(), Some(11)), ("a".to_string(), Some(10))]);
    assert!(r.is_shutting_down());
    match r.begin_run("1", &Some(run_args("c", &["x"])), &none()) {
        RunStep::Answer(a) => assert_eq!(a.error_code, Some(ErrorCode::ShuttingDown)),
        x => panic!("{:?}", x),
    }
    assert!(SharedRoot::down_answer("1").ok);
}

#[test]
fn the_main_process_ends_the_root() {
    let mut r = root();
    let e = prepare_main(vec!["bash".to_string()]);
    r.commit_main(e, Some(5), at(0));
    assert!(matches!(exit(&mut r, "main", 7, 1), ExitStep::EndRoot(7)));
    assert_eq!(exit_code(Ending::Exit(7)), 7);
    assert_eq!(exit_code(Ending::Interrupted), 130);
    assert_eq!(exit_code(Ending::Terminated), 143);
    let given = Some(vec!["vim".to_string()]);
    assert_eq!(pick_main_command(given, None, "/bin/sh"), vec!["vim"]);
    assert_eq!(pick_main_command(None, Some("/bin/zsh".to_string()), "/bin/sh"), vec!["/bin/zsh"]);
    assert_eq!(pick_main_command(None, None, "/bin/sh"), vec!["/bin/sh"]);
    assert!(boot_failure("db", &Response::ok("1", None)).is_none());
    assert!(boot_failure("db", &Response::err("1", "no")).unwrap().contains("db"));
}

#[test]
fn sub_roots_register_with_their_parent() {
    let mut r = root();
    let p = loaded("[inst]\ncommand = \"work\"\nsub_root = true\n");
    start_unit(&mut r, &p, "inst", vec![], 90);
    let e = r.entry("inst").unwrap();
    assert_eq!(
        e.command,
        vec!["psy", "up", "--parent", "/tmp/psy.sock", "--name", "inst", "--", "sh", "-c", "work"]
    );
    let args = |name: &str, path: &str, pid: u32| {
        Some(RegisterSubrootArgs { name: name.to_string(), socket_path: path.to_string(), pid })
    };
    let above = vec![1, 77, 90];
    let a = r.register_subroot("1", &args("inst", "/i.sock", 90), &vec![1, 90], at(1));
    assert_eq!(message(&a), "sub-root pid 90 is not a descendant of parent psy pid 77");
    assert_eq!(a.error_code, Some(ErrorCode::SubrootUnauthorized));
    let a = r.register_subroot("1", &args("inst", "/i.sock", 91), &above, at(1));
    assert_eq!(a.error_code, Some(ErrorCode::SubrootUnauthorized));
    let a = r.register_subroot("1", &args("inst", "", 90), &above, at(1));
    assert_eq!(message(&a), "sub-root socket_path must not be empty");
    assert_eq!(a.error_code, Some(ErrorCode::InvalidArgs));
    assert!(!r.register_subroot("1", &None, &above, at(1)).ok);
    let a = r.register_subroot("1", &args("a b", "/i.sock", 90), &above, at(1));
    assert_eq!(a.error_code, Some(ErrorCode::InvalidName));
    assert!(r.register_subroot("1", &args("inst", "/i.sock", 90), &above, at(1)).ok);
    let ps = r.handle_ps_at(&at(1));
    assert!(ps.processes[0].is_subroot);
    assert_eq!(ps.processes[0].subroot_socket.as_ref().unwrap(), "/i.sock");
    assert!(r.register_subroot("1", &args("other", "/o.sock", 95), &above, at(1)).ok);
    assert!(r.is_running("other"));
    start(&mut r, &run_args("plain", &["x"]), 96, 0);
    let a = r.register_subroot("1", &args("plain", "/p.sock", 96), &above, at(1));
    assert_eq!(a.error_code, Some(ErrorCode::NotASubroot));
}

#[test]
fn children_learn_where_their_root_is() {
    let mut r = root();
    start(&mut r, &run_args("a", &["prog", "arg"]), 10, 0);
    let plan = r.entry("a").unwrap().spawn_plan("/s", 5, false, false).unwrap();
    assert_eq!(plan.program, "prog");
    assert_eq!(plan.args, vec!["arg"]);
    assert!(plan.env.contains(&("PSY_SOCK".to_string(), "/s".to_string())));
    assert!(plan.env.contains(&("PSY_ROOT_PID".to_string(), "5".to_string())));
    let mut bad = prepare_main(vec![]);
    bad.env = NameMap::new();
    assert_eq!(bad.spawn_plan("/s", 5, false, false).unwrap_err(), "empty command");
}

#[test]
fn a_follower_is_sent_what_passes() {
    let line = LogLine { timestamp: at(0), stream: Stream::Stderr, content: "Bad Gateway".to_string() };
    let mut a = logs_args("a");
    assert!(follow_passes(&line, &a, None, &Search::Any));
    assert!(follow_passes(&line, &a, Some(at(0)), &Search::Any));
    assert!(!follow_passes(&line, &a, Some(at(1)), &Search::Any));
    assert!(follow_passes(&line, &a, None, &Search::new(Some("gate"))));
    assert!(!follow_passes(&line, &a, None, &Search::new(Some("door"))));
    a.stream = StreamFilter::Stdout;
    assert!(!follow_passes(&line, &a, None, &Search::Any));
    let sent = follow_line("7", "a", &line);
    assert_eq!(sent.id, "7");
    assert_eq!(sent.name, "a");
    assert_eq!(sent.timestamp, "2023-11-14T22:13:20+00:00");
    assert_eq!(sent.content, "Bad Gateway");
}

#[test]
fn an_attached_client_is_told_of_the_end() {
    let mut r = root();
    let mut a = run_args("a", &["cat"]);
    a.interactive = true;
    start(&mut r, &a, 10, 0);
    assert!(r.takes_attached_input("a"));
    assert!(!r.takes_attached_input("b"));
    assert_eq!(r.detach_notice("a").exit_code, None);
    exit(&mut r, "a", 3, 1);
    let n = r.detach_notice("a");
    assert!(n.detached);
    assert_eq!(n.reason, "exited");
    assert_eq!(n.exit_code, Some(3));
    assert_eq!(r.detach_notice("b").exit_code, None);
}

#[test]
fn a_process_that_cannot_be_started_again_has_failed() {
    let mut r = root();
    start(&mut r, &run_args("a", &["x"]), 10, 0);
    r.fail_respawn("b");
    assert_eq!(r.entry("a").unwrap().state, ProcessState::Running);
    r.fail_respawn("a");
    assert_eq!(r.entry("a").unwrap().state, ProcessState::Failed);
}

#[test]
fn a_health_check_waits_for_a_ready_process() {
    let mut r = root();
    start(&mut r, &run_args("a", &["x"]), 10, 0);
    assert_eq!(r.healthcheck_waits("a"), Some(false));
    assert_eq!(r.healthcheck_waits("b"), None);
    let p = loaded("[web]\ncommand = \"w\"\nready = { tcp = \":80\" }\n");
    start_unit(&mut r, &p, "web", vec![], 11);
    assert_eq!(r.healthcheck_waits("web"), Some(true));
}

#[test]
fn a_new_template_has_instances_left() {
    assert!(root().instances_left("worker"));
}

#[test]
fn a_pattern_that_cannot_be_read_is_refused() {
    let mut r = root();
    start(&mut r, &run_args("a", &["x"]), 10, 0);
    r.log_output("a", 1, at(1), Stream::Stdout, "Error: read timeout".to_string());
    r.log_output("a", 1, at(2), Stream::Stdout, "all good".to_string());
    let mut a = logs_args("a");
    a.grep = Some("err.*timeout".to_string());
    let found = r.collect_logs(&Some(a), &none()).unwrap();
    assert_eq!(found.len(), 1);
    assert_eq!(found[0].content, "Error: read timeout");
    let mut a = logs_args("a");
    a.grep = Some("(".to_string());
    let refused = r.handle_logs("1", &Some(a), &none());
    assert!(message(&refused).starts_with("invalid grep pattern: "));
    assert_eq!(refused.error_code, Some(ErrorCode::InvalidArgs));
    let mut a = logs_args("a");
    a.grep = Some("(".to_string());
    let refused = r.begin_follow("1", &Some(a)).unwrap_err();
    assert!(message(&refused).starts_with("invalid grep pattern: "));
}

#[test]
fn dependencies_come_up_one_after_the_other() {
    let mut r = root();
    let p = loaded(
        "[db]\ncommand = \"d\"\nready = { tcp = \":1\" }\n[cache]\ncommand = \"c\"\n[api]\ncommand = \"a\"\ndepends_on = [\"db\", \"cache\"]\n",
    );
    let mut s = Start::unit(vec!["db".to_string(), "cache".to_string()]);
    assert!(matches!(s.next(&r, &p), StartStep::Run(n) if n == "db"));
    start_unit(&mut r, &p, "db", vec![], 10);
    assert!(s.started("1", &Response::ok("1", None)).is_none());
    match s.next(&r, &p) {
        StartStep::Wait(n, d) => {
            assert_eq!(n, "db");
            assert_eq!(d, Duration::from_secs(30));
        }
        x => panic!("{:?}", x),
    }
    assert!(s.waited("1", true).is_none());
    assert!(matches!(s.next(&r, &p), StartStep::Run(n) if n == "cache"));
    let failed = s.started("1", &Response::err("1", "spawn failed: no")).unwrap();
    assert_eq!(message(&failed), "failed to start dependency 'cache': spawn failed: no");
    start_unit(&mut r, &p, "cache", vec![], 11);
    assert!(matches!(s.next(&r, &p), StartStep::Go));
}

#[test]
fn dependencies_of_a_command_are_only_waited_for() {
    let mut r = root();
    let p = loaded("[db]\ncommand = \"d\"\nready = { tcp = \":1\" }\n");
    start_unit(&mut r, &p, "db", vec![], 10);
    let deps = vec![
        DependencyArg { name: "gone".to_string(), restart: false },
        DependencyArg { name: "db".to_string(), restart: false },
    ];
    let mut s = Start::adhoc(&deps);
    assert!(matches!(s.next(&r, &none()), StartStep::Wait(n, _) if n == "db"));
    let late = s.waited("1", false).unwrap();
    assert_eq!(message(&late), "dependency 'db' readiness probe timed out");
    assert!(matches!(s.next(&r, &none()), StartStep::Go));
}

#[test]
fn the_running_ones_are_found_in_order() {
    let mut r = root();
    start(&mut r, &run_args("b", &["x"]), 10, 0);
    start(&mut r, &run_args("d", &["x"]), 11, 0);
    let names: Vec<String> = ["a", "b", "c", "d"].iter().map(|s| s.to_string()).collect();
    assert_eq!(r.next_running(&names, 0), Some(1));
    assert_eq!(r.next_running(&names, 2), Some(3));
    assert_eq!(r.next_running(&names, 4), None);
    assert_eq!(r.next_running(&names, 9), None);
}

#[test]
fn a_text_is_looked_for_whatever_the_case() {
    let lines = vec![LogLine { timestamp: at(0), stream: Stream::Stdout, content: "LISTENING on .*".to_string() }];
    assert!(any_line_with(&lines, "listening ON"));
    assert!(any_line_with(&lines, ".*"));
    assert!(!any_line_with(&lines, "l.*g"));
}

#[test]
fn units_run_in_the_shell_of_the_system() {
    let mut r = SharedRoot::new("/s".to_string(), 77, System::Windows);
    let p = loaded("[web]\ncommand = \"serve\"\n[sub]\ncommand = \"work\"\nsub_root = true\n");
    start_unit(&mut r, &p, "web", vec![], 10);
    assert_eq!(r.entry("web").unwrap().command, vec!["cmd", "/C", "serve"]);
    start_unit(&mut r, &p, "sub", vec![], 11);
    assert_eq!(
        r.entry("sub").unwrap().command,
        vec!["psy", "up", "--parent", "/s", "--name", "sub", "--", "cmd", "/C", "work"]
    );
    let args = Some(RestartArgs { name: "web".to_string() });
    match r.begin_restart("1", &args, &p, &NameMap::new()) {
        RestartStep::One(_, s) => assert_eq!(s.command, vec!["cmd", "/C", "serve"]),
        x => panic!("{:?}", x),
    }
}

#[test]
fn an_interactive_process_stays_interactive() {
    let mut r = root();
    let p = loaded("[repl]\ncommand = \"cat\"\ninteractive = true\nrestart = \"on-failure\"\n");
    start_unit(&mut r, &p, "repl", vec![], 10);
    let args = Some(RestartArgs { name: "repl".to_string() });
    let s = match r.begin_restart("1", &args, &p, &NameMap::new()) {
        RestartStep::One(_, s) => s,
        x => panic!("{:?}", x),
    };
    assert!(s.interactive);
    let e = r.prepare_restart(s);
    r.commit_spawn("1", e, Some(11), at(1), false, true);
    assert!(matches!(exit(&mut r, "repl", 1, 2), ExitStep::Restart(_)));
    let plan = r.begin_respawn("repl").unwrap().unwrap();
    assert_eq!(plan.stdin, StdinMode::Piped);
    r.commit_respawn("repl", Some(12), at(3));
    assert!(r.entry("repl").unwrap().interactive);
    assert!(r.takes_attached_input("repl"));
    let mut a = run_args("adhoc", &["cat"]);
    a.interactive = true;
    start(&mut r, &a, 20, 0);
    let args = Some(RestartArgs { name: "adhoc".to_string() });
    match r.begin_restart("1", &args, &p, &NameMap::new()) {
        RestartStep::One(_, s) => assert!(s.interactive),
        x => panic!("{:?}", x),
    };
}

#[test]
fn instance_numbers_are_not_used_twice() {
    let mut r = root();
    let p = loaded("[client]\ncommand = \"c\"\nsingleton = false\n");
    start_unit(&mut r, &p, "client", vec![], 10);
    start_unit(&mut r, &p, "client", vec![], 11);
    exit(&mut r, "client.2", 0, 1);
    r.handle_clean("1");
    assert!(r.entry("client.2").is_none());
    start_unit(&mut r, &p, "client", vec![], 12);
    assert!(r.is_running("client.3"));
    assert_eq!(r.entry("client.3").unwrap().env.get("PSY_INSTANCE").unwrap(), "3");
}

use psy::api::{binds, boot_units, check_sub_root, extract_name, extract_quoted, format_duration};
use psy::api::{healthcheck_to_arg, log_page, logs_args, ready_probe_to_arg, removed, reply};
use psy::api::{spawn_args, spawn_handle, status, stream_kind_from_str, subroot_spawn, unit_args};
use psy::api::{DependencyRef, HealthCheck, LogsQuery, PsyError, ReadyProbe, RootOptions};
use psy::api::{SocketBinding, Spawn, SubRootKind, SubRootOptions, WaitFor};
use psy::json;
use psy::platform::System;
use psy::protocol::{ErrorCode, ProbeKindArg, Response, RestartPolicy, StreamFilter, StreamKind};
use psy::psyfile::{parse_duration, parse_str};
use psy::root::input::WriteResult;
use psy::root::handle::write_result;
use psy::root::run::prepare_adhoc;
use psy::root::life::ExitInfo;
use psy::root::SharedRoot;
use psy::time::{Duration, Timestamp};

fn texts(v: &[&str]) -> Vec<String> {
    v.iter().map(|s| s.to_string()).collect()
}

fn at(secs: i64) -> Timestamp {
    Timestamp::new(1_700_000_000 + secs, 0).unwrap()
}

#[test]
fn errors_are_read_from_answers() {
    let e = PsyError::from_response(Some(ErrorCode::AlreadyExists), "process 'web' is already running".to_string());
    assert!(matches!(&e, PsyError::AlreadyExists { name } if name == "web"));
    assert_eq!(e.to_string(), "process 'web' is already running");
    let e = PsyError::from_response(Some(ErrorCode::NotFound), "process 'web' not found".to_string());
    assert!(matches!(&e, PsyError::NotFound { name } if name == "web"));
    let e = PsyError::from_response(
        Some(ErrorCode::PortAllocationFailed),
        "failed to allocate port 'http': in use".to_string(),
    );
    assert!(matches!(&e, PsyError::PortAllocationFailed { port_name } if port_name == "http"));
    let e = PsyError::from_response(Some(ErrorCode::ShuttingDown), "server is shutting down".to_string());
    assert!(matches!(e, PsyError::ShuttingDown));
    let e = PsyError::from_response(Some(ErrorCode::PsyfileError), "Psyfile error: x".to_string());
    assert!(matches!(e, PsyError::PsyfileError(_)));
    let e = PsyError::from_response(Some(ErrorCode::Other), "odd".to_string());
    assert!(matches!(e, PsyError::Other(m) if m == "odd"));
}

#[test]
fn names_are_found_between_quotes() {
    assert_eq!(extract_quoted("process 'a' is").unwrap(), "a");
    assert!(extract_quoted("process a").is_none());
    assert!(extract_quoted("process 'a").is_none());
    assert_eq!(extract_name("process 'b' x"), "b");
}

#[test]
fn replies_carry_data_or_an_error() {
    let data = json::read(r#"{"removed":3}"#).unwrap();
    let d = reply(Response::ok("1", Some(data)), "x").unwrap();
    assert_eq!(removed(&d), 3);
    assert_eq!(removed(&None), 0);
    assert!(matches!(
        reply(Response::err("1", "process 'a' not found"), "x"),
        Err(PsyError::NotFound { .. })
    ));
}

#[test]
fn sub_roots_run_in_process_only() {
    assert!(check_sub_root(&SubRootOptions::new("a")).is_ok());
    let out = SubRootOptions::new("a").with_kind(SubRootKind::OutOfProcess { binary: None });
    assert!(matches!(check_sub_root(&out), Err(PsyError::Other(_))));
    assert!(!binds(&SocketBinding::Off));
    assert!(binds(&SocketBinding::Auto));
    assert!(binds(&SocketBinding::Path("/x".to_string())));
}

#[test]
fn boot_units_come_from_the_options() {
    let o = RootOptions::new("host").with_boot_all(true);
    assert!(o.boot_all);
    let p = Ok(Some(parse_str("[b]\ncommand = \"b\"\n[a]\ncommand = \"a\"\n").unwrap()));
    assert_eq!(boot_units(true, vec![], &p, false).unwrap(), vec!["a", "b"]);
    assert_eq!(boot_units(false, texts(&["b"]), &p, false).unwrap(), vec!["b"]);
    assert!(boot_units(false, vec![], &p, false).unwrap().is_empty());
}

#[test]
fn a_spawn_becomes_a_request() {
    let s = Spawn::new("api", texts(&["./api"]))
        .with_cwd("/srv".to_string())
        .with_env(vec![("K".to_string(), "V".to_string())])
        .with_restart(RestartPolicy::OnFailure)
        .with_interactive(true)
        .with_ports(vec![("http".to_string(), Some(80))])
        .with_depends_on(vec![DependencyRef::new("db").with_restart(true)])
        .with_metadata(vec![("team".to_string(), "x".to_string())])
        .with_wait_for(WaitFor::Log { pattern: "up".to_string() })
        .with_wait_timeout(Duration::from_millis(1500))
        .with_raw_stdio(true)
        .with_ready(ReadyProbe::Tcp {
            addr: "localhost:5432".to_string(),
            interval: Some(Duration::from_millis(500)),
            timeout: None,
            retries: Some(3),
        });
    let a = spawn_args(s);
    assert_eq!(a.name, "api");
    assert_eq!(a.command, vec!["./api"]);
    assert_eq!(a.cwd.unwrap(), "/srv");
    assert_eq!(a.env.get("K").unwrap(), "V");
    assert_eq!(a.restart, RestartPolicy::OnFailure);
    assert!(a.interactive && a.raw_stdio);
    assert_eq!(a.ports[0].default, Some(80));
    assert!(a.depends_on[0].restart);
    assert_eq!(a.metadata.get("team").unwrap(), "x");
    assert_eq!(a.wait_timeout.unwrap(), "1500ms");
    let r = a.ready.unwrap();
    assert!(matches!(&r.kind, ProbeKindArg::Tcp { addr } if addr == "localhost:5432"));
    assert_eq!(r.interval.unwrap(), "500ms");
    assert_eq!(r.retries, Some(3));
    assert_eq!(unit_args("db").name, "db");
    let s = subroot_spawn("inst", None, &texts(&["--all"]));
    assert_eq!(s.name, "inst");
    assert!(s.argv.contains(&"up".to_string()));
    assert!(s.argv.contains(&"--all".to_string()));
}

#[test]
fn durations_read_back() {
    for d in [Duration::from_secs(5), Duration::from_millis(1500), Duration::from_secs(7200)] {
        assert_eq!(parse_duration(&format_duration(d)).unwrap(), d);
    }
}

#[test]
fn probes_become_arguments() {
    let p = ready_probe_to_arg(ReadyProbe::Exit { code: 3, timeout: Some(Duration::from_secs(2)) });
    assert!(matches!(p.kind, ProbeKindArg::Exit { code: 3 }));
    assert_eq!(p.timeout.unwrap(), "2s");
    let p = healthcheck_to_arg(HealthCheck::Exec {
        command: "ok".to_string(),
        interval: None,
        timeout: None,
        retries: None,
    });
    assert!(matches!(&p.kind, ProbeKindArg::Exec { command } if command == "ok"));
}

#[test]
fn log_pages_are_read() {
    let mut q = LogsQuery::default();
    q.tail = Some(3);
    q.stream = StreamFilter::Stdout;
    q.since = Some(at(0));
    let a = logs_args("web", q);
    assert_eq!(a.since.unwrap(), at(0).to_rfc3339());
    let data = json::read(
        r#"{"lines":[{"timestamp":"2025-03-12T10:15:32.123+00:00","stream":"stderr","content":"x"}]}"#,
    )
    .unwrap();
    let page = log_page(&Some(data), &at(0)).unwrap();
    assert_eq!(page.lines.len(), 1);
    assert_eq!(page.lines[0].stream, StreamKind::Stderr);
    assert_eq!(page.lines[0].content, "x");
    assert_eq!(stream_kind_from_str("stdout"), Some(StreamKind::Stdout));
    assert_eq!(stream_kind_from_str("x"), None);
}

#[test]
fn handles_know_what_they_stand_for() {
    let data = json::read(r#"{"name":"a","pid":9,"ports":{"http":80,"bad":"x"}}"#).unwrap();
    let h = spawn_handle("a".to_string(), &Some(data), None);
    assert_eq!(h.pid, Some(9));
    assert_eq!(h.ports.get("http"), Some(&80));
    assert!(h.ports.get("bad").is_none());
    assert_eq!(spawn_handle("a".to_string(), &None, Some(4)).pid, Some(4));
    assert!(matches!(status(vec![], "a"), Err(PsyError::NotFound { .. })));
}

#[test]
fn a_handle_waits_kills_and_writes() {
    let mut r = SharedRoot::new("/s".to_string(), 1, System::Unix);
    let s = Spawn::new("a", texts(&["cat"])).with_interactive(true);
    let a = spawn_args(s);
    let q = prepare_adhoc("1", &a, &vec![]).unwrap();
    let e = r.prepare_spawn("1", q).unwrap();
    r.commit_spawn("1", e, Some(10), at(0), false, true);
    assert!(r.exit_status("a").unwrap().is_none());
    assert_eq!(r.pid_to_kill("a").unwrap(), 10);
    assert!(r.begin_write("a").is_ok());
    assert!(r.close_stdin("a").is_ok());
    assert!(r.begin_write("a").is_err());
    assert!(matches!(r.begin_write("b"), Err(PsyError::NotFound { .. })));
    assert_eq!(write_result(5, &WriteResult::Done).unwrap(), 5);
    assert!(write_result(5, &WriteResult::TimedOut).is_err());
    let run = r.begin_wait("a").unwrap();
    r.on_exit("a", run, ExitInfo { code: Some(3), signal: None }, at(1));
    assert_eq!(r.exit_status("a").unwrap().unwrap().exit_code, Some(3));
    assert_eq!(r.shutdown_code(), 3);
}

#[test]
fn errors_are_read_back_from_their_messages() {
    let name = || "web".to_string();
    let errors = [
        PsyError::AlreadyExists { name: name() },
        PsyError::NotFound { name: name() },
        PsyError::InvalidName { name: "a b!".to_string() },
        PsyError::ShuttingDown,
    ];
    for e in errors {
        let m = e.to_string();
        let back = PsyError::from_response(Some(ErrorCode::classify_message(&m)), m);
        assert_eq!(format!("{:?}", back), format!("{:?}", e));
    }
}

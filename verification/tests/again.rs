use psy::names::NameMap;
use psy::platform::System;
use psy::protocol::{DependencyArg, PortDefArg, ProbeArg, ProbeKindArg, RestartArgs, RestartPolicy, RunArgs};
use psy::psyfile::{parse_str, ProbeKind, Psyfile};
use psy::root::cascade::cascade_restarts;
use psy::root::control::RestartStep;
use psy::root::input::{send_answer, WriteResult};
use psy::root::life::{ExitInfo, ExitStep};
use psy::root::run::{prepare_adhoc, SpawnRequest};
use psy::root::SharedRoot;
use psy::time::Timestamp;

type Loaded = Result<Option<Psyfile>, String>;

fn at(secs: i64) -> Timestamp {
    Timestamp::new(1_700_000_000 + secs, 0).unwrap()
}

fn root() -> SharedRoot {
    SharedRoot::new("/s".to_string(), 77, System::Unix)
}

fn texts(s: &[&str]) -> Vec<String> {
    s.iter().map(|s| s.to_string()).collect()
}

fn names(s: &[(&str, &str)]) -> NameMap<String> {
    let mut m = NameMap::new();
    for (k, v) in s {
        m.insert(k.to_string(), v.to_string());
    }
    m
}

fn run_args(name: &str, command: &[&str]) -> RunArgs {
    RunArgs {
        name: name.to_string(),
        command: texts(command),
        restart: RestartPolicy::No,
        env: NameMap::new(),
        attach: false,
        interactive: false,
        raw_stdio: false,
        extra_args: None,
        wait_for: None,
        wait_timeout: None,
        ports: vec![],
        cwd: None,
        ready: None,
        healthcheck: None,
        depends_on: vec![],
        metadata: NameMap::new(),
    }
}

fn loaded(text: &str) -> Loaded {
    Ok(Some(parse_str(text).unwrap()))
}

fn go(r: &mut SharedRoot, s: SpawnRequest, pid: u32) {
    let (attach, interactive) = (s.attach, s.interactive);
    let e = r.prepare_spawn("1", s).unwrap();
    r.commit_spawn("1", e, Some(pid), at(0), attach, interactive);
}

fn start(r: &mut SharedRoot, a: &RunArgs, ports: &[(&str, u16)], pid: u32) {
    let given = ports.iter().map(|(n, p)| (n.to_string(), *p)).collect();
    let s = prepare_adhoc("1", a, &given).unwrap();
    go(r, s, pid);
}

fn start_unit(r: &mut SharedRoot, p: &Loaded, a: &RunArgs, ports: &[(&str, u16)], pid: u32) {
    let given = ports.iter().map(|(n, p)| (n.to_string(), *p)).collect();
    let s = match p {
        Ok(Some(f)) => r.prepare_unit(a, f.units.get(&a.name).unwrap(), &NameMap::new(), &given),
        _ => panic!("no units"),
    };
    go(r, s, pid);
}

fn again(r: &mut SharedRoot, p: &Loaded, name: &str) -> SpawnRequest {
    let args = Some(RestartArgs { name: name.to_string() });
    match r.begin_restart("1", &args, p, &NameMap::new()) {
        RestartStep::One(_, s) => s,
        x => panic!("{:?}", x),
    }
}

fn depends(name: &str, restart: bool) -> DependencyArg {
    DependencyArg { name: name.to_string(), restart }
}

#[test]
fn a_command_restarts_as_it_was_asked_for() {
    let mut r = root();
    let mut a = run_args("w", &["prog", "--flag"]);
    a.restart = RestartPolicy::Always;
    a.env = names(&[("A", "1")]);
    a.cwd = Some("/work".to_string());
    a.interactive = true;
    a.attach = true;
    a.ports = vec![PortDefArg { name: "http".to_string(), default: None }];
    a.metadata = names(&[("team", "x")]);
    a.ready = Some(ProbeArg {
        kind: ProbeKindArg::Tcp { addr: "127.0.0.1:${port.http}".to_string() },
        interval: Some("1s".to_string()),
        timeout: Some("9s".to_string()),
        retries: None,
    });
    a.healthcheck = Some(ProbeArg {
        kind: ProbeKindArg::Exec { command: "true".to_string() },
        interval: None,
        timeout: None,
        retries: Some(4),
    });
    start(&mut r, &a, &[("http", 5001)], 10);
    let s = again(&mut r, &Ok(None), "w");
    assert_eq!(s.command, vec!["prog", "--flag"]);
    assert_eq!(s.restart, RestartPolicy::Always);
    assert_eq!(s.env.get("A").unwrap(), "1");
    assert_eq!(s.env.get("PSY_PORT_HTTP").unwrap(), "5001");
    assert_eq!(s.working_dir.as_ref().unwrap(), "/work");
    assert!(s.interactive);
    assert!(!s.attach);
    assert_eq!(s.ports, vec![("http".to_string(), 5001)]);
    assert_eq!(s.metadata.get("team").unwrap(), "x");
    let ready = s.ready.as_ref().unwrap();
    assert!(matches!(&ready.probe, ProbeKind::Tcp(t) if t == "127.0.0.1:5001"));
    assert_eq!(ready.timeout.secs, 9);
    assert_eq!(s.healthcheck.as_ref().unwrap().retries, Some(4));
    let e = r.prepare_restart(s);
    r.commit_spawn("1", e, Some(11), at(1), false, true);
    let s = again(&mut r, &Ok(None), "w");
    assert!(s.ready.is_some() && s.healthcheck.is_some());
    assert_eq!(s.asked.env.get("A").unwrap(), "1");
}

#[test]
fn a_unit_restarts_with_what_the_request_added() {
    let mut r = root();
    let p = loaded("[test]\ncommand = \"cargo test\"\nenv = { A = \"1\", B = \"2\" }\n");
    let mut a = run_args("test", &[]);
    a.extra_args = Some(texts(&["--release"]));
    a.env = names(&[("B", "3"), ("C", "4")]);
    a.restart = RestartPolicy::OnFailure;
    a.interactive = true;
    a.metadata = names(&[("k", "v")]);
    start_unit(&mut r, &p, &a, &[], 10);
    let before = r.entry("test").unwrap().command.clone();
    assert!(before[2].starts_with("cargo test") && before[2].contains("--release"));
    let s = again(&mut r, &p, "test");
    assert_eq!(s.command, before);
    assert_eq!(s.env.get("A").unwrap(), "1");
    assert_eq!(s.env.get("B").unwrap(), "3");
    assert_eq!(s.env.get("C").unwrap(), "4");
    assert_eq!(s.restart, RestartPolicy::OnFailure);
    assert!(s.interactive);
    assert_eq!(s.metadata.get("k").unwrap(), "v");
    let e = r.prepare_restart(s);
    r.commit_spawn("1", e, Some(11), at(1), false, true);
    let q = loaded("[test]\ncommand = \"make test\"\nenv = { A = \"9\" }\n");
    let s = again(&mut r, &q, "test");
    assert!(s.command[2].starts_with("make test") && s.command[2].contains("--release"));
    assert_eq!(s.env.get("A").unwrap(), "9");
    assert_eq!(s.env.get("B").unwrap(), "3");
}

#[test]
fn an_instance_keeps_its_number() {
    let mut r = root();
    let p = loaded("[w]\ncommand = \"w\"\nsingleton = false\n");
    let mut a = run_args("w", &[]);
    a.extra_args = Some(texts(&["--shard"]));
    start_unit(&mut r, &p, &a, &[], 10);
    start_unit(&mut r, &p, &a, &[], 11);
    let s = again(&mut r, &p, "w.2");
    assert_eq!(s.name, "w.2");
    assert_eq!(s.env.get("PSY_INSTANCE").unwrap(), "2");
    assert!(s.command[2].contains("--shard"));
    assert_eq!(again(&mut r, &Ok(None), "w.1").env.get("PSY_INSTANCE").unwrap(), "1");
}

#[test]
fn a_restart_asks_for_the_ports_again() {
    let mut r = root();
    let p = loaded("[web]\ncommand = \"serve ${port.http}\"\nports = [\"http\"]\n");
    start_unit(&mut r, &p, &run_args("web", &[]), &[("http", 5001)], 10);
    let s = again(&mut r, &p, "web");
    let wanted = s.ports_to_try();
    assert_eq!(wanted.len(), 1);
    assert_eq!(wanted[0].name, "http");
    assert_eq!(wanted[0].kept, None);
    assert_eq!(wanted[0].tries, vec![5001, 0]);
    let s = r.with_ports(s, &NameMap::new(), &vec![("http".to_string(), 5001)]);
    assert_eq!(s.command, vec!["sh", "-c", "serve 5001"]);
    let s = r.with_ports(s, &NameMap::new(), &vec![("http".to_string(), 6001)]);
    assert_eq!(s.command, vec!["sh", "-c", "serve 6001"]);
    assert_eq!(s.env.get("PSY_PORT_HTTP").unwrap(), "6001");
    assert_eq!(s.ports, vec![("http".to_string(), 6001)]);
}

#[test]
fn a_command_gets_a_fresh_port_where_its_own_was_taken() {
    let mut r = root();
    let mut a = run_args("w", &["prog"]);
    a.ports = vec![PortDefArg { name: "http".to_string(), default: Some(80) }];
    a.ready = Some(ProbeArg {
        kind: ProbeKindArg::Tcp { addr: "${port.http}".to_string() },
        interval: None,
        timeout: None,
        retries: None,
    });
    start(&mut r, &a, &[("http", 5001)], 10);
    let s = again(&mut r, &Ok(None), "w");
    assert_eq!(s.ports_to_try()[0].tries, vec![5001, 80, 0]);
    let s = r.with_ports(s, &NameMap::new(), &vec![("http".to_string(), 6001)]);
    assert_eq!(s.command, vec!["prog"]);
    assert_eq!(s.env.get("PSY_PORT_HTTP").unwrap(), "6001");
    let ready = s.ready.as_ref().unwrap();
    assert!(matches!(&ready.probe, ProbeKind::Tcp(t) if t.contains("6001") && !t.contains("5001")));
}

#[test]
fn a_process_that_restarts_by_itself_asks_for_its_ports_again() {
    let mut r = root();
    let p = loaded("[web]\ncommand = \"serve ${port.http}\"\nports = [\"http\"]\nrestart = \"always\"\n");
    start_unit(&mut r, &p, &run_args("web", &[]), &[("http", 5001)], 10);
    let run = r.begin_wait("web").unwrap();
    let step = r.on_exit("web", run, ExitInfo { code: Some(1), signal: None }, at(1));
    assert!(matches!(step, ExitStep::Restart(_)));
    assert_eq!(r.entry("web").unwrap().ports_to_try()[0].tries, vec![5001, 0]);
    r.take_ports("web", &NameMap::new(), &vec![("http".to_string(), 5001)]);
    assert_eq!(r.entry("web").unwrap().command, vec!["sh", "-c", "serve 5001"]);
    r.take_ports("web", &NameMap::new(), &vec![("http".to_string(), 6001)]);
    let plan = r.begin_respawn("web").unwrap().unwrap();
    assert_eq!(plan.args, vec!["-c", "serve 6001"]);
    assert!(plan.env.contains(&("PSY_PORT_HTTP".to_string(), "6001".to_string())));
    assert_eq!(r.entry("web").unwrap().ports, vec![("http".to_string(), 6001)]);
    r.take_ports("gone", &NameMap::new(), &vec![]);
    assert!(r.entry("gone").is_none());
}

#[test]
fn tags_stay_with_a_process_and_are_reported() {
    let mut r = root();
    let mut a = run_args("w", &["prog"]);
    a.metadata = names(&[("owner", "me"), ("rev", "7")]);
    start(&mut r, &a, &[], 10);
    assert_eq!(r.entry("w").unwrap().metadata.get("rev").unwrap(), "7");
    let ps = r.handle_ps_at(&at(1));
    assert_eq!(ps.processes[0].metadata.get("owner").unwrap(), "me");
    assert_eq!(ps.processes[0].metadata.len(), 2);
}

#[test]
fn restarts_cascade_to_processes_of_the_host() {
    let mut r = root();
    start(&mut r, &run_args("db", &["db"]), &[], 10);
    let mut web = run_args("web", &["web"]);
    web.depends_on = vec![depends("api", true), depends("db", true)];
    let mut api = run_args("api", &["api"]);
    api.depends_on = vec![depends("db", true)];
    let mut aside = run_args("aside", &["aside"]);
    aside.depends_on = vec![depends("db", false)];
    start(&mut r, &web, &[], 11);
    start(&mut r, &api, &[], 12);
    start(&mut r, &aside, &[], 13);
    assert_eq!(cascade_restarts(&Ok(None), &r, "db"), vec!["api", "web"]);
    assert_eq!(cascade_restarts(&Err("broken".to_string()), &r, "api"), vec!["web"]);
    assert!(cascade_restarts(&Ok(None), &r, "web").is_empty());
    assert!(cascade_restarts(&Ok(None), &r, "aside").is_empty());
}

#[test]
fn restarts_cascade_between_units_and_processes() {
    let mut r = root();
    let p = loaded(
        "[db]\ncommand = \"db\"\n[api]\ncommand = \"api\"\ndepends_on = [{ name = \"db\", restart = true }]\n\
         [w]\ncommand = \"w\"\nsingleton = false\ndepends_on = [{ name = \"api\", restart = true }]\n",
    );
    start_unit(&mut r, &p, &run_args("db", &[]), &[], 10);
    start_unit(&mut r, &p, &run_args("api", &[]), &[], 11);
    start_unit(&mut r, &p, &run_args("w", &[]), &[], 12);
    let mut host = run_args("host", &["host"]);
    host.depends_on = vec![depends("api", true), depends("gone", true)];
    start(&mut r, &host, &[], 13);
    assert_eq!(cascade_restarts(&p, &r, "db"), vec!["api", "w", "w.1", "host"]);
    assert_eq!(cascade_restarts(&p, &r, "gone"), vec!["host"]);
}

#[test]
fn a_circle_of_processes_restarts_each_once() {
    let mut r = root();
    let mut a = run_args("a", &["a"]);
    a.depends_on = vec![depends("b", true)];
    let mut b = run_args("b", &["b"]);
    b.depends_on = vec![depends("a", true)];
    start(&mut r, &a, &[], 10);
    start(&mut r, &b, &[], 11);
    assert_eq!(cascade_restarts(&Ok(None), &r, "a"), vec!["a", "b"]);
}

#[test]
fn a_process_without_stdin_is_named() {
    let a = send_answer("1", "w", "hi", &WriteResult::NoHandle("w".to_string()));
    assert_eq!(a.error.unwrap(), "no stdin handle for 'w'");
}

use psy::names::NameMap;
use psy::ports::{add_port_vars, allocation_failed, Allocation, candidates, find_previous, list_wanted};
use psy::ports::{numbers_by_name, port_env_of, put_in_probe, put_ports, units_named};
use psy::protocol::PortDefArg;
use psy::psyfile::{parse_str, ProbeConfig, ProbeKind};
use psy::time::Duration;

fn vars() -> NameMap<String> {
    let mut v = NameMap::new();
    add_port_vars(&mut v, &vec![("http".to_string(), 8080)], "");
    add_port_vars(&mut v, &vec![("pg".to_string(), 5432)], "@db");
    v
}

fn tcp(addr: &str) -> Option<ProbeConfig> {
    Some(ProbeConfig {
        probe: ProbeKind::Tcp(addr.to_string()),
        interval: Duration::from_secs(1),
        timeout: Duration::from_secs(30),
        retries: None,
    })
}

#[test]
fn references_name_other_units() {
    assert_eq!(units_named("w --a ${port.pg@db} ${port.http} ${port.x@api}"), vec!["db", "api"]);
    assert!(units_named("echo ${HOME} ${port.").is_empty());
}

#[test]
fn numbers_take_the_place_of_references() {
    assert_eq!(put_ports("a:${port.http} b:${port.pg@db}", &vars()), "a:8080 b:5432");
    assert_eq!(put_ports("${port.other} $X", &vars()), "${port.other} $X");
    assert_eq!(put_ports("plain", &NameMap::new()), "plain");
}

#[test]
fn a_port_alone_is_one_of_this_machine() {
    let p = put_in_probe(&tcp("${port.http}"), &vars()).unwrap();
    assert!(matches!(&p.probe, ProbeKind::Tcp(a) if a == "localhost:8080"));
    let p = put_in_probe(&tcp("db:${port.pg@db}"), &vars()).unwrap();
    assert!(matches!(&p.probe, ProbeKind::Tcp(a) if a == "db:5432"));
    let p = put_in_probe(&tcp("80"), &vars()).unwrap();
    assert!(matches!(&p.probe, ProbeKind::Tcp(a) if a == "80"));
    assert!(put_in_probe(&None, &vars()).is_none());
}

#[test]
fn processes_learn_their_ports_from_variables() {
    let env = port_env_of(&vec![("http".to_string(), 8080), ("my-port".to_string(), 9)]);
    assert_eq!(env.get("PSY_PORT_HTTP").unwrap(), "8080");
    assert_eq!(env.get("PSY_PORT_MY_PORT").unwrap(), "9");
    assert_eq!(env.len(), 2);
}

#[test]
fn ports_are_tried_in_order() {
    assert_eq!(candidates(None, None), vec![0]);
    assert_eq!(candidates(None, Some(80)), vec![80, 0]);
    assert_eq!(candidates(Some(81), Some(80)), vec![81, 80, 0]);
    assert_eq!(candidates(Some(80), Some(80)), vec![80, 0]);
}

#[test]
fn ports_that_were_had_are_wanted_again() {
    let had = vec![("http".to_string(), 4000)];
    assert_eq!(find_previous(&had, "http"), Some(4000));
    assert_eq!(find_previous(&had, "grpc"), None);
    let asked = vec![
        PortDefArg { name: "http".to_string(), default: Some(8080) },
        PortDefArg { name: "grpc".to_string(), default: None },
    ];
    let w = list_wanted(&had, false, &asked);
    assert_eq!(w[0].name, "http");
    assert_eq!(w[0].tries, vec![4000, 8080, 0]);
    assert_eq!(w[0].kept, None);
    assert_eq!(w[1].tries, vec![0]);
    let w = list_wanted(&had, true, &asked);
    assert_eq!(w[0].kept, Some(4000));
    assert_eq!(w[1].kept, None);
}

#[test]
fn each_port_gets_the_first_number_that_can_be_had() {
    let asked = vec![
        PortDefArg { name: "http".to_string(), default: Some(8080) },
        PortDefArg { name: "grpc".to_string(), default: None },
    ];
    let mut a = Allocation::new(list_wanted(&vec![("grpc".to_string(), 4000)], false, &asked));
    assert_eq!(a.next_try(), Some(8080));
    assert_eq!(a.tried(&Err("in use".to_string())), None);
    assert_eq!(a.next_try(), Some(0));
    assert_eq!(a.tried(&Ok(51000)), None);
    assert_eq!(a.next_try(), Some(4000));
    assert_eq!(a.tried(&Ok(4000)), None);
    assert_eq!(a.next_try(), None);
    assert_eq!(a.into_ports(), vec![("http".to_string(), 51000), ("grpc".to_string(), 4000)]);
}

#[test]
fn ports_in_use_are_kept_and_failures_are_told() {
    let asked = vec![
        PortDefArg { name: "http".to_string(), default: None },
        PortDefArg { name: "grpc".to_string(), default: None },
    ];
    let mut a = Allocation::new(list_wanted(&vec![("http".to_string(), 4000)], true, &asked));
    assert_eq!(a.next_try(), Some(0));
    let e = a.tried(&Err("none left".to_string())).unwrap();
    assert_eq!(e, "failed to allocate port 'grpc': none left");
    assert_eq!(a.into_ports(), vec![("http".to_string(), 4000)]);
}

#[test]
fn ports_by_name_and_failures() {
    let m = numbers_by_name(&vec![("a".to_string(), 1), ("b".to_string(), 2)]);
    assert_eq!(m.get("b"), Some(&2));
    assert_eq!(allocation_failed("http", "in use"), "failed to allocate port 'http': in use");
}

const README: &str = r#"
[db]
command = "postgres -p ${port.pg}"
ports = [{ name = "pg", default = 5432 }]
ready = { tcp = "${port.pg}" }

[api]
command = "cargo run --bin api -- --port ${port.http}"
ports = [{ name = "http", default = 8080 }, "metrics"]
env = { PORT = "${port.http}", METRICS_PORT = "${port.metrics}" }
depends_on = ["db"]

[worker]
command = "worker --db-port ${port.pg@db} --api-port ${port.http@api}"
depends_on = ["api"]
"#;

#[test]
fn units_ask_for_ports() {
    let p = parse_str(README).unwrap();
    let api = p.units.get("api").unwrap();
    assert_eq!(api.ports[0].name, "http");
    assert_eq!(api.ports[0].default, Some(8080));
    assert_eq!(api.ports[1].name, "metrics");
    assert_eq!(api.ports[1].default, None);
    assert!(!api.depends_on[0].restart);
}

#[test]
fn references_to_ports_imply_restarts() {
    let p = parse_str(README).unwrap();
    let w = p.units.get("worker").unwrap();
    assert_eq!(w.depends_on.len(), 2);
    assert_eq!(w.depends_on[0].name, "api");
    assert!(w.depends_on[0].restart);
    assert_eq!(w.depends_on[1].name, "db");
    assert!(w.depends_on[1].restart);
}

#[test]
fn references_to_ports_require_a_dependency() {
    let e = parse_str("[db]\ncommand = \"x\"\nports = [\"pg\"]\n[w]\ncommand = \"w ${port.pg@db}\"\n")
        .unwrap_err();
    assert_eq!(e, "unit 'w': a reference to a port of 'db' requires depends_on");
}

#[test]
fn malformed_ports_are_refused() {
    for (ports, e) in [
        ("1", "unit 'a': 'ports' must be an array"),
        ("[1]", "unit 'a': a port must be a string or a table"),
        ("[{ default = 1 }]", "unit 'a': a port must have a 'name'"),
        ("[{ name = \"x\", default = 65536 }]", "unit 'a': the 'default' of a port must be a port number"),
        ("[{ name = \"x\", default = \"y\" }]", "unit 'a': the 'default' of a port must be a port number"),
        ("[{ name = \"x\", other = 1 }]", "unit 'a': unknown field 'other' in a port"),
    ] {
        let text = format!("[a]\ncommand = \"x\"\nports = {}\n", ports);
        assert_eq!(parse_str(&text).unwrap_err(), e);
    }
}

#[test]
fn sub_roots_exclude_some_fields() {
    let e = parse_str("[a]\ncommand = \"x\"\nsub_root = true\ninteractive = true\n").unwrap_err();
    assert_eq!(e, "unit 'a': 'sub_root' is incompatible with 'interactive'");
    let e = parse_str("[a]\ncommand = \"x\"\nsub_root = true\nready = { exit = 0 }\n").unwrap_err();
    assert_eq!(e, "unit 'a': 'sub_root' is incompatible with an 'exit' readiness probe");
    let p = parse_str("[a]\ncommand = \"x\"\nsub_root = true\n").unwrap();
    assert!(p.units.get("a").unwrap().sub_root);
}

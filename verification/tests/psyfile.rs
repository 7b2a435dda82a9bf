use psy::names::NameMap;
use psy::protocol::RestartPolicy;
use psy::psyfile::{
    build_command_with_args, discover, interpolate, parse_duration, parse_str, resolve_start_order,
    shell_escape, shell_join, validate, ProbeKind,
};
use psy::time::Duration;
// -- parse ---------------------------------------------------------------

#[test]
fn parse_valid_psyfile() {
    let content = r#"
[server]
command = "cargo run --bin server"
restart = "on-failure"
env = { PORT = "8080" }

[db]
command = "docker run postgres"
restart = "always"
working_dir = "/tmp"
"#;
    let pf = parse_str(content).unwrap();
    assert_eq!(pf.units.len(), 2);

    let server = pf.units.get("server").unwrap();
    assert_eq!(server.command, "cargo run --bin server");
    assert_eq!(server.restart, RestartPolicy::OnFailure);
    assert_eq!(server.env.get("PORT").unwrap(), "8080");
    assert!(server.singleton);
    assert!(server.working_dir.is_none());

    let db = pf.units.get("db").unwrap();
    assert_eq!(db.restart, RestartPolicy::Always);
    assert_eq!(db.working_dir.as_deref(), Some("/tmp"));
}

#[test]
fn parse_minimal_psyfile() {
    let content = r#"
[echo]
command = "echo hello"
"#;
    let pf = parse_str(content).unwrap();
    let unit = pf.units.get("echo").unwrap();
    assert_eq!(unit.restart, RestartPolicy::No);
    assert!(unit.env.is_empty());
    assert!(unit.depends_on.is_empty());
    assert!(unit.singleton);
    assert!(unit.working_dir.is_none());
}

#[test]
fn parse_error_missing_command() {
    let content = r#"
[bad]
restart = "always"
"#;
    let err = parse_str(content).unwrap_err();
    assert!(
        err.contains("command"),
        "expected command error, got: {err}"
    );
}

#[test]
fn parse_error_unknown_field() {
    let content = r#"
[unit]
command = "echo test"
depnds_on = ["other"]
"#;
    let err = parse_str(content).unwrap_err();
    assert!(
        err.contains("unknown field") && err.contains("depnds_on"),
        "expected unknown field error, got: {err}"
    );
}

#[test]
fn parse_error_invalid_toml() {
    let content = "not valid toml [[[";
    let err = parse_str(content).unwrap_err();
    assert!(
        err.contains("invalid TOML"),
        "expected TOML error, got: {err}"
    );
}

#[test]
fn parse_error_invalid_restart() {
    let content = r#"
[unit]
command = "echo test"
restart = "sometimes"
"#;
    let err = parse_str(content).unwrap_err();
    assert!(
        err.contains("invalid restart policy"),
        "expected restart policy error, got: {err}"
    );
}

#[test]
fn parse_with_depends_on() {
    let content = r#"
[db]
command = "start-db"

[api]
command = "start-api"
depends_on = ["db"]
"#;
    let pf = parse_str(content).unwrap();
    assert_eq!(pf.units.get("api").unwrap().dep_names(), vec!["db"]);
}

#[test]
fn parse_singleton_false() {
    let content = r#"
[client]
command = "start-client"
singleton = false
"#;
    let pf = parse_str(content).unwrap();
    assert!(!pf.units.get("client").unwrap().singleton);
}

// -- validate ------------------------------------------------------------

#[test]
fn validate_circular_deps() {
    let content = r#"
[a]
command = "echo a"
depends_on = ["b"]

[b]
command = "echo b"
depends_on = ["a"]
"#;
    let pf = parse_str(content).unwrap();
    let err = validate(&pf).unwrap_err();
    assert!(
        err.contains("circular"),
        "expected circular error, got: {err}"
    );
}

#[test]
fn validate_unknown_dep_ref() {
    let content = r#"
[a]
command = "echo a"
depends_on = ["nonexistent"]
"#;
    let pf = parse_str(content).unwrap();
    let err = validate(&pf).unwrap_err();
    assert!(
        err.contains("unknown unit 'nonexistent'"),
        "expected unknown dep error, got: {err}"
    );
}

#[test]
fn validate_reserved_name_main() {
    let content = r#"
[main]
command = "echo main"
"#;
    let pf = parse_str(content).unwrap();
    let err = validate(&pf).unwrap_err();
    assert!(
        err.contains("reserved"),
        "expected reserved name error, got: {err}"
    );
}

#[test]
fn validate_invalid_name_format() {
    let content = r#"
["-bad"]
command = "echo bad"
"#;
    let pf = parse_str(content).unwrap();
    let err = validate(&pf).unwrap_err();
    assert!(
        err.contains("invalid unit name"),
        "expected invalid name error, got: {err}"
    );
}

#[test]
fn validate_valid_psyfile() {
    let content = r#"
[db]
command = "start-db"

[api]
command = "start-api"
depends_on = ["db"]

[worker]
command = "start-worker"
depends_on = ["db"]
"#;
    let pf = parse_str(content).unwrap();
    assert!(validate(&pf).is_ok());
}

// -- interpolation -------------------------------------------------------

#[test]
fn interpolate_var() {
    let mut env: NameMap<String> = NameMap::new();
    env.insert("PORT".into(), "8080".into());
    assert_eq!(interpolate("--port ${PORT}", &env), "--port 8080");
}

#[test]
fn interpolate_var_with_default() {
    let env: NameMap<String> = NameMap::new();
    assert_eq!(interpolate("--port ${PORT:-3000}", &env), "--port 3000");
}

#[test]
fn interpolate_var_with_default_value_present() {
    let mut env: NameMap<String> = NameMap::new();
    env.insert("PORT".into(), "9090".into());
    assert_eq!(interpolate("--port ${PORT:-3000}", &env), "--port 9090");
}

#[test]
fn interpolate_undefined_no_default() {
    let env: NameMap<String> = NameMap::new();
    assert_eq!(interpolate("pre-${MISSING}-post", &env), "pre--post");
}

#[test]
fn interpolate_no_recursion() {
    let mut env: NameMap<String> = NameMap::new();
    env.insert("A".into(), "${B}".into());
    env.insert("B".into(), "val".into());
    // Only the outermost is substituted
    assert_eq!(interpolate("${A}", &env), "${B}");
}

// -- resolve_start_order -------------------------------------------------

#[test]
fn resolve_no_deps() {
    let content = r#"
[a]
command = "echo a"
"#;
    let pf = parse_str(content).unwrap();
    let order = resolve_start_order(&pf, &vec!["a".into()]).unwrap();
    assert_eq!(order, vec!["a"]);
}

#[test]
fn resolve_chain() {
    let content = r#"
[a]
command = "echo a"
depends_on = ["b"]

[b]
command = "echo b"
depends_on = ["c"]

[c]
command = "echo c"
"#;
    let pf = parse_str(content).unwrap();
    let order = resolve_start_order(&pf, &vec!["a".into()]).unwrap();
    assert_eq!(order, vec!["c", "b", "a"]);
}

#[test]
fn resolve_diamond() {
    let content = r#"
[a]
command = "echo a"
depends_on = ["b", "c"]

[b]
command = "echo b"
depends_on = ["d"]

[c]
command = "echo c"
depends_on = ["d"]

[d]
command = "echo d"
"#;
    let pf = parse_str(content).unwrap();
    let order = resolve_start_order(&pf, &vec!["a".into()]).unwrap();
    // d must come first, then b and c (in some order), then a
    assert_eq!(order[0], "d");
    assert_eq!(*order.last().unwrap(), "a");
    assert_eq!(order.len(), 4);
}

#[test]
fn resolve_already_included() {
    let content = r#"
[a]
command = "echo a"
depends_on = ["b"]

[b]
command = "echo b"
"#;
    let pf = parse_str(content).unwrap();
    let order = resolve_start_order(&pf, &vec!["b".into(), "a".into()]).unwrap();
    assert_eq!(order, vec!["b", "a"]);
}

// -- shell escaping ------------------------------------------------------

#[test]
fn escape_simple() {
    assert_eq!(shell_escape("hello"), "hello");
}

#[test]
fn escape_with_space() {
    assert_eq!(shell_escape("hello world"), "'hello world'");
}

#[test]
fn escape_with_quote() {
    assert_eq!(shell_escape("it's"), "'it'\\''s'");
}

#[test]
fn escape_empty() {
    assert_eq!(shell_escape(""), "''");
}

#[test]
fn join_multiple() {
    let args = vec!["a".into(), "b c".into(), "d".into()];
    assert_eq!(shell_join(&args), "a 'b c' d");
}

// -- build_command_with_args ---------------------------------------------

#[test]
fn args_append() {
    let result = build_command_with_args("cargo test", &vec!["--flag".into()]);
    assert_eq!(result, "cargo test --flag");
}

#[test]
fn args_dollar_at_substitution() {
    let result = build_command_with_args("./cmd $@ --end", &vec!["a".into(), "b".into()]);
    assert_eq!(result, "./cmd a b --end");
}

#[test]
fn args_dollar_at_no_args() {
    let result = build_command_with_args("./cmd $@ --end", &vec![]);
    assert_eq!(result, "./cmd --end");
}

#[test]
fn args_dollar_at_with_special() {
    let result = build_command_with_args("./cmd $@ --end", &vec!["hello world".into()]);
    assert_eq!(result, "./cmd 'hello world' --end");
}

// -- discover ------------------------------------------------------------

#[test]
fn discover_in_current_dir() {
    let there = vec!["/tmp/psy-test-discover/Psyfile".to_string()];
    let found = discover("/tmp/psy-test-discover", &there);
    assert_eq!(found, Some("/tmp/psy-test-discover/Psyfile".to_string()));
}

#[test]
fn discover_toml_extension() {
    let there = vec!["/tmp/psy-test-discover-toml/Psyfile.toml".to_string()];
    let found = discover("/tmp/psy-test-discover-toml", &there);
    assert_eq!(
        found,
        Some("/tmp/psy-test-discover-toml/Psyfile.toml".to_string())
    );
}

#[test]
fn discover_walk_upward() {
    let there = vec!["/tmp/psy-test-discover-walk/Psyfile".to_string()];
    let found = discover("/tmp/psy-test-discover-walk/subdir", &there);
    assert_eq!(
        found,
        Some("/tmp/psy-test-discover-walk/Psyfile".to_string())
    );
}

#[test]
fn discover_not_found() {
    let found = discover("/tmp/psy-test-discover-none-xyz123", &vec![]);
    assert_eq!(found, None);
}

// -- depends_on extended syntax ------------------------------------------

#[test]
fn parse_depends_on_mixed() {
    let content = r#"
[db]
command = "start-db"

[cache]
command = "start-cache"

[api]
command = "start-api"
depends_on = ["db", { name = "cache", restart = true }]
"#;
    let pf = parse_str(content).unwrap();
    let deps = &pf.units.get("api").unwrap().depends_on;
    assert_eq!(deps.len(), 2);
    assert_eq!(deps[0].name, "db");
    assert!(!deps[0].restart);
    assert_eq!(deps[1].name, "cache");
    assert!(deps[1].restart);
}

#[test]
fn parse_depends_on_table_only() {
    let content = r#"
[db]
command = "start-db"

[api]
command = "start-api"
depends_on = [{ name = "db", restart = true }]
"#;
    let pf = parse_str(content).unwrap();
    let deps = &pf.units.get("api").unwrap().depends_on;
    assert_eq!(deps.len(), 1);
    assert_eq!(deps[0].name, "db");
    assert!(deps[0].restart);
}

#[test]
fn parse_depends_on_table_default_restart() {
    let content = r#"
[db]
command = "start-db"

[api]
command = "start-api"
depends_on = [{ name = "db" }]
"#;
    let pf = parse_str(content).unwrap();
    assert!(!pf.units.get("api").unwrap().depends_on[0].restart);
}

// -- ready / healthcheck probes ------------------------------------------

#[test]
fn parse_ready_tcp() {
    let content = r#"
[server]
command = "start-server"
ready = { tcp = "localhost:8080" }
"#;
    let pf = parse_str(content).unwrap();
    let ready = pf.units.get("server").unwrap().ready.as_ref().unwrap();
    assert!(matches!(ready.probe, ProbeKind::Tcp(ref s) if s == "localhost:8080"));
    assert_eq!(ready.interval, Duration::from_secs(1));
    assert_eq!(ready.timeout, Duration::from_secs(30));
}

#[test]
fn parse_ready_tcp_port_number() {
    let content = r#"
[server]
command = "start-server"
ready = { tcp = 8080 }
"#;
    let pf = parse_str(content).unwrap();
    let ready = pf.units.get("server").unwrap().ready.as_ref().unwrap();
    assert!(matches!(ready.probe, ProbeKind::Tcp(ref s) if s == "localhost:8080"));
}

#[test]
fn parse_ready_http() {
    let content = r#"
[api]
command = "start-api"
ready = { http = "http://localhost:3000/health" }
"#;
    let pf = parse_str(content).unwrap();
    let ready = pf.units.get("api").unwrap().ready.as_ref().unwrap();
    assert!(
        matches!(ready.probe, ProbeKind::Http(ref s) if s == "http://localhost:3000/health")
    );
}

#[test]
fn parse_ready_exec() {
    let content = r#"
[db]
command = "start-db"
ready = { exec = "pg_isready -h localhost" }
"#;
    let pf = parse_str(content).unwrap();
    let ready = pf.units.get("db").unwrap().ready.as_ref().unwrap();
    assert!(matches!(ready.probe, ProbeKind::Exec(ref s) if s == "pg_isready -h localhost"));
}

#[test]
fn parse_ready_exit() {
    let content = r#"
[build]
command = "cargo build"
ready = { exit = 0 }
"#;
    let pf = parse_str(content).unwrap();
    let ready = pf.units.get("build").unwrap().ready.as_ref().unwrap();
    assert!(matches!(ready.probe, ProbeKind::Exit(0)));
}

#[test]
fn parse_ready_custom_interval_timeout() {
    let content = r#"
[server]
command = "start-server"
ready = { tcp = "localhost:5432", interval = "2s", timeout = "60s", retries = 10 }
"#;
    let pf = parse_str(content).unwrap();
    let ready = pf.units.get("server").unwrap().ready.as_ref().unwrap();
    assert_eq!(ready.interval, Duration::from_secs(2));
    assert_eq!(ready.timeout, Duration::from_secs(60));
    assert_eq!(ready.retries, Some(10));
}

#[test]
fn parse_healthcheck() {
    let content = r#"
[server]
command = "start-server"
healthcheck = { tcp = "localhost:8080", interval = "10s", retries = 3 }
"#;
    let pf = parse_str(content).unwrap();
    let hc = pf.units.get("server").unwrap().healthcheck.as_ref().unwrap();
    assert!(matches!(hc.probe, ProbeKind::Tcp(ref s) if s == "localhost:8080"));
    assert_eq!(hc.interval, Duration::from_secs(10));
    assert_eq!(hc.retries, Some(3));
}

#[test]
fn parse_healthcheck_exit_rejected() {
    let content = r#"
[server]
command = "start-server"
healthcheck = { exit = 0 }
"#;
    let err = parse_str(content).unwrap_err();
    assert!(err.contains("not valid for healthcheck"), "got: {err}");
}

#[test]
fn parse_probe_no_type() {
    let content = r#"
[server]
command = "start-server"
ready = { interval = "1s" }
"#;
    let err = parse_str(content).unwrap_err();
    assert!(err.contains("must specify one of"), "got: {err}");
}

#[test]
fn parse_probe_multiple_types() {
    let content = r#"
[server]
command = "start-server"
ready = { tcp = "localhost:8080", http = "http://localhost:8080" }
"#;
    let err = parse_str(content).unwrap_err();
    assert!(err.contains("exactly one"), "got: {err}");
}

#[test]
fn parse_both_ready_and_healthcheck() {
    let content = r#"
[server]
command = "start-server"
ready = { tcp = "localhost:8080" }
healthcheck = { http = "http://localhost:8080/health", interval = "15s" }
"#;
    let pf = parse_str(content).unwrap();
    assert!(pf.units.get("server").unwrap().ready.is_some());
    assert!(pf.units.get("server").unwrap().healthcheck.is_some());
}

// -- parse_duration ------------------------------------------------------

#[test]
fn duration_seconds() {
    assert_eq!(parse_duration("5s").unwrap(), Duration::from_secs(5));
}

#[test]
fn duration_minutes() {
    assert_eq!(parse_duration("2m").unwrap(), Duration::from_secs(120));
}

#[test]
fn duration_hours() {
    assert_eq!(parse_duration("1h").unwrap(), Duration::from_secs(3600));
}

#[test]
fn duration_invalid() {
    assert!(parse_duration("abc").is_err());
    assert!(parse_duration("5x").is_err());
    assert!(parse_duration("").is_err());
}

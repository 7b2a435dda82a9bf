use psy::cli::{answer_error, is_reachable, load_for_up, parse_env_args, parse_port_arg};
use psy::cli::{parse_restart_policy, parse_time_spec, print_answer, root_name, send_args, show_log};
use psy::cli::{since_arg, stream_flags, units_to_boot, wait_condition};
use psy::json;
use psy::protocol::{Response, RestartPolicy, StreamFilter, WaitFor};
use psy::time::Timestamp;

fn now() -> Timestamp {
    Timestamp::parse_rfc3339("2026-03-12T20:00:00Z").unwrap()
}

fn texts(v: &[&str]) -> Vec<String> {
    v.iter().map(|s| s.to_string()).collect()
}

#[test]
fn times_are_relative_or_absolute() {
    let t = |s: &str| parse_time_spec(s, &now()).unwrap().to_rfc3339();
    assert_eq!(t("5s"), "2026-03-12T19:59:55+00:00");
    assert_eq!(t("5m"), "2026-03-12T19:55:00+00:00");
    assert_eq!(t("1h"), "2026-03-12T19:00:00+00:00");
    assert_eq!(t("2d"), "2026-03-10T20:00:00+00:00");
    assert_eq!(t("2026-01-01T00:00:00Z"), "2026-01-01T00:00:00+00:00");
    assert_eq!(t("2026-01-01T00:00:00"), "2026-01-01T00:00:00+00:00");
    assert!(parse_time_spec("soon", &now()).is_err());
    assert!(is_reachable("5m", &now()));
    assert!(!is_reachable("999999999999999d", &now()));
}

#[test]
fn what_is_new_is_told_by_the_root() {
    assert_eq!(since_arg("last", &now()).unwrap(), "last");
    assert_eq!(since_arg("5m", &now()).unwrap(), "2026-03-12T19:55:00+00:00");
    assert!(since_arg("never", &now()).is_err());
}

#[test]
fn policies_are_read_by_name() {
    assert_eq!(parse_restart_policy("always"), RestartPolicy::Always);
    assert_eq!(parse_restart_policy("on-failure"), RestartPolicy::OnFailure);
    assert_eq!(parse_restart_policy("whenever"), RestartPolicy::No);
}

#[test]
fn variables_are_read_from_pairs() {
    let e = parse_env_args(&texts(&["A=1", "B=x=y", "C"]));
    assert_eq!(e.get("A").unwrap(), "1");
    assert_eq!(e.get("B").unwrap(), "x=y");
    assert!(e.get("C").is_none());
}

#[test]
fn ports_are_read_with_a_number_or_without() {
    let p = parse_port_arg("http=8080").unwrap();
    assert_eq!((p.name.as_str(), p.default), ("http", Some(8080)));
    let p = parse_port_arg("http").unwrap();
    assert_eq!((p.name.as_str(), p.default), ("http", None));
    assert!(parse_port_arg("http=70000").is_err());
}

#[test]
fn stream_flags_choose_a_stream() {
    assert_eq!(stream_flags(true, false), StreamFilter::Stdout);
    assert_eq!(stream_flags(false, true), StreamFilter::Stderr);
    assert_eq!(stream_flags(false, false), StreamFilter::All);
    assert_eq!(stream_flags(true, true), StreamFilter::Stdout);
}

#[test]
fn conditions_are_read_from_flags() {
    let s = |x: &str| Some(x.to_string());
    assert!(matches!(wait_condition(s("ready"), None, None).unwrap(), Some(WaitFor::Ready)));
    assert!(matches!(wait_condition(s("exit"), None, None).unwrap(), Some(WaitFor::Exit)));
    assert!(matches!(wait_condition(None, s("up"), None).unwrap(), Some(WaitFor::Log { .. })));
    assert!(matches!(wait_condition(None, None, s("db")).unwrap(), Some(WaitFor::Dependency { .. })));
    assert!(wait_condition(None, None, None).unwrap().is_none());
    assert!(wait_condition(s("later"), None, None).is_err());
}

#[test]
fn input_gets_a_newline_unless_raw() {
    let s = |x: &str| Some(x.to_string());
    assert_eq!(send_args("a", s("x"), None, false, false).input.unwrap(), "x\n");
    assert_eq!(send_args("a", s("x"), None, true, false).input.unwrap(), "x");
    assert_eq!(send_args("a", None, s("file"), false, false).input.unwrap(), "file");
    let e = send_args("a", None, None, false, true);
    assert!(e.eof && e.input.is_none());
}

#[test]
fn a_root_without_a_name_is_named_by_its_id() {
    assert_eq!(root_name(Some("x".to_string()), 7), "x");
    assert!(root_name(None, 7).contains('7'));
}

#[test]
fn units_are_booted_by_name_or_all() {
    let text = "[db]\ncommand = \"db\"\n[api]\ncommand = \"api\"\ndepends_on = [\"db\"]\n".to_string();
    let p = load_for_up("Psyfile", &Ok(text), &None).unwrap();
    assert_eq!(units_to_boot(&p, true, vec![]).unwrap(), vec!["api", "db"]);
    assert_eq!(units_to_boot(&p, false, texts(&["api"])).unwrap(), vec!["api"]);
    assert!(units_to_boot(&p, false, texts(&["web"])).is_err());
    assert!(load_for_up("Psyfile", &Err("gone".to_string()), &None).is_err());
}

#[test]
fn answers_are_printed_or_reported() {
    let ok = Response::ok("1", Some(json::read(r#"{"status":"x"}"#).unwrap()));
    assert_eq!(print_answer(&ok).unwrap().unwrap(), "{\n  \"status\": \"x\"\n}");
    assert_eq!(print_answer(&Response::ok("1", None)).unwrap(), None);
    let bad = Response::err("1", "no");
    assert!(print_answer(&bad).unwrap_err().contains("no"));
    assert!(answer_error(&bad).unwrap().contains("no"));
    assert!(answer_error(&ok).is_none());
}

#[test]
fn logs_are_shown_line_by_line() {
    let data = json::read(
        r#"{"lines":[{"timestamp":"2025-03-12T10:15:32.123+00:00","stream":"stdout","content":"Server listening"}]}"#,
    )
    .unwrap();
    let shown = show_log(&Some(data));
    assert_eq!(shown.len(), 1);
    assert!(shown[0].contains("stdout"));
    assert!(shown[0].ends_with("Server listening"));
    assert!(show_log(&None).is_empty());
}

use psy::probe::{after_attempt, execute_probe, http_request, http_target, max_attempts};
use psy::probe::{parse_status, probe_label, probe_stream, Health, HealthStep, Outcome, ReadyStep};
use psy::psyfile::{ProbeConfig, ProbeKind};
use psy::ring_buffer::Stream;
use psy::time::Duration;

fn config(probe: ProbeKind, interval: u64, timeout: u64, retries: Option<u32>) -> ProbeConfig {
    ProbeConfig {
        probe,
        interval: Duration::from_secs(interval),
        timeout: Duration::from_secs(timeout),
        retries,
    }
}

fn tcp() -> ProbeKind {
    ProbeKind::Tcp("localhost:1".to_string())
}

#[test]
fn probe_labels_quote_what_is_probed() {
    assert!(probe_label(&tcp()).contains("localhost:1"));
    let e = probe_label(&ProbeKind::Exec("say \"hi\"".to_string()));
    assert!(e.contains("\"say \\\"hi\\\"\""));
}

#[test]
fn attempts_follow_from_retries_or_times() {
    assert_eq!(max_attempts(&config(tcp(), 1, 30, Some(7))), 7);
    assert_eq!(max_attempts(&config(tcp(), 1, 30, None)), 30);
    let timed = |interval: u64, timeout: u64| ProbeConfig {
        probe: tcp(),
        interval: Duration::from_millis(interval),
        timeout: Duration::from_millis(timeout),
        retries: None,
    };
    assert_eq!(max_attempts(&timed(100, 30_000)), 300);
    assert_eq!(max_attempts(&timed(1_500, 30_000)), 20);
    assert_eq!(max_attempts(&timed(1_000, 500)), 1);
    assert_eq!(max_attempts(&timed(0, 7)), 7);
    assert_eq!(max_attempts(&timed(0, 0)), 1);
    assert_eq!(max_attempts(&timed(0, u64::MAX)), u32::MAX);
}

#[test]
fn readiness_is_reached_or_given_up() {
    let p = config(tcp(), 1, 30, Some(2));
    assert!(matches!(after_attempt(&p, 1, true), ReadyStep::Ready(_)));
    assert!(matches!(after_attempt(&p, 1, false), ReadyStep::Again));
    assert!(matches!(after_attempt(&p, 2, false), ReadyStep::GiveUp(_)));
}

#[test]
fn health_is_lost_after_consecutive_failures() {
    let p = config(tcp(), 10, 30, Some(2));
    let mut h = Health::new();
    assert_eq!(h.next_check(), 1);
    assert!(matches!(h.take_outcome(&p, false), HealthStep::Failing(_)));
    assert_eq!(h.next_check(), 2);
    assert!(matches!(h.take_outcome(&p, true), HealthStep::Fine));
    h.next_check();
    assert!(matches!(h.take_outcome(&p, false), HealthStep::Failing(_)));
    h.next_check();
    assert!(matches!(h.take_outcome(&p, false), HealthStep::Unhealthy(_)));
}

#[test]
fn outcomes_are_judged() {
    let http = ProbeKind::Http("http://localhost/".to_string());
    assert!(execute_probe(&tcp(), &Outcome::Connected, 1, 3).success);
    assert!(!execute_probe(&tcp(), &Outcome::Unreachable(None), 1, 3).success);
    assert!(execute_probe(&http, &Outcome::Status(204), 1, 3).success);
    assert!(!execute_probe(&http, &Outcome::Status(302), 1, 3).success);
    assert!(!execute_probe(&http, &Outcome::NoStatus("x".to_string()), 1, 3).success);
    let exec = ProbeKind::Exec("true".to_string());
    let ran = |code| Outcome::Ran { stdout: "out".to_string(), stderr: "".to_string(), code };
    assert!(execute_probe(&exec, &ran(Some(0)), 1, 3).success);
    assert!(!execute_probe(&exec, &ran(Some(1)), 1, 3).success);
    assert!(!execute_probe(&exec, &ran(None), 1, 3).success);
    assert!(!execute_probe(&exec, &Outcome::NotRun("no sh".to_string()), 1, 3).success);
    assert_eq!(execute_probe(&exec, &ran(Some(0)), 1, 3).stdout, vec!["out"]);
}

#[test]
fn probe_output_goes_to_its_own_streams() {
    assert_eq!(probe_stream(true), Stream::ProbeStdout);
    assert_eq!(probe_stream(false), Stream::ProbeStderr);
}

#[test]
fn http_probes_ask_for_the_path_of_the_url() {
    let (host, path) = http_target("http://localhost:3000/health").unwrap();
    assert_eq!(host, "localhost:3000");
    assert_eq!(path, "/health");
    assert_eq!(http_target("http://localhost:3000").unwrap().1, "/");
    assert!(http_target("https://localhost/").is_err());
    let r = http_request("localhost:3000", "/health");
    assert!(r.starts_with("GET /health HTTP/1."));
    assert!(r.contains("Host: localhost:3000\r\n"));
    assert!(r.ends_with("\r\n\r\n"));
}

#[test]
fn http_status_is_read_from_the_first_line() {
    assert_eq!(parse_status("HTTP/1.1 200 OK\r\n").unwrap(), 200);
    assert_eq!(parse_status("HTTP/1.0 503 Busy\r\nX: 1\r\n").unwrap(), 503);
    assert!(parse_status("").is_err());
    assert!(parse_status("HTTP/1.1 abc\r\n").is_err());
}

#[test]
fn a_probe_succeeds_by_its_own_kind_of_outcome_alone() {
    let exit = ProbeKind::Exit(0);
    assert!(!execute_probe(&exit, &Outcome::Nothing, 1, 3).success);
    assert!(!execute_probe(&exit, &Outcome::Connected, 1, 3).success);
    let strange = execute_probe(&tcp(), &Outcome::Status(200), 1, 3);
    assert!(!strange.success);
    assert!(strange.stderr.is_empty());
}

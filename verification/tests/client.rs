use psy::cleanup::{announce, announced_in, note_line};
use psy::client::{attach_error, chain_distance, discover_candidates, read_attached, show_line};
use psy::client::{show_received, socket_in_anchor, stdin_payload, subroot_socket, Anchor, Attached};
use psy::json;
use psy::names::NameMap;
use psy::protocol::{ProcessInfo, Response, RestartPolicy};

fn anchor(filename: &str, modified: i128) -> Anchor {
    Anchor { filename: filename.to_string(), modified }
}

#[test]
fn distance_counts_the_steps_to_the_root() {
    assert_eq!(chain_distance(&vec![1, 10, 20], &vec![1, 10]), Some(1));
    assert_eq!(chain_distance(&vec![1, 10], &vec![1, 10]), Some(0));
    assert_eq!(chain_distance(&vec![5, 6], &vec![7, 8]), None);
}

#[test]
fn nearer_and_newer_roots_come_first() {
    let own = vec![1, 10, 20, 30];
    let all = vec![anchor("1-10.sock", 5), anchor("1-10-20.sock", 1), anchor("junk", 9)];
    let c = discover_candidates(&own, &all, ".sock");
    assert_eq!(c.len(), 2);
    assert_eq!(c[0].index, 1);
    assert_eq!(c[0].root_pid, 20);
    assert_eq!(c[1].index, 0);
    let all = vec![anchor("1-10.sock", 5), anchor("1-10.sock", 8)];
    let c = discover_candidates(&own, &all, ".sock");
    assert_eq!(c[0].index, 1);
}

#[test]
fn anchors_hold_a_socket() {
    assert_eq!(socket_in_anchor("a", "/tmp/x.sock\n").unwrap(), "/tmp/x.sock");
    assert!(socket_in_anchor("a", "  \n").is_err());
}

#[test]
fn received_lines_are_shown() {
    let v = json::read(
        r#"{"timestamp":"2025-03-12T10:15:32.123Z","stream":"stdout","content":"hello"}"#,
    )
    .unwrap();
    assert_eq!(show_line(&v), "[2025-03-12T10:15:32.123Z stdout] hello");
    assert_eq!(show_received("not json"), "not json");
}

#[test]
fn an_attached_session_ends_with_a_notice() {
    match read_attached("repl", r#"{"detached":true,"reason":"exited","exit_code":3}"#) {
        Attached::Detached { notice, exit_code } => {
            assert_eq!(notice, "detached from repl: exited");
            assert_eq!(exit_code, Some(3));
        }
        x => panic!("{:?}", x),
    }
    assert!(matches!(read_attached("repl", r#"{"content":"x"}"#), Attached::Show(_)));
    assert!(matches!(read_attached("repl", "plain"), Attached::Show(_)));
}

#[test]
fn typed_lines_are_sent_as_input() {
    let v = json::read(&stdin_payload("ls")).unwrap();
    assert_eq!(json::get_text(&v, "stdin").unwrap(), "ls\n");
    assert!(attach_error(&Response::err("1", "no")).is_some());
    assert!(attach_error(&Response::ok("1", None)).is_none());
}

#[test]
fn sub_roots_are_found_by_their_unit() {
    let p = |name: &str, sub: bool, socket: Option<&str>| ProcessInfo {
        name: name.to_string(),
        pid: None,
        status: "running".to_string(),
        restart_policy: RestartPolicy::No,
        started_at: None,
        uptime_secs: None,
        exit_code: None,
        signal: None,
        restarts: 0,
        ready: None,
        ports: None,
        subroot_socket: socket.map(|s| s.to_string()),
        is_subroot: sub,
        metadata: NameMap::new(),
    };
    let all = vec![p("a", false, None), p("b", true, None), p("c", true, Some("/c.sock"))];
    assert_eq!(subroot_socket(&all, "c").unwrap(), "/c.sock");
    assert_eq!(subroot_socket(&all, "a").unwrap_err(), "unit 'a' is not a sub-root");
    assert_eq!(subroot_socket(&all, "b").unwrap_err(), "unit 'b' is not a sub-root that has registered");
    assert_eq!(subroot_socket(&all, "d").unwrap_err(), "no unit 'd'");
}

#[test]
fn announced_children_are_collected() {
    let line = announce(42);
    let mut pids = vec![];
    note_line(&mut pids, &line);
    note_line(&mut pids, "noise");
    assert_eq!(pids, vec![42]);
    assert_eq!(announced_in(&vec![announce(1), "x".to_string(), announce(2)]), vec![1, 2]);
}

use psy::json;
use psy::protocol::{ErrorCode, Request, Response};
use psy::psyfile::json_schema;
use psy::platform::System;
use psy::shell::{build_command_with_args, build_shell_command, interpolate};
use psy::names::NameMap;
use psy::text::{byte_len, cut_to, decimal_of, find, has, join, lines_of, parse_u16, parse_u32};
use psy::text::{chars_of, parse_u64, signed_decimal_of, split_at_char, trim, words_of};
use psy::logs::sort_by_time;
use psy::ring_buffer::{LogLine, RingBuffer, Stream};
use psy::protocol::StreamFilter;
use psy::time::Timestamp;

#[test]
fn numbers_are_written_and_read() {
    assert_eq!(decimal_of(0), "0");
    assert_eq!(decimal_of(1234567890), "1234567890");
    assert_eq!(signed_decimal_of(-15), "-15");
    assert_eq!(parse_u64(&chars_of("18446744073709551615")), Some(u64::MAX));
    assert_eq!(parse_u64(&chars_of("18446744073709551616")), None);
    assert_eq!(parse_u32(&chars_of("4294967296")), None);
    assert_eq!(parse_u16(&chars_of("65535")), Some(65535));
    assert_eq!(parse_u16(&chars_of("")), None);
    assert_eq!(parse_u16(&chars_of("+5")), Some(5));
}

#[test]
fn texts_are_taken_apart() {
    assert_eq!(trim("  a b \n"), "a b");
    assert_eq!(words_of(" a  b\tc "), vec!["a", "b", "c"]);
    assert_eq!(lines_of("a\nb\r\nc"), vec!["a", "b", "c"]);
    assert_eq!(split_at_char(&chars_of("a,,b"), ',').len(), 3);
    assert_eq!(join(&vec!["a".to_string(), "b".to_string()], ", "), "a, b");
    assert_eq!(find(&chars_of("hello"), &chars_of("ll")), Some(2));
    assert!(has("hello", "ell"));
    assert!(!has("hello", "elp"));
    assert_eq!(byte_len("aé€😀"), 10);
    assert_eq!(cut_to("hello", 3).len(), 3);
}

#[test]
fn what_comes_before_a_variable_stays() {
    let mut env = NameMap::new();
    env.insert("A".to_string(), "1".to_string());
    assert_eq!(interpolate("cost $5 {x} ${A}", &env), "cost $5 {x} 1");
}

#[test]
fn commands_take_arguments() {
    let args = vec!["--x".to_string(), "a b".to_string()];
    assert_eq!(build_command_with_args("run", &args), "run --x 'a b'");
    assert_eq!(build_command_with_args("run -- $@ end", &args), "run -- --x 'a b' end");
    let line = "echo 'a b' $HOME";
    assert_eq!(build_shell_command(System::Unix, line), vec!["sh", "-c", line]);
    assert_eq!(build_shell_command(System::Windows, line), vec!["cmd", "/C", line]);
}

#[test]
fn references_to_ports_are_variables() {
    let mut env = NameMap::new();
    env.insert("port.http@api".to_string(), "80".to_string());
    assert_eq!(interpolate("a ${port.http@api} b", &env), "a 80 b");
}

#[test]
fn requests_have_ids_of_their_own() {
    let a = Request::ps();
    let b = Request::ps();
    assert_eq!(a.id.len(), 36);
    assert_ne!(a.id, b.id);
    let r = Response::err_code("1", ErrorCode::NotFound, "x");
    assert_eq!(r.error_code, Some(ErrorCode::NotFound));
}

#[test]
fn the_schema_lists_every_field() {
    let v = json_schema();
    let unit = json::get(&v, "additionalProperties").unwrap();
    let p = json::get(unit, "properties").unwrap();
    for f in [
        "command", "restart", "env", "depends_on", "singleton", "interactive", "ports", "sub_root",
        "working_dir", "ready", "healthcheck", "platforms", "platform",
    ] {
        assert!(json::get(p, f).is_some(), "{}", f);
    }
}

#[test]
fn lines_are_sorted_by_time_and_keep_their_order() {
    let line = |t: i64, s: &str| LogLine {
        timestamp: Timestamp::new(t, 0).unwrap(),
        stream: Stream::Stdout,
        content: s.to_string(),
    };
    let sorted = sort_by_time(vec![line(2, "c"), line(1, "a"), line(2, "d"), line(1, "b")]);
    let texts: Vec<&str> = sorted.iter().map(|l| l.content.as_str()).collect();
    assert_eq!(texts, vec!["a", "b", "c", "d"]);
}

#[test]
fn patterns_match_whatever_the_case() {
    let mut b = RingBuffer::new();
    b.push(Stream::Stdout, "Straße ÄÖ".to_string());
    let found = b.lines(None, StreamFilter::All, None, None, Some("äö"));
    assert_eq!(found.len(), 1);
}

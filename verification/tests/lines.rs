use psy::lines::LineCutter;
use psy::pattern::{check, Search};

#[test]
fn chunks_are_cut_into_lines() {
    let mut c = LineCutter::new();
    assert!(c.feed(b"hel").is_empty());
    assert_eq!(c.feed(b"lo\r\nwor"), vec![b"hello".to_vec()]);
    assert_eq!(c.feed(b"ld\n\n"), vec![b"world".to_vec(), b"".to_vec()]);
    assert_eq!(c.finish(), None);
}

#[test]
fn where_chunks_end_does_not_matter() {
    let all = b"one\ntwo\r\n\rthree\n four";
    let mut whole = LineCutter::new();
    let expected = whole.feed(all);
    for at in 0..all.len() {
        let mut c = LineCutter::new();
        let mut lines = c.feed(&all[..at]);
        lines.extend(c.feed(&all[at..]));
        assert_eq!(lines, expected);
        assert_eq!(c.finish(), Some(b" four".to_vec()));
    }
}

#[test]
fn searches_find_patterns_whatever_the_case() {
    let s = Search::new(Some("err.*timeout"));
    assert!(s.matches("ERROR: read Timeout"));
    assert!(!s.matches("timeout err"));
    assert!(Search::new(None).matches(""));
    assert!(Search::new(Some("")).matches("x"));
    assert!(!Search::new(Some("(")).matches("("));
    assert!(check(&None).is_ok());
    assert!(check(&Some("a|b".to_string())).is_ok());
    assert!(check(&Some("[".to_string())).unwrap_err().starts_with("invalid grep pattern: regex"));
}

use psy::protocol::StreamFilter;
use psy::ring_buffer::{LogLine, RingBuffer, Stream};
use psy::time::Timestamp;

fn at(secs: i64) -> Timestamp {
    Timestamp::new(1_741_774_532 + secs, 0).unwrap()
}
#[test]
fn basic_push_retrieve() {
    let mut rb = RingBuffer::new();
    rb.push(Stream::Stdout, "hello".into());
    rb.push(Stream::Stderr, "world".into());

    let all = rb.lines(None, StreamFilter::All, None, None, None);
    assert_eq!(all.len(), 2);
    assert_eq!(all[0].content, "hello");
    assert_eq!(all[0].stream, Stream::Stdout);
    assert_eq!(all[1].content, "world");
    assert_eq!(all[1].stream, Stream::Stderr);
}

#[test]
fn eviction_at_line_limit() {
    let mut rb = RingBuffer::with_capacity(3, usize::MAX);
    for i in 0..5 {
        rb.push(Stream::Stdout, format!("line-{i}"));
    }
    let all = rb.lines(None, StreamFilter::All, None, None, None);
    assert_eq!(all.len(), 3);
    assert_eq!(all[0].content, "line-2");
    assert_eq!(all[1].content, "line-3");
    assert_eq!(all[2].content, "line-4");
}

#[test]
fn eviction_at_byte_limit() {
    let mut rb = RingBuffer::with_capacity(usize::MAX, 25);
    rb.push(Stream::Stdout, "aaaaaaaaaa".into());
    rb.push(Stream::Stdout, "bbbbbbbbbb".into());
    rb.push(Stream::Stdout, "cccccccccc".into());

    let all = rb.lines(None, StreamFilter::All, None, None, None);
    assert_eq!(all.len(), 2);
    assert_eq!(all[0].content, "bbbbbbbbbb");
    assert_eq!(all[1].content, "cccccccccc");
}

#[test]
fn tail_parameter() {
    let mut rb = RingBuffer::new();
    for i in 0..10 {
        rb.push(Stream::Stdout, format!("line-{i}"));
    }
    let last3 = rb.lines(Some(3), StreamFilter::All, None, None, None);
    assert_eq!(last3.len(), 3);
    assert_eq!(last3[0].content, "line-7");
    assert_eq!(last3[1].content, "line-8");
    assert_eq!(last3[2].content, "line-9");
}

#[test]
fn stream_filtering() {
    let mut rb = RingBuffer::new();
    rb.push(Stream::Stdout, "out-1".into());
    rb.push(Stream::Stderr, "err-1".into());
    rb.push(Stream::Stdout, "out-2".into());
    rb.push(Stream::Stderr, "err-2".into());

    let only_out = rb.lines(None, StreamFilter::Stdout, None, None, None);
    assert_eq!(only_out.len(), 2);
    assert!(only_out.iter().all(|l| l.stream == Stream::Stdout));

    let only_err = rb.lines(None, StreamFilter::Stderr, None, None, None);
    assert_eq!(only_err.len(), 2);
    assert!(only_err.iter().all(|l| l.stream == Stream::Stderr));
}

#[test]
fn since_filter() {
    let mut rb = RingBuffer::new();
    rb.push_at(at(0), Stream::Stdout, "old".into());
    let cutoff = at(10);
    rb.push_at(at(20), Stream::Stdout, "new".into());

    let filtered = rb.lines(None, StreamFilter::All, Some(cutoff), None, None);
    assert_eq!(filtered.len(), 1);
    assert_eq!(filtered[0].content, "new");
}

#[test]
fn until_filter() {
    let mut rb = RingBuffer::new();
    rb.push_at(at(0), Stream::Stdout, "old".into());
    let cutoff = at(10);
    rb.push_at(at(20), Stream::Stdout, "new".into());

    let filtered = rb.lines(None, StreamFilter::All, None, Some(cutoff), None);
    assert_eq!(filtered.len(), 1);
    assert_eq!(filtered[0].content, "old");
}

#[test]
fn since_until_window() {
    let mut rb = RingBuffer::new();
    rb.push_at(at(0), Stream::Stdout, "before".into());
    let start = at(10);
    rb.push_at(at(20), Stream::Stdout, "middle".into());
    let end = at(30);
    rb.push_at(at(40), Stream::Stdout, "after".into());

    let filtered = rb.lines(None, StreamFilter::All, Some(start), Some(end), None);
    assert_eq!(filtered.len(), 1);
    assert_eq!(filtered[0].content, "middle");
}

#[test]
fn since_with_tail() {
    let mut rb = RingBuffer::new();
    rb.push_at(at(0), Stream::Stdout, "old".into());
    let cutoff = at(10);
    rb.push_at(at(20), Stream::Stdout, "new1".into());
    rb.push_at(at(20), Stream::Stdout, "new2".into());
    rb.push_at(at(20), Stream::Stdout, "new3".into());

    let filtered = rb.lines(Some(2), StreamFilter::All, Some(cutoff), None, None);
    assert_eq!(filtered.len(), 2);
    assert_eq!(filtered[0].content, "new2");
    assert_eq!(filtered[1].content, "new3");
}

#[test]
fn grep_filter() {
    let mut rb = RingBuffer::new();
    rb.push(Stream::Stdout, "hello world".into());
    rb.push(Stream::Stdout, "foo bar".into());
    rb.push(Stream::Stdout, "Hello Again".into());

    let filtered = rb.lines(None, StreamFilter::All, None, None, Some("hello"));
    assert_eq!(filtered.len(), 2);
    assert_eq!(filtered[0].content, "hello world");
    assert_eq!(filtered[1].content, "Hello Again");
}

#[test]
fn grep_with_tail() {
    let mut rb = RingBuffer::new();
    rb.push(Stream::Stdout, "match1".into());
    rb.push(Stream::Stdout, "no".into());
    rb.push(Stream::Stdout, "match2".into());
    rb.push(Stream::Stdout, "match3".into());

    let filtered = rb.lines(Some(2), StreamFilter::All, None, None, Some("match"));
    assert_eq!(filtered.len(), 2);
    assert_eq!(filtered[0].content, "match2");
    assert_eq!(filtered[1].content, "match3");
}

#[test]
fn grep_case_insensitive() {
    let mut rb = RingBuffer::new();
    rb.push(Stream::Stdout, "ERROR: something".into());
    rb.push(Stream::Stdout, "error: another".into());
    rb.push(Stream::Stdout, "Error: mixed".into());
    rb.push(Stream::Stdout, "info: ok".into());

    let filtered = rb.lines(None, StreamFilter::All, None, None, Some("error"));
    assert_eq!(filtered.len(), 3);
}

#[test]
fn display_format() {
    let line = LogLine {
        timestamp: Timestamp::parse_rfc3339("2025-03-12T10:15:32.123Z").unwrap(),
        stream: Stream::Stdout,
        content: "content here".into(),
    };
    assert_eq!(
        line.to_string(),
        "[2025-03-12T10:15:32.123Z stdout] content here"
    );
}

//! Answering questions about logs: which lines, in which order, in which form.
use crate::json;
use crate::json::{Js, Json};
use crate::pattern;
use crate::pattern::Search;
use crate::process;
use crate::process::{EntryView, LogView, ProcessEntry};
use crate::protocol::{LogLineResponse, LogsArgs, StreamFilter, StreamKind};
use crate::ring_buffer;
use crate::ring_buffer::{LineView, LogLine, RingBuffer, Stream};
use crate::text;
use crate::time;
use crate::time::Timestamp;
use vstd::prelude::*;

verus! {

// ---------------------------------------------------------------------------
// Order
// ---------------------------------------------------------------------------

/// The lines that came at a given time, in order.
pub open spec fn at_time(s: Seq<LineView>, t: Timestamp) -> Seq<LineView>
    decreases s.len(),
{
    if s.len() == 0 {
        Seq::empty()
    } else if s.last().timestamp == t {
        at_time(s.drop_last(), t).push(s.last())
    } else {
        at_time(s.drop_last(), t)
    }
}

/// Whether no line is before one that stands in front of it.
pub open spec fn in_time_order(s: Seq<LineView>) -> bool {
    forall|i: int, j: int|
        0 <= i < j < s.len() ==> !(#[trigger] s[j]).timestamp.before((#[trigger] s[i]).timestamp)
}

/// Whether `r` has the lines of `s` in the order of time, lines of the same time
/// in the order that they have in `s`.
pub open spec fn is_sorted_from(r: Seq<LineView>, s: Seq<LineView>) -> bool {
    &&& in_time_order(r)
    &&& r.len() == s.len()
    &&& forall|t: Timestamp| #[trigger] at_time(r, t) == at_time(s, t)
}

proof fn lemma_at_time_push(s: Seq<LineView>, x: LineView, t: Timestamp)
    ensures
        at_time(s.push(x), t) == if x.timestamp == t {
            at_time(s, t).push(x)
        } else {
            at_time(s, t)
        },
{
    assert(s.push(x).drop_last() =~= s);
}

proof fn lemma_at_time_concat(a: Seq<LineView>, b: Seq<LineView>, t: Timestamp)
    ensures
        at_time(a + b, t) == at_time(a, t) + at_time(b, t),
    decreases b.len(),
{
    if b.len() == 0 {
        assert(a + b =~= a);
        assert(at_time(a, t) + at_time(b, t) =~= at_time(a, t));
    } else {
        lemma_at_time_concat(a, b.drop_last(), t);
        assert((a + b).drop_last() =~= a + b.drop_last());
        assert((a + b).last() == b.last());
        if b.last().timestamp == t {
            assert(at_time(a, t) + at_time(b.drop_last(), t).push(b.last()) =~= (at_time(a, t)
                + at_time(b.drop_last(), t)).push(b.last()));
        }
    }
}

proof fn lemma_none_at_time(s: Seq<LineView>, t: Timestamp)
    requires
        forall|i: int| 0 <= i < s.len() ==> (#[trigger] s[i]).timestamp != t,
    ensures
        at_time(s, t) == Seq::<LineView>::empty(),
    decreases s.len(),
{
    if s.len() > 0 {
        assert(s[s.len() - 1].timestamp != t);
        assert forall|i: int| 0 <= i < s.drop_last().len() implies (
        #[trigger] s.drop_last()[i]).timestamp != t by {
            assert(s.drop_last()[i] == s[i]);
        }
        lemma_none_at_time(s.drop_last(), t);
    }
}

/// Two sorted lists as one, where of equal times those of the first come first.
fn merge(a: Vec<LogLine>, b: Vec<LogLine>) -> (r: Vec<LogLine>)
    requires
        in_time_order(ring_buffer::lines_view(a@)),
        in_time_order(ring_buffer::lines_view(b@)),
    ensures
        is_sorted_from(
            ring_buffer::lines_view(r@),
            ring_buffer::lines_view(a@) + ring_buffer::lines_view(b@),
        ),
{
    let ghost x = ring_buffer::lines_view(a@);
    let ghost y = ring_buffer::lines_view(b@);
    let mut out: Vec<LogLine> = Vec::new();
    let mut i: usize = 0;
    let mut j: usize = 0;
    proof {
        assert forall|t: Timestamp| #[trigger]
            at_time(ring_buffer::lines_view(out@), t) == at_time(x.take(0), t) + at_time(
                y.take(0),
                t,
            ) by {
            assert(ring_buffer::lines_view(out@).len() == 0);
        }
    }
    while i < a.len() || j < b.len()
        invariant
            i <= a.len(),
            j <= b.len(),
            x == ring_buffer::lines_view(a@),
            y == ring_buffer::lines_view(b@),
            in_time_order(x),
            in_time_order(y),
            out@.len() == i + j,
            in_time_order(ring_buffer::lines_view(out@)),
            forall|t: Timestamp| #[trigger]
                at_time(ring_buffer::lines_view(out@), t) == at_time(x.take(i as int), t)
                    + at_time(y.take(j as int), t),
            forall|k: int|
                0 <= k < j && i < x.len() ==> (#[trigger] y[k]).timestamp.before(
                    x[i as int].timestamp,
                ),
            forall|k: int|
                0 <= k < i && j < y.len() ==> !y[j as int].timestamp.before(
                    (#[trigger] x[k]).timestamp,
                ),
            forall|k: int, q: int|
                0 <= k < out@.len() && i <= q < x.len() ==> !(#[trigger] x[q]).timestamp.before(
                    (#[trigger] out@[k]).timestamp,
                ),
            forall|k: int, q: int|
                0 <= k < out@.len() && j <= q < y.len() ==> !(#[trigger] y[q]).timestamp.before(
                    (#[trigger] out@[k]).timestamp,
                ),
        decreases a.len() - i + b.len() - j,
    {
        let from_a = if i >= a.len() {
            false
        } else if j >= b.len() {
            true
        } else {
            !b[j].timestamp.is_before(&a[i].timestamp)
        };
        let ghost before = ring_buffer::lines_view(out@);
        if from_a {
            let l = a[i].clone();
            let ghost lv = l@;
            out.push(l);
            proof {
                assert(lv == x[i as int]);
                assert(ring_buffer::lines_view(out@) =~= before.push(lv));
                assert forall|t: Timestamp| #[trigger]
                    at_time(ring_buffer::lines_view(out@), t) == at_time(x.take(i + 1), t)
                        + at_time(y.take(j as int), t) by {
                    lemma_at_time_push(before, lv, t);
                    assert(x.take(i + 1) =~= x.take(i as int).push(lv));
                    lemma_at_time_push(x.take(i as int), lv, t);
                    assert(at_time(before, t) == at_time(x.take(i as int), t) + at_time(
                        y.take(j as int),
                        t,
                    ));
                    if lv.timestamp == t {
                        assert forall|k: int| 0 <= k < y.take(j as int).len() implies (
                        #[trigger] y.take(j as int)[k]).timestamp != t by {
                            assert(y.take(j as int)[k] == y[k]);
                            assert(y[k].timestamp.before(x[i as int].timestamp));
                        }
                        lemma_none_at_time(y.take(j as int), t);
                        let p = at_time(x.take(i as int), t);
                        assert((p + Seq::<LineView>::empty()).push(lv) =~= p.push(lv)
                            + Seq::<LineView>::empty());
                    }
                }
            }
            i += 1;
        } else {
            let l = b[j].clone();
            let ghost lv = l@;
            out.push(l);
            proof {
                assert(lv == y[j as int]);
                assert(ring_buffer::lines_view(out@) =~= before.push(lv));
                assert forall|t: Timestamp| #[trigger]
                    at_time(ring_buffer::lines_view(out@), t) == at_time(x.take(i as int), t)
                        + at_time(y.take(j + 1), t) by {
                    lemma_at_time_push(before, lv, t);
                    assert(y.take(j + 1) =~= y.take(j as int).push(lv));
                    lemma_at_time_push(y.take(j as int), lv, t);
                    let p = at_time(x.take(i as int), t);
                    let q = at_time(y.take(j as int), t);
                    assert(at_time(before, t) == p + q);
                    if lv.timestamp == t {
                        assert((p + q).push(lv) =~= p + q.push(lv));
                    }
                }
            }
            j += 1;
        }
    }
    proof {
        assert(x.take(x.len() as int) =~= x);
        assert(y.take(y.len() as int) =~= y);
        assert forall|t: Timestamp| #[trigger]
            at_time(ring_buffer::lines_view(out@), t) == at_time(x + y, t) by {
            lemma_at_time_concat(x, y, t);
        }
    }
    out
}

/// Puts lines in the order of time. Lines of the same time keep their order.
pub fn sort_by_time(lines: Vec<LogLine>) -> (r: Vec<LogLine>)
    ensures
        is_sorted_from(ring_buffer::lines_view(r@), ring_buffer::lines_view(lines@)),
    decreases lines@.len(),
{
    if lines.len() <= 1 {
        return lines;
    }
    let ghost all = ring_buffer::lines_view(lines@);
    let mid = lines.len() / 2;
    let mut front = lines;
    let back = front.split_off(mid);
    let ghost x = ring_buffer::lines_view(front@);
    let ghost y = ring_buffer::lines_view(back@);
    proof {
        assert(x + y =~= all);
    }
    let a = sort_by_time(front);
    let b = sort_by_time(back);
    let ghost u = ring_buffer::lines_view(a@);
    let ghost v = ring_buffer::lines_view(b@);
    let r = merge(a, b);
    proof {
        assert forall|t: Timestamp| #[trigger]
            at_time(ring_buffer::lines_view(r@), t) == at_time(all, t) by {
            lemma_at_time_concat(u, v, t);
            lemma_at_time_concat(x, y, t);
            assert(at_time(u, t) == at_time(x, t));
            assert(at_time(v, t) == at_time(y, t));
        }
    }
    r
}

/// A line at a time stands among the lines of that time.
proof fn lemma_line_at_time(s: Seq<LineView>, i: int)
    requires
        0 <= i < s.len(),
    ensures
        at_time(s, s[i].timestamp).len() > 0,
    decreases s.len(),
{
    if i < s.len() - 1 {
        assert(s.drop_last()[i] == s[i]);
        lemma_line_at_time(s.drop_last(), i);
    }
}

/// There is only one way to put lines in the order of time.
pub proof fn lemma_sorted_unique(a: Seq<LineView>, b: Seq<LineView>)
    requires
        in_time_order(a),
        in_time_order(b),
        a.len() == b.len(),
        forall|t: Timestamp| #[trigger] at_time(a, t) == at_time(b, t),
    ensures
        a == b,
    decreases a.len(),
{
    if a.len() > 0 {
        let x = a.last();
        let y = b.last();
        if x.timestamp != y.timestamp {
            lemma_line_at_time(a, a.len() - 1);
            lemma_line_at_time(b, b.len() - 1);
            assert(at_time(b, x.timestamp) == at_time(a, x.timestamp));
            assert(at_time(a, y.timestamp) == at_time(b, y.timestamp));
            time::lemma_total(x.timestamp, y.timestamp);
            if x.timestamp.before(y.timestamp) {
                assert forall|i: int| 0 <= i < a.len() implies (#[trigger] a[i]).timestamp
                    != y.timestamp by {
                    if i < a.len() - 1 {
                        assert(!a[a.len() - 1].timestamp.before(a[i].timestamp));
                    }
                }
                lemma_none_at_time(a, y.timestamp);
            } else {
                assert forall|i: int| 0 <= i < b.len() implies (#[trigger] b[i]).timestamp
                    != x.timestamp by {
                    if i < b.len() - 1 {
                        assert(!b[b.len() - 1].timestamp.before(b[i].timestamp));
                    }
                }
                lemma_none_at_time(b, x.timestamp);
            }
            assert(false);
        }
        let t0 = x.timestamp;
        assert(at_time(a, t0) == at_time(b, t0));
        assert(at_time(a, t0).last() == x);
        assert(at_time(b, t0).last() == y);
        let p = a.drop_last();
        let q = b.drop_last();
        assert forall|t: Timestamp| #[trigger] at_time(p, t) == at_time(q, t) by {
            assert(at_time(a, t) == at_time(b, t));
            if t == t0 {
                assert(at_time(a, t).drop_last() =~= at_time(p, t));
                assert(at_time(b, t).drop_last() =~= at_time(q, t));
            }
        }
        assert forall|i: int, j: int| 0 <= i < j < p.len() implies !(
        #[trigger] p[j]).timestamp.before((#[trigger] p[i]).timestamp) by {
            assert(p[i] == a[i] && p[j] == a[j]);
        }
        assert forall|i: int, j: int| 0 <= i < j < q.len() implies !(
        #[trigger] q[j]).timestamp.before((#[trigger] q[i]).timestamp) by {
            assert(q[i] == b[i] && q[j] == b[j]);
        }
        lemma_sorted_unique(p, q);
        assert(a =~= p.push(x));
        assert(b =~= q.push(y));
    } else {
        assert(a =~= b);
    }
}

/// Some lines in the order of time, lines of the same time in their order.
pub open spec fn time_sorted(s: Seq<LineView>) -> Seq<LineView> {
    choose|r: Seq<LineView>| is_sorted_from(r, s)
}

/// Where a line belongs in lines that are in the order of time: behind all that are not
/// later.
proof fn lemma_place(s: Seq<LineView>, x: LineView) -> (k: int)
    requires
        in_time_order(s),
    ensures
        0 <= k <= s.len(),
        forall|i: int| 0 <= i < k ==> !x.timestamp.before((#[trigger] s[i]).timestamp),
        forall|i: int| k <= i < s.len() ==> x.timestamp.before((#[trigger] s[i]).timestamp),
    decreases s.len(),
{
    if s.len() == 0 || !x.timestamp.before(s.last().timestamp) {
        assert forall|i: int| 0 <= i < s.len() implies !x.timestamp.before(
            (#[trigger] s[i]).timestamp,
        ) by {
            if i < s.len() - 1 {
                assert(!s[s.len() - 1].timestamp.before(s[i].timestamp));
            }
        }
        s.len() as int
    } else {
        let rest = s.drop_last();
        assert forall|i: int, j: int| 0 <= i < j < rest.len() implies !(
        #[trigger] rest[j]).timestamp.before((#[trigger] rest[i]).timestamp) by {
            assert(rest[i] == s[i] && rest[j] == s[j]);
        }
        let k = lemma_place(rest, x);
        assert forall|i: int| 0 <= i < k implies !x.timestamp.before(
            (#[trigger] s[i]).timestamp,
        ) by {
            assert(rest[i] == s[i]);
        }
        assert forall|i: int| k <= i < s.len() implies x.timestamp.before(
            (#[trigger] s[i]).timestamp,
        ) by {
            if i < rest.len() {
                assert(rest[i] == s[i]);
            }
        }
        k
    }
}

proof fn lemma_can_be_sorted(s: Seq<LineView>) -> (r: Seq<LineView>)
    ensures
        is_sorted_from(r, s),
    decreases s.len(),
{
    if s.len() == 0 {
        s
    } else {
        let rest = s.drop_last();
        let x = s.last();
        let sorted = lemma_can_be_sorted(rest);
        let k = lemma_place(sorted, x);
        let front = sorted.take(k);
        let back = sorted.skip(k);
        let r = front.push(x) + back;
        assert forall|i: int, j: int| 0 <= i < j < r.len() implies !(
        #[trigger] r[j]).timestamp.before((#[trigger] r[i]).timestamp) by {
            if i < k && j > k {
                assert(!sorted[j - 1].timestamp.before(sorted[i].timestamp));
            } else if i > k {
                assert(!sorted[j - 1].timestamp.before(sorted[i - 1].timestamp));
            } else if j < k {
                assert(!sorted[j].timestamp.before(sorted[i].timestamp));
            } else if i == k {
                assert(x.timestamp.before(sorted[j - 1].timestamp));
            }
        }
        assert forall|t: Timestamp| #[trigger] at_time(r, t) == at_time(s, t) by {
            lemma_at_time_concat(front.push(x), back, t);
            lemma_at_time_push(front, x, t);
            lemma_at_time_concat(front, back, t);
            assert(front + back =~= sorted);
            assert(at_time(sorted, t) == at_time(rest, t));
            if x.timestamp == t {
                assert forall|i: int| 0 <= i < back.len() implies (#[trigger] back[i]).timestamp
                    != t by {
                    assert(back[i] == sorted[k + i]);
                    assert(x.timestamp.before(sorted[k + i].timestamp));
                }
                lemma_none_at_time(back, t);
                let p = at_time(front, t);
                assert(p + Seq::<LineView>::empty() =~= p);
                assert(p.push(x) + Seq::<LineView>::empty() =~= p.push(x));
            }
        }
        r
    }
}

/// Any lines can be put in the order of time, and `time_sorted` has them so.
pub proof fn lemma_time_sorted(s: Seq<LineView>)
    ensures
        is_sorted_from(time_sorted(s), s),
{
    let r = lemma_can_be_sorted(s);
    assert(is_sorted_from(r, s));
}

/// Puts lines in the order of time and keeps the last `tail` of them.
pub fn arrange(lines: Vec<LogLine>, tail: Option<usize>) -> (r: Vec<LogLine>)
    ensures
        ring_buffer::lines_view(r@) == ring_buffer::tail_of(
            time_sorted(ring_buffer::lines_view(lines@)),
            tail,
        ),
{
    let ghost all = ring_buffer::lines_view(lines@);
    let sorted = sort_by_time(lines);
    proof {
        let s = ring_buffer::lines_view(sorted@);
        let c = time_sorted(all);
        lemma_time_sorted(all);
        assert forall|t: Timestamp| #[trigger] at_time(s, t) == at_time(c, t) by {
            assert(at_time(s, t) == at_time(all, t));
        }
        lemma_sorted_unique(s, c);
    }
    ring_buffer::keep_tail(sorted, tail)
}

// ---------------------------------------------------------------------------
// Selection
// ---------------------------------------------------------------------------

/// The streams that a question is about: with `probe`, those of the probes.
pub open spec fn asked_stream(stream: StreamFilter, probe: bool) -> StreamFilter {
    if !probe {
        stream
    } else {
        match stream {
            StreamFilter::Stdout => StreamFilter::ProbeStdout,
            StreamFilter::Stderr => StreamFilter::ProbeStderr,
            StreamFilter::All => StreamFilter::Probe,
            _ => stream,
        }
    }
}

/// The streams that a question is about.
pub fn effective_stream(stream: StreamFilter, probe: bool) -> (r: StreamFilter)
    ensures
        r == asked_stream(stream, probe),
{
    if !probe {
        stream
    } else {
        match stream {
            StreamFilter::Stdout => StreamFilter::ProbeStdout,
            StreamFilter::Stderr => StreamFilter::ProbeStderr,
            StreamFilter::All => StreamFilter::Probe,
            _ => stream,
        }
    }
}

/// What a question asks for.
pub ghost struct Query {
    pub filter: StreamFilter,
    pub since: Option<Timestamp>,
    pub until: Option<Timestamp>,
    pub grep: Option<Seq<char>>,
    pub tail: Option<usize>,
}

/// The lines of a run that answer a question: those on stdout, then those on
/// stderr.
pub open spec fn run_lines(stdout: LogView, stderr: LogView, q: Query) -> Seq<LineView> {
    ring_buffer::selected(stdout.lines, q.filter, q.since, q.until, q.grep)
        + ring_buffer::selected(stderr.lines, q.filter, q.since, q.until, q.grep)
}

/// Appends some lines to others.
pub(crate) fn append_lines(out: &mut Vec<LogLine>, more: Vec<LogLine>)
    ensures
        ring_buffer::lines_view(final(out)@) == ring_buffer::lines_view(old(out)@)
            + ring_buffer::lines_view(more@),
{
    let ghost before = out@;
    let mut more = more;
    let ghost extra = more@;
    out.append(&mut more);
    proof {
        assert(ring_buffer::lines_view(out@) =~= ring_buffer::lines_view(before)
            + ring_buffer::lines_view(extra));
    }
}

/// Collects the lines of a run that answer a question.
pub fn gather(
    stdout_buf: &RingBuffer,
    stderr_buf: &RingBuffer,
    filter: StreamFilter,
    since: Option<Timestamp>,
    until: Option<Timestamp>,
    grep: &Option<String>,
) -> (r: Vec<LogLine>)
    ensures
        ring_buffer::lines_view(r@) == run_lines(
            process::log_view(*stdout_buf),
            process::log_view(*stderr_buf),
            (Query { filter, since, until, grep: text::opt_text(*grep), tail: None }),
        ),
{
    let pattern = pattern::pattern_of(grep);
    let mut all = stdout_buf.lines(None, filter, since, until, pattern);
    let more = stderr_buf.lines(None, filter, since, until, pattern);
    append_lines(&mut all, more);
    all
}

/// The first past run with a number.
pub open spec fn find_run(runs: Seq<process::RunView>, id: u32) -> Option<process::RunView>
    decreases runs.len(),
{
    if runs.len() == 0 {
        None
    } else if runs[0].run_id == id {
        Some(runs[0])
    } else {
        find_run(runs.skip(1), id)
    }
}

/// The logs of the run that a question is about: the last past run, the run with
/// a number, or the current one.
pub open spec fn asked_run(e: EntryView, previous: bool, run: Option<u32>) -> Result<
    (LogView, LogView),
    Seq<char>,
> {
    if previous {
        if e.run_history.len() == 0 {
            Err("no previous run"@)
        } else {
            Ok((e.run_history.last().stdout, e.run_history.last().stderr))
        }
    } else {
        match run {
            None => Ok((e.stdout, e.stderr)),
            Some(id) => if id == e.current_run_id {
                Ok((e.stdout, e.stderr))
            } else {
                match find_run(e.run_history, id) {
                    Some(r) => Ok((r.stdout, r.stderr)),
                    None => Err("run "@ + text::decimal(id as nat) + " not found"@),
                }
            },
        }
    }
}

/// Finds the logs of the run that a question is about.
pub fn select_run<'a>(e: &'a ProcessEntry, previous: bool, run: Option<u32>) -> (r: Result<
    (&'a RingBuffer, &'a RingBuffer),
    String,
>)
    ensures
        match r {
            Ok(b) => asked_run(e@, previous, run) == Ok::<(LogView, LogView), Seq<char>>(
                (process::log_view(*b.0), process::log_view(*b.1)),
            ),
            Err(m) => asked_run(e@, previous, run) == Err::<(LogView, LogView), Seq<char>>(m@),
        },
{
    proof {
        assert(e@.run_history.len() == e.run_history@.len());
    }
    if previous {
        let n = e.run_history.len();
        if n == 0 {
            return Err(text::copy("no previous run"));
        }
        let last = &e.run_history[n - 1];
        return Ok((&last.stdout_buf, &last.stderr_buf));
    }
    match run {
        None => Ok((&e.stdout_buf, &e.stderr_buf)),
        Some(id) => {
            if id == e.current_run_id {
                return Ok((&e.stdout_buf, &e.stderr_buf));
            }
            let ghost runs = e@.run_history;
            let mut i: usize = 0;
            proof {
                assert(runs.skip(0) =~= runs);
            }
            while i < e.run_history.len()
                invariant
                    i <= e.run_history.len(),
                    runs == e@.run_history,
                    !previous,
                    run == Some(id),
                    id != e.current_run_id,
                    find_run(runs.skip(i as int), id) == find_run(runs, id),
                decreases e.run_history.len() - i,
            {
                let rec = &e.run_history[i];
                proof {
                    assert(runs.skip(i as int)[0] == rec@);
                    assert(runs.skip(i as int).skip(1) =~= runs.skip(i + 1));
                }
                if rec.run_id == id {
                    return Ok((&rec.stdout_buf, &rec.stderr_buf));
                }
                i += 1;
            }
            let n = text::decimal_of(id as u128);
            Err(text::concat3("run ", n.as_str(), " not found"))
        },
    }
}

/// The lines of a process that answer a question, in the order of time.
pub open spec fn entry_answer(
    e: EntryView,
    previous: bool,
    run: Option<u32>,
    q: Query,
) -> Result<Seq<LineView>, Seq<char>> {
    match asked_run(e, previous, run) {
        Ok(logs) => Ok(ring_buffer::tail_of(time_sorted(run_lines(logs.0, logs.1, q)), q.tail)),
        Err(m) => Err(m),
    }
}

/// Collects the lines of a process that answer a question.
pub fn entry_lines(
    e: &ProcessEntry,
    args: &LogsArgs,
    since: Option<Timestamp>,
    until: Option<Timestamp>,
) -> (r: Result<Vec<LogLine>, String>)
    ensures
        match r {
            Ok(l) => entry_answer(
                e@,
                args.previous,
                args.run,
                query(*args, since, until),
            ) == Ok::<Seq<LineView>, Seq<char>>(ring_buffer::lines_view(l@)),
            Err(m) => entry_answer(
                e@,
                args.previous,
                args.run,
                query(*args, since, until),
            ) == Err::<Seq<LineView>, Seq<char>>(m@),
        },
{
    match select_run(e, args.previous, args.run) {
        Ok(b) => {
            let filter = effective_stream(args.stream, args.probe);
            let all = gather(b.0, b.1, filter, since, until, &args.grep);
            Ok(arrange(all, args.tail))
        },
        Err(m) => Err(m),
    }
}

/// What the arguments of a question ask for.
pub open spec fn query(
    args: LogsArgs,
    since: Option<Timestamp>,
    until: Option<Timestamp>,
) -> Query {
    Query {
        filter: asked_stream(args.stream, args.probe),
        since,
        until,
        grep: text::opt_text(args.grep),
        tail: args.tail,
    }
}

/// The lines that a client that follows a log gets first: those of the current
/// run.
pub fn follow_backlog(e: &ProcessEntry, args: &LogsArgs, since: Option<Timestamp>) -> (r: Vec<
    LogLine,
>)
    ensures
        ring_buffer::lines_view(r@) == ring_buffer::tail_of(
            time_sorted(
                run_lines(
                    e@.stdout,
                    e@.stderr,
                    (Query {
                        filter: args.stream,
                        since,
                        until: None,
                        grep: text::opt_text(args.grep),
                        tail: None,
                    }),
                ),
            ),
            args.tail,
        ),
{
    let all = gather(&e.stdout_buf, &e.stderr_buf, args.stream, since, None, &args.grep);
    arrange(all, args.tail)
}

/// Whether a new line is sent to a client that follows a log.
pub fn follow_passes(
    l: &LogLine,
    args: &LogsArgs,
    since: Option<Timestamp>,
    search: &Search,
) -> (r: bool)
    ensures
        r == (ring_buffer::in_scope(l@, args.stream, since, None) && search.finds(l.content@)),
{
    let found = search.matches(l.content.as_str());
    ring_buffer::line_matches(l, args.stream, &since, &None, found)
}

/// A line as it is sent to a client that follows a log.
pub fn follow_line(id: &str, name: &str, l: &LogLine) -> (r: LogLineResponse)
    ensures
        r.id@ == id@,
        r.name@ == name@,
        r.timestamp@ == time::rfc3339(l.timestamp.seconds(), l.timestamp.subsec()),
        r.stream == l.stream.kind_sent(),
        r.content@ == l.content@,
{
    LogLineResponse {
        id: text::copy(id),
        name: text::copy(name),
        timestamp: l.timestamp.to_rfc3339(),
        stream: StreamKind::from(l.stream),
        content: text::copy(l.content.as_str()),
    }
}

/// The start of the time that a client that follows a log asks for. A text that
/// is no point in time counts as none.
pub open spec fn follow_since_of(since: Option<Seq<char>>) -> Option<Timestamp> {
    match since {
        Some(s) => match time::rfc3339_read(s) {
            Ok(t) => Some(Timestamp::stamp(t.0, t.1)),
            Err(_) => None,
        },
        None => None,
    }
}

/// Reads the start of the time that a client that follows a log asks for.
pub fn follow_since(since: &Option<String>) -> (r: Option<Timestamp>)
    ensures
        r == follow_since_of(text::opt_text(*since)),
{
    match since {
        Some(s) => match Timestamp::parse_rfc3339(s.as_str()) {
            Ok(t) => Some(t),
            Err(_) => None,
        },
        None => None,
    }
}

/// A bound that a question may set, or what is wrong with it.
pub open spec fn bound_of(label: Seq<char>, s: Option<Seq<char>>) -> Result<
    Option<Timestamp>,
    Seq<char>,
> {
    match s {
        None => Ok(None),
        Some(s) => match time::rfc3339_read(s) {
            Ok(t) => Ok(Some(Timestamp::stamp(t.0, t.1))),
            Err(e) => Err("invalid "@ + label + " timestamp: "@ + e),
        },
    }
}

/// Reads a bound that a question may set.
pub fn parse_bound(label: &str, s: &Option<String>) -> (r: Result<Option<Timestamp>, String>)
    ensures
        match r {
            Ok(t) => bound_of(label@, text::opt_text(*s)) == Ok::<Option<Timestamp>, Seq<char>>(t),
            Err(e) => bound_of(label@, text::opt_text(*s)) == Err::<Option<Timestamp>, Seq<char>>(
                e@,
            ),
        },
{
    match s {
        None => Ok(None),
        Some(s) => match Timestamp::parse_rfc3339(s.as_str()) {
            Ok(t) => Ok(Some(t)),
            Err(e) => {
                let mut m = text::concat3("invalid ", label, " timestamp: ");
                text::push_text(&mut m, e.as_str());
                Err(m)
            },
        },
    }
}

// ---------------------------------------------------------------------------
// Form
// ---------------------------------------------------------------------------

/// The name of a stream, as it is sent.
pub open spec fn stream_name(s: Stream) -> Seq<char> {
    match s {
        Stream::Stdout => "stdout"@,
        Stream::Stderr => "stderr"@,
        Stream::ProbeStdout => "probe_stdout"@,
        Stream::ProbeStderr => "probe_stderr"@,
    }
}

/// A line as it is sent.
pub open spec fn line_json(l: LineView) -> Js {
    json::object_of(
        seq![
            (
                "timestamp"@,
                Js::Text(time::rfc3339(l.timestamp.seconds(), l.timestamp.subsec())),
            ),
            ("stream"@, Js::Text(stream_name(l.stream))),
            ("content"@, Js::Text(l.content)),
        ],
    )
}

/// Some lines as they are sent.
pub open spec fn lines_json(s: Seq<LineView>) -> Js {
    json::object_of(seq![("lines"@, line_list(s))])
}

fn line_value(l: &LogLine) -> (r: Json)
    ensures
        json::model(r) == line_json(l@),
{
    let name = match l.stream {
        Stream::Stdout => "stdout",
        Stream::Stderr => "stderr",
        Stream::ProbeStdout => "probe_stdout",
        Stream::ProbeStderr => "probe_stderr",
    };
    let mut e: Vec<(String, Json)> = Vec::new();
    e.push(json::entry("timestamp", Json::Text(l.timestamp.to_rfc3339())));
    e.push(json::entry("stream", json::string(name)));
    e.push(json::entry("content", json::string(l.content.as_str())));
    proof {
        assert(json::entry_models(e@) =~= seq![
            (
                "timestamp"@,
                Js::Text(time::rfc3339(l.timestamp.seconds(), l.timestamp.subsec())),
            ),
            ("stream"@, Js::Text(stream_name(l.stream))),
            ("content"@, Js::Text(l.content@)),
        ]);
    }
    json::object(e)
}

/// A list of some lines.
pub open spec fn line_list(s: Seq<LineView>) -> Js {
    Js::Array(s.map_values(|l: LineView| line_json(l)))
}

/// Writes a list of some lines.
pub fn list_lines(lines: &Vec<LogLine>) -> (r: Json)
    ensures
        json::model(r) == line_list(ring_buffer::lines_view(lines@)),
{
    let ghost want = ring_buffer::lines_view(lines@).map_values(|l: LineView| line_json(l));
    let mut out: Vec<Json> = Vec::new();
    let mut i: usize = 0;
    while i < lines.len()
        invariant
            i <= lines.len(),
            out@.len() == i,
            forall|j: int|
                0 <= j < i ==> json::model(#[trigger] out@[j]) == line_json(lines@[j]@),
        decreases lines.len() - i,
    {
        out.push(line_value(&lines[i]));
        i += 1;
    }
    proof {
        assert(json::models(out@) =~= want);
    }
    json::array(out)
}

/// Writes some lines as they are sent.
pub fn lines_value(lines: &Vec<LogLine>) -> (r: Json)
    ensures
        json::model(r) == lines_json(ring_buffer::lines_view(lines@)),
{
    let mut e: Vec<(String, Json)> = Vec::new();
    e.push(json::entry("lines", list_lines(lines)));
    proof {
        assert(json::entry_models(e@) =~= seq![
            ("lines"@, line_list(ring_buffer::lines_view(lines@))),
        ]);
    }
    json::object(e)
}

/// The line of an instance of a template, marked with the name of the instance.
pub open spec fn marked_line(name: Seq<char>, l: LineView) -> LineView {
    LineView { content: "["@ + name + "] "@ + l.content, ..l }
}

/// The lines of an instance, each marked with its name.
pub fn mark_lines(name: &str, lines: Vec<LogLine>) -> (r: Vec<LogLine>)
    ensures
        ring_buffer::lines_view(r@) == ring_buffer::lines_view(lines@).map_values(
            |l: LineView| marked_line(name@, l),
        ),
{
    let mut out: Vec<LogLine> = Vec::new();
    let mut i: usize = 0;
    while i < lines.len()
        invariant
            i <= lines.len(),
            out@.len() == i,
            forall|j: int| 0 <= j < i ==> (#[trigger] out@[j])@ == marked_line(name@, lines@[j]@),
        decreases lines.len() - i,
    {
        let l = &lines[i];
        let mut content = text::concat3("[", name, "] ");
        text::push_text(&mut content, l.content.as_str());
        out.push(LogLine { timestamp: l.timestamp, stream: l.stream, content });
        i += 1;
    }
    proof {
        assert(ring_buffer::lines_view(out@) =~= ring_buffer::lines_view(lines@).map_values(
            |l: LineView| marked_line(name@, l),
        ));
    }
    out
}

} // verus!

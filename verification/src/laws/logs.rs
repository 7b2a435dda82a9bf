//! What a log keeps, and what a question about it is answered.
use crate::json;
use crate::json::{Js, Json};
use crate::laws::fields;
use crate::logs;
use crate::pattern;
use crate::pattern::Search;
use crate::process;
use crate::protocol::{LogsArgs, Response};
use crate::psyfile::Psyfile;
use crate::ring_buffer;
use crate::ring_buffer::{LineView, LogLine, RingBuffer, Stream};
use crate::root;
use crate::root::query;
use crate::root::SharedRoot;
use crate::text;
use crate::time;
use crate::time::Timestamp;
use vstd::prelude::*;

verus! {

// ---------------------------------------------------------------------------
// What is asked for
// ---------------------------------------------------------------------------

/// Whether an optional text names an optional point in time.
pub open spec fn names_time(s: Option<String>, t: Option<Timestamp>) -> bool {
    match s {
        None => t is None,
        Some(x) => t is Some && time::rfc3339_read(x@) == Ok::<(int, int), Seq<char>>(
            (t->0.seconds(), t->0.subsec()),
        ),
    }
}

/// Whether lines of a stream are asked for. Lines of probes are asked for on purpose only.
pub open spec fn stream_is_asked(a: LogsArgs, s: Stream) -> bool {
    match s {
        Stream::Stdout => !a.probe && (a.stream is All || a.stream is Stdout),
        Stream::Stderr => !a.probe && (a.stream is All || a.stream is Stderr),
        Stream::ProbeStdout => a.stream is Probe || a.stream is ProbeStdout || (a.probe && (
        a.stream is All || a.stream is Stdout)),
        Stream::ProbeStderr => a.stream is Probe || a.stream is ProbeStderr || (a.probe && (
        a.stream is All || a.stream is Stderr)),
    }
}

/// Whether a line answers a question: it is on a stream that is asked for, neither before
/// nor after the time that is asked for, and holds the pattern that is asked for.
pub open spec fn answers(
    l: LineView,
    a: LogsArgs,
    since: Option<Timestamp>,
    until: Option<Timestamp>,
) -> bool {
    &&& stream_is_asked(a, l.stream)
    &&& since is Some ==> {
        ||| since->0.seconds() < l.timestamp.seconds()
        ||| since->0.seconds() == l.timestamp.seconds() && since->0.subsec() <= l.timestamp.subsec()
    }
    &&& until is Some ==> {
        ||| l.timestamp.seconds() < until->0.seconds()
        ||| l.timestamp.seconds() == until->0.seconds() && l.timestamp.subsec() <= until->0.subsec()
    }
    &&& a.grep is Some ==> pattern::found(a.grep->0@, true, l.content)
}

/// The lines of a log that answer a question.
pub open spec fn answering(
    s: Seq<LineView>,
    a: LogsArgs,
    since: Option<Timestamp>,
    until: Option<Timestamp>,
) -> Seq<LineView> {
    s.filter(|l: LineView| answers(l, a, since, until))
}

proof fn lemma_selected(
    s: Seq<LineView>,
    a: LogsArgs,
    since: Option<Timestamp>,
    until: Option<Timestamp>,
)
    requires
        pattern::complaint(text::opt_text(a.grep)) is None,
    ensures
        ({
            let q = logs::query(a, since, until);
            ring_buffer::selected(s, q.filter, q.since, q.until, q.grep) == answering(
                s,
                a,
                since,
                until,
            )
        }),
    decreases s.len(),
{
    reveal(Seq::filter);
    if s.len() > 0 {
        lemma_selected(s.drop_last(), a, since, until);
        let q = logs::query(a, since, until);
        let l = s.last();
        assert(ring_buffer::keeps(l, q.filter, q.since, q.until, q.grep) == answers(
            l,
            a,
            since,
            until,
        ));
    }
}

/// A question about a process is answered with exactly those lines of the run that is
/// asked for which answer it, in the order of time; lines of the same time keep their
/// order, stdout first. The run is the current one where none is named.
pub proof fn lemma_answer_is_exact(
    root: SharedRoot,
    a: LogsArgs,
    psyfile: Result<Option<Psyfile>, String>,
    since: Option<Timestamp>,
    until: Option<Timestamp>,
    r: Result<Vec<LogLine>, String>,
)
    requires
        call_ensures(SharedRoot::collect_logs, (&root, &Some(a), &psyfile), r),
        !query::names_template(psyfile, a.name@),
        root@.table.dom().contains(a.name@),
        process::numbered(root@.table[a.name@]),
        names_time(a.since, since),
        names_time(a.until, until),
        a.grep is Some ==> pattern::fault(a.grep->0@, true) is None,
        a.tail is None,
    ensures
        ({
            let e = root@.table[a.name@];
            &&& !a.previous && (a.run is None || a.run == Some(e.current_run_id)) ==> r is Ok
                && logs::is_sorted_from(
                ring_buffer::lines_view(r->Ok_0@),
                answering(e.stdout.lines, a, since, until) + answering(
                    e.stderr.lines,
                    a,
                    since,
                    until,
                ),
            )
            &&& a.previous && e.run_history.len() > 0 ==> r is Ok && logs::is_sorted_from(
                ring_buffer::lines_view(r->Ok_0@),
                answering(e.run_history.last().stdout.lines, a, since, until) + answering(
                    e.run_history.last().stderr.lines,
                    a,
                    since,
                    until,
                ),
            )
            &&& a.previous && e.run_history.len() == 0 ==> r is Err
            &&& !a.previous && a.run is Some && a.run != Some(e.current_run_id) ==> (r is Ok
                <==> exists|i: int|
                0 <= i < e.run_history.len() && (#[trigger] e.run_history[i]).run_id == a.run->0)
            &&& forall|i: int|
                0 <= i < e.run_history.len() && !a.previous && a.run == Some(
                    (#[trigger] e.run_history[i]).run_id,
                ) ==> r is Ok && logs::is_sorted_from(
                    ring_buffer::lines_view(r->Ok_0@),
                    answering(e.run_history[i].stdout.lines, a, since, until) + answering(
                        e.run_history[i].stderr.lines,
                        a,
                        since,
                        until,
                    ),
                )
        }),
{
    let e = root@.table[a.name@];
    if let Some(t) = since {
        time::lemma_stamp(t);
    }
    if let Some(t) = until {
        time::lemma_stamp(t);
    }
    lemma_run_answer(e.stdout, e.stderr, a, since, until);
    if e.run_history.len() > 0 {
        lemma_run_answer(e.run_history.last().stdout, e.run_history.last().stderr, a, since, until);
    }
    if !a.previous && a.run is Some && a.run != Some(e.current_run_id) {
        lemma_found_run(e.run_history, a.run->0);
        if let Some(x) = logs::find_run(e.run_history, a.run->0) {
            lemma_run_answer(x.stdout, x.stderr, a, since, until);
        }
        assert forall|i: int|
            0 <= i < e.run_history.len() && a.run == Some(
                (#[trigger] e.run_history[i]).run_id,
            ) implies logs::find_run(e.run_history, a.run->0) == Some(e.run_history[i]) by {
            query::lemma_past_log(e, i);
            lemma_first_of_its_number(e.run_history, i);
        }
    }
    assert forall|i: int|
        0 <= i < e.run_history.len() && !a.previous && a.run == Some(
            (#[trigger] e.run_history[i]).run_id,
        ) implies a.run != Some(e.current_run_id) by {}
}

proof fn lemma_first_of_its_number(runs: Seq<process::RunView>, i: int)
    requires
        0 <= i < runs.len(),
        forall|x: int, y: int|
            0 <= x < y < runs.len() ==> (#[trigger] runs[x]).run_id < (#[trigger] runs[y]).run_id,
    ensures
        logs::find_run(runs, runs[i].run_id) == Some(runs[i]),
    decreases runs.len(),
{
    if i > 0 {
        assert(runs[0].run_id < runs[i].run_id);
        let rest = runs.skip(1);
        assert forall|x: int, y: int| 0 <= x < y < rest.len() implies (#[trigger] rest[x]).run_id
            < (#[trigger] rest[y]).run_id by {
            assert(rest[x] == runs[x + 1] && rest[y] == runs[y + 1]);
        }
        lemma_first_of_its_number(rest, i - 1);
    }
}

proof fn lemma_found_run(runs: Seq<process::RunView>, id: u32)
    ensures
        logs::find_run(runs, id) is Some <==> exists|i: int|
            0 <= i < runs.len() && (#[trigger] runs[i]).run_id == id,
    decreases runs.len(),
{
    if runs.len() > 0 {
        let rest = runs.skip(1);
        lemma_found_run(rest, id);
        if exists|i: int| 0 <= i < rest.len() && (#[trigger] rest[i]).run_id == id {
            let i = choose|i: int| 0 <= i < rest.len() && (#[trigger] rest[i]).run_id == id;
            assert(runs[i + 1].run_id == id);
        }
        if exists|i: int| 0 <= i < runs.len() && (#[trigger] runs[i]).run_id == id {
            let i = choose|i: int| 0 <= i < runs.len() && (#[trigger] runs[i]).run_id == id;
            if i > 0 {
                assert(rest[i - 1].run_id == id);
            }
        }
    }
}

proof fn lemma_run_answer(
    stdout: process::LogView,
    stderr: process::LogView,
    a: LogsArgs,
    since: Option<Timestamp>,
    until: Option<Timestamp>,
)
    requires
        pattern::complaint(text::opt_text(a.grep)) is None,
    ensures
        logs::is_sorted_from(
            logs::time_sorted(logs::run_lines(stdout, stderr, logs::query(a, since, until))),
            answering(stdout.lines, a, since, until) + answering(stderr.lines, a, since, until),
        ),
{
    lemma_selected(stdout.lines, a, since, until);
    lemma_selected(stderr.lines, a, since, until);
    logs::lemma_time_sorted(logs::run_lines(stdout, stderr, logs::query(a, since, until)));
}

/// No line of an answer is before the time from which on lines are asked for, or after
/// the time up to which they are; none is on a stream that is not asked for, and each
/// holds the pattern. This holds of questions about templates as well, whose lines are
/// marked.
pub proof fn lemma_no_line_out_of_scope(
    root: SharedRoot,
    a: LogsArgs,
    psyfile: Result<Option<Psyfile>, String>,
    since: Option<Timestamp>,
    until: Option<Timestamp>,
    l: Vec<LogLine>,
    i: int,
)
    requires
        call_ensures(
            SharedRoot::collect_logs,
            (&root, &Some(a), &psyfile),
            Ok::<Vec<LogLine>, String>(l),
        ),
        names_time(a.since, since),
        names_time(a.until, until),
        0 <= i < l@.len(),
    ensures
        stream_is_asked(a, l@[i].stream),
        since is Some ==> !l@[i].timestamp.before(since->0),
        until is Some ==> !until->0.before(l@[i].timestamp),
        a.tail is Some ==> l@.len() <= a.tail->0,
        i + 1 < l@.len() ==> !l@[i + 1].timestamp.before(l@[i].timestamp),
        !query::names_template(psyfile, a.name@) && a.grep is Some ==> pattern::found(
            a.grep->0@,
            true,
            l@[i].content@,
        ),
{
    if let Some(t) = since {
        time::lemma_stamp(t);
    }
    if let Some(t) = until {
        time::lemma_stamp(t);
    }
    let q = logs::query(a, since, until);
    let v = ring_buffer::lines_view(l@);
    assert(v[i] == l@[i]@);
    if i + 1 < l@.len() {
        assert(v[i + 1] == l@[i + 1]@);
    }
    if query::names_template(psyfile, a.name@) {
        let all = query::instance_lines(root@, root.names(), a.name@, q);
        logs::lemma_time_sorted(all);
        lemma_tail(logs::time_sorted(all), a.tail);
        let s = logs::time_sorted(all);
        assert(s.contains(v[i]));
        let k = s.index_of(v[i]);
        assert(s[k] == v[i]);
        lemma_sorted_from_some(s, all, k);
        let j = choose|j: int| 0 <= j < all.len() && all[j] == s[k];
        lemma_instances_in_scope(root@, root.names(), a.name@, a, since, until, j);
    } else {
        let e = root@.table[a.name@];
        let log = logs::asked_run(e, a.previous, a.run)->Ok_0;
        let all = logs::run_lines(log.0, log.1, q);
        logs::lemma_time_sorted(all);
        lemma_tail(logs::time_sorted(all), a.tail);
        let s = logs::time_sorted(all);
        assert(s.contains(v[i]));
        let k = s.index_of(v[i]);
        assert(s[k] == v[i]);
        lemma_sorted_from_some(s, all, k);
        let j = choose|j: int| 0 <= j < all.len() && all[j] == s[k];
        lemma_run_in_scope(log.0, log.1, a, since, until, j);
    }
}

proof fn lemma_tail(s: Seq<LineView>, n: Option<usize>)
    requires
        logs::in_time_order(s),
    ensures
        logs::in_time_order(ring_buffer::tail_of(s, n)),
        n is Some ==> ring_buffer::tail_of(s, n).len() <= n->0,
        forall|i: int|
            0 <= i < ring_buffer::tail_of(s, n).len() ==> s.contains(
                #[trigger] ring_buffer::tail_of(s, n)[i],
            ),
{
    let t = ring_buffer::tail_of(s, n);
    let d = s.len() - t.len();
    assert forall|i: int| 0 <= i < t.len() implies s.contains(#[trigger] t[i]) by {
        assert(s[i + d] == t[i]);
    }
    assert forall|i: int, j: int| 0 <= i < j < t.len() implies !(
    #[trigger] t[j]).timestamp.before((#[trigger] t[i]).timestamp) by {
        assert(t[i] == s[i + d] && t[j] == s[j + d]);
    }
}

proof fn lemma_in_at_time(s: Seq<LineView>, t: Timestamp, k: int)
    requires
        0 <= k < logs::at_time(s, t).len(),
    ensures
        exists|j: int| 0 <= j < s.len() && s[j] == logs::at_time(s, t)[k],
    decreases s.len(),
{
    let rest = s.drop_last();
    if s.last().timestamp == t && k == logs::at_time(rest, t).len() {
        assert(s[s.len() - 1] == logs::at_time(s, t)[k]);
    } else {
        lemma_in_at_time(rest, t, k);
        let j = choose|j: int| 0 <= j < rest.len() && rest[j] == logs::at_time(rest, t)[k];
        assert(s[j] == logs::at_time(s, t)[k]);
    }
}

proof fn lemma_to_at_time(s: Seq<LineView>, i: int) -> (k: int)
    requires
        0 <= i < s.len(),
    ensures
        0 <= k < logs::at_time(s, s[i].timestamp).len(),
        logs::at_time(s, s[i].timestamp)[k] == s[i],
    decreases s.len(),
{
    let t = s[i].timestamp;
    let rest = s.drop_last();
    if i == s.len() - 1 {
        logs::at_time(rest, t).len() as int
    } else {
        assert(rest[i] == s[i]);
        lemma_to_at_time(rest, i)
    }
}

proof fn lemma_sorted_from_some(r: Seq<LineView>, s: Seq<LineView>, k: int)
    requires
        logs::is_sorted_from(r, s),
        0 <= k < r.len(),
    ensures
        exists|j: int| 0 <= j < s.len() && s[j] == r[k],
{
    let t = r[k].timestamp;
    let q = lemma_to_at_time(r, k);
    assert(logs::at_time(r, t) == logs::at_time(s, t));
    lemma_in_at_time(s, t, q);
}

proof fn lemma_selected_in_scope(
    s: Seq<LineView>,
    a: LogsArgs,
    since: Option<Timestamp>,
    until: Option<Timestamp>,
    j: int,
)
    requires
        ({
            let q = logs::query(a, since, until);
            0 <= j < ring_buffer::selected(s, q.filter, q.since, q.until, q.grep).len()
        }),
    ensures
        ({
            let q = logs::query(a, since, until);
            let l = ring_buffer::selected(s, q.filter, q.since, q.until, q.grep)[j];
            &&& stream_is_asked(a, l.stream)
            &&& since is Some ==> !l.timestamp.before(since->0)
            &&& until is Some ==> !until->0.before(l.timestamp)
            &&& a.grep is Some ==> pattern::found(a.grep->0@, true, l.content)
        }),
    decreases s.len(),
{
    let q = logs::query(a, since, until);
    let rest = s.drop_last();
    let before = ring_buffer::selected(rest, q.filter, q.since, q.until, q.grep);
    if j < before.len() {
        lemma_selected_in_scope(rest, a, since, until, j);
    }
}

proof fn lemma_run_in_scope(
    stdout: process::LogView,
    stderr: process::LogView,
    a: LogsArgs,
    since: Option<Timestamp>,
    until: Option<Timestamp>,
    j: int,
)
    requires
        0 <= j < logs::run_lines(stdout, stderr, logs::query(a, since, until)).len(),
    ensures
        ({
            let l = logs::run_lines(stdout, stderr, logs::query(a, since, until))[j];
            &&& stream_is_asked(a, l.stream)
            &&& since is Some ==> !l.timestamp.before(since->0)
            &&& until is Some ==> !until->0.before(l.timestamp)
            &&& a.grep is Some ==> pattern::found(a.grep->0@, true, l.content)
        }),
{
    let q = logs::query(a, since, until);
    let first = ring_buffer::selected(stdout.lines, q.filter, q.since, q.until, q.grep);
    if j < first.len() {
        lemma_selected_in_scope(stdout.lines, a, since, until, j);
    } else {
        lemma_selected_in_scope(stderr.lines, a, since, until, j - first.len());
    }
}

proof fn lemma_instances_in_scope(
    r: root::RootView,
    names: Seq<Seq<char>>,
    template: Seq<char>,
    a: LogsArgs,
    since: Option<Timestamp>,
    until: Option<Timestamp>,
    j: int,
)
    requires
        0 <= j < query::instance_lines(r, names, template, logs::query(a, since, until)).len(),
    ensures
        ({
            let l = query::instance_lines(r, names, template, logs::query(a, since, until))[j];
            &&& stream_is_asked(a, l.stream)
            &&& since is Some ==> !l.timestamp.before(since->0)
            &&& until is Some ==> !until->0.before(l.timestamp)
        }),
    decreases names.len(),
{
    let q = logs::query(a, since, until);
    let before = query::instance_lines(r, names.drop_last(), template, q);
    let name = names.last();
    if j < before.len() {
        lemma_instances_in_scope(r, names.drop_last(), template, a, since, until, j);
    } else {
        let e = r.table[name];
        lemma_run_in_scope(e.stdout, e.stderr, a, since, until, j - before.len());
    }
}

/// A limit on the number of lines keeps the newest of those that are answered without it.
pub proof fn lemma_tail_is_the_newest(
    root: SharedRoot,
    a: LogsArgs,
    b: LogsArgs,
    psyfile: Result<Option<Psyfile>, String>,
    all: Vec<LogLine>,
    some: Result<Vec<LogLine>, String>,
    n: usize,
)
    requires
        call_ensures(
            SharedRoot::collect_logs,
            (&root, &Some(a), &psyfile),
            Ok::<Vec<LogLine>, String>(all),
        ),
        call_ensures(SharedRoot::collect_logs, (&root, &Some(b), &psyfile), some),
        a.tail is None,
        b == (LogsArgs { tail: Some(n), ..a }),
    ensures
        some is Ok,
        some->Ok_0@.len() == if n < all@.len() {
            n as nat
        } else {
            all@.len()
        },
        ring_buffer::lines_view(some->Ok_0@) == ring_buffer::lines_view(all@).skip(
            all@.len() - some->Ok_0@.len(),
        ),
{
    let v = ring_buffer::lines_view(all@);
    assert(v.len() == all@.len());
    assert(ring_buffer::lines_view(some->Ok_0@).len() == some->Ok_0@.len());
    assert(v.skip(0) =~= v);
    let since = logs::bound_of("since"@, text::opt_text(a.since))->Ok_0;
    let until = logs::bound_of("until"@, text::opt_text(a.until))->Ok_0;
    let q = logs::query(a, since, until);
    let p = logs::query(b, since, until);
    if query::names_template(psyfile, a.name@) {
        lemma_same_instances(root@, root.names(), a.name@, q, p);
    } else {
        let log = logs::asked_run(root@.table[a.name@], a.previous, a.run)->Ok_0;
        assert(logs::run_lines(log.0, log.1, q) == logs::run_lines(log.0, log.1, p));
    }
}

proof fn lemma_same_instances(
    r: root::RootView,
    names: Seq<Seq<char>>,
    template: Seq<char>,
    q: logs::Query,
    p: logs::Query,
)
    requires
        p == (logs::Query { tail: p.tail, ..q }),
    ensures
        query::instance_lines(r, names, template, q) == query::instance_lines(
            r,
            names,
            template,
            p,
        ),
    decreases names.len(),
{
    if names.len() > 0 {
        lemma_same_instances(r, names.drop_last(), template, q, p);
        let e = r.table[names.last()];
        assert(logs::run_lines(e.stdout, e.stderr, q) == logs::run_lines(e.stdout, e.stderr, p));
    }
}

/// A question that cannot be answered is refused: a time or a pattern that cannot be read,
/// or a process that is neither known nor a template.
pub proof fn lemma_bad_question_is_refused(
    root: SharedRoot,
    id: &str,
    a: LogsArgs,
    psyfile: Result<Option<Psyfile>, String>,
    r: Response,
    l: Result<Vec<LogLine>, String>,
)
    requires
        call_ensures(SharedRoot::handle_logs, (&root, id, &Some(a), &psyfile), r),
        call_ensures(SharedRoot::collect_logs, (&root, &Some(a), &psyfile), l),
    ensures
        r.id@ == id@,
        r.ok <==> l is Ok,
        r.ok <==> r.data is Some,
        l matches Err(e) ==> r.error is Some && r.error->0@ == e@,
        a.since is Some && time::rfc3339_read(a.since->0@) is Err ==> !r.ok,
        a.until is Some && time::rfc3339_read(a.until->0@) is Err ==> !r.ok,
        a.grep is Some && pattern::fault(a.grep->0@, true) is Some ==> !r.ok,
        !root@.table.dom().contains(a.name@) && !query::names_template(psyfile, a.name@)
            ==> !r.ok,
{
}

/// What is asked since a time stays asked since that time; only a question for what came
/// since the last one is settled by when that was. All else stays as it was asked.
pub proof fn lemma_since_is_kept(
    root: &mut SharedRoot,
    a: LogsArgs,
    now: Timestamp,
    r: LogsArgs,
)
    requires
        call_ensures(SharedRoot::note_logs_asked, (root, a, now), r),
    ensures
        a.since is None ==> r.since is None,
        a.since is Some && a.since->0@ != "last"@ ==> r.since is Some && r.since->0@
            == a.since->0@,
        a.since is Some && a.since->0@ == "last"@ && !old(root)@.logs_asked.dom().contains(a.name@)
            ==> r.since is None,
        r.name == a.name,
        r.tail == a.tail,
        r.stream == a.stream,
        r.until == a.until,
        r.grep == a.grep,
        r.run == a.run,
        r.previous == a.previous,
        r.probe == a.probe,
        final(root)@.table == old(root)@.table,
        final(root)@.logs_asked.dom().contains(a.name@),
        final(root)@.logs_asked[a.name@] == now,
{
}

/// A question for what came since the last one asks for what came since then: the time is
/// read back from it as the time of that question.
pub proof fn lemma_since_the_last_question(
    root: &mut SharedRoot,
    next: &mut SharedRoot,
    a: LogsArgs,
    b: LogsArgs,
    then: Timestamp,
    now: Timestamp,
    r: LogsArgs,
    s: LogsArgs,
    shown: String,
    read: Result<Timestamp, String>,
)
    requires
        call_ensures(SharedRoot::note_logs_asked, (root, a, then), r),
        old(next)@ == final(root)@,
        call_ensures(SharedRoot::note_logs_asked, (next, b, now), s),
        a.name@ == b.name@,
        b.since is Some,
        b.since->0@ == "last"@,
        call_ensures(Timestamp::to_rfc3339, (&then,), shown),
        time::four_digit_year(then.seconds()),
    ensures
        s.since is Some,
        s.since->0@ == shown@,
        names_time(s.since, Some(then)),
{
}

/// A question with a time is answered with no line before it: noting the question and
/// answering it leaves none.
pub proof fn lemma_asked_since(
    root: &mut SharedRoot,
    later: SharedRoot,
    a: LogsArgs,
    now: Timestamp,
    b: LogsArgs,
    psyfile: Result<Option<Psyfile>, String>,
    t: Timestamp,
    l: Vec<LogLine>,
    i: int,
)
    requires
        call_ensures(SharedRoot::note_logs_asked, (root, a, now), b),
        later@ == final(root)@,
        call_ensures(
            SharedRoot::collect_logs,
            (&later, &Some(b), &psyfile),
            Ok::<Vec<LogLine>, String>(l),
        ),
        a.since is Some,
        a.since->0@ != "last"@,
        names_time(a.since, Some(t)),
        0 <= i < l@.len(),
    ensures
        !l@[i].timestamp.before(t),
{
    lemma_since_is_kept(root, a, now, b);
    lemma_since_only(later, b, psyfile, t, l, i);
}

proof fn lemma_since_only(
    root: SharedRoot,
    a: LogsArgs,
    psyfile: Result<Option<Psyfile>, String>,
    t: Timestamp,
    l: Vec<LogLine>,
    i: int,
)
    requires
        call_ensures(
            SharedRoot::collect_logs,
            (&root, &Some(a), &psyfile),
            Ok::<Vec<LogLine>, String>(l),
        ),
        names_time(a.since, Some(t)),
        0 <= i < l@.len(),
    ensures
        !l@[i].timestamp.before(t),
{
    time::lemma_stamp(t);
    let since = Some(t);
    let until = logs::bound_of("until"@, text::opt_text(a.until))->Ok_0;
    let q = logs::query(a, since, until);
    let v = ring_buffer::lines_view(l@);
    assert(v[i] == l@[i]@);
    if query::names_template(psyfile, a.name@) {
        let all = query::instance_lines(root@, root.names(), a.name@, q);
        let s = logs::time_sorted(all);
        logs::lemma_time_sorted(all);
        lemma_tail(s, a.tail);
        assert(s.contains(v[i]));
        let k = s.index_of(v[i]);
        assert(s[k] == v[i]);
        lemma_sorted_from_some(s, all, k);
        let j = choose|j: int| 0 <= j < all.len() && all[j] == s[k];
        lemma_instances_in_scope(root@, root.names(), a.name@, a, since, until, j);
    } else {
        let e = root@.table[a.name@];
        let log = logs::asked_run(e, a.previous, a.run)->Ok_0;
        let all = logs::run_lines(log.0, log.1, q);
        let s = logs::time_sorted(all);
        logs::lemma_time_sorted(all);
        lemma_tail(s, a.tail);
        assert(s.contains(v[i]));
        let k = s.index_of(v[i]);
        assert(s[k] == v[i]);
        lemma_sorted_from_some(s, all, k);
        let j = choose|j: int| 0 <= j < all.len() && all[j] == s[k];
        lemma_run_in_scope(log.0, log.1, a, since, until, j);
    }
}

// ---------------------------------------------------------------------------
// What is kept
// ---------------------------------------------------------------------------

/// A line that a process writes is the newest of the log of its stream in the run that
/// wrote it, as long as it fits; nothing else changes.
pub proof fn lemma_output_is_kept(
    root: &mut SharedRoot,
    name: &str,
    run_id: u32,
    at: Timestamp,
    stream: Stream,
    content: String,
)
    requires
        call_ensures(SharedRoot::log_output, (root, name, run_id, at, stream, content), ()),
        old(root)@.table.dom().contains(name@),
        old(root)@.table[name@].current_run_id == run_id,
        ({
            let line = LineView { timestamp: at, stream, content: content@ };
            let e = old(root)@.table[name@];
            &&& ring_buffer::fits(seq![line], e.stdout.max_lines, e.stdout.max_bytes)
            &&& ring_buffer::fits(seq![line], e.stderr.max_lines, e.stderr.max_bytes)
        }),
    ensures
        ({
            let line = LineView { timestamp: at, stream, content: content@ };
            let was = old(root)@.table[name@];
            let e = final(root)@.table[name@];
            &&& stream == Stream::Stdout || stream == Stream::ProbeStdout ==> e.stdout.lines.len()
                > 0 && e.stdout.lines.last() == line && e.stderr == was.stderr
            &&& stream == Stream::Stderr || stream == Stream::ProbeStderr ==> e.stderr.lines.len()
                > 0 && e.stderr.lines.last() == line && e.stdout == was.stdout
            &&& e.run_history == was.run_history
            &&& e.state == was.state
            &&& e.pid == was.pid
        }),
        forall|k: Seq<char>|
            k != name@ ==> #[trigger] final(root)@.table[k] == old(root)@.table[k],
{
    let line = LineView { timestamp: at, stream, content: content@ };
    let e = old(root)@.table[name@];
    lemma_newest_stays(e.stdout.lines, line, e.stdout.max_lines, e.stdout.max_bytes);
    lemma_newest_stays(e.stderr.lines, line, e.stderr.max_lines, e.stderr.max_bytes);
}

proof fn lemma_newest_stays(s: Seq<LineView>, line: LineView, max_lines: nat, max_bytes: nat)
    requires
        ring_buffer::fits(seq![line], max_lines, max_bytes),
    ensures
        ring_buffer::pushed(s, line, max_lines, max_bytes).len() > 0,
        ring_buffer::pushed(s, line, max_lines, max_bytes).last() == line,
{
    let all = s.push(line);
    ring_buffer::lemma_evicted(all, max_lines, max_bytes);
    let left = ring_buffer::evicted(all, max_lines, max_bytes);
    assert(all.skip(all.len() - 1) =~= seq![line]);
    assert(all.last() == line);
}

/// Output that comes late still goes to the run that wrote it, and that of a run that is
/// not known any more goes nowhere.
pub proof fn lemma_late_output(
    root: &mut SharedRoot,
    name: &str,
    run_id: u32,
    at: Timestamp,
    stream: Stream,
    content: String,
)
    requires
        call_ensures(SharedRoot::log_output, (root, name, run_id, at, stream, content), ()),
        old(root)@.table.dom().contains(name@),
        old(root)@.table[name@].current_run_id != run_id,
    ensures
        ({
            let was = old(root)@.table[name@];
            let e = final(root)@.table[name@];
            &&& e.stdout == was.stdout
            &&& e.stderr == was.stderr
            &&& e.run_history.len() == was.run_history.len()
            &&& forall|i: int|
                0 <= i < was.run_history.len() ==> (#[trigger] e.run_history[i]).run_id
                    == was.run_history[i].run_id
            &&& forall|i: int|
                0 <= i < was.run_history.len() && was.run_history[i].run_id != run_id ==> (
                #[trigger] e.run_history[i]) == was.run_history[i]
        }),
{
    let was = old(root)@.table[name@];
    lemma_run_position(was.run_history, run_id);
}

proof fn lemma_run_position(runs: Seq<process::RunView>, id: u32)
    ensures
        root::life::run_position(runs, id) <= runs.len(),
        root::life::run_position(runs, id) < runs.len() ==> runs[root::life::run_position(
            runs,
            id,
        ) as int].run_id == id,
    decreases runs.len(),
{
    if runs.len() > 0 && runs[0].run_id != id {
        lemma_run_position(runs.skip(1), id);
    }
}

/// A log holds what was written last, within its limits: a line that fits is the newest,
/// and of the older ones the newest are left.
pub proof fn lemma_buffer_keeps_the_newest(
    b: &mut RingBuffer,
    at: Timestamp,
    stream: Stream,
    content: String,
)
    requires
        call_ensures(RingBuffer::push_at, (b, at, stream, content), ()),
        ring_buffer::fits(
            seq![(LineView { timestamp: at, stream, content: content@ })],
            old(b).line_limit(),
            old(b).byte_limit(),
        ),
    ensures
        final(b)@.len() > 0,
        final(b)@.len() <= old(b).line_limit(),
        final(b)@.last() == (LineView { timestamp: at, stream, content: content@ }),
        final(b)@.len() <= old(b)@.len() + 1,
        forall|i: int|
            0 <= i < final(b)@.len() - 1 ==> #[trigger] final(b)@[i] == old(b)@[i + old(b)@.len()
                + 1 - final(b)@.len()],
        old(b)@.len() < old(b).line_limit() && ring_buffer::fits(
            old(b)@.push(LineView { timestamp: at, stream, content: content@ }),
            old(b).line_limit(),
            old(b).byte_limit(),
        ) ==> final(b)@.len() == old(b)@.len() + 1,
{
    let line = LineView { timestamp: at, stream, content: content@ };
    let all = old(b)@.push(line);
    lemma_newest_stays(old(b)@, line, old(b).line_limit(), old(b).byte_limit());
    ring_buffer::lemma_evicted(all, old(b).line_limit(), old(b).byte_limit());
}

/// A client that follows a log is sent a new line just where it is on a stream that it
/// asks for, not before the time from which on it asks, and holds what it searches for.
pub proof fn lemma_followed_lines(
    l: LogLine,
    a: LogsArgs,
    since: Option<Timestamp>,
    grep: Option<&str>,
    search: Search,
    r: bool,
)
    requires
        call_ensures(Search::new, (grep,), search),
        call_ensures(logs::follow_passes, (&l, &a, since, &search), r),
        !a.probe,
    ensures
        r <==> stream_is_asked(a, l.stream) && (since is Some ==> !l.timestamp.before(since->0))
            && (grep is Some ==> pattern::fault(grep->0@, true) is None && pattern::found(
            grep->0@,
            true,
            l.content@,
        )),
{
    assert(search.finds(l.content@) == pattern::holds(pattern::given(grep), l.content@));
}

/// A client that begins to follow a log first gets lines of the current run that are there
/// already: each is on a stream that it asks for, not before the time from which on it
/// asks, and holds what it searches for; where it gives no limit, each such line comes.
pub proof fn lemma_follow_begins(
    root: SharedRoot,
    id: &str,
    a: LogsArgs,
    since: Option<Timestamp>,
    r: Result<Vec<LogLine>, Response>,
    i: int,
    l: LineView,
)
    requires
        call_ensures(SharedRoot::begin_follow, (&root, id, &Some(a)), r),
        call_ensures(logs::follow_since, (&a.since,), since),
        !a.probe,
    ensures
        a.grep is None ==> (r is Ok <==> root@.table.dom().contains(a.name@)),
        r is Err ==> !r->Err_0.ok && r->Err_0.id@ == id@,
        a.since is None ==> since is None,
        r is Ok && 0 <= i < r->Ok_0@.len() ==> {
            let x = r->Ok_0@[i]@;
            let e = root@.table[a.name@];
            &&& stream_is_asked(a, x.stream)
            &&& since is Some ==> !x.timestamp.before(since->0)
            &&& a.grep is Some ==> pattern::found(a.grep->0@, true, x.content)
            &&& e.stdout.lines.contains(x) || e.stderr.lines.contains(x)
        },
        r is Ok && a.tail is None && a.grep is None && stream_is_asked(a, l.stream) && (since is Some
            ==> !l.timestamp.before(since->0)) && (root@.table[a.name@].stdout.lines.contains(l)
            || root@.table[a.name@].stderr.lines.contains(l)) ==> ring_buffer::lines_view(
            r->Ok_0@,
        ).contains(l),
{
    if r is Ok {
        let e = root@.table[a.name@];
        let q = logs::query(a, since, None);
        let all = logs::run_lines(e.stdout, e.stderr, q);
        let x = ring_buffer::selected(e.stdout.lines, q.filter, q.since, q.until, q.grep);
        let y = ring_buffer::selected(e.stderr.lines, q.filter, q.since, q.until, q.grep);
        let sorted = logs::time_sorted(all);
        let v = ring_buffer::lines_view(r->Ok_0@);
        logs::lemma_time_sorted(all);
        assert(v == ring_buffer::tail_of(sorted, a.tail));
        assert(v.len() == r->Ok_0@.len());
        if 0 <= i < v.len() {
            assert(v[i] == r->Ok_0@[i]@);
            lemma_tail(sorted, a.tail);
            assert(sorted.contains(v[i]));
            let k = sorted.index_of(v[i]);
            lemma_sorted_from_some(sorted, all, k);
            let j = choose|j: int| 0 <= j < all.len() && all[j] == sorted[k];
            lemma_run_in_scope(e.stdout, e.stderr, a, since, None, j);
            if j < x.len() {
                lemma_selected_from(e.stdout.lines, q, j);
            } else {
                lemma_selected_from(e.stderr.lines, q, j - x.len());
            }
        }
        if a.tail is None && a.grep is None && stream_is_asked(a, l.stream) && (since is Some
            ==> !l.timestamp.before(since->0)) {
            assert(ring_buffer::keeps(l, q.filter, q.since, q.until, q.grep));
            if e.stdout.lines.contains(l) {
                let j = lemma_selected_has(e.stdout.lines, q, l);
                assert(all[j] == l);
                lemma_sorted_has(sorted, all, j);
            } else if e.stderr.lines.contains(l) {
                let j = lemma_selected_has(e.stderr.lines, q, l);
                assert(all[x.len() + j] == l);
                lemma_sorted_has(sorted, all, x.len() + j);
            }
        }
    }
}

proof fn lemma_selected_from(s: Seq<LineView>, q: logs::Query, j: int)
    requires
        0 <= j < ring_buffer::selected(s, q.filter, q.since, q.until, q.grep).len(),
    ensures
        s.contains(ring_buffer::selected(s, q.filter, q.since, q.until, q.grep)[j]),
    decreases s.len(),
{
    let rest = s.drop_last();
    let all = ring_buffer::selected(s, q.filter, q.since, q.until, q.grep);
    let some = ring_buffer::selected(rest, q.filter, q.since, q.until, q.grep);
    if j < some.len() {
        lemma_selected_from(rest, q, j);
        let k = rest.index_of(some[j]);
        assert(s[k] == all[j]);
    } else {
        assert(s[s.len() - 1] == all[j]);
    }
}

proof fn lemma_selected_has(s: Seq<LineView>, q: logs::Query, l: LineView) -> (j: int)
    requires
        s.contains(l),
        ring_buffer::keeps(l, q.filter, q.since, q.until, q.grep),
    ensures
        0 <= j < ring_buffer::selected(s, q.filter, q.since, q.until, q.grep).len(),
        ring_buffer::selected(s, q.filter, q.since, q.until, q.grep)[j] == l,
    decreases s.len(),
{
    let rest = s.drop_last();
    let all = ring_buffer::selected(s, q.filter, q.since, q.until, q.grep);
    if s.last() == l {
        all.len() - 1
    } else {
        let i = s.index_of(l);
        assert(rest[i] == l);
        lemma_selected_has(rest, q, l)
    }
}

proof fn lemma_sorted_has(r: Seq<LineView>, s: Seq<LineView>, j: int)
    requires
        logs::is_sorted_from(r, s),
        0 <= j < s.len(),
    ensures
        r.contains(s[j]),
{
    let t = s[j].timestamp;
    let q = lemma_to_at_time(s, j);
    assert(logs::at_time(r, t) == logs::at_time(s, t));
    lemma_in_at_time(r, t, q);
}

// ---------------------------------------------------------------------------
// Instances and lines in answers
// ---------------------------------------------------------------------------

/// A line that is marked says which process it is of, and is otherwise the same.
pub proof fn lemma_marked_lines(name: &str, lines: Vec<LogLine>, r: Vec<LogLine>, i: int)
    requires
        call_ensures(logs::mark_lines, (name, lines), r),
        0 <= i < lines@.len(),
    ensures
        r@.len() == lines@.len(),
        r@[i]@.content == "["@ + name@ + "] "@ + lines@[i]@.content,
        r@[i]@.stream == lines@[i]@.stream,
        r@[i]@.timestamp == lines@[i]@.timestamp,
{
    let a = ring_buffer::lines_view(r@);
    let b = ring_buffer::lines_view(lines@);
    assert(a.len() == r@.len() && b.len() == lines@.len());
    assert(a[i] == r@[i]@ && b[i] == lines@[i]@);
}

/// Whether a line is one of a process, marked with the name of the process.
pub open spec fn marked_of(l: LineView, name: Seq<char>, x: LineView) -> bool {
    &&& l.content == "["@ + name + "] "@ + x.content
    &&& l.stream == x.stream
    &&& l.timestamp == x.timestamp
}

/// Whether a line is a marked one of an instance of a template.
pub open spec fn of_an_instance(
    r: root::RootView,
    names: Seq<Seq<char>>,
    template: Seq<char>,
    l: LineView,
) -> bool {
    exists|k: int, x: LineView|
        0 <= k < names.len() && #[trigger] marked_of(l, names[k], x) && text::starts_with(
            names[k],
            template + "."@,
        ) && (r.table[names[k]].stdout.lines.contains(x) || r.table[names[k]].stderr.lines.contains(
            x,
        ))
}

proof fn lemma_instance_lines(
    r: root::RootView,
    names: Seq<Seq<char>>,
    template: Seq<char>,
    q: logs::Query,
    j: int,
)
    requires
        0 <= j < query::instance_lines(r, names, template, q).len(),
    ensures
        of_an_instance(r, names, template, query::instance_lines(r, names, template, q)[j]),
    decreases names.len(),
{
    let rest = names.drop_last();
    let before = query::instance_lines(r, rest, template, q);
    let l = query::instance_lines(r, names, template, q)[j];
    if j < before.len() {
        lemma_instance_lines(r, rest, template, q, j);
        let (k, x) = choose|k: int, x: LineView|
            0 <= k < rest.len() && #[trigger] marked_of(l, rest[k], x) && text::starts_with(
                rest[k],
                template + "."@,
            ) && (r.table[rest[k]].stdout.lines.contains(x)
                || r.table[rest[k]].stderr.lines.contains(x));
        assert(rest[k] == names[k]);
        assert(marked_of(l, names[k], x));
    } else {
        let name = names.last();
        let e = r.table[name];
        let i = j - before.len();
        let first = ring_buffer::selected(e.stdout.lines, q.filter, q.since, q.until, q.grep);
        let x = logs::run_lines(e.stdout, e.stderr, q)[i];
        if i < first.len() {
            lemma_selected_from(e.stdout.lines, q, i);
        } else {
            lemma_selected_from(e.stderr.lines, q, i - first.len());
        }
        assert(names[names.len() - 1] == name);
        assert(marked_of(l, names[names.len() - 1], x));
    }
}

/// A question about a template is answered with lines of its instances, each marked with
/// the name of the instance that it is of.
pub proof fn lemma_template_lines(
    root: SharedRoot,
    a: LogsArgs,
    psyfile: Result<Option<Psyfile>, String>,
    l: Vec<LogLine>,
    i: int,
)
    requires
        call_ensures(
            SharedRoot::collect_logs,
            (&root, &Some(a), &psyfile),
            Ok::<Vec<LogLine>, String>(l),
        ),
        psyfile matches Ok(Some(p)) && p.units@.dom().contains(a.name@)
            && !p.units@[a.name@]@.singleton,
        0 <= i < l@.len(),
    ensures
        of_an_instance(root@, root.names(), a.name@, l@[i]@),
{
    let since = logs::bound_of("since"@, text::opt_text(a.since))->Ok_0;
    let until = logs::bound_of("until"@, text::opt_text(a.until))->Ok_0;
    let q = logs::query(a, since, until);
    let v = ring_buffer::lines_view(l@);
    assert(v[i] == l@[i]@);
    let all = query::instance_lines(root@, root.names(), a.name@, q);
    logs::lemma_time_sorted(all);
    let s = logs::time_sorted(all);
    lemma_tail(s, a.tail);
    assert(s.contains(v[i]));
    let k = s.index_of(v[i]);
    lemma_sorted_from_some(s, all, k);
    let j = choose|j: int| 0 <= j < all.len() && all[j] == s[k];
    lemma_instance_lines(root@, root.names(), a.name@, q, j);
}

/// A line in an answer has its time, the name of its stream and what was written.
pub proof fn lemma_line_in_an_answer(lines: Vec<LogLine>, r: Json, i: int, at: String)
    requires
        call_ensures(logs::list_lines, (&lines,), r),
        0 <= i < lines@.len(),
        call_ensures(Timestamp::to_rfc3339, (&lines@[i].timestamp,), at),
    ensures
        ({
            let a = json::model(r)->Array_0;
            let l = lines@[i];
            &&& json::model(r) is Array && a.len() == lines@.len()
            &&& json::member(a[i], "timestamp"@) == Some(Js::Text(at@))
            &&& json::member(a[i], "content"@) == Some(Js::Text(l.content@))
            &&& l.stream is Stdout ==> json::member(a[i], "stream"@) == Some(Js::Text("stdout"@))
            &&& l.stream is Stderr ==> json::member(a[i], "stream"@) == Some(Js::Text("stderr"@))
            &&& l.stream is ProbeStdout ==> json::member(a[i], "stream"@) == Some(
                Js::Text("probe_stdout"@),
            )
            &&& l.stream is ProbeStderr ==> json::member(a[i], "stream"@) == Some(
                Js::Text("probe_stderr"@),
            )
        }),
{
    reveal_strlit("timestamp");
    reveal_strlit("stream");
    reveal_strlit("content");
    assert("timestamp"@.len() == 9 && "stream"@.len() == 6 && "content"@.len() == 7);
    let v = ring_buffer::lines_view(lines@);
    assert(v.len() == lines@.len());
    assert(v[i] == lines@[i]@);
    let l = lines@[i]@;
    let s = seq![
        ("timestamp"@, Js::Text(time::rfc3339(l.timestamp.seconds(), l.timestamp.subsec()))),
        ("stream"@, Js::Text(logs::stream_name(l.stream))),
        ("content"@, Js::Text(l.content)),
    ];
    assert(json::model(r)->Array_0[i] == json::object_of(s));
    fields::lemma_field(s, 0);
    fields::lemma_field(s, 1);
    fields::lemma_field(s, 2);
}

} // verus!

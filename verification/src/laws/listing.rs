//! What is reported of processes and their runs.
use crate::json;
use crate::json::{Js, Json};
use crate::laws::fields;
use crate::logs;
use crate::ports;
use crate::process;
use crate::process::{ProcessEntry, ProcessState, RunRecord};
use crate::protocol::{HistoryArgs, HistoryResponse, LogsArgs, ProcessInfo, PsResponse, Response, RunInfo};
use crate::protocol::{StreamFilter, WaitFor};
use crate::psyfile;
use crate::psyfile::Psyfile;
use crate::ring_buffer;
use crate::ring_buffer::{LineView, LogLine, Stream};
use crate::root::query;
use crate::root::wait;
use crate::root::wait::Waiting;
use crate::root::SharedRoot;
use crate::text;
use crate::time;
use crate::time::{Duration, Timestamp};
use vstd::prelude::*;

verus! {

// ---------------------------------------------------------------------------
// The list
// ---------------------------------------------------------------------------

/// What is reported of a process is what is known of it. Only one that runs has been up
/// for a time: the whole seconds since it was started.
pub proof fn lemma_report(e: ProcessEntry, now: Timestamp, r: ProcessInfo)
    requires
        call_ensures(ProcessEntry::to_ps_entry_at, (&e, &now), r),
    ensures
        r@.name == e@.name,
        r@.pid == e@.pid,
        r@.status == "running"@ <==> e@.state == ProcessState::Running,
        r@.status == "stopped"@ <==> e@.state == ProcessState::Stopped,
        r@.status == "failed"@ <==> e@.state == ProcessState::Failed,
        r@.restart_policy == e@.restart_policy,
        r@.started_at is Some <==> e@.started_at is Some,
        e@.started_at matches Some(t) ==> r@.started_at == Some(
            time::rfc3339(t.seconds(), t.subsec()),
        ),
        r@.uptime_secs is Some <==> e@.state == ProcessState::Running && e@.started_at is Some,
        r@.exit_code == e@.exit_status,
        r@.signal == e@.signal,
        r@.restarts == e@.restarts,
        r@.ports is None <==> e@.ports.len() == 0,
        forall|i: int|
            0 <= i < e@.ports.len() ==> r@.ports->0.dom().contains((#[trigger] e@.ports[i]).0),
        r@.subroot_socket == e@.subroot_socket,
        r@.is_subroot == e@.sub_root,
        r@.metadata == e@.metadata,
{
    reveal_strlit("running");
    reveal_strlit("stopped");
    reveal_strlit("failed");
    assert("running"@[0] == 'r' && "stopped"@[0] == 's' && "failed"@[0] == 'f');
    assert forall|i: int| 0 <= i < e@.ports.len() implies r@.ports->0.dom().contains(
        (#[trigger] e@.ports[i]).0,
    ) by {
        lemma_named(e@.ports, i);
    }
}

proof fn lemma_named(g: Seq<(Seq<char>, u16)>, i: int)
    requires
        0 <= i < g.len(),
    ensures
        ports::by_name(g).dom().contains(g[i].0),
    decreases g.len(),
{
    if i < g.len() - 1 {
        assert(g.drop_last()[i] == g[i]);
        lemma_named(g.drop_last(), i);
    }
}

/// The time that a process has been up is the number of whole seconds between its start
/// and now, and none where the clock went back.
pub proof fn lemma_uptime(e: ProcessEntry, now: Timestamp, r: ProcessInfo, up: int)
    requires
        call_ensures(ProcessEntry::to_ps_entry_at, (&e, &now), r),
        r@.uptime_secs is Some,
        0 <= up <= u64::MAX,
        e@.started_at->0.seconds() + up < now.seconds() || (e@.started_at->0.seconds() + up
            == now.seconds() && e@.started_at->0.subsec() <= now.subsec()),
        now.seconds() < e@.started_at->0.seconds() + up + 1 || (now.seconds()
            == e@.started_at->0.seconds() + up + 1 && now.subsec() < e@.started_at->0.subsec()),
        0 <= now.subsec() < 1_000_000_000,
        0 <= e@.started_at->0.subsec() < 1_000_000_000,
    ensures
        r@.uptime_secs == Some(up as u64),
{
}

/// The list has each process of the table once, under its name, in order.
pub proof fn lemma_list(root: SharedRoot, now: Timestamp, r: PsResponse, i: int)
    requires
        call_ensures(SharedRoot::handle_ps_at, (&root, &now), r),
        0 <= i < root.names().len(),
    ensures
        r.processes@.len() == root.names().len(),
        r.processes@[i]@.name == root@.table[root.names()[i]].name,
        r.processes@[i]@.pid == root@.table[root.names()[i]].pid,
        r.processes@[i]@.status == "running"@ <==> root@.table[root.names()[i]].state
            == ProcessState::Running,
        r.processes@[i]@.exit_code == root@.table[root.names()[i]].exit_status,
        r.processes@[i]@.restarts == root@.table[root.names()[i]].restarts,
{
    reveal_strlit("running");
    reveal_strlit("stopped");
    reveal_strlit("failed");
    assert("running"@[0] == 'r' && "stopped"@[0] == 's' && "failed"@[0] == 'f');
    let v = query::reports(r.processes@);
    assert(v.len() == r.processes@.len());
    assert(v[i] == r.processes@[i]@);
}

// ---------------------------------------------------------------------------
// Runs
// ---------------------------------------------------------------------------

/// What is reported of a run is what is known of it. One that has not ended took the time
/// up to now.
pub proof fn lemma_run_report(
    past: RunRecord,
    e: ProcessEntry,
    now: Timestamp,
    r: RunInfo,
    c: RunInfo,
)
    requires
        call_ensures(RunRecord::to_run_info_at, (&past, &now), r),
        call_ensures(ProcessEntry::current_run_info_at, (&e, &now), c),
    ensures
        r@.run_id == past@.run_id,
        r@.status == "failed"@ <==> past@.state == ProcessState::Failed,
        r@.status == "stopped"@ <==> past@.state == ProcessState::Stopped,
        r@.exit_code == past@.exit_status,
        r@.signal == past@.signal,
        r@.duration_secs is Some <==> past@.started_at is Some,
        past@.started_at is Some && past@.stopped_at is Some ==> r@.duration_secs == Some(
            past@.started_at->0.seconds_until(past@.stopped_at->0) as u64,
        ),
        c@.run_id == e@.current_run_id,
        c@.status == "running"@ <==> e@.state == ProcessState::Running,
        c@.status == "failed"@ <==> e@.state == ProcessState::Failed,
        c@.exit_code == e@.exit_status,
        c@.signal == e@.signal,
        e@.started_at is None ==> c@.duration_secs is None && c@.started_at is None,
        e@.started_at is Some && e@.stopped_at is Some ==> c@.duration_secs == Some(
            e@.started_at->0.seconds_until(e@.stopped_at->0) as u64,
        ),
        e@.started_at is Some && e@.stopped_at is None && e@.state == ProcessState::Running
            ==> c@.duration_secs == Some(e@.started_at->0.seconds_until(now) as u64),
        e@.stopped_at is None && e@.state != ProcessState::Running ==> c@.duration_secs is None,
{
    reveal_strlit("running");
    reveal_strlit("stopped");
    reveal_strlit("failed");
    assert("running"@[0] == 'r' && "stopped"@[0] == 's' && "failed"@[0] == 'f');
}

/// The runs of a process are listed with the current one last, each under its number.
pub proof fn lemma_history(
    root: SharedRoot,
    id: &str,
    a: HistoryArgs,
    now: Timestamp,
    r: Result<HistoryResponse, Response>,
    none: Result<HistoryResponse, Response>,
)
    requires
        call_ensures(SharedRoot::handle_history_at, (&root, id, &Some(a), &now), r),
        call_ensures(SharedRoot::handle_history_at, (&root, id, &None, &now), none),
    ensures
        none is Err && !none->Err_0.ok && none->Err_0.id@ == id@,
        r is Ok <==> root@.table.dom().contains(a.name@),
        r is Err ==> !r->Err_0.ok && r->Err_0.id@ == id@ && r->Err_0.error is Some
            && r->Err_0.error->0@ == "process '"@ + a.name@ + "' not found"@,
        r is Ok ==> {
            let e = root@.table[a.name@];
            &&& r->Ok_0.name@ == a.name@
            &&& r->Ok_0.runs@.len() == e.run_history.len() + 1
            &&& r->Ok_0.runs@.last()@.run_id == e.current_run_id
            &&& r->Ok_0.runs@.last()@.exit_code == e.exit_status
            &&& forall|i: int|
                0 <= i < e.run_history.len() ==> (#[trigger] r->Ok_0.runs@[i])@.run_id
                    == e.run_history[i].run_id && r->Ok_0.runs@[i]@.exit_code
                    == e.run_history[i].exit_status
        },
{
    if r is Ok {
        let e = root@.table[a.name@];
        let v = query::run_reports(r->Ok_0.runs@);
        assert(v.len() == r->Ok_0.runs@.len());
        assert(v.last() == r->Ok_0.runs@.last()@);
        assert forall|i: int| 0 <= i < e.run_history.len() implies (#[trigger] r->Ok_0.runs@[i])@.run_id
            == e.run_history[i].run_id && r->Ok_0.runs@[i]@.exit_code
            == e.run_history[i].exit_status by {
            assert(v[i] == r->Ok_0.runs@[i]@);
        }
    }
}

/// A run that becomes a past one is kept with all that is known of it; the next one has
/// the next number and empty logs.
pub proof fn lemma_run_is_kept(e: &mut ProcessEntry)
    requires
        old(e).current_run_id < u32::MAX,
        call_ensures(ProcessEntry::archive_current_run, (e,), ()),
    ensures
        final(e)@.current_run_id == old(e)@.current_run_id + 1,
        final(e)@.stdout.lines.len() == 0,
        final(e)@.stderr.lines.len() == 0,
        final(e)@.run_history.len() == old(e)@.run_history.len() + 1,
        final(e)@.run_history.drop_last() == old(e)@.run_history,
        final(e)@.run_history.last().run_id == old(e)@.current_run_id,
        final(e)@.run_history.last().exit_status == old(e)@.exit_status,
        final(e)@.run_history.last().signal == old(e)@.signal,
        final(e)@.run_history.last().state == old(e)@.state,
        final(e)@.run_history.last().started_at == old(e)@.started_at,
        final(e)@.run_history.last().stopped_at == old(e)@.stopped_at,
        final(e)@.run_history.last().stdout == old(e)@.stdout,
        final(e)@.run_history.last().stderr == old(e)@.stderr,
{
    assert(final(e)@.run_history.drop_last() =~= old(e)@.run_history);
}

// ---------------------------------------------------------------------------
// Waits
// ---------------------------------------------------------------------------

/// Whether a process has written a line with a text, whatever the case. What probes wrote
/// does not count.
pub open spec fn has_written(s: Seq<LineView>, wanted: Seq<char>) -> bool {
    exists|i: int|
        0 <= i < s.len() && ((#[trigger] s[i]).stream == Stream::Stdout || s[i].stream
            == Stream::Stderr) && text::contains(
            text::lowercase(s[i].content),
            text::lowercase(wanted),
        )
}

proof fn lemma_has_written(s: Seq<LineView>, wanted: Seq<char>)
    ensures
        has_written(s, wanted) <==> wait::any_with(
            ring_buffer::selected(s, StreamFilter::All, None, None, None),
            wanted,
        ),
    decreases s.len(),
{
    let all = ring_buffer::selected(s, StreamFilter::All, None, None, None);
    if s.len() > 0 {
        let rest = s.drop_last();
        let some = ring_buffer::selected(rest, StreamFilter::All, None, None, None);
        lemma_has_written(rest, wanted);
        if has_written(s, wanted) {
            let i = choose|i: int|
                0 <= i < s.len() && ((#[trigger] s[i]).stream == Stream::Stdout || s[i].stream
                    == Stream::Stderr) && text::contains(
                    text::lowercase(s[i].content),
                    text::lowercase(wanted),
                );
            if i == s.len() - 1 {
                assert(all[all.len() - 1] == s[i]);
            } else {
                assert(rest[i] == s[i]);
                assert(has_written(rest, wanted));
                let j = choose|j: int|
                    0 <= j < some.len() && text::contains(
                        text::lowercase((#[trigger] some[j]).content),
                        text::lowercase(wanted),
                    );
                assert(all[j] == some[j]);
            }
        }
        if wait::any_with(all, wanted) {
            let j = choose|j: int|
                0 <= j < all.len() && text::contains(
                    text::lowercase((#[trigger] all[j]).content),
                    text::lowercase(wanted),
                );
            if j < some.len() {
                assert(all[j] == some[j]);
                assert(wait::any_with(some, wanted));
                let i = choose|i: int|
                    0 <= i < rest.len() && ((#[trigger] rest[i]).stream == Stream::Stdout
                        || rest[i].stream == Stream::Stderr) && text::contains(
                        text::lowercase(rest[i].content),
                        text::lowercase(wanted),
                    );
                assert(s[i] == rest[i]);
            } else {
                assert(all[j] == s[s.len() - 1]);
            }
        }
    }
}

/// A wait for a line is over as soon as the current run of the process has written one
/// with the text, and lost where the process ends without.
pub proof fn lemma_wait_for_a_line(
    root: SharedRoot,
    name: &str,
    pattern: String,
    state: Waiting,
)
    requires
        call_ensures(SharedRoot::waiting, (&root, name, &(WaitFor::Log { pattern })), state),
    ensures
        !root@.table.dom().contains(name@) ==> state == Waiting::Lost,
        root@.table.dom().contains(name@) ==> {
            let e = root@.table[name@];
            let written = has_written(e.stdout.lines, pattern@) || has_written(
                e.stderr.lines,
                pattern@,
            );
            &&& state == Waiting::Met <==> written
            &&& state == Waiting::Pending <==> !written && e.state == ProcessState::Running
        },
{
    if root@.table.dom().contains(name@) {
        let e = root@.table[name@];
        lemma_has_written(e.stdout.lines, pattern@);
        lemma_has_written(e.stderr.lines, pattern@);
        let a = ring_buffer::selected(e.stdout.lines, StreamFilter::All, None, None, None);
        let b = ring_buffer::selected(e.stderr.lines, StreamFilter::All, None, None, None);
        let c = wait::current_lines(e);
        assert(c =~= a + b);
        if wait::any_with(a, pattern@) {
            let j = choose|j: int|
                0 <= j < a.len() && text::contains(
                    text::lowercase((#[trigger] a[j]).content),
                    text::lowercase(pattern@),
                );
            assert(c[j] == a[j]);
        }
        if wait::any_with(b, pattern@) {
            let j = choose|j: int|
                0 <= j < b.len() && text::contains(
                    text::lowercase((#[trigger] b[j]).content),
                    text::lowercase(pattern@),
                );
            assert(c[a.len() + j] == b[j]);
        }
        if wait::any_with(c, pattern@) {
            let j = choose|j: int|
                0 <= j < c.len() && text::contains(
                    text::lowercase((#[trigger] c[j]).content),
                    text::lowercase(pattern@),
                );
            if j < a.len() {
                assert(a[j] == c[j]);
            } else {
                assert(b[j - a.len()] == c[j]);
            }
        }
    }
}

/// A wait for the exit is over when the process does not run, and one for a dependency
/// stands as one for it to be ready.
pub proof fn lemma_other_waits(
    root: SharedRoot,
    name: &str,
    dep: String,
    other: &str,
    exit: Waiting,
    a: Waiting,
    b: Waiting,
)
    requires
        call_ensures(SharedRoot::waiting, (&root, name, &WaitFor::Exit), exit),
        call_ensures(SharedRoot::waiting, (&root, name, &(WaitFor::Dependency { name: dep })), a),
        call_ensures(SharedRoot::waiting, (&root, other, &WaitFor::Ready), b),
        other@ == dep@,
    ensures
        exit == Waiting::Pending <==> root@.table.dom().contains(name@) && root@.table[name@].state
            == ProcessState::Running,
        exit == Waiting::Met <==> !(root@.table.dom().contains(name@) && root@.table[name@].state
            == ProcessState::Running),
        a == b,
{
}

/// What a request that waited is answered: the name, the state and whether the wait was
/// met, or the code of the exit; and that the time ran out, exactly where it did.
pub proof fn lemma_wait_is_answered(
    root: SharedRoot,
    id: &str,
    name: &str,
    w: WaitFor,
    timed_out: bool,
    state: Waiting,
    r: Response,
)
    requires
        call_ensures(SharedRoot::waiting, (&root, name, &w), state),
        call_ensures(SharedRoot::wait_answer, (&root, id, name, &w, timed_out), r),
    ensures
        r.ok,
        r.id@ == id@,
        r.error is None,
        r.data is Some,
        ({
            let d = json::model(r.data->0);
            let known = root@.table.dom().contains(name@);
            let e = root@.table[name@];
            &&& json::member(d, "name"@) == Some(Js::Text(name@))
            &&& !known ==> json::member(d, "status"@) == Some(Js::Text("removed"@))
            &&& known && e.state == ProcessState::Running ==> json::member(d, "status"@) == Some(
                Js::Text("running"@),
            )
            &&& known && e.state == ProcessState::Stopped ==> json::member(d, "status"@) == Some(
                Js::Text("stopped"@),
            )
            &&& known && e.state == ProcessState::Failed ==> json::member(d, "status"@) == Some(
                Js::Text("failed"@),
            )
            &&& json::member(d, "timed_out"@) is Some <==> timed_out
            &&& timed_out ==> json::member(d, "timed_out"@) == Some(Js::Bool(true))
            &&& known && w is Ready ==> json::member(d, "ready"@) == Some(
                Js::Bool(state == Waiting::Met),
            )
            &&& known && w is Log ==> json::member(d, "matched"@) == Some(
                Js::Bool(state == Waiting::Met),
            )
            &&& known && w is Dependency ==> json::member(d, "dependency_ready"@) == Some(
                Js::Bool(state == Waiting::Met),
            )
            &&& known && w is Exit && e.exit_status is None ==> json::member(d, "exit_code"@)
                == Some(Js::Null)
            &&& known && w is Exit && e.exit_status is Some && e.exit_status->0 >= 0
                ==> json::member(d, "exit_code"@) == Some(Js::Unsigned(e.exit_status->0 as u64))
            &&& known && w is Exit && e.exit_status is Some && e.exit_status->0 < 0
                ==> json::member(d, "exit_code"@) == Some(Js::Negative(e.exit_status->0 as i64))
        }),
{
    wait::lemma_timed_out(root@, name@, w, timed_out);
    reveal_strlit("timed_out");
    reveal_strlit("name");
    reveal_strlit("status");
    reveal_strlit("ready");
    reveal_strlit("exit_code");
    reveal_strlit("logs");
    reveal_strlit("matched");
    reveal_strlit("dependency_ready");
    assert("name"@.len() == 4 && "status"@.len() == 6 && "ready"@.len() == 5 && "logs"@.len() == 4
        && "matched"@.len() == 7 && "dependency_ready"@.len() == 16);
    assert("exit_code"@.len() == 9 && "timed_out"@.len() == 9);
    assert("exit_code"@[0] == 'e' && "timed_out"@[0] == 't');
    assert("name"@[0] == 'n' && "logs"@[0] == 'l');
    let status = if root@.table.dom().contains(name@) {
        process::state_text(root@.table[name@].state)
    } else {
        "removed"@
    };
    let base = Seq::empty().push(("name"@, Js::Text(name@))).push(("status"@, Js::Text(status)));
    let all = wait::wait_details(root@, name@, w, base);
    let s = if timed_out {
        all.push(("timed_out"@, Js::Bool(true)))
    } else {
        all
    };
    fields::lemma_field(s, 0);
    fields::lemma_field(s, 1);
    if root@.table.dom().contains(name@) {
        fields::lemma_field(s, 2);
    }
}

/// A wait takes as long as the request says, and two minutes where it does not.
pub proof fn lemma_wait_limit(
    id: &str,
    t: String,
    said: &str,
    none: Result<Duration, Response>,
    r: Result<Duration, Response>,
    d: Result<Duration, String>,
)
    requires
        said@ == t@,
        call_ensures(wait::wait_limit, (id, &None), none),
        call_ensures(wait::wait_limit, (id, &Some(t)), r),
        call_ensures(psyfile::parse_duration, (said,), d),
    ensures
        none is Ok && none->Ok_0.millis() == 120_000,
        r is Ok <==> d is Ok,
        r is Ok ==> r->Ok_0 == d->Ok_0,
        r is Err ==> !r->Err_0.ok && r->Err_0.id@ == id@,
{
}

// ---------------------------------------------------------------------------
// Now
// ---------------------------------------------------------------------------

/// The list that is made now has each process of the table once, in order.
pub proof fn lemma_list_now(root: SharedRoot, r: PsResponse, i: int)
    requires
        call_ensures(SharedRoot::handle_ps, (&root,), r),
        0 <= i < root.names().len(),
    ensures
        r.processes@.len() == root.names().len(),
        r.processes@[i]@.name == root@.table[root.names()[i]].name,
        r.processes@[i]@.pid == root@.table[root.names()[i]].pid,
        r.processes@[i]@.status == "running"@ <==> root@.table[root.names()[i]].state
            == ProcessState::Running,
        r.processes@[i]@.exit_code == root@.table[root.names()[i]].exit_status,
        r.processes@[i]@.restarts == root@.table[root.names()[i]].restarts,
{
    reveal_strlit("running");
    reveal_strlit("stopped");
    reveal_strlit("failed");
    assert("running"@[0] == 'r' && "stopped"@[0] == 's' && "failed"@[0] == 'f');
    let now = choose|now: Timestamp|
        query::reports(r.processes@) == #[trigger] query::ps_answer(root@, root.names(), now);
    let v = query::reports(r.processes@);
    assert(v == query::ps_answer(root@, root.names(), now));
    assert(v.len() == r.processes@.len());
    assert(v[i] == r.processes@[i]@);
}

/// The runs of a process that are listed now end with the current one; a process that is
/// not there has none.
pub proof fn lemma_history_now(
    root: SharedRoot,
    id: &str,
    a: HistoryArgs,
    r: Result<HistoryResponse, Response>,
    none: Result<HistoryResponse, Response>,
)
    requires
        call_ensures(SharedRoot::handle_history, (&root, id, &Some(a)), r),
        call_ensures(SharedRoot::handle_history, (&root, id, &None), none),
    ensures
        none is Err && !none->Err_0.ok && none->Err_0.id@ == id@,
        r is Ok <==> root@.table.dom().contains(a.name@),
        r is Err ==> !r->Err_0.ok && r->Err_0.id@ == id@ && r->Err_0.error is Some
            && r->Err_0.error->0@ == "process '"@ + a.name@ + "' not found"@,
        r is Ok ==> {
            let e = root@.table[a.name@];
            &&& r->Ok_0.name@ == a.name@
            &&& r->Ok_0.runs@.len() == e.run_history.len() + 1
            &&& r->Ok_0.runs@.last()@.run_id == e.current_run_id
            &&& r->Ok_0.runs@.last()@.exit_code == e.exit_status
        },
{
    if r is Ok {
        let now = choose|now: Timestamp|
            query::run_reports(r->Ok_0.runs@) == #[trigger] query::history_of(
                root@.table[a.name@],
                now,
            );
        let v = query::run_reports(r->Ok_0.runs@);
        assert(v == query::history_of(root@.table[a.name@], now));
        assert(v.len() == r->Ok_0.runs@.len());
        assert(v.last() == r->Ok_0.runs@.last()@);
    }
}

/// A wait for an exit or for a line is answered with the last twenty lines of the process.
pub proof fn lemma_lines_of_a_wait(
    root: SharedRoot,
    id: &str,
    name: &str,
    w: WaitFor,
    timed_out: bool,
    r: Response,
    a: LogsArgs,
    l: Result<Vec<LogLine>, String>,
    listed: Json,
)
    requires
        w is Exit || w is Log,
        call_ensures(SharedRoot::wait_answer, (&root, id, name, &w, timed_out), r),
        root@.table.dom().contains(name@),
        a.name@ == name@,
        a.tail == Some(20usize),
        a.stream is All,
        a.since is None,
        a.until is None,
        a.grep is None,
        a.run is None,
        !a.previous,
        !a.probe,
        call_ensures(
            SharedRoot::collect_logs,
            (&root, &Some(a), &Ok::<Option<Psyfile>, String>(None)),
            l,
        ),
        l is Ok ==> call_ensures(logs::list_lines, (&l->Ok_0,), listed),
    ensures
        l is Ok,
        json::member(json::model(r.data->0), "logs"@) == Some(json::model(listed)),
{
    reveal_strlit("timed_out");
    reveal_strlit("name");
    reveal_strlit("status");
    reveal_strlit("exit_code");
    reveal_strlit("logs");
    reveal_strlit("matched");
    assert("name"@.len() == 4 && "status"@.len() == 6 && "logs"@.len() == 4 && "matched"@.len() == 7
        && "exit_code"@.len() == 9 && "timed_out"@.len() == 9);
    assert("name"@[0] == 'n' && "logs"@[0] == 'l');
    let status = process::state_text(root@.table[name@].state);
    let base = Seq::empty().push(("name"@, Js::Text(name@))).push(("status"@, Js::Text(status)));
    let all = wait::wait_details(root@, name@, w, base);
    let s = if timed_out {
        all.push(("timed_out"@, Js::Bool(true)))
    } else {
        all
    };
    fields::lemma_field(s, 3);
}

} // verus!

//! What is answered and sent, and how it is told apart.
use crate::api;
use crate::api::{LogPage, PsyError};
use crate::client;
use crate::client::Attached;
use crate::json;
use crate::json::{Js, Json};
use crate::laws::fields;
use crate::logs;
use crate::process;
use crate::protocol::{DependencyArg, DetachNotice, ErrorCode, LogLineResponse, Response, StreamKind};
use crate::psyfile;
use crate::psyfile::Psyfile;
use crate::ring_buffer;
use crate::ring_buffer::{LogLine, Stream};
use crate::root;
use crate::root::handle;
use crate::root::input::WriteResult;
use crate::root::run;
use crate::root::start::Start;
use crate::root::SharedRoot;
use crate::text;
use crate::time;
use crate::time::Timestamp;
use vstd::prelude::*;

verus! {

// ---------------------------------------------------------------------------
// Classes of messages
// ---------------------------------------------------------------------------

/// A message on a process tells what is wrong with it, and a client gets the name back.
pub proof fn lemma_messages_on_a_process(
    name: Seq<char>,
    a: &str,
    b: &str,
    c: &str,
    ra: ErrorCode,
    rb: ErrorCode,
    rc: ErrorCode,
    na: String,
    nb: String,
    nc: String,
)
    requires
        !name.contains('\''),
        !text::contains(name, "already running"@),
        !text::contains(name, " not found"@),
        a@ == "process '"@ + name + "' is already running"@,
        b@ == "process '"@ + name + "' not found"@,
        c@ == "process '"@ + name + "' is not running"@,
        call_ensures(ErrorCode::classify_message, (a,), ra),
        call_ensures(ErrorCode::classify_message, (b,), rb),
        call_ensures(ErrorCode::classify_message, (c,), rc),
        call_ensures(api::extract_name, (a,), na),
        call_ensures(api::extract_name, (b,), nb),
        call_ensures(api::extract_name, (c,), nc),
    ensures
        ra == ErrorCode::AlreadyExists,
        rb == ErrorCode::NotFound,
        rc == ErrorCode::NotRunning,
        na@ == name,
        nb@ == name,
        nc@ == name,
{
    api::lemma_already_running_message(name);
    api::lemma_not_found_message(name);
    api::lemma_not_running_message(name);
}

/// A failure is sent with the class of its message, or with one that is given.
pub proof fn lemma_error_codes(
    id: &str,
    m: &str,
    code: ErrorCode,
    a: Response,
    b: Response,
    c: ErrorCode,
)
    requires
        call_ensures(Response::err, (id, m), a),
        call_ensures(Response::err_code, (id, code, m), b),
        call_ensures(ErrorCode::classify_message, (m,), c),
    ensures
        !a.ok && a.id@ == id@ && a.data is None && a.error is Some && a.error->0@ == m@
            && a.error_code == Some(c),
        !b.ok && b.id@ == id@ && b.data is None && b.error is Some && b.error->0@ == m@
            && b.error_code == Some(code),
{
    assert(text::opt_text(a.error) is Some);
    assert(text::opt_text(b.error) is Some);
}

// ---------------------------------------------------------------------------
// Dependencies
// ---------------------------------------------------------------------------

/// A dependency on a unit runs where its process does, and one on a template where one of
/// its instances does.
pub proof fn lemma_dependency_runs(root: SharedRoot, p: Psyfile, dep: &str, r: bool, k: Seq<char>)
    requires
        call_ensures(SharedRoot::dependency_running, (&root, &p, dep), r),
    ensures
        !p.units@.dom().contains(dep@) ==> !r,
        p.units@.dom().contains(dep@) && p.units@[dep@].singleton ==> (r <==> root::runs(
            root@,
            dep@,
        )),
        p.units@.dom().contains(dep@) && !p.units@[dep@].singleton && root::runs(root@, k)
            && text::starts_with(k, dep@ + "."@) ==> r,
        p.units@.dom().contains(dep@) && !p.units@[dep@].singleton && r ==> exists|n: Seq<char>|
            #[trigger] root::runs(root@, n) && text::starts_with(n, dep@ + "."@),
{
    let units = psyfile::units_view(p.units@);
    if p.units@.dom().contains(dep@) {
        assert(units[dep@] == p.units@[dep@]@);
        assert(units[dep@].singleton == p.units@[dep@].singleton);
        if !p.units@[dep@].singleton && r {
            let n = choose|n: Seq<char>| #[trigger]
                root::runs(root@, n) && run::is_instance(dep@, n);
            assert(root::runs(root@, n) && text::starts_with(n, dep@ + "."@));
        }
    }
}

/// What a unit depends on is started and waited for, from the first on; what a command
/// depends on is waited for only.
pub proof fn lemma_starts(
    order: Vec<String>,
    deps: Vec<DependencyArg>,
    a: Start,
    b: Start,
    i: int,
)
    requires
        call_ensures(Start::unit, (order,), a),
        call_ensures(Start::adhoc, (&deps,), b),
    ensures
        a@.starts && !a@.begun && a@.rest == text::texts(order@),
        !b@.starts && !b@.begun && b@.rest.len() == deps@.len(),
        0 <= i < deps@.len() ==> b@.rest[i] == deps@[i].name@,
{
}

// ---------------------------------------------------------------------------
// Input and output
// ---------------------------------------------------------------------------

/// A host that writes learns how much was written, or why nothing was.
pub proof fn lemma_write_result(n: usize, w: WriteResult, r: Result<usize, PsyError>)
    requires
        call_ensures(handle::write_result, (n, &w), r),
    ensures
        r is Ok <==> w is Done,
        r is Ok ==> r->Ok_0 == n,
{
}

/// A client that is attached learns that the process has exited, and with what code.
pub proof fn lemma_detached(root: SharedRoot, name: &str, r: DetachNotice)
    requires
        call_ensures(SharedRoot::detach_notice, (&root, name), r),
    ensures
        r.detached,
        r.reason@ == "exited"@,
        root@.table.dom().contains(name@) ==> r.exit_code == root@.table[name@].exit_status,
        !root@.table.dom().contains(name@) ==> r.exit_code is None,
{
}

/// A line that is followed is sent as it was written.
pub proof fn lemma_line_is_sent(id: &str, name: &str, l: LogLine, r: LogLineResponse)
    requires
        call_ensures(logs::follow_line, (id, name, &l), r),
    ensures
        r.id@ == id@,
        r.name@ == name@,
        r.content@ == l.content@,
        r.timestamp@ == time::rfc3339(l.timestamp.seconds(), l.timestamp.subsec()),
        r.stream == StreamKind::Stdout <==> l.stream == Stream::Stdout,
        r.stream == StreamKind::Stderr <==> l.stream == Stream::Stderr,
        r.stream == StreamKind::ProbeStdout <==> l.stream == Stream::ProbeStdout,
        r.stream == StreamKind::ProbeStderr <==> l.stream == Stream::ProbeStderr,
{
}

/// A host that asks for a log reads the lines that were sent, each with its time, its
/// stream and its content.
pub proof fn lemma_page(
    sent: Vec<LogLine>,
    d: Json,
    now: Timestamp,
    r: Result<LogPage, PsyError>,
    none: Result<LogPage, PsyError>,
    i: int,
)
    requires
        call_ensures(logs::lines_value, (&sent,), d),
        call_ensures(api::log_page, (&Some(d), &now), r),
        call_ensures(api::log_page, (&None, &now), none),
        forall|j: int|
            0 <= j < sent@.len() ==> time::reads_back((#[trigger] sent@[j]).timestamp),
    ensures
        none is Err,
        r is Ok,
        r->Ok_0.lines@.len() == sent@.len(),
        0 <= i < sent@.len() ==> {
            let x = r->Ok_0.lines@[i]@;
            &&& x.content == sent@[i].content@
            &&& x.timestamp == sent@[i].timestamp
            &&& x.stream == StreamKind::Stdout <==> sent@[i].stream == Stream::Stdout
            &&& x.stream == StreamKind::Stderr <==> sent@[i].stream == Stream::Stderr
        },
{
    let s = ring_buffer::lines_view(sent@);
    assert forall|j: int| 0 <= j < s.len() implies time::reads_back((#[trigger] s[j]).timestamp) by {
        assert(s[j] == sent@[j]@);
        assert(time::reads_back(sent@[j].timestamp));
    }
    api::lemma_page_read_back(s, now);
    let p = api::page_lines(r->Ok_0.lines@);
    assert(p.len() == r->Ok_0.lines@.len());
    assert(s.len() == sent@.len());
    if 0 <= i < sent@.len() {
        assert(p[i] == r->Ok_0.lines@[i]@);
        assert(s[i] == sent@[i]@);
    }
}

/// A line of a log is shown with its time, its stream and what was written, in this order.
pub proof fn lemma_shown_line(v: Json, r: String, t: Seq<char>, s: Seq<char>, c: Seq<char>)
    requires
        call_ensures(client::show_line, (&v,), r),
        json::member(json::model(v), "timestamp"@) == Some(Js::Text(t)),
        json::member(json::model(v), "stream"@) == Some(Js::Text(s)),
        json::member(json::model(v), "content"@) == Some(Js::Text(c)),
    ensures
        r@ == seq!['['] + t + seq![' '] + s + seq![']', ' '] + c,
{
    reveal_strlit("[");
    reveal_strlit(" ");
    reveal_strlit("] ");
    assert("["@ =~= seq!['[']);
    assert(" "@ =~= seq![' ']);
    assert("] "@ =~= seq![']', ' ']);
}

/// A client that is attached shows what comes, until it is told that it is detached; then
/// it knows the code.
pub proof fn lemma_attached(name: &str, line: &str, r: Attached, shown: String, c: u64, k: i64)
    requires
        call_ensures(client::read_attached, (name, line), r),
        call_ensures(client::show_received, (line,), shown),
        c <= i32::MAX,
        i32::MIN <= k < 0,
    ensures
        json::document(line@) is Err ==> r is Show && r->Show_0@ == line@ && shown@ == line@,
        json::document(line@) matches Ok(v) ==> {
            &&& r is Detached <==> json::member(v, "detached"@) is Some
            &&& r is Show ==> r->Show_0@ == shown@
            &&& r is Detached && json::member(v, "exit_code"@) == Some(Js::Unsigned(c))
                ==> r->exit_code == Some(c as i32)
            &&& r is Detached && json::member(v, "exit_code"@) == Some(Js::Negative(k))
                ==> r->exit_code == Some(k as i32)
            &&& r is Detached && json::member(v, "exit_code"@) is None ==> r->exit_code is None
        },
{
}

/// The answer to a request to shut down says so.
pub proof fn lemma_down(id: &str, r: Response)
    requires
        call_ensures(SharedRoot::down_answer, (id,), r),
    ensures
        r.ok,
        r.id@ == id@,
        r.data is Some,
        json::member(json::model(r.data->0), "status"@) == Some(Js::Text("shutdown"@)),
{
    fields::lemma_field(seq![("status"@, Js::Text("shutdown"@))], 0);
}

/// A template has room for one more instance as long as its counter has.
pub proof fn lemma_instances_left(root: SharedRoot, name: &str, r: bool)
    requires
        call_ensures(SharedRoot::instances_left, (&root, name), r),
    ensures
        !root@.counters.dom().contains(name@) ==> r,
        root@.counters.dom().contains(name@) ==> (r <==> root@.counters[name@] < u32::MAX),
{
}

/// A line of a log that does not say its stream is shown as one of stdout.
pub proof fn lemma_shown_line_of_no_stream(v: Json, r: String, t: Seq<char>, c: Seq<char>)
    requires
        call_ensures(client::show_line, (&v,), r),
        json::member(json::model(v), "timestamp"@) == Some(Js::Text(t)),
        json::member(json::model(v), "stream"@) is None,
        json::member(json::model(v), "content"@) == Some(Js::Text(c)),
    ensures
        r@ == seq!['['] + t + seq![' '] + "stdout"@ + seq![']', ' '] + c,
{
    reveal_strlit("[");
    reveal_strlit(" ");
    reveal_strlit("] ");
    assert("["@ =~= seq!['[']);
    assert(" "@ =~= seq![' ']);
    assert("] "@ =~= seq![']', ' ']);
}

proof fn lemma_begins(m: Seq<char>, p: Seq<char>, i: int)
    requires
        text::starts_with(m, p),
        0 <= i < p.len(),
    ensures
        i < m.len(),
        m[i] == p[i],
{
    assert(m.subrange(0, 0 + p.len() as int)[i] == p[i]);
}

/// How a message begins tells its class.
pub proof fn lemma_class_by_beginning(m: &str, r: ErrorCode)
    requires
        call_ensures(ErrorCode::classify_message, (m,), r),
        !text::contains(m@, "stdin has been closed"@),
    ensures
        m@ == "server is shutting down"@ || m@ == "psy is shutting down"@ ==> r
            == ErrorCode::ShuttingDown,
        text::starts_with(m@, "failed to allocate port"@) ==> r == ErrorCode::PortAllocationFailed,
        text::starts_with(m@, "spawn failed:"@) ==> r == ErrorCode::SpawnFailed,
        text::starts_with(m@, "invalid name"@) ==> r == ErrorCode::InvalidName,
        text::starts_with(m@, "stdin for '"@) ==> r == ErrorCode::StdinClosed,
{
    reveal_strlit("server is shutting down");
    reveal_strlit("psy is shutting down");
    reveal_strlit("process '");
    reveal_strlit("stdin for '");
    reveal_strlit("spawn failed:");
    reveal_strlit("spawn '");
    reveal_strlit("restart spawn failed:");
    reveal_strlit("failed to allocate port");
    reveal_strlit("invalid name");
    assert("server is shutting down"@[0] == 's' && "server is shutting down"@[1] == 'e');
    assert("psy is shutting down"@[0] == 'p');
    if text::starts_with(m@, "process '"@) {
        lemma_begins(m@, "process '"@, 0);
    }
    if text::starts_with(m@, "stdin for '"@) {
        lemma_begins(m@, "stdin for '"@, 0);
        lemma_begins(m@, "stdin for '"@, 1);
    }
    if text::starts_with(m@, "spawn failed:"@) {
        lemma_begins(m@, "spawn failed:"@, 0);
        lemma_begins(m@, "spawn failed:"@, 1);
    }
    if text::starts_with(m@, "spawn '"@) {
        lemma_begins(m@, "spawn '"@, 0);
    }
    if text::starts_with(m@, "restart spawn failed:"@) {
        lemma_begins(m@, "restart spawn failed:"@, 0);
    }
    if text::starts_with(m@, "failed to allocate port"@) {
        lemma_begins(m@, "failed to allocate port"@, 0);
    }
    if text::starts_with(m@, "invalid name"@) {
        lemma_begins(m@, "invalid name"@, 0);
    }
}

} // verus!

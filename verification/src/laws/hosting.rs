//! What a host asks a root for, and what it reads in the answers.
use crate::api;
use crate::api::{DependencyRef, ErrorView, HealthCheck, LogsQuery, PsyError, ReadyProbe};
use crate::api::{RootOptions, SocketBinding, Spawn, SpawnHandle, SubRootOptions};
use crate::json;
use crate::json::{Js, Json};
use crate::logs;
use crate::process;
use crate::protocol;
use crate::protocol::{LogsArgs, ProcessInfo, Request, Response, RestartPolicy, RunArgs};
use crate::protocol::{ProbeArg, StreamKind};
use crate::psyfile;
use crate::psyfile::{ProbeKindView, Psyfile};
use crate::root::serve;
use crate::root::serve::Route;
use crate::text;
use crate::time;
use crate::time::Duration;
use vstd::prelude::*;

verus! {

// ---------------------------------------------------------------------------
// Requests and answers
// ---------------------------------------------------------------------------

/// A request that is made for a command is taken for that command, with its arguments.
pub proof fn lemma_requests(
    args: Json,
    a: Request,
    b: Request,
    c: Request,
    d: Request,
    e: Request,
    f: Request,
    ra: Result<Route, Response>,
    rb: Result<Route, Response>,
    rc: Result<Route, Response>,
    rd: Result<Route, Response>,
    re: Result<Route, Response>,
    rf: Result<Route, Response>,
)
    requires
        call_ensures(Request::run, (args,), a),
        call_ensures(Request::ps, (), b),
        call_ensures(Request::logs, (args,), c),
        call_ensures(Request::logs_follow, (args,), d),
        call_ensures(Request::stop, (args,), e),
        call_ensures(Request::restart, (args,), f),
        call_ensures(serve::handle_request, (&a,), ra),
        call_ensures(serve::handle_request, (&b,), rb),
        call_ensures(serve::handle_request, (&c,), rc),
        call_ensures(serve::handle_request, (&d,), rd),
        call_ensures(serve::handle_request, (&e,), re),
        call_ensures(serve::handle_request, (&f,), rf),
    ensures
        ra is Ok && ra->Ok_0 is Run && a.args == Some(args),
        rb is Ok && rb->Ok_0 is Ps && b.args is None,
        rc is Ok && rc->Ok_0 is Logs && c.args == Some(args),
        rd is Ok && rd->Ok_0 is LogsFollow && d.args == Some(args),
        re is Ok && re->Ok_0 is Stop && e.args == Some(args),
        rf is Ok && rf->Ok_0 is Restart && f.args == Some(args),
{
    lemma_command_names();
}

/// A request that is made for a command is taken for that command, with its arguments.
pub proof fn lemma_other_requests(
    args: Json,
    a: Request,
    b: Request,
    c: Request,
    d: Request,
    e: Request,
    f: Request,
    ra: Result<Route, Response>,
    rb: Result<Route, Response>,
    rc: Result<Route, Response>,
    rd: Result<Route, Response>,
    re: Result<Route, Response>,
    rf: Result<Route, Response>,
)
    requires
        call_ensures(Request::down, (), a),
        call_ensures(Request::history, (args,), b),
        call_ensures(Request::send, (args,), c),
        call_ensures(Request::send_wait, (args,), d),
        call_ensures(Request::clean, (), e),
        call_ensures(Request::register_subroot, (args,), f),
        call_ensures(serve::handle_request, (&a,), ra),
        call_ensures(serve::handle_request, (&b,), rb),
        call_ensures(serve::handle_request, (&c,), rc),
        call_ensures(serve::handle_request, (&d,), rd),
        call_ensures(serve::handle_request, (&e,), re),
        call_ensures(serve::handle_request, (&f,), rf),
    ensures
        ra is Ok && ra->Ok_0 is Down && a.args is None,
        rb is Ok && rb->Ok_0 is History && b.args == Some(args),
        rc is Ok && rc->Ok_0 is Send && c.args == Some(args),
        rd is Ok && rd->Ok_0 is SendWait && d.args == Some(args),
        re is Ok && re->Ok_0 is Clean && e.args is None,
        rf is Ok && rf->Ok_0 is RegisterSubroot && f.args == Some(args),
{
    lemma_command_names();
}

proof fn lemma_command_names()
    ensures
        protocol::CMD_RUN@.len() == 3,
        protocol::CMD_PS@.len() == 2,
        protocol::CMD_LOGS@.len() == 4 && protocol::CMD_LOGS@[0] == 'l',
        protocol::CMD_LOGS_FOLLOW@.len() == 11,
        protocol::CMD_STOP@.len() == 4 && protocol::CMD_STOP@[0] == 's' && protocol::CMD_STOP@[1]
            == 't',
        protocol::CMD_RESTART@.len() == 7 && protocol::CMD_RESTART@[0] == 'r',
        protocol::CMD_DOWN@.len() == 4 && protocol::CMD_DOWN@[0] == 'd',
        protocol::CMD_HISTORY@.len() == 7 && protocol::CMD_HISTORY@[0] == 'h',
        protocol::CMD_SEND@.len() == 4 && protocol::CMD_SEND@[0] == 's' && protocol::CMD_SEND@[1]
            == 'e',
        protocol::CMD_SEND_WAIT@.len() == 9,
        protocol::CMD_CLEAN@.len() == 5,
        protocol::CMD_REGISTER_SUBROOT@.len() == 16,
{
    reveal_strlit("run");
    reveal_strlit("ps");
    reveal_strlit("logs");
    reveal_strlit("logs_follow");
    reveal_strlit("stop");
    reveal_strlit("restart");
    reveal_strlit("down");
    reveal_strlit("history");
    reveal_strlit("send");
    reveal_strlit("send_wait");
    reveal_strlit("clean");
    reveal_strlit("register_subroot");
}

/// What a root answers, a host reads: the data of a success, and of a failure an error.
pub proof fn lemma_answers_are_read(
    id: &str,
    data: Option<Json>,
    why: &str,
    missing: &str,
    a: Response,
    b: Response,
    x: Result<Option<Json>, PsyError>,
    y: Result<Option<Json>, PsyError>,
)
    requires
        call_ensures(Response::ok, (id, data), a),
        call_ensures(Response::err, (id, why), b),
        call_ensures(api::reply, (a, missing), x),
        call_ensures(api::reply, (b, missing), y),
    ensures
        a.id@ == id@,
        b.id@ == id@,
        x is Ok && x->Ok_0 == data,
        y is Err,
        b.error_code is Some,
        b.error_code->0 is Other || b.error_code->0 is NotRunning ==> y->Err_0@
            == ErrorView::Other(why@),
        b.error_code->0 is PsyfileError ==> y->Err_0@ == ErrorView::PsyfileError(why@),
        b.error_code->0 is ShuttingDown ==> y->Err_0@ is ShuttingDown,
        b.error_code->0 is NotFound ==> y->Err_0@ is NotFound,
        b.error_code->0 is AlreadyExists ==> y->Err_0@ is AlreadyExists,
        b.error_code->0 is InvalidName ==> y->Err_0@ is InvalidName,
        b.error_code->0 is SpawnFailed ==> y->Err_0@ is SpawnFailed && y->Err_0@->SpawnFailed_1
            == why@,
{
}

/// The name in a message is what stands between its first two quotes.
pub proof fn lemma_quoted_name(
    m: &str,
    r: Option<String>,
    name: String,
    head: Seq<char>,
    n: Seq<char>,
    tail: Seq<char>,
)
    requires
        call_ensures(api::extract_quoted, (m,), r),
        call_ensures(api::extract_name, (m,), name),
        !head.contains('\''),
        !n.contains('\''),
    ensures
        m@ == head + seq!['\''] + n + seq!['\''] + tail ==> r is Some && r->0@ == n && name@ == n,
        m@ == head + seq!['\''] + n ==> r is None && name@.len() == 0,
        m@ == head ==> r is None && name@.len() == 0,
{
    let s = m@;
    if s == head + seq!['\''] + n + seq!['\''] + tail {
        assert forall|j: int| 0 <= j < head.len() implies s[j] != '\'' by {
            assert(s[j] == head[j]);
        }
        text::lemma_position_unique(s, '\'', head.len());
        let rest = s.skip(head.len() as int + 1);
        assert(rest =~= n + seq!['\''] + tail);
        assert forall|j: int| 0 <= j < n.len() implies rest[j] != '\'' by {
            assert(rest[j] == n[j]);
        }
        text::lemma_position_unique(rest, '\'', n.len());
        assert(rest.take(n.len() as int) =~= n);
    }
    if s == head + seq!['\''] + n {
        assert forall|j: int| 0 <= j < head.len() implies s[j] != '\'' by {
            assert(s[j] == head[j]);
        }
        text::lemma_position_unique(s, '\'', head.len());
        let rest = s.skip(head.len() as int + 1);
        assert(rest =~= n);
        text::lemma_position(rest, '\'');
        let j = text::position(rest, '\'') as int;
        if j < rest.len() {
            assert(rest.contains(rest[j]));
        }
    }
    if s == head {
        text::lemma_position(s, '\'');
        let j = text::position(s, '\'') as int;
        if j < s.len() {
            assert(s.contains(s[j]));
        }
    }
}

/// The text of an error names what it is about.
pub proof fn lemma_error_text(e: PsyError, r: String)
    requires
        call_ensures(PsyError::to_string, (&e,), r),
    ensures
        e@ matches ErrorView::NotFound(n) ==> r@ == "process '"@ + n + "' not found"@,
        e@ matches ErrorView::AlreadyExists(n) ==> r@ == "process '"@ + n
            + "' is already running"@,
        e@ matches ErrorView::Other(m) ==> r@ == m,
        e@ matches ErrorView::PsyfileError(m) ==> text::ends_with(r@, m),
        e@ matches ErrorView::SpawnFailed(n, m) ==> text::ends_with(r@, m) && text::contains(
            r@,
            n,
        ),
        e@ matches ErrorView::InvalidName(n) ==> text::starts_with(r@, "invalid name '"@ + n),
        e@ is ShuttingDown ==> r@ == "psy is shutting down"@,
{
    match e@ {
        ErrorView::PsyfileError(m) => {
            assert(r@.subrange(r@.len() - m.len(), r@.len() as int) =~= m);
        },
        ErrorView::SpawnFailed(n, m) => {
            assert(r@.subrange(r@.len() - m.len(), r@.len() as int) =~= m);
            let k = "spawn '"@.len();
            assert(r@.subrange(k as int, (k + n.len()) as int) =~= n);
            assert(text::occurs_at(r@, n, k as int));
        },
        ErrorView::InvalidName(n) => {
            let h = "invalid name '"@ + n;
            assert(r@.subrange(0, h.len() as int) =~= h);
        },
        _ => {},
    }
}

// ---------------------------------------------------------------------------
// Processes to start
// ---------------------------------------------------------------------------

/// A span of time that is written for a request is read as the same span, in whole
/// milliseconds.
pub proof fn lemma_duration_is_kept(
    d: Duration,
    written: String,
    sent: &str,
    r: Result<Duration, String>,
)
    requires
        d.nanos < 1_000_000_000,
        call_ensures(api::format_duration, (d,), written),
        sent@ == written@,
        call_ensures(psyfile::parse_duration, (sent,), r),
        d.millis() <= u64::MAX,
    ensures
        r is Ok,
        r->Ok_0.secs * 1_000 + r->Ok_0.nanos / 1_000_000 == d.secs * 1_000 + d.nanos / 1_000_000,
{
    api::lemma_duration_read_back(d);
}

/// A request to start a process says what the host asked for: its name, command, policy,
/// variables, ports, directory, dependencies and metadata. It is not attached.
pub proof fn lemma_spawn_is_asked_for(s: Spawn, r: RunArgs, i: int)
    requires
        call_ensures(api::spawn_args, (s,), r),
    ensures
        r.name@ == s.name@,
        text::texts(r.command@) == text::texts(s.argv@),
        r.restart == s.restart,
        r.env@ == s.env@,
        !r.attach,
        r.interactive == s.interactive,
        r.raw_stdio == s.raw_stdio,
        r.extra_args is None,
        r.cwd is Some <==> s.cwd is Some,
        s.cwd is Some ==> r.cwd->0@ == s.cwd->0@,
        r.metadata@ == s.metadata@,
        r.ports@.len() == s.ports@.len(),
        0 <= i < s.ports@.len() ==> r.ports@[i].name@ == s.ports@[i].0@ && r.ports@[i].default
            == s.ports@[i].1,
        r.depends_on@.len() == s.depends_on@.len(),
        0 <= i < s.depends_on@.len() ==> r.depends_on@[i].name@ == s.depends_on@[i].name@
            && r.depends_on@[i].restart == s.depends_on@[i].restart,
        r.ready is Some <==> s.ready is Some,
        r.healthcheck is Some <==> s.healthcheck is Some,
        r.wait_for is Some <==> s.wait_for is Some,
        s.wait_for matches Some(api::WaitFor::Ready) ==> r.wait_for->0 is Ready,
        s.wait_for matches Some(api::WaitFor::Exit) ==> r.wait_for->0 is Exit,
        s.wait_for matches Some(api::WaitFor::Log { pattern }) ==> r.wait_for->0 is Log
            && r.wait_for->0->pattern == pattern,
        r.wait_timeout is Some <==> s.wait_timeout is Some,
{
    let p = api::ports_asked(r.ports@);
    let q = api::port_args(s.ports@);
    assert(p.len() == r.ports@.len() && q.len() == s.ports@.len());
    let d = api::dependency_args(r.depends_on@);
    let e = api::dependency_refs(s.depends_on@);
    assert(d.len() == r.depends_on@.len() && e.len() == s.depends_on@.len());
    if 0 <= i < s.ports@.len() {
        assert(p[i] == q[i]);
    }
    if 0 <= i < s.depends_on@.len() {
        assert(d[i] == e[i]);
    }
    if s.wait_timeout is Some {
        assert(text::opt_text(r.wait_timeout) is Some);
    }
}

/// A readiness probe is asked for as it is: what it tests, how often and for how long.
pub proof fn lemma_probe_is_asked_for(
    p: ReadyProbe,
    r: ProbeArg,
    h: HealthCheck,
    q: ProbeArg,
    d: Duration,
    t: String,
)
    requires
        call_ensures(api::ready_probe_to_arg, (p,), r),
        call_ensures(api::healthcheck_to_arg, (h,), q),
        call_ensures(api::format_duration, (d,), t),
    ensures
        p matches ReadyProbe::Tcp { addr, interval, timeout, retries } ==> r@.kind
            == ProbeKindView::Tcp(addr@) && r.retries == retries && (r@.interval is Some
            <==> interval is Some) && (r@.timeout is Some <==> timeout is Some) && (interval
            == Some(d) ==> r@.interval == Some(t@)) && (timeout == Some(d) ==> r@.timeout == Some(
            t@,
        )),
        p matches ReadyProbe::Http { url, interval, timeout, retries } ==> r@.kind
            == ProbeKindView::Http(url@) && r.retries == retries && (r@.interval is Some
            <==> interval is Some) && (r@.timeout is Some <==> timeout is Some) && (interval
            == Some(d) ==> r@.interval == Some(t@)) && (timeout == Some(d) ==> r@.timeout == Some(
            t@,
        )),
        p matches ReadyProbe::Exec { command, interval, timeout, retries } ==> r@.kind
            == ProbeKindView::Exec(command@) && r.retries == retries && (r@.interval is Some
            <==> interval is Some) && (r@.timeout is Some <==> timeout is Some) && (interval
            == Some(d) ==> r@.interval == Some(t@)) && (timeout == Some(d) ==> r@.timeout == Some(
            t@,
        )),
        p matches ReadyProbe::Exit { code, timeout } ==> r@.kind == ProbeKindView::Exit(code) && (
        timeout == Some(d) ==> r@.timeout == Some(t@)) && (timeout is None ==> r@.timeout is None),
        h matches HealthCheck::Tcp { addr, interval, timeout, retries } ==> q@.kind
            == ProbeKindView::Tcp(addr@) && q.retries == retries && (q@.interval is Some
            <==> interval is Some) && (q@.timeout is Some <==> timeout is Some) && (interval
            == Some(d) ==> q@.interval == Some(t@)) && (timeout == Some(d) ==> q@.timeout == Some(
            t@,
        )),
        h matches HealthCheck::Http { url, interval, timeout, retries } ==> q@.kind
            == ProbeKindView::Http(url@) && q.retries == retries && (q@.interval is Some
            <==> interval is Some) && (q@.timeout is Some <==> timeout is Some) && (interval
            == Some(d) ==> q@.interval == Some(t@)) && (timeout == Some(d) ==> q@.timeout == Some(
            t@,
        )),
        h matches HealthCheck::Exec { command, interval, timeout, retries } ==> q@.kind
            == ProbeKindView::Exec(command@) && q.retries == retries && (q@.interval is Some
            <==> interval is Some) && (q@.timeout is Some <==> timeout is Some) && (interval
            == Some(d) ==> q@.interval == Some(t@)) && (timeout == Some(d) ==> q@.timeout == Some(
            t@,
        )),
{
}

/// A root below starts as `psy up` under its name, with the arguments that follow.
pub proof fn lemma_subroot_command(
    name: &str,
    binary: String,
    extra: Vec<String>,
    r: Spawn,
    usual: Spawn,
    i: int,
)
    requires
        call_ensures(api::subroot_spawn, (name, Some(binary), &extra), r),
        call_ensures(api::subroot_spawn, (name, None, &extra), usual),
    ensures
        r.name@ == name@,
        r.argv@.len() == 4 + extra@.len(),
        r.argv@[0]@ == binary@,
        r.argv@[1]@ == "up"@,
        r.argv@[2]@ == "--name"@,
        r.argv@[3]@ == name@,
        0 <= i < extra@.len() ==> r.argv@[4 + i]@ == extra@[i]@,
        usual.argv@.len() == 4 + extra@.len(),
        usual.argv@[0]@ == "psy"@,
        usual.argv@[3]@ == name@,
{
    let a = text::texts(r.argv@);
    let b = text::texts(usual.argv@);
    let e = text::texts(extra@);
    assert(a.len() == r.argv@.len() && b.len() == usual.argv@.len() && e.len() == extra@.len());
    assert(a[0] == r.argv@[0]@ && a[1] == r.argv@[1]@ && a[2] == r.argv@[2]@ && a[3]
        == r.argv@[3]@);
    assert(b[0] == usual.argv@[0]@ && b[3] == usual.argv@[3]@);
    if 0 <= i < extra@.len() {
        assert(a[4 + i] == e[i]);
        assert(a[4 + i] == r.argv@[4 + i]@);
    }
}

/// A setter sets its setting, to what is given, and leaves the others.
pub proof fn lemma_spawn_settings(
    s: Spawn,
    cwd: String,
    on: bool,
    policy: RestartPolicy,
    ports: Vec<(String, Option<u16>)>,
    d: Duration,
    deps: Vec<DependencyRef>,
    ready: ReadyProbe,
    hc: HealthCheck,
    a: Spawn,
    b: Spawn,
    c: Spawn,
    e: Spawn,
    f: Spawn,
    g: Spawn,
    h: Spawn,
    i: Spawn,
    j: Spawn,
)
    requires
        call_ensures(Spawn::with_cwd, (s, cwd), a),
        call_ensures(Spawn::with_interactive, (s, on), b),
        call_ensures(Spawn::with_restart, (s, policy), c),
        call_ensures(Spawn::with_ports, (s, ports), e),
        call_ensures(Spawn::with_wait_timeout, (s, d), f),
        call_ensures(Spawn::with_raw_stdio, (s, on), g),
        call_ensures(Spawn::with_depends_on, (s, deps), h),
        call_ensures(Spawn::with_ready, (s, ready), i),
        call_ensures(Spawn::with_healthcheck, (s, hc), j),
    ensures
        a.cwd == Some(cwd) && a.argv == s.argv && a.env == s.env,
        b.interactive == on && b.raw_stdio == s.raw_stdio && b.restart == s.restart,
        c.restart == policy && c.interactive == s.interactive && c.name == s.name,
        e.ports == ports && e.argv == s.argv && e.cwd == s.cwd,
        f.wait_timeout == Some(d) && f.wait_for == s.wait_for,
        g.raw_stdio == on && g.interactive == s.interactive,
        h.depends_on == deps && h.ports == s.ports,
        i.ready == Some(ready) && i.healthcheck == s.healthcheck,
        j.healthcheck == Some(hc) && j.ready == s.ready,
{
}

/// Variables that are set one after the other are all set, a later one over an earlier.
pub proof fn lemma_spawn_variables(
    s: Spawn,
    v: Vec<(String, String)>,
    a: Spawn,
    b: Spawn,
    i: int,
)
    requires
        call_ensures(Spawn::with_env, (s, v), a),
        call_ensures(Spawn::with_metadata, (s, v), b),
        0 <= i < v@.len(),
        forall|j: int| i < j < v@.len() ==> (#[trigger] v@[j]).0@ != v@[i].0@,
    ensures
        a.env@.dom().contains(v@[i].0@) && a.env@[v@[i].0@]@ == v@[i].1@,
        b.metadata@.dom().contains(v@[i].0@) && b.metadata@[v@[i].0@]@ == v@[i].1@,
        a.metadata == s.metadata,
        b.env == s.env,
{
    lemma_pairs(v@, i);
    let k = v@[i].0@;
    let x = psyfile::env_view(a.env);
    let y = psyfile::env_view(b.metadata);
    assert(x.dom().contains(k) && y.dom().contains(k));
    assert(x[k] == a.env@[k]@);
    assert(y[k] == b.metadata@[k]@);
}

proof fn lemma_pairs(s: Seq<(String, String)>, i: int)
    requires
        0 <= i < s.len(),
        forall|j: int| i < j < s.len() ==> (#[trigger] s[j]).0@ != s[i].0@,
    ensures
        process::pairs_view(s).dom().contains(s[i].0@),
        process::pairs_view(s)[s[i].0@] == s[i].1@,
    decreases s.len(),
{
    if i < s.len() - 1 {
        let rest = s.drop_last();
        assert forall|j: int| i < j < rest.len() implies (#[trigger] rest[j]).0@ != rest[i].0@ by {
            assert(rest[j] == s[j] && rest[i] == s[i]);
        }
        lemma_pairs(rest, i);
        assert(s[s.len() - 1].0@ != s[i].0@);
    }
}

// ---------------------------------------------------------------------------
// Roots
// ---------------------------------------------------------------------------

/// A root starts the units that are listed, or all of them where that is asked for; that
/// takes a Psyfile.
pub proof fn lemma_boot_units(
    units: Vec<String>,
    psyfile: Result<Option<Psyfile>, String>,
    sub_root: bool,
    some: Result<Vec<String>, PsyError>,
    all: Result<Vec<String>, PsyError>,
)
    requires
        call_ensures(api::boot_units, (false, units, &psyfile, sub_root), some),
        call_ensures(api::boot_units, (true, units, &psyfile, sub_root), all),
    ensures
        some is Ok && text::texts(some->Ok_0@) == text::texts(units@),
        psyfile matches Ok(Some(p)) ==> all is Ok && text::texts(all->Ok_0@) == p.units.names(),
        !(psyfile matches Ok(Some(p))) ==> all is Err && all->Err_0@ is PsyfileError,
        psyfile matches Err(e) ==> all->Err_0@ == ErrorView::PsyfileError(e@),
{
}

/// The settings of a root are those that are set, and each setter sets its own.
pub proof fn lemma_root_settings(
    o: RootOptions,
    units: Vec<String>,
    on: bool,
    b: SocketBinding,
    r: RootOptions,
    s: RootOptions,
    t: RootOptions,
    u: RootOptions,
    bound: bool,
)
    requires
        call_ensures(RootOptions::with_boot_units, (o, units), r),
        call_ensures(RootOptions::with_boot_all, (o, on), s),
        call_ensures(RootOptions::with_bind_socket, (o, b), t),
        call_ensures(RootOptions::with_install_host_cleanup, (o, on), u),
        call_ensures(api::binds, (&b,), bound),
    ensures
        r.boot_units == units && r.boot_all == o.boot_all && r.name == o.name,
        s.boot_all == on && s.boot_units == o.boot_units && s.install_host_cleanup
            == o.install_host_cleanup,
        t.bind_socket == b && t.boot_all == o.boot_all,
        u.install_host_cleanup == on && u.boot_all == o.boot_all,
        bound <==> !(b is Off),
{
}

/// A sub-root can run in this process only, and under a valid name.
pub proof fn lemma_sub_root_options(o: SubRootOptions, r: Result<(), PsyError>)
    requires
        call_ensures(api::check_sub_root, (&o,), r),
    ensures
        r is Ok <==> o.kind is InProcess && process::valid_name(o.name@),
        o.kind is InProcess && r is Err ==> r->Err_0@ == ErrorView::InvalidName(o.name@),
{
}

// ---------------------------------------------------------------------------
// Answers
// ---------------------------------------------------------------------------

/// The number of a process comes from the answer, else from what is known; its ports come
/// from the answer.
pub proof fn lemma_handle(
    name: String,
    d: Json,
    known: Option<u32>,
    r: SpawnHandle,
    none: SpawnHandle,
    n: u64,
    m: Map<Seq<char>, Js>,
    port: Seq<char>,
    p: u64,
)
    requires
        call_ensures(api::spawn_handle, (name, &Some(d), known), r),
        call_ensures(api::spawn_handle, (name, &None, known), none),
        n <= u32::MAX,
        p <= u16::MAX,
    ensures
        r.name == name,
        json::member(json::model(d), "pid"@) == Some(Js::Unsigned(n)) ==> r.pid == Some(n as u32),
        json::member(json::model(d), "pid"@) is None ==> r.pid == known,
        json::member(json::model(d), "ports"@) == Some(Js::Object(m)) && m.dom().contains(port)
            && m[port] == Js::Unsigned(p) ==> r.ports@.dom().contains(port) && r.ports@[port]
            == p as u16,
        json::member(json::model(d), "ports"@) is None ==> !r.ports@.dom().contains(port),
        none.pid == known,
        !none.ports@.dom().contains(port),
{
}

/// A process is found in a list by its name, and the first one counts.
pub proof fn lemma_status(all: Vec<ProcessInfo>, name: &str, r: Result<ProcessInfo, PsyError>)
    requires
        call_ensures(api::status, (all, name), r),
    ensures
        r is Ok <==> exists|i: int| 0 <= i < all@.len() && (#[trigger] all@[i]).name@ == name@,
        r is Ok ==> r->Ok_0.name@ == name@ && exists|i: int|
            0 <= i < all@.len() && #[trigger] all@[i] == r->Ok_0,
        r is Err ==> r->Err_0@ == ErrorView::NotFound(name@),
{
    lemma_first_named(all@, name@);
}

proof fn lemma_first_named(s: Seq<ProcessInfo>, name: Seq<char>)
    ensures
        api::first_named(s, name) is Some <==> exists|i: int|
            0 <= i < s.len() && (#[trigger] s[i]).name@ == name,
        api::first_named(s, name) matches Some(p) ==> p.name@ == name && exists|i: int|
            0 <= i < s.len() && #[trigger] s[i] == p,
    decreases s.len(),
{
    if s.len() > 0 {
        let rest = s.skip(1);
        lemma_first_named(rest, name);
        if s[0].name@ != name {
            if exists|i: int| 0 <= i < s.len() && (#[trigger] s[i]).name@ == name {
                let i = choose|i: int| 0 <= i < s.len() && (#[trigger] s[i]).name@ == name;
                assert(rest[i - 1] == s[i]);
            }
            if api::first_named(rest, name) is Some {
                let p = api::first_named(rest, name)->0;
                let i = choose|i: int| 0 <= i < rest.len() && #[trigger] rest[i] == p;
                assert(s[i + 1] == p);
            }
        }
    }
}

/// Streams are told by their names.
pub proof fn lemma_stream_names(s: &str, r: Option<StreamKind>)
    requires
        call_ensures(api::stream_kind_from_str, (s,), r),
    ensures
        r == Some(StreamKind::Stdout) <==> s@ == "stdout"@,
        r == Some(StreamKind::Stderr) <==> s@ == "stderr"@,
        r == Some(StreamKind::ProbeStdout) <==> s@ == "probe_stdout"@ || s@ == "probe:stdout"@,
        r == Some(StreamKind::ProbeStderr) <==> s@ == "probe_stderr"@ || s@ == "probe:stderr"@,
{
    reveal_strlit("stdout");
    reveal_strlit("stderr");
    reveal_strlit("probe_stdout");
    reveal_strlit("probe_stderr");
    reveal_strlit("probe:stdout");
    reveal_strlit("probe:stderr");
    assert("stdout"@[3] == 'o' && "stderr"@[3] == 'e');
    assert("probe_stdout"@[9] == 'o' && "probe_stderr"@[9] == 'e');
    assert("probe:stdout"@[9] == 'o' && "probe:stderr"@[9] == 'e');
    assert("stdout"@.len() == 6 && "probe_stdout"@.len() == 12 && "probe:stdout"@.len() == 12);
    assert("stderr"@.len() == 6 && "probe_stderr"@.len() == 12 && "probe:stderr"@.len() == 12);
}

/// The number of processes that were forgotten is the one in the answer.
pub proof fn lemma_removed(d: Json, r: u64, none: u64, n: u64)
    requires
        call_ensures(api::removed, (&Some(d),), r),
        call_ensures(api::removed, (&None,), none),
    ensures
        json::member(json::model(d), "removed"@) == Some(Js::Unsigned(n)) ==> r == n,
        none == 0,
{
}

/// The request for a log says what the host asked for.
pub proof fn lemma_logs_are_asked_for(name: &str, q: LogsQuery, r: LogsArgs)
    requires
        call_ensures(api::logs_args, (name, q), r),
    ensures
        r.name@ == name@,
        r.tail == q.tail,
        r.stream == q.stream,
        r.previous == q.previous,
        r.run == q.run,
        r.probe == q.probe,
        r.grep == q.grep,
        r.since is Some <==> q.since is Some,
        r.until is Some <==> q.until is Some,
        q.since matches Some(t) ==> r.since->0@ == time::rfc3339(t.seconds(), t.subsec()),
        q.until matches Some(t) ==> r.until->0@ == time::rfc3339(t.seconds(), t.subsec()),
{
    assert(text::opt_text(r.since) is Some <==> q.since is Some);
    assert(text::opt_text(r.until) is Some <==> q.until is Some);
}

} // verus!

//! What probes are carried out, how often, and what comes of them.
use crate::probe;
use crate::probe::{Health, HealthStep, Outcome, ReadyStep, Report};
use crate::psyfile::{ProbeConfig, ProbeKind};
use crate::ring_buffer::Stream;
use crate::text;
use vstd::prelude::*;

verus! {

/// An attempt is a success just where the connection was made, the request was answered
/// with a status of 2xx, or the command ended with 0, as the probe asks for. A probe for
/// the exit of the process itself has none.
pub proof fn lemma_success(kind: ProbeKind, o: Outcome, attempt: u32, max: u32, r: Report)
    requires
        call_ensures(probe::execute_probe, (&kind, &o, attempt, max), r),
    ensures
        kind is Tcp ==> (r.success <==> o is Connected),
        kind is Http ==> (r.success <==> o is Status && 200 <= o->Status_0 <= 299),
        kind is Exec ==> (r.success <==> o is Ran && o->code == Some(0i32)),
        kind is Exit ==> !r.success,
{
}

/// An attempt that fails says why: the last line for its log ends with the reason, and
/// names the attempt. One that connects or is answered well says nothing.
pub proof fn lemma_failure_is_logged(
    kind: ProbeKind,
    o: Outcome,
    attempt: u32,
    max: u32,
    r: Report,
)
    requires
        call_ensures(probe::execute_probe, (&kind, &o, attempt, max), r),
    ensures
        kind is Tcp && o is Unreachable && o->Unreachable_0 is Some ==> r.stderr@.len() == 1
            && text::ends_with(r.stderr@[0]@, o->Unreachable_0->0@),
        kind is Tcp && o is Unreachable && o->Unreachable_0 is None ==> r.stderr@.len() == 1
            && text::ends_with(r.stderr@[0]@, "connection timed out"@),
        kind is Http && o is NoStatus ==> r.stderr@.len() == 1 && text::ends_with(
            r.stderr@[0]@,
            o->NoStatus_0@,
        ),
        kind is Http && o is Status && !r.success ==> r.stderr@.len() == 1 && text::ends_with(
            r.stderr@[0]@,
            "HTTP "@ + text::decimal(o->Status_0 as nat),
        ),
        kind is Exec && o is NotRun ==> r.stderr@.len() == 1 && text::ends_with(
            r.stderr@[0]@,
            o->NotRun_0@,
        ),
        kind is Exec && o is Ran && !r.success ==> r.stderr@.len() > 0 && text::ends_with(
            r.stderr@.last()@,
            "exit "@ + text::signed_decimal(
                if o->code is Some {
                    o->code->0 as int
                } else {
                    -1
                },
            ),
        ),
        (kind is Tcp || kind is Http) && r.success ==> r.stderr@.len() == 0 && r.stdout@.len()
            == 0,
{
    let e = text::texts(r.stderr@);
    assert(e.len() == r.stderr@.len());
    assert(text::texts(r.stdout@).len() == r.stdout@.len());
    if probe::can_end_with(kind@, o) {
        match probe::failure_text(kind@, o, attempt, max) {
            Some(m) => {
                assert(e.last() == m);
                assert(e[e.len() - 1] == r.stderr@[r.stderr@.len() - 1]@);
                let reason = match o {
                    Outcome::Unreachable(Some(x)) => x@,
                    Outcome::Unreachable(None) => "connection timed out"@,
                    Outcome::Status(n) => "HTTP "@ + text::decimal(n as nat),
                    Outcome::NoStatus(x) => x@,
                    Outcome::Ran { stdout, stderr, code } => "exit "@ + probe::code_text(code),
                    Outcome::NotRun(x) => x@,
                    _ => Seq::empty(),
                };
                assert(m.subrange(m.len() - reason.len(), m.len() as int) =~= reason);
            },
            None => {},
        }
    }
}

/// A readiness probe is tried as often as it says; where it does not, the attempts fill
/// the time limit, and there is at least one.
pub proof fn lemma_attempts(p: ProbeConfig, n: u32)
    requires
        call_ensures(probe::max_attempts, (&p,), n),
    ensures
        p.retries is Some ==> n == p.retries->0,
        p.retries is None ==> n >= 1,
        p.retries is None && p.interval.millis() >= 1 && n < u32::MAX ==> p.timeout.millis() < (n
            + 1) * p.interval.millis(),
        p.retries is None && p.interval.millis() >= 1 && n > 1 ==> n * p.interval.millis()
            <= p.timeout.millis(),
{
    if p.retries is None && p.interval.millis() >= 1 {
        let t = p.timeout.millis() as int;
        let d = p.interval.millis() as int;
        let q = t / d;
        assert(q * d <= t < (q + 1) * d && 0 <= q) by (nonlinear_arith)
            requires
                d >= 1,
                t >= 0,
                q == t / d,
        ;
        if q < 1 {
            assert((q + 1) * d <= (1 + 1) * d) by (nonlinear_arith)
                requires
                    d >= 1,
                    q < 1,
            ;
        } else if q > u32::MAX {
            let m = n as int;
            assert(m * d <= q * d) by (nonlinear_arith)
                requires
                    d >= 1,
                    m <= q,
            ;
        }
    }
}

/// An attempt that succeeds makes the process ready; one that fails is repeated, up to the
/// last one, after which the probe gives up.
pub proof fn lemma_after_attempt(p: ProbeConfig, attempt: u32, success: bool, n: u32, r: ReadyStep)
    requires
        call_ensures(probe::max_attempts, (&p,), n),
        call_ensures(probe::after_attempt, (&p, attempt, success), r),
    ensures
        success <==> r is Ready,
        !success && attempt == n <==> r is GiveUp,
        !success && attempt != n <==> r is Again,
{
}

/// Checks that fail in a row make a process unhealthy, as many as the check allows and
/// three where it does not say; one that succeeds starts the count anew.
pub proof fn lemma_health(h: &mut Health, p: ProbeConfig, success: bool, r: HealthStep)
    requires
        old(h).goes_on(p@),
        call_ensures(Health::take_outcome, (h, &p, success), r),
    ensures
        success ==> r is Fine && final(h).failures == 0,
        !success ==> final(h).failures == old(h).failures + 1 && !(r is Fine),
        !success && p.retries is Some ==> (r is Unhealthy <==> final(h).failures >= p.retries->0),
        !success && p.retries is None ==> (r is Unhealthy <==> final(h).failures >= 3),
        final(h).checks == old(h).checks,
{
}

/// Checks are numbered one after the other, from one on.
pub proof fn lemma_checks_are_numbered(
    fresh: Health,
    h: &mut Health,
    again: &mut Health,
    a: u32,
    b: u32,
)
    requires
        call_ensures(Health::new, (), fresh),
        *old(h) == fresh,
        call_ensures(Health::next_check, (h,), a),
        *old(again) == *final(h),
        call_ensures(Health::next_check, (again,), b),
    ensures
        a == 1,
        b == 2,
        final(again).failures == 0,
{
}

/// What a probe writes goes to the streams of probes, apart from what the process writes.
pub proof fn lemma_probe_streams(a: Stream, b: Stream)
    requires
        call_ensures(probe::probe_stream, (true,), a),
        call_ensures(probe::probe_stream, (false,), b),
    ensures
        a == Stream::ProbeStdout,
        b == Stream::ProbeStderr,
{
}

/// A URL is parted into the host and the path, which is the root where there is none, and
/// both are asked for in the request.
pub proof fn lemma_http_request(
    url: &str,
    r: Result<(String, String), String>,
    host: &str,
    path: &str,
    request: String,
)
    requires
        call_ensures(probe::http_target, (url,), r),
        r is Ok ==> host@ == r->Ok_0.0@ && path@ == r->Ok_0.1@,
        call_ensures(probe::http_request, (host, path), request),
    ensures
        r is Ok <==> text::starts_with(url@, "http://"@),
        r is Ok ==> !host@.contains('/') && path@.len() > 0 && path@[0] == '/',
        r is Ok && url@.skip(7).contains('/') ==> url@ == "http://"@ + host@ + path@,
        r is Ok && !url@.skip(7).contains('/') ==> url@ == "http://"@ + host@ && path@ == "/"@,
        text::starts_with(request@, "GET "@ + path@ + " HTTP/1.0\r\n"@),
        text::contains(request@, "Host: "@ + host@ + "\r\n"@),
        text::ends_with(request@, "\r\n\r\n"@),
{
    reveal_strlit("http://");
    reveal_strlit("/");
    reveal_strlit("GET ");
    reveal_strlit(" HTTP/1.0\r\nHost: ");
    reveal_strlit(" HTTP/1.0\r\n");
    reveal_strlit("Host: ");
    reveal_strlit("\r\n");
    reveal_strlit("\r\n\r\n");
    if r is Ok {
        let rest = url@.skip(7);
        text::lemma_position(rest, '/');
        let p = text::position(rest, '/') as int;
        assert(url@.subrange(0, 7) =~= url@.take(7));
        assert(url@.take(7) + rest =~= url@);
        if p < rest.len() {
            assert(rest[p] == '/');
            assert(rest.contains('/'));
            assert(url@ =~= "http://"@ + host@ + path@);
            assert(!host@.contains('/'));
        } else {
            assert(!rest.contains('/'));
            assert(url@ =~= "http://"@ + host@);
        }
    }
    let q = request@;
    let head = "GET "@ + path@ + " HTTP/1.0\r\n"@;
    assert(q.subrange(0, head.len() as int) =~= head);
    let part = "Host: "@ + host@ + "\r\n"@;
    assert(q.subrange(head.len() as int, (head.len() + part.len()) as int) =~= part);
    assert(text::occurs_at(q, part, head.len() as int));
    assert(q.subrange(q.len() - 4, q.len() as int) =~= "\r\n\r\n"@);
}

/// The name of a probe in a log tells its kind and what it tests.
pub proof fn lemma_label(kind: ProbeKind, r: String)
    requires
        call_ensures(probe::probe_label, (&kind,), r),
    ensures
        kind matches ProbeKind::Tcp(a) ==> r@ == "tcp "@ + a@,
        kind matches ProbeKind::Http(u) ==> r@ == "http "@ + u@,
        kind matches ProbeKind::Exec(c) ==> text::starts_with(r@, "exec "@),
        kind matches ProbeKind::Exit(n) ==> r@ == "exit "@ + text::signed_decimal(n as int),
{
    if let ProbeKind::Exec(c) = kind {
        assert(r@.subrange(0, "exec "@.len() as int) =~= "exec "@);
    }
}

/// What a command of a probe writes is logged line by line, up to a limit; nothing else of
/// a probe goes to its stdout.
pub proof fn lemma_output_of_a_probe(
    kind: ProbeKind,
    stdout: String,
    stderr: String,
    code: Option<i32>,
    attempt: u32,
    max: u32,
    r: Report,
    other: Outcome,
    q: Report,
    a: &str,
    b: &str,
    c: &str,
    trimmed: String,
    short: String,
    all: Vec<String>,
)
    requires
        kind is Exec,
        call_ensures(
            probe::execute_probe,
            (&kind, &(Outcome::Ran { stdout, stderr, code }), attempt, max),
            r,
        ),
        call_ensures(probe::execute_probe, (&kind, &other, attempt, max), q),
        a@ == stdout@,
        call_ensures(text::trim, (a,), trimmed),
        b@ == trimmed@,
        call_ensures(text::cut_to, (b, probe::MAX_OUTPUT), short),
        c@ == short@,
        call_ensures(text::lines_of, (c,), all),
    ensures
        text::texts(r.stdout@) == text::texts(all@),
        !(other is Ran) ==> q.stdout@.len() == 0,
        stdout@.len() == 0 ==> r.stdout@.len() == 0,
        stderr@.len() == 0 && code == Some(0i32) ==> r.stderr@.len() == 0,
{
    assert(text::texts(q.stdout@).len() == q.stdout@.len());
    assert(text::texts(r.stdout@).len() == r.stdout@.len());
    assert(text::texts(r.stderr@).len() == r.stderr@.len());
}

/// A text that is cut is cut at its end only.
pub proof fn lemma_cut(s: &str, max: usize, r: String)
    requires
        call_ensures(text::cut_to, (s, max), r),
    ensures
        r@.len() <= s@.len(),
        r@ == s@.take(r@.len() as int),
        max > 3 && s@.len() > 0 ==> r@.len() > 0,
        s@.len() <= max / 4 ==> r@ == s@,
{
    lemma_cut_text(s@, max as nat);
}

proof fn lemma_cut_text(s: Seq<char>, max: nat)
    ensures
        ({
            let r = text::cut(s, max);
            &&& r.len() <= s.len()
            &&& r == s.take(r.len() as int)
            &&& max > 3 && s.len() > 0 ==> r.len() > 0
            &&& 4 * s.len() <= max ==> r == s
        }),
    decreases s.len(),
{
    let r = text::cut(s, max);
    if s.len() > 0 && text::char_size(s[0]) <= max {
        let n = (max - text::char_size(s[0])) as nat;
        lemma_cut_text(s.skip(1), n);
        let rest = text::cut(s.skip(1), n);
        assert(r =~= seq![s[0]] + rest);
        assert(s.take(r.len() as int) =~= seq![s[0]] + s.skip(1).take(rest.len() as int));
        if 4 * s.len() <= max {
            assert(seq![s[0]] + s.skip(1) =~= s);
        }
    } else {
        assert(s.take(0) =~= r);
    }
}

/// What a probe that is done says begins with what it tests; an unhealthy process is
/// restarted.
pub proof fn lemma_probe_messages(
    p: ProbeConfig,
    attempt: u32,
    success: bool,
    r: ReadyStep,
    h: &mut Health,
    step: HealthStep,
    label: String,
)
    requires
        call_ensures(probe::after_attempt, (&p, attempt, success), r),
        old(h).goes_on(p@),
        call_ensures(Health::take_outcome, (h, &p, success), step),
        call_ensures(probe::probe_label, (&p.probe,), label),
    ensures
        r matches ReadyStep::Ready(m) ==> text::starts_with(m@, label@) && text::ends_with(
            m@,
            "ready"@,
        ),
        r matches ReadyStep::GiveUp(m) ==> text::starts_with(m@, label@) && text::ends_with(
            m@,
            " attempts failed)"@,
        ),
        step matches HealthStep::Failing(m) ==> text::starts_with(m@, label@) && text::ends_with(
            m@,
            " consecutive failures)"@,
        ),
        step matches HealthStep::Unhealthy(m) ==> text::starts_with(m@, label@) && text::ends_with(
            m@,
            ", triggering restart"@,
        ),
{
    reveal_strlit(" — ready");
    reveal_strlit("ready");
    let l = label@;
    if let ReadyStep::Ready(m) = r {
        assert(m@.subrange(0, l.len() as int) =~= l);
        assert(m@.subrange(m@.len() - 5, m@.len() as int) =~= "ready"@);
    }
    if let ReadyStep::GiveUp(m) = r {
        let e = " attempts failed)"@;
        assert(m@.subrange(0, l.len() as int) =~= l);
        assert(m@.subrange(m@.len() - e.len(), m@.len() as int) =~= e);
    }
    if let HealthStep::Failing(m) = step {
        let e = " consecutive failures)"@;
        assert(m@.subrange(0, l.len() as int) =~= l);
        assert(m@.subrange(m@.len() - e.len(), m@.len() as int) =~= e);
    }
    if let HealthStep::Unhealthy(m) = step {
        let e = ", triggering restart"@;
        assert(m@.subrange(0, l.len() as int) =~= l);
        assert(m@.subrange(m@.len() - e.len(), m@.len() as int) =~= e);
    }
}

} // verus!

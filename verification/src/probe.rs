//! Probes: how readiness and health are decided, and what probes log.
use crate::psyfile::{ProbeConfig, ProbeKind, ProbeKindView, ProbeView};
use crate::ring_buffer::Stream;
use crate::text;
use vstd::prelude::*;

verus! {

/// A text in double quotes with escapes, as `{:?}` of std writes it, by name.
pub uninterp spec fn debug_text(s: Seq<char>) -> Seq<char>;

/// Calls the `Debug` form of `str`: the result depends on the text alone.
#[verifier::external_body]
fn debug_string(s: &str) -> (r: String)
    ensures
        r@ == debug_text(s@),
{
    format!("{:?}", s)
}

/// What a probe is called in a log.
pub open spec fn label(kind: ProbeKindView) -> Seq<char> {
    match kind {
        ProbeKindView::Tcp(a) => "tcp "@ + a,
        ProbeKindView::Http(u) => "http "@ + u,
        ProbeKindView::Exec(c) => "exec "@ + debug_text(c),
        ProbeKindView::Exit(n) => "exit "@ + text::signed_decimal(n as int),
    }
}

/// What a probe is called in a log.
pub fn probe_label(kind: &ProbeKind) -> (r: String)
    ensures
        r@ == label(kind@),
{
    match kind {
        ProbeKind::Tcp(a) => text::concat2("tcp ", a.as_str()),
        ProbeKind::Http(u) => text::concat2("http ", u.as_str()),
        ProbeKind::Exec(c) => {
            let q = debug_string(c.as_str());
            text::concat2("exec ", q.as_str())
        },
        ProbeKind::Exit(n) => {
            let d = text::signed_decimal_of(*n as i64);
            text::concat2("exit ", d.as_str())
        },
    }
}

// ---------------------------------------------------------------------------
// Readiness
// ---------------------------------------------------------------------------

/// How often an interval fits into a time limit: at least once. Times count in
/// milliseconds, and no interval is shorter than one.
pub open spec fn fits(timeout: nat, interval: nat) -> nat {
    let n = timeout / if interval < 1 {
        1
    } else {
        interval
    };
    if n < 1 {
        1
    } else if n > u32::MAX {
        u32::MAX as nat
    } else {
        n
    }
}

/// How often a readiness probe is tried: as often as it says or, where it does
/// not, as often as its interval fits into its time limit.
pub open spec fn attempts(p: ProbeView) -> u32 {
    match p.retries {
        Some(n) => n,
        None => fits(p.timeout.millis(), p.interval.millis()) as u32,
    }
}

/// How often a readiness probe is tried.
pub fn max_attempts(p: &ProbeConfig) -> (r: u32)
    ensures
        r == attempts(p@),
{
    match p.retries {
        Some(n) => n,
        None => {
            let interval = p.interval.as_millis();
            let step: u128 = if interval < 1 {
                1
            } else {
                interval
            };
            let n: u128 = p.timeout.as_millis() / step;
            if n < 1 {
                1
            } else if n > 0xffff_ffff {
                0xffff_ffff
            } else {
                n as u32
            }
        },
    }
}

/// A readiness probe that does not say how often it is tried gives up when its time is
/// over: the attempts fit into the time limit, unless there is only the one that each
/// probe has, and one more would not.
pub proof fn lemma_attempts_fill_timeout(p: ProbeView)
    requires
        p.retries is None,
        1 <= p.interval.millis(),
        p.timeout.millis() / p.interval.millis() <= u32::MAX,
    ensures
        1 <= attempts(p),
        attempts(p) == 1 || attempts(p) * p.interval.millis() <= p.timeout.millis(),
        p.timeout.millis() < (attempts(p) + 1) * p.interval.millis(),
{
    let t = p.timeout.millis() as int;
    let d = p.interval.millis() as int;
    let q = t / d;
    assert(q * d <= t < (q + 1) * d && 0 <= q) by (nonlinear_arith)
        requires
            d >= 1,
            t >= 0,
            q == t / d,
    ;
    if q < 1 {
        assert((q + 1) * d <= (1 + 1) * d) by (nonlinear_arith)
            requires
                d >= 1,
                q < 1,
        ;
    }
}

/// What follows an attempt of a readiness probe: the process is ready, the probe
/// gives up, or it is tried again.
pub ghost enum ReadyDecision {
    Ready(Seq<char>),
    GiveUp(Seq<char>),
    Again,
}

/// What follows an attempt of a readiness probe. Where something is to be logged,
/// it says what.
pub open spec fn ready_decision(p: ProbeView, attempt: u32, success: bool) -> ReadyDecision {
    if success {
        ReadyDecision::Ready(label(p.probe) + " — ready"@)
    } else if attempt == attempts(p) {
        ReadyDecision::GiveUp(
            label(p.probe) + " — timed out after "@ + text::decimal(p.timeout.secs as nat) + "s ("@
                + text::decimal(attempt as nat) + "/"@ + text::decimal(attempts(p) as nat)
                + " attempts failed)"@,
        )
    } else {
        ReadyDecision::Again
    }
}

/// The step that follows an attempt of a readiness probe.
#[derive(Debug)]
pub enum ReadyStep {
    /// Log this: the process is ready.
    Ready(String),
    /// Log this: the probe has given up.
    GiveUp(String),
    /// Wait for the interval, then try again.
    Again,
}

/// Decides what follows an attempt of a readiness probe.
pub fn after_attempt(p: &ProbeConfig, attempt: u32, success: bool) -> (r: ReadyStep)
    ensures
        match ready_decision(p@, attempt, success) {
            ReadyDecision::Ready(m) => r matches ReadyStep::Ready(s) && s@ == m,
            ReadyDecision::GiveUp(m) => r matches ReadyStep::GiveUp(s) && s@ == m,
            ReadyDecision::Again => r is Again,
        },
{
    let max = max_attempts(p);
    if success {
        let l = probe_label(&p.probe);
        ReadyStep::Ready(text::concat2(l.as_str(), " — ready"))
    } else if attempt == max {
        let mut m = probe_label(&p.probe);
        text::push_text(&mut m, " — timed out after ");
        text::push_text(&mut m, text::decimal_of(p.timeout.secs as u128).as_str());
        text::push_text(&mut m, "s (");
        text::push_text(&mut m, text::decimal_of(attempt as u128).as_str());
        text::push_text(&mut m, "/");
        text::push_text(&mut m, text::decimal_of(max as u128).as_str());
        text::push_text(&mut m, " attempts failed)");
        ReadyStep::GiveUp(m)
    } else {
        ReadyStep::Again
    }
}

/// A readiness probe that keeps failing gives up after its last attempt and not
/// before.
pub proof fn lemma_gives_up_in_the_end(p: ProbeView, attempt: u32)
    requires
        1 <= attempt <= attempts(p),
    ensures
        (ready_decision(p, attempt, false) is GiveUp) <==> attempt == attempts(p),
        ready_decision(p, attempt, true) is Ready,
{
}

// ---------------------------------------------------------------------------
// Health
// ---------------------------------------------------------------------------

/// How many checks must fail in a row for a process to be unhealthy.
pub open spec fn failures_allowed(p: ProbeView) -> u32 {
    match p.retries {
        Some(n) => n,
        None => 3,
    }
}

/// Where a health check stands.
#[derive(Clone, Copy, Debug, PartialEq, Eq, Structural)]
pub struct Health {
    /// The number of the last check.
    pub checks: u32,
    /// How many checks have failed in a row.
    pub failures: u32,
}

/// What follows a check: nothing, a warning, or a kill.
pub ghost enum HealthDecision {
    Fine,
    Failing(Seq<char>),
    Unhealthy(Seq<char>),
}

/// How many checks have failed in a row after one more.
pub open spec fn failures_after(failures: u32, success: bool) -> int {
    if success {
        0
    } else {
        failures + 1
    }
}

/// What follows a check, where `failures` have failed in a row.
pub open spec fn health_decision(p: ProbeView, failures: int) -> HealthDecision {
    let count = "("@ + text::decimal(failures as nat) + "/"@ + text::decimal(
        failures_allowed(p) as nat,
    ) + " consecutive failures)"@;
    if failures == 0 {
        HealthDecision::Fine
    } else if failures >= failures_allowed(p) {
        HealthDecision::Unhealthy(
            label(p.probe) + " — unhealthy "@ + count + ", triggering restart"@,
        )
    } else {
        HealthDecision::Failing(label(p.probe) + " — check failed "@ + count)
    }
}

/// The step that follows a check.
#[derive(Debug)]
pub enum HealthStep {
    Fine,
    /// Log this, and go on.
    Failing(String),
    /// Log this, kill the process, and stop checking.
    Unhealthy(String),
}

impl Health {
    /// A health check that has not begun.
    pub fn new() -> (r: Health)
        ensures
            r == (Health { checks: 0, failures: 0 }),
    {
        Health { checks: 0, failures: 0 }
    }

    /// Whether a process has not been found unhealthy yet.
    pub open spec fn goes_on(self, p: ProbeView) -> bool {
        self.failures == 0 || self.failures < failures_allowed(p)
    }

    /// Begins the next check, and gives its number.
    pub fn next_check(&mut self) -> (r: u32)
        requires
            old(self).checks < u32::MAX,
        ensures
            r == old(self).checks + 1,
            *final(self) == (Health { checks: r, ..*old(self) }),
    {
        self.checks = self.checks + 1;
        self.checks
    }

    /// Takes the outcome of a check, and decides what follows.
    pub fn take_outcome(&mut self, p: &ProbeConfig, success: bool) -> (r: HealthStep)
        requires
            old(self).goes_on(p@),
        ensures
            final(self).checks == old(self).checks,
            final(self).failures == failures_after(old(self).failures, success),
            match health_decision(p@, failures_after(old(self).failures, success)) {
                HealthDecision::Fine => r is Fine,
                HealthDecision::Failing(m) => r matches HealthStep::Failing(s) && s@ == m,
                HealthDecision::Unhealthy(m) => r matches HealthStep::Unhealthy(s) && s@ == m,
            },
            !(r is Unhealthy) ==> final(self).goes_on(p@),
    {
        if success {
            self.failures = 0;
            return HealthStep::Fine;
        }
        let max: u32 = match p.retries {
            Some(n) => n,
            None => 3,
        };
        self.failures = self.failures + 1;
        let mut count = text::concat2("(", text::decimal_of(self.failures as u128).as_str());
        text::push_text(&mut count, "/");
        text::push_text(&mut count, text::decimal_of(max as u128).as_str());
        text::push_text(&mut count, " consecutive failures)");
        let mut m = probe_label(&p.probe);
        if self.failures >= max {
            text::push_text(&mut m, " — unhealthy ");
            text::push_text(&mut m, count.as_str());
            text::push_text(&mut m, ", triggering restart");
            HealthStep::Unhealthy(m)
        } else {
            text::push_text(&mut m, " — check failed ");
            text::push_text(&mut m, count.as_str());
            HealthStep::Failing(m)
        }
    }
}

/// How many checks have failed in a row at the end of a series of checks, of which
/// each succeeded or did not.
pub open spec fn failed_in_a_row(s: Seq<bool>) -> nat
    decreases s.len(),
{
    if s.len() == 0 || s.last() {
        0
    } else {
        failed_in_a_row(s.drop_last()) + 1
    }
}

proof fn lemma_in_a_row(s: Seq<bool>, n: nat)
    ensures
        failed_in_a_row(s) >= n <==> s.len() >= n && forall|i: int|
            s.len() - n <= i < s.len() ==> !#[trigger] s[i],
    decreases s.len(),
{
    if n > 0 && s.len() > 0 {
        let rest = s.drop_last();
        lemma_in_a_row(rest, (n - 1) as nat);
        assert(s.last() == s[s.len() - 1]);
        if failed_in_a_row(s) >= n {
            assert forall|i: int| s.len() - n <= i < s.len() implies !#[trigger] s[i] by {
                if i < rest.len() {
                    assert(rest[i] == s[i]);
                }
            }
        }
        if s.len() >= n && forall|i: int| s.len() - n <= i < s.len() ==> !#[trigger] s[i] {
            assert forall|i: int| rest.len() - (n - 1) <= i < rest.len() implies !#[trigger] rest[
                i
            ] by {
                assert(rest[i] == s[i]);
            }
        }
    }
}

/// A process is unhealthy exactly where the last checks have failed, as many in a row
/// as are allowed, and at least one. A check that succeeds starts the count anew.
pub proof fn lemma_unhealthy(p: ProbeView, s: Seq<bool>)
    ensures
        ({
            let n: nat = if failures_allowed(p) == 0 {
                1
            } else {
                failures_allowed(p) as nat
            };
            health_decision(p, failed_in_a_row(s) as int) is Unhealthy <==> s.len() >= n
                && forall|i: int| s.len() - n <= i < s.len() ==> !#[trigger] s[i]
        }),
        failed_in_a_row(s.push(true)) == 0,
        failed_in_a_row(s.push(false)) == failed_in_a_row(s) + 1,
{
    let n: nat = if failures_allowed(p) == 0 {
        1
    } else {
        failures_allowed(p) as nat
    };
    lemma_in_a_row(s, n);
    assert(s.push(false).drop_last() =~= s);
}

// ---------------------------------------------------------------------------
// Attempts
// ---------------------------------------------------------------------------

/// How an attempt ended.
#[derive(Debug)]
pub enum Outcome {
    /// A connection was made.
    Connected,
    /// A connection was refused, or not made in time.
    Unreachable(Option<String>),
    /// A request was answered with this status.
    Status(u16),
    /// A request was not answered as it should be.
    NoStatus(String),
    /// A command ran.
    Ran { stdout: String, stderr: String, code: Option<i32> },
    /// A command could not be run.
    NotRun(String),
    /// There was nothing to do.
    Nothing,
}

/// Whether an attempt was a success.
pub open spec fn succeeded(o: Outcome) -> bool {
    match o {
        Outcome::Connected => true,
        Outcome::Status(n) => 200 <= n < 300,
        Outcome::Ran { stdout, stderr, code } => code == Some(0i32),
        _ => false,
    }
}

/// The number of an attempt in a log; with no limit it is a check.
pub open spec fn attempt_text(attempt: u32, max: u32) -> Seq<char> {
    if max > 0 {
        "attempt "@ + text::decimal(attempt as nat) + "/"@ + text::decimal(max as nat)
    } else {
        "check "@ + text::decimal(attempt as nat)
    }
}

fn attempt_string(attempt: u32, max: u32) -> (r: String)
    ensures
        r@ == attempt_text(attempt, max),
{
    let n = text::decimal_of(attempt as u128);
    if max > 0 {
        let mut m = text::concat3("attempt ", n.as_str(), "/");
        text::push_text(&mut m, text::decimal_of(max as u128).as_str());
        m
    } else {
        text::concat2("check ", n.as_str())
    }
}

/// The exit code in a log; a command that a signal ended has -1.
pub open spec fn code_text(code: Option<i32>) -> Seq<char> {
    text::signed_decimal(
        match code {
            Some(c) => c as int,
            None => -1,
        },
    )
}

/// What is logged of a failed attempt, where something is.
pub open spec fn failure_text(
    kind: ProbeKindView,
    o: Outcome,
    attempt: u32,
    max: u32,
) -> Option<Seq<char>> {
    let head = label(kind) + " — "@ + attempt_text(attempt, max) + " — "@;
    match o {
        Outcome::Unreachable(Some(e)) => Some(head + e@),
        Outcome::Unreachable(None) => Some(head + "connection timed out"@),
        Outcome::Status(n) => if 200 <= n < 300 {
            None
        } else {
            Some(head + "HTTP "@ + text::decimal(n as nat))
        },
        Outcome::NoStatus(e) => Some(head + e@),
        Outcome::Ran { stdout, stderr, code } => if code == Some(0i32) {
            None
        } else {
            Some(head + "exit "@ + code_text(code))
        },
        Outcome::NotRun(e) => Some(head + e@),
        _ => None,
    }
}

/// The most bytes of the output of a probe that are logged.
pub const MAX_OUTPUT: usize = 256;

/// The lines of the output of a probe that are logged.
pub open spec fn output_lines(s: Seq<char>) -> Seq<Seq<char>> {
    text::lines(text::cut(text::trimmed(s), MAX_OUTPUT as nat))
}

/// What an attempt writes to the log of stdout.
pub open spec fn stdout_lines(o: Outcome) -> Seq<Seq<char>> {
    match o {
        Outcome::Ran { stdout, stderr, code } => output_lines(stdout@),
        _ => Seq::empty(),
    }
}

/// What an attempt writes to the log of stderr: the output of a command, then what
/// went wrong.
pub open spec fn stderr_lines(
    kind: ProbeKindView,
    o: Outcome,
    attempt: u32,
    max: u32,
) -> Seq<Seq<char>> {
    let output = match o {
        Outcome::Ran { stdout, stderr, code } => output_lines(stderr@),
        _ => Seq::empty(),
    };
    match failure_text(kind, o, attempt, max) {
        Some(m) => output.push(m),
        None => output,
    }
}

/// What an attempt comes to: whether it was a success, and what is logged.
#[derive(Debug)]
pub struct Report {
    pub success: bool,
    pub stdout: Vec<String>,
    pub stderr: Vec<String>,
}

fn logged_output(s: &str) -> (r: Vec<String>)
    ensures
        text::texts(r@) == output_lines(s@),
{
    let t = text::trim(s);
    let c = text::cut_to(t.as_str(), MAX_OUTPUT);
    text::lines_of(c.as_str())
}

fn failure_string(kind: &ProbeKind, o: &Outcome, attempt: u32, max: u32) -> (r: Option<String>)
    ensures
        text::opt_text(r) == failure_text(kind@, *o, attempt, max),
{
    let mut m = probe_label(kind);
    text::push_text(&mut m, " — ");
    text::push_text(&mut m, attempt_string(attempt, max).as_str());
    text::push_text(&mut m, " — ");
    match o {
        Outcome::Unreachable(Some(e)) => text::push_text(&mut m, e.as_str()),
        Outcome::Unreachable(None) => text::push_text(&mut m, "connection timed out"),
        Outcome::Status(n) => {
            if 200 <= *n && *n < 300 {
                return None;
            }
            text::push_text(&mut m, "HTTP ");
            text::push_text(&mut m, text::decimal_of(*n as u128).as_str());
        },
        Outcome::NoStatus(e) => text::push_text(&mut m, e.as_str()),
        Outcome::Ran { stdout, stderr, code } => {
            let c: i64 = match code {
                Some(c) => *c as i64,
                None => -1,
            };
            if code.is_some() && c == 0 {
                return None;
            }
            text::push_text(&mut m, "exit ");
            text::push_text(&mut m, text::signed_decimal_of(c).as_str());
        },
        Outcome::NotRun(e) => text::push_text(&mut m, e.as_str()),
        Outcome::Connected => {
            return None;
        },
        Outcome::Nothing => {
            return None;
        },
    }
    Some(m)
}

/// Whether an outcome is one that a probe can have. A probe that waits for the process
/// to exit is not carried out, so nothing comes of it.
pub open spec fn can_end_with(kind: ProbeKindView, o: Outcome) -> bool {
    match kind {
        ProbeKindView::Tcp(_) => o is Connected || o is Unreachable,
        ProbeKindView::Http(_) => o is Status || o is NoStatus,
        ProbeKindView::Exec(_) => o is Ran || o is NotRun,
        ProbeKindView::Exit(_) => o is Nothing,
    }
}

fn ends_with(kind: &ProbeKind, o: &Outcome) -> (r: bool)
    ensures
        r == can_end_with(kind@, *o),
{
    match (kind, o) {
        (ProbeKind::Tcp(_), Outcome::Connected) => true,
        (ProbeKind::Tcp(_), Outcome::Unreachable(_)) => true,
        (ProbeKind::Http(_), Outcome::Status(_)) => true,
        (ProbeKind::Http(_), Outcome::NoStatus(_)) => true,
        (ProbeKind::Exec(_), Outcome::Ran { .. }) => true,
        (ProbeKind::Exec(_), Outcome::NotRun(_)) => true,
        (ProbeKind::Exit(_), Outcome::Nothing) => true,
        _ => false,
    }
}

/// Judges an attempt: whether it was a success, and what is logged. An outcome that the
/// probe cannot have is none, and nothing is logged of it.
pub fn execute_probe(kind: &ProbeKind, o: &Outcome, attempt: u32, max: u32) -> (r: Report)
    ensures
        r.success == (can_end_with(kind@, *o) && succeeded(*o)),
        kind@ is Exit ==> !r.success,
        text::texts(r.stdout@) == if can_end_with(kind@, *o) {
            stdout_lines(*o)
        } else {
            Seq::empty()
        },
        text::texts(r.stderr@) == if can_end_with(kind@, *o) {
            stderr_lines(kind@, *o, attempt, max)
        } else {
            Seq::empty()
        },
{
    if !ends_with(kind, o) {
        let r = Report { success: false, stdout: Vec::new(), stderr: Vec::new() };
        proof {
            assert(text::texts(r.stdout@) =~= Seq::<Seq<char>>::empty());
            assert(text::texts(r.stderr@) =~= Seq::<Seq<char>>::empty());
        }
        return r;
    }
    let success = match o {
        Outcome::Connected => true,
        Outcome::Status(n) => 200 <= *n && *n < 300,
        Outcome::Ran { stdout, stderr, code } => match code {
            Some(c) => *c == 0,
            None => false,
        },
        _ => false,
    };
    let stdout = match o {
        Outcome::Ran { stdout, stderr, code } => logged_output(stdout.as_str()),
        _ => Vec::new(),
    };
    let mut errors = match o {
        Outcome::Ran { stdout, stderr, code } => logged_output(stderr.as_str()),
        _ => Vec::new(),
    };
    proof {
        if !(o is Ran) {
            assert(text::texts(stdout@) =~= Seq::<Seq<char>>::empty());
            assert(text::texts(errors@) =~= Seq::<Seq<char>>::empty());
        }
    }
    let ghost output = errors@;
    match failure_string(kind, o, attempt, max) {
        Some(m) => {
            errors.push(m);
            proof {
                assert(text::texts(errors@) =~= text::texts(output).push(m@));
            }
        },
        None => {},
    }
    Report { success, stdout, stderr: errors }
}

/// The stream that the output of a probe goes to.
pub fn probe_stream(stdout: bool) -> (r: Stream)
    ensures
        r == if stdout {
            Stream::ProbeStdout
        } else {
            Stream::ProbeStderr
        },
        r.probe(),
{
    if stdout {
        Stream::ProbeStdout
    } else {
        Stream::ProbeStderr
    }
}

// ---------------------------------------------------------------------------
// HTTP
// ---------------------------------------------------------------------------

/// Where a request goes: the host with its port, and the path.
pub open spec fn http_target_of(url: Seq<char>) -> Option<(Seq<char>, Seq<char>)> {
    if !text::starts_with(url, "http://"@) {
        None
    } else {
        let rest = url.skip(7);
        let p = text::position(rest, '/') as int;
        if p >= rest.len() {
            Some((rest, "/"@))
        } else {
            Some((rest.take(p), rest.skip(p)))
        }
    }
}

/// Says where a request goes. Only `http://` is supported.
pub fn http_target(url: &str) -> (r: Result<(String, String), String>)
    ensures
        match http_target_of(url@) {
            Some(t) => r matches Ok(x) && x.0@ == t.0 && x.1@ == t.1,
            None => r matches Err(e) && e@ == "only http:// URLs are supported"@,
        },
{
    if !text::begins(url, "http://") {
        return Err(text::copy("only http:// URLs are supported"));
    }
    proof {
        reveal_strlit("http://");
        assert(url@.len() >= 7);
    }
    let s = text::chars_of(url);
    let rest = text::part(&s, 7, s.len());
    let p = text::find_char(&rest, '/');
    proof {
        assert(rest@ =~= url@.skip(7));
    }
    if p >= rest.len() {
        return Ok((text::string_of(&rest), text::copy("/")));
    }
    let host = text::string_of(&text::part(&rest, 0, p));
    let path = text::string_of(&text::part(&rest, p, rest.len()));
    proof {
        assert(host@ =~= rest@.take(p as int));
        assert(path@ =~= rest@.skip(p as int));
    }
    Ok((host, path))
}

/// The request that is sent.
pub fn http_request(host: &str, path: &str) -> (r: String)
    ensures
        r@ == "GET "@ + path@ + " HTTP/1.0\r\nHost: "@ + host@ + "\r\n\r\n"@,
{
    let mut m = text::concat3("GET ", path, " HTTP/1.0\r\nHost: ");
    text::push_text(&mut m, host);
    text::push_text(&mut m, "\r\n\r\n");
    m
}

/// The first line of an answer.
pub open spec fn first_line(s: Seq<char>) -> Seq<char> {
    if text::lines(s).len() > 0 {
        text::lines(s)[0]
    } else {
        Seq::empty()
    }
}

/// The status in an answer, or what is wrong with it.
pub open spec fn status_of(answer: Seq<char>) -> Result<u16, Seq<char>> {
    let line = first_line(answer);
    let parts = text::words(line);
    if parts.len() < 2 {
        Err("invalid HTTP response: "@ + line)
    } else {
        match text::unsigned(parts[1], u16::MAX as nat) {
            Some(n) => Ok(n as u16),
            None => Err("invalid status code: "@ + parts[1]),
        }
    }
}

/// Reads the status in an answer.
pub fn parse_status(answer: &str) -> (r: Result<u16, String>)
    ensures
        match r {
            Ok(n) => status_of(answer@) == Ok::<u16, Seq<char>>(n),
            Err(e) => status_of(answer@) == Err::<u16, Seq<char>>(e@),
        },
{
    let all = text::lines_of(answer);
    proof {
        assert(text::texts(all@).len() == all@.len());
    }
    let line = if all.len() > 0 {
        proof {
            assert(text::texts(all@)[0] == all@[0]@);
        }
        text::copy(all[0].as_str())
    } else {
        String::new()
    };
    let parts = text::words_of(line.as_str());
    proof {
        assert(line@ =~= first_line(answer@));
        assert(text::texts(parts@).len() == parts@.len());
    }
    if parts.len() < 2 {
        return Err(text::concat2("invalid HTTP response: ", line.as_str()));
    }
    proof {
        assert(text::texts(parts@)[1] == parts@[1]@);
    }
    let digits = text::chars_of(parts[1].as_str());
    match text::parse_u16(&digits) {
        Some(n) => Ok(n),
        None => Err(text::concat2("invalid status code: ", parts[1].as_str())),
    }
}

} // verus!

//! Input for processes: what may be written to them, and what comes back.
use crate::json;
use crate::json::{Js, Json};
use crate::process::{EntryView, ProcessState};
use crate::protocol::{DetachNotice, Response, SendArgs, SendWaitArgs};
use crate::psyfile;
use crate::ring_buffer::{LineView, LogLine};
use crate::root;
use crate::root::{RootView, SharedRoot};
use crate::text;
use crate::time::Duration;
use vstd::prelude::*;

verus! {

/// The answer for a process whose stdin has been closed.
pub open spec fn stdin_is_closed(name: Seq<char>) -> Seq<char> {
    "stdin for '"@ + name + "' has been closed"@
}

/// Why a process takes no input, where it does not: it is not known, not running,
/// not interactive, or its stdin has been closed.
pub open spec fn input_refusal(
    r: RootView,
    name: Seq<char>,
    not_interactive: Seq<char>,
) -> Option<Seq<char>> {
    if !r.table.dom().contains(name) {
        Some(root::not_found(name))
    } else if r.table[name].state != ProcessState::Running {
        Some(root::not_running(name))
    } else if !r.table[name].interactive {
        Some("process '"@ + name + not_interactive)
    } else if r.table[name].stdin_closed {
        Some(stdin_is_closed(name))
    } else {
        None
    }
}

impl SharedRoot {
    fn refuse_input(&self, name: &str, not_interactive: &str) -> (r: Option<String>)
        ensures
            text::opt_text(r) == input_refusal(self@, name@, not_interactive@),
    {
        match self.entry(name) {
            None => Some(text::concat3("process '", name, "' not found")),
            Some(e) => {
                if e.state != ProcessState::Running {
                    Some(text::concat3("process '", name, "' is not running"))
                } else if !e.interactive {
                    Some(text::concat3("process '", name, not_interactive))
                } else if e.stdin_closed {
                    Some(text::concat3("stdin for '", name, "' has been closed"))
                } else {
                    None
                }
            },
        }
    }
}

// ---------------------------------------------------------------------------
// Writing
// ---------------------------------------------------------------------------

/// What a request to write to a process leads to: a refusal, the end of its stdin,
/// or a text to write.
pub ghost enum SendDecision {
    Refuse(Seq<char>),
    Close,
    Write(Seq<char>),
}

/// What a request to write to a process leads to.
pub open spec fn send_decision(r: RootView, args: Option<SendArgs>) -> SendDecision {
    match args {
        None => SendDecision::Refuse("invalid or missing send args"@),
        Some(a) => match input_refusal(
            r,
            a.name@,
            "' was not started with interactive mode (use --interactive or interactive = true in Psyfile)"@,
        ) {
            Some(m) => SendDecision::Refuse(m),
            None => if a.eof {
                SendDecision::Close
            } else if !r.table[a.name@].stdin_open {
                SendDecision::Refuse(
                    "process '"@ + a.name@ + "' has an attached session, detach first"@,
                )
            } else {
                match a.input {
                    Some(t) => SendDecision::Write(t@),
                    None => SendDecision::Refuse("either 'input' or 'eof' must be provided"@),
                }
            },
        },
    }
}

/// A process whose stdin has been closed on request, for good.
pub open spec fn closed_entry(e: EntryView) -> EntryView {
    EntryView { stdin_open: false, stdin_closed: true, ..e }
}

/// The answer once a stdin has been closed.
pub open spec fn closed_json(name: Seq<char>) -> Js {
    json::object_of(seq![("name"@, Js::Text(name)), ("stdin"@, Js::Text("closed"@))])
}

/// The step that a request to write to a process leads to.
#[derive(Debug)]
pub enum SendStep {
    Answer(Response),
    /// Drop the writing end of the stdin, then give this answer.
    Close(Response),
    /// Write this text to the stdin.
    Write(String),
}

impl SharedRoot {
    /// Decides what a request to write to a process leads to.
    pub fn begin_send(&mut self, id: &str, args: &Option<SendArgs>) -> (r: SendStep)
        ensures
            match send_decision(old(self)@, *args) {
                SendDecision::Refuse(m) => r matches SendStep::Answer(a) && root::is_error(
                    a,
                    id@,
                    m,
                ) && final(self)@ == old(self)@,
                SendDecision::Close => r matches SendStep::Close(a) && root::is_success(
                    a,
                    id@,
                    closed_json(args->0.name@),
                ) && final(self)@ == root::with_entry(
                    old(self)@,
                    args->0.name@,
                    closed_entry(old(self)@.table[args->0.name@]),
                ),
                SendDecision::Write(t) => r matches SendStep::Write(w) && w@ == t
                    && final(self)@ == old(self)@,
            },
            final(self).names() == old(self).names(),
    {
        let ghost before = self@;
        let ghost names = self.names();
        let a = match args {
            Some(a) => a,
            None => {
                return SendStep::Answer(Response::err(id, "invalid or missing send args"));
            },
        };
        let name = a.name.as_str();
        match self.refuse_input(
            name,
            "' was not started with interactive mode (use --interactive or interactive = true in Psyfile)",
        ) {
            Some(m) => {
                return SendStep::Answer(Response::err(id, m.as_str()));
            },
            None => {},
        }
        if a.eof {
            match self.find(name) {
                Some(i) => {
                    let (k, mut e) = self.take(i);
                    let ghost was = e@;
                    e.stdin_open = false;
                    e.stdin_closed = true;
                    proof {
                        assert(e@ =~= closed_entry(was));
                        root::lemma_put_back(before, k@, e@);
                        root::lemma_order_kept(names, i as int);
                    }
                    self.put(i, k, e);
                },
                None => {
                    proof {
                        assert(false);
                    }
                },
            }
            let mut e: Vec<(String, Json)> = Vec::new();
            e.push(json::entry("name", json::string(name)));
            e.push(json::entry("stdin", json::string("closed")));
            proof {
                assert(json::entry_models(e@) =~= seq![
                    ("name"@, Js::Text(name@)),
                    ("stdin"@, Js::Text("closed"@)),
                ]);
            }
            return SendStep::Close(Response::ok(id, Some(json::object(e))));
        }
        let open = match self.entry(name) {
            Some(e) => e.stdin_open,
            None => false,
        };
        if !open {
            let m = text::concat3("process '", name, "' has an attached session, detach first");
            return SendStep::Answer(Response::err(id, m.as_str()));
        }
        match &a.input {
            Some(t) => SendStep::Write(text::copy(t.as_str())),
            None => SendStep::Answer(
                Response::err(id, "either 'input' or 'eof' must be provided"),
            ),
        }
    }
}

/// How writing to a stdin went.
#[derive(Debug)]
pub enum WriteResult {
    Done,
    Failed(String),
    TimedOut,
    /// Nothing holds the stdin of the process of this name.
    NoHandle(String),
}

/// What is wrong with a write, where something is.
pub open spec fn write_error(w: WriteResult) -> Option<Seq<char>> {
    match w {
        WriteResult::Done => None,
        WriteResult::Failed(e) => Some("write to stdin failed: "@ + e@),
        WriteResult::TimedOut => Some("write to stdin timed out (pipe buffer full?)"@),
        WriteResult::NoHandle(n) => Some("no stdin handle for '"@ + n@ + "'"@),
    }
}

pub(crate) fn write_failure(w: &WriteResult) -> (r: Option<String>)
    ensures
        text::opt_text(r) == write_error(*w),
{
    match w {
        WriteResult::Done => None,
        WriteResult::Failed(e) => Some(text::concat2("write to stdin failed: ", e.as_str())),
        WriteResult::TimedOut => Some(
            text::copy("write to stdin timed out (pipe buffer full?)"),
        ),
        WriteResult::NoHandle(n) => Some(
            text::concat3("no stdin handle for '", n.as_str(), "'"),
        ),
    }
}

/// The answer once a text has been written.
pub open spec fn written_json(name: Seq<char>, input: Seq<char>) -> Js {
    json::object_of(
        seq![
            ("name"@, Js::Text(name)),
            ("bytes_written"@, Js::Unsigned(vstd::utf8::encode_utf8(input).len() as u64)),
        ],
    )
}

/// Answers a request to write to a process, once the writing is over.
pub fn send_answer(id: &str, name: &str, input: &str, w: &WriteResult) -> (r: Response)
    ensures
        match write_error(*w) {
            Some(m) => root::is_error(r, id@, m),
            None => root::is_success(r, id@, written_json(name@, input@)),
        },
{
    match write_failure(w) {
        Some(m) => Response::err(id, m.as_str()),
        None => {
            let n: u64 = text::byte_len(input) as u64;
            let mut e: Vec<(String, Json)> = Vec::new();
            e.push(json::entry("name", json::string(name)));
            e.push(json::entry("bytes_written", Json::Unsigned(n)));
            proof {
                assert(json::entry_models(e@) =~= seq![
                    ("name"@, Js::Text(name@)),
                    ("bytes_written"@, Js::Unsigned(n)),
                ]);
            }
            Response::ok(id, Some(json::object(e)))
        },
    }
}

// ---------------------------------------------------------------------------
// Writing and waiting
// ---------------------------------------------------------------------------

/// A time limit that a request may set.
pub open spec fn limit_of(
    s: Option<Seq<char>>,
    label: Seq<char>,
    default: Duration,
) -> Result<Duration, Seq<char>> {
    match s {
        None => Ok(default),
        Some(t) => match psyfile::duration_of(t) {
            Ok(d) => Ok(d),
            Err(e) => Err(label + e),
        },
    }
}

pub(crate) fn parse_limit(s: &Option<String>, label: &str, default: Duration) -> (r: Result<
    Duration,
    String,
>)
    ensures
        match r {
            Ok(d) => limit_of(text::opt_text(*s), label@, default) == Ok::<Duration, Seq<char>>(d),
            Err(e) => limit_of(text::opt_text(*s), label@, default) == Err::<Duration, Seq<char>>(
                e@,
            ),
        },
{
    match s {
        None => Ok(default),
        Some(t) => match psyfile::parse_duration(t.as_str()) {
            Ok(d) => Ok(d),
            Err(e) => Err(text::concat2(label, e.as_str())),
        },
    }
}

/// What a request to write and wait leads to: a refusal, or a text to write and
/// how long to wait, in all and for the next line.
pub ghost enum WaitDecision {
    Refuse(Seq<char>),
    Write { input: Seq<char>, timeout: Duration, idle: Duration },
}

/// What a request to write and wait leads to.
pub open spec fn wait_decision(r: RootView, args: Option<SendWaitArgs>) -> WaitDecision {
    match args {
        None => WaitDecision::Refuse("invalid or missing send_wait args"@),
        Some(a) => match (
            limit_of(
                text::opt_text(a.timeout),
                "invalid timeout: "@,
                Duration { secs: 5, nanos: 0 },
            ),
            limit_of(
                text::opt_text(a.idle_timeout),
                "invalid idle_timeout: "@,
                Duration { secs: 0, nanos: 200_000_000 },
            ),
        ) {
            (Err(e), _) => WaitDecision::Refuse(e),
            (Ok(_), Err(e)) => WaitDecision::Refuse(e),
            (Ok(timeout), Ok(idle)) => match input_refusal(
                r,
                a.name@,
                "' was not started with interactive mode"@,
            ) {
                Some(m) => WaitDecision::Refuse(m),
                None => if !r.table[a.name@].stdin_open {
                    WaitDecision::Refuse("no stdin handle for '"@ + a.name@ + "'"@)
                } else {
                    WaitDecision::Write { input: a.input@ + "\n"@, timeout, idle }
                },
            },
        },
    }
}

/// The step that a request to write and wait leads to.
#[derive(Debug)]
pub enum WaitStep {
    Answer(Response),
    /// Write this text, then wait: in all, and for the next line.
    Write(String, Duration, Duration),
}

impl SharedRoot {
    /// Decides what a request to write and wait leads to.
    pub fn begin_send_wait(&self, id: &str, args: &Option<SendWaitArgs>) -> (r: WaitStep)
        ensures
            match wait_decision(self@, *args) {
                WaitDecision::Refuse(m) => r matches WaitStep::Answer(a) && root::is_error(
                    a,
                    id@,
                    m,
                ),
                WaitDecision::Write { input, timeout, idle } => r matches WaitStep::Write(w, t, i)
                    && w@ == input && t == timeout && i == idle,
            },
    {
        let a = match args {
            Some(a) => a,
            None => {
                return WaitStep::Answer(Response::err(id, "invalid or missing send_wait args"));
            },
        };
        let timeout = match parse_limit(&a.timeout, "invalid timeout: ", Duration::from_secs(5)) {
            Ok(d) => d,
            Err(e) => {
                return WaitStep::Answer(Response::err(id, e.as_str()));
            },
        };
        let idle = match parse_limit(
            &a.idle_timeout,
            "invalid idle_timeout: ",
            Duration::from_millis(200),
        ) {
            Ok(d) => d,
            Err(e) => {
                return WaitStep::Answer(Response::err(id, e.as_str()));
            },
        };
        let name = a.name.as_str();
        match self.refuse_input(name, "' was not started with interactive mode") {
            Some(m) => {
                return WaitStep::Answer(Response::err(id, m.as_str()));
            },
            None => {},
        }
        let open = match self.entry(name) {
            Some(e) => e.stdin_open,
            None => false,
        };
        if !open {
            let m = text::concat3("no stdin handle for '", name, "'");
            return WaitStep::Answer(Response::err(id, m.as_str()));
        }
        WaitStep::Write(text::concat2(a.input.as_str(), "\n"), timeout, idle)
    }
}

/// The answer where the text of a request to write and wait could not be written.
pub fn wait_write_answer(id: &str, w: &WriteResult) -> (r: Option<Response>)
    ensures
        match write_error(*w) {
            Some(m) => r matches Some(a) && root::is_error(a, id@, m),
            None => r is None,
        },
{
    match write_failure(w) {
        Some(m) => Some(Response::err(id, m.as_str())),
        None => None,
    }
}

/// The output collected after a text has been written.
#[derive(Debug)]
pub struct Collector {
    pub lines: Vec<String>,
    pub matched_prompt: bool,
    /// The prompt to look for, in lower case.
    pub prompt: Option<String>,
}

/// Whether a line shows the prompt that is waited for.
pub open spec fn shows_prompt(l: LineView, prompt: Option<Seq<char>>) -> bool {
    prompt matches Some(p) && text::contains(text::lowercase(l.content), p)
}

impl Collector {
    /// The prompt that is looked for.
    pub open spec fn wanted(&self) -> Option<Seq<char>> {
        text::opt_text(self.prompt)
    }

    /// Begins to collect. The prompt is looked for whatever its case.
    pub fn new(prompt: &Option<String>) -> (r: Collector)
        ensures
            r.lines@.len() == 0,
            !r.matched_prompt,
            r.wanted() == match *prompt {
                Some(p) => Some(text::lowercase(p@)),
                None => None,
            },
    {
        let wanted = match prompt {
            Some(p) => Some(text::to_lowercase(p.as_str())),
            None => None,
        };
        Collector { lines: Vec::new(), matched_prompt: false, prompt: wanted }
    }

    /// Takes a line, and says whether to stop. Lines of probes do not count; a line
    /// that shows the prompt is the last.
    pub fn take_line(&mut self, l: &LogLine) -> (stop: bool)
        ensures
            final(self).wanted() == old(self).wanted(),
            text::texts(final(self).lines@) == if l@.stream.probe() {
                text::texts(old(self).lines@)
            } else {
                text::texts(old(self).lines@).push(l@.content)
            },
            stop == (!l@.stream.probe() && shows_prompt(l@, old(self).wanted())),
            final(self).matched_prompt == (old(self).matched_prompt || stop),
    {
        if l.stream.is_probe() {
            return false;
        }
        let ghost before = self.lines@;
        let stop = match &self.prompt {
            Some(p) => {
                let content = text::to_lowercase(l.content.as_str());
                text::has(content.as_str(), p.as_str())
            },
            None => false,
        };
        let line = text::copy(l.content.as_str());
        self.lines.push(line);
        if stop {
            self.matched_prompt = true;
        }
        proof {
            assert(text::texts(self.lines@) =~= text::texts(before).push(l.content@));
        }
        stop
    }

    /// Answers a request to write and wait.
    pub fn answer(&self, id: &str, name: &str) -> (r: Response)
        ensures
            root::is_success(
                r,
                id@,
                collected_json(name@, text::texts(self.lines@), self.matched_prompt),
            ),
    {
        let mut lines: Vec<Json> = Vec::new();
        let mut i: usize = 0;
        while i < self.lines.len()
            invariant
                i <= self.lines.len(),
                lines@.len() == i,
                forall|j: int|
                    0 <= j < i ==> json::model(#[trigger] lines@[j]) == Js::Text(self.lines@[j]@),
            decreases self.lines.len() - i,
        {
            lines.push(json::string(self.lines[i].as_str()));
            i += 1;
        }
        proof {
            assert(json::models(lines@) =~= text::texts(self.lines@).map_values(
                |s: Seq<char>| Js::Text(s),
            ));
        }
        let mut e: Vec<(String, Json)> = Vec::new();
        e.push(json::entry("name", json::string(name)));
        e.push(json::entry("lines", json::array(lines)));
        e.push(json::entry("matched_prompt", Json::Bool(self.matched_prompt)));
        proof {
            assert(json::entry_models(e@) =~= seq![
                ("name"@, Js::Text(name@)),
                (
                    "lines"@,
                    Js::Array(
                        text::texts(self.lines@).map_values(|s: Seq<char>| Js::Text(s)),
                    ),
                ),
                ("matched_prompt"@, Js::Bool(self.matched_prompt)),
            ]);
        }
        Response::ok(id, Some(json::object(e)))
    }
}

/// The answer to a request to write and wait.
pub open spec fn collected_json(name: Seq<char>, lines: Seq<Seq<char>>, matched: bool) -> Js {
    json::object_of(
        seq![
            ("name"@, Js::Text(name)),
            ("lines"@, Js::Array(lines.map_values(|s: Seq<char>| Js::Text(s)))),
            ("matched_prompt"@, Js::Bool(matched)),
        ],
    )
}

// ---------------------------------------------------------------------------
// Attached sessions
// ---------------------------------------------------------------------------

impl SharedRoot {
    /// Tells an attached client that the process has exited.
    pub fn detach_notice(&self, name: &str) -> (r: DetachNotice)
        ensures
            r.detached,
            r.reason@ == "exited"@,
            r.exit_code == if self@.table.dom().contains(name@) {
                self@.table[name@].exit_status
            } else {
                None
            },
    {
        let exit_code = match self.entry(name) {
            Some(e) => e.exit_status,
            None => None,
        };
        DetachNotice { detached: true, reason: text::copy("exited"), exit_code }
    }

    /// Whether input of an attached client can be written.
    pub fn takes_attached_input(&self, name: &str) -> (r: bool)
        ensures
            r == (self@.table.dom().contains(name@) && self@.table[name@].stdin_open),
    {
        match self.entry(name) {
            Some(e) => e.stdin_open,
            None => false,
        }
    }
}

/// Once the stdin of a process has been closed on request, every later request to
/// write to it is refused as long as this run lasts.
pub proof fn lemma_closed_for_good(r: RootView, a: SendArgs, w: SendWaitArgs)
    requires
        root::runs(r, a.name@),
        w.name@ == a.name@,
        r.table[a.name@].interactive,
        limit_of(
            text::opt_text(w.timeout),
            "invalid timeout: "@,
            Duration { secs: 5, nanos: 0 },
        ) is Ok,
        limit_of(
            text::opt_text(w.idle_timeout),
            "invalid idle_timeout: "@,
            Duration { secs: 0, nanos: 200_000_000 },
        ) is Ok,
    ensures
        ({
            let after = root::with_entry(r, a.name@, closed_entry(r.table[a.name@]));
            &&& send_decision(after, Some(a)) == SendDecision::Refuse(stdin_is_closed(a.name@))
            &&& wait_decision(after, Some(w)) == WaitDecision::Refuse(stdin_is_closed(a.name@))
        }),
{
}

} // verus!

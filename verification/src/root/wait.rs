//! Waiting: what a request to run a process may wait for before it is answered.
use crate::json;
use crate::json::{Fields, Js, Json};
use crate::logs;
use crate::logs::Query;
use crate::process;
use crate::process::{EntryView, ProcessEntry, ProcessState};
use crate::protocol::{Response, StreamFilter, WaitFor};
use crate::ring_buffer;
use crate::ring_buffer::{LineView, LogLine};
use crate::root;
use crate::root::{RootView, SharedRoot};
use crate::root::input;
use crate::text;
use crate::time::Duration;
use vstd::prelude::*;

verus! {

/// How many lines of a log come with an answer.
pub const LAST_LINES: usize = 20;

/// How a wait stands.
#[derive(Clone, Copy, Debug, PartialEq, Eq, Structural)]
pub enum Waiting {
    /// What is waited for can still come.
    Pending,
    Met,
    /// What is waited for does not come any more.
    Lost,
}

/// The lines of the current run.
pub open spec fn current_lines(e: EntryView) -> Seq<LineView> {
    logs::run_lines(
        e.stdout,
        e.stderr,
        Query {
            filter: StreamFilter::All,
            since: None,
            until: None,
            grep: None,
            tail: None,
        },
    )
}

/// How waiting for a process to be ready stands.
pub open spec fn ready_state(r: RootView, name: Seq<char>) -> Waiting {
    if !r.table.dom().contains(name) {
        Waiting::Lost
    } else if r.table[name].ready {
        Waiting::Met
    } else if r.table[name].ready_failed || !root::runs(r, name) {
        Waiting::Lost
    } else {
        Waiting::Pending
    }
}

/// Whether any of some lines contains a text, whatever the case.
pub open spec fn any_with(s: Seq<LineView>, wanted: Seq<char>) -> bool {
    exists|i: int|
        0 <= i < s.len() && text::contains(
            text::lowercase((#[trigger] s[i]).content),
            text::lowercase(wanted),
        )
}

/// How waiting for a line with a text stands.
pub open spec fn line_state(r: RootView, name: Seq<char>, wanted: Seq<char>) -> Waiting {
    if !r.table.dom().contains(name) {
        Waiting::Lost
    } else if any_with(current_lines(r.table[name]), wanted) {
        Waiting::Met
    } else if root::runs(r, name) {
        Waiting::Pending
    } else {
        Waiting::Lost
    }
}

/// How the wait of a request to run a process stands.
pub open spec fn wait_state(r: RootView, name: Seq<char>, w: WaitFor) -> Waiting {
    match w {
        WaitFor::Ready => ready_state(r, name),
        WaitFor::Exit => if root::runs(r, name) {
            Waiting::Pending
        } else {
            Waiting::Met
        },
        WaitFor::Log { pattern } => line_state(r, name, pattern@),
        WaitFor::Dependency { name } => ready_state(r, name@),
    }
}

/// The last lines of the current run.
pub open spec fn last_lines(e: EntryView) -> Seq<LineView> {
    ring_buffer::tail_of(logs::time_sorted(current_lines(e)), Some(LAST_LINES))
}

/// An exit code as it is sent.
pub open spec fn code_json(code: Option<i32>) -> Js {
    match code {
        None => Js::Null,
        Some(c) => if c >= 0 {
            Js::Unsigned(c as u64)
        } else {
            Js::Negative(c as i64)
        },
    }
}

/// What an answer says beyond the state of the process, by what was waited for.
pub open spec fn wait_details(
    r: RootView,
    name: Seq<char>,
    w: WaitFor,
    fields: Seq<(Seq<char>, Js)>,
) -> Seq<(Seq<char>, Js)> {
    let met = Js::Bool(wait_state(r, name, w) == Waiting::Met);
    if !r.table.dom().contains(name) {
        fields
    } else {
        let lines = logs::line_list(last_lines(r.table[name]));
        match w {
            WaitFor::Ready => fields.push(("ready"@, met)),
            WaitFor::Exit => fields.push(("exit_code"@, code_json(r.table[name].exit_status))).push(
                ("logs"@, lines),
            ),
            WaitFor::Log { .. } => fields.push(("matched"@, met)).push(("logs"@, lines)),
            WaitFor::Dependency { .. } => fields.push(("dependency_ready"@, met)),
        }
    }
}

/// The data of an answer after a wait.
pub open spec fn wait_json(r: RootView, name: Seq<char>, w: WaitFor, timed_out: bool) -> Js {
    let status = if r.table.dom().contains(name) {
        process::state_text(r.table[name].state)
    } else {
        "removed"@
    };
    let base = Seq::empty().push(("name"@, Js::Text(name))).push(("status"@, Js::Text(status)));
    let all = wait_details(r, name, w, base);
    json::object_of(
        if timed_out {
            all.push(("timed_out"@, Js::Bool(true)))
        } else {
            all
        },
    )
}

/// How long a request to run a process waits, or what is wrong with the time that
/// it gives. It is two minutes where it gives none.
pub fn wait_limit(id: &str, timeout: &Option<String>) -> (r: Result<Duration, Response>)
    ensures
        match input::limit_of(
            text::opt_text(*timeout),
            "invalid timeout: "@,
            (Duration { secs: 120, nanos: 0 }),
        ) {
            Ok(d) => r matches Ok(x) && x == d,
            Err(e) => r matches Err(a) && root::is_error(a, id@, e),
        },
{
    match input::parse_limit(timeout, "invalid timeout: ", Duration { secs: 120, nanos: 0 }) {
        Ok(d) => Ok(d),
        Err(e) => Err(Response::err(id, e.as_str())),
    }
}

fn lines_of(e: &ProcessEntry) -> (r: Vec<LogLine>)
    ensures
        ring_buffer::lines_view(r@) == current_lines(e@),
{
    logs::gather(&e.stdout_buf, &e.stderr_buf, StreamFilter::All, None, None, &None)
}

/// Tests whether any of some lines contains a text.
pub fn any_line_with(lines: &Vec<LogLine>, wanted: &str) -> (r: bool)
    ensures
        r == any_with(ring_buffer::lines_view(lines@), wanted@),
{
    let low = text::to_lowercase(wanted);
    let ghost all = ring_buffer::lines_view(lines@);
    let mut i: usize = 0;
    while i < lines.len()
        invariant
            i <= lines.len(),
            low@ == text::lowercase(wanted@),
            all == ring_buffer::lines_view(lines@),
            forall|j: int|
                0 <= j < i ==> !text::contains(
                    text::lowercase((#[trigger] all[j]).content),
                    text::lowercase(wanted@),
                ),
        decreases lines.len() - i,
    {
        let content = text::to_lowercase(lines[i].content.as_str());
        proof {
            assert(all[i as int].content == lines@[i as int].content@);
        }
        if text::has(content.as_str(), low.as_str()) {
            return true;
        }
        i += 1;
    }
    false
}

fn code_value(code: Option<i32>) -> (r: Json)
    ensures
        json::model(r) == code_json(code),
{
    match code {
        None => Json::Null,
        Some(c) => if c >= 0 {
            Json::Unsigned(c as u64)
        } else {
            Json::Negative(c as i64)
        },
    }
}

impl SharedRoot {
    fn readiness_wait(&self, name: &str) -> (r: Waiting)
        ensures
            r == ready_state(self@, name@),
    {
        match self.entry(name) {
            None => Waiting::Lost,
            Some(e) => if e.ready {
                Waiting::Met
            } else if e.ready_failed || e.state != ProcessState::Running {
                Waiting::Lost
            } else {
                Waiting::Pending
            },
        }
    }

    /// Tells how the wait of a request to run a process stands.
    pub fn waiting(&self, name: &str, w: &WaitFor) -> (r: Waiting)
        ensures
            r == wait_state(self@, name@, *w),
    {
        match w {
            WaitFor::Ready => self.readiness_wait(name),
            WaitFor::Exit => if self.is_running(name) {
                Waiting::Pending
            } else {
                Waiting::Met
            },
            WaitFor::Log { pattern } => match self.entry(name) {
                None => Waiting::Lost,
                Some(e) => {
                    let lines = lines_of(e);
                    if any_line_with(&lines, pattern.as_str()) {
                        Waiting::Met
                    } else if e.state == ProcessState::Running {
                        Waiting::Pending
                    } else {
                        Waiting::Lost
                    }
                },
            },
            WaitFor::Dependency { name } => self.readiness_wait(name.as_str()),
        }
    }

    /// Answers a request to run a process after a wait.
    pub fn wait_answer(&self, id: &str, name: &str, w: &WaitFor, timed_out: bool) -> (r: Response)
        ensures
            root::is_success(r, id@, wait_json(self@, name@, *w, timed_out)),
    {
        let met = self.waiting(name, w) == Waiting::Met;
        let status = match self.entry(name) {
            Some(e) => e.state.to_string(),
            None => text::copy("removed"),
        };
        let base = Fields::new().with_text("name", name).with_text("status", status.as_str());
        let all = match self.entry(name) {
            None => base,
            Some(e) => {
                let lines = logs::arrange(lines_of(e), Some(LAST_LINES));
                let list = logs::list_lines(&lines);
                match w {
                    WaitFor::Ready => base.with("ready", Json::Bool(met)),
                    WaitFor::Exit => base.with("exit_code", code_value(e.exit_status)).with(
                        "logs",
                        list,
                    ),
                    WaitFor::Log { .. } => base.with("matched", Json::Bool(met)).with(
                        "logs",
                        list,
                    ),
                    WaitFor::Dependency { .. } => base.with("dependency_ready", Json::Bool(met)),
                }
            },
        };
        let all = if timed_out {
            all.with("timed_out", Json::Bool(true))
        } else {
            all
        };
        Response::ok(id, Some(all.done()))
    }
}

/// An answer says that the time ran out exactly where it did.
pub proof fn lemma_timed_out(r: RootView, name: Seq<char>, w: WaitFor, timed_out: bool)
    ensures
        json::member(wait_json(r, name, w, timed_out), "timed_out"@) == (if timed_out {
            Some(Js::Bool(true))
        } else {
            None
        }),
{
    reveal_strlit("timed_out");
    reveal_strlit("name");
    reveal_strlit("status");
    reveal_strlit("ready");
    reveal_strlit("exit_code");
    reveal_strlit("logs");
    reveal_strlit("matched");
    reveal_strlit("dependency_ready");
    let status = if r.table.dom().contains(name) {
        process::state_text(r.table[name].state)
    } else {
        "removed"@
    };
    let one = Seq::empty().push(("name"@, Js::Text(name)));
    let base = one.push(("status"@, Js::Text(status)));
    let all = wait_details(r, name, w, base);
    lemma_last(Seq::empty(), "name"@, Js::Text(name));
    lemma_last(one, "status"@, Js::Text(status));
    assert("exit_code"@[0] != "timed_out"@[0]);
    assert("matched"@[0] != "timed_out"@[0]);
    assert("name"@.len() != "timed_out"@.len());
    assert(!json::entries_map(base).dom().contains("timed_out"@));
    let met = Js::Bool(wait_state(r, name, w) == Waiting::Met);
    if r.table.dom().contains(name) {
        let lines = logs::line_list(last_lines(r.table[name]));
        match w {
            WaitFor::Ready => {
                lemma_last(base, "ready"@, met);
            },
            WaitFor::Exit => {
                let code = code_json(r.table[name].exit_status);
                lemma_last(base, "exit_code"@, code);
                lemma_last(base.push(("exit_code"@, code)), "logs"@, lines);
            },
            WaitFor::Log { .. } => {
                lemma_last(base, "matched"@, met);
                lemma_last(base.push(("matched"@, met)), "logs"@, lines);
            },
            WaitFor::Dependency { .. } => {
                lemma_last(base, "dependency_ready"@, met);
            },
        }
    }
    assert(!json::entries_map(all).dom().contains("timed_out"@));
    if timed_out {
        lemma_last(all, "timed_out"@, Js::Bool(true));
    }
}

proof fn lemma_last(s: Seq<(Seq<char>, Js)>, key: Seq<char>, value: Js)
    ensures
        json::entries_map(s.push((key, value))) == json::entries_map(s).insert(key, value),
{
    assert(s.push((key, value)).drop_last() =~= s);
}

} // verus!

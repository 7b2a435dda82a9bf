//! The server for agents: tools that are called over JSON-RPC.
use crate::api;
use crate::json;
use crate::json::{Fields, Items, Js, Json};
use crate::names::NameMap;
use crate::protocol;
use crate::protocol::{
    HistoryArgs, HistoryResponse, LogsArgs, PortDefArg, PsResponse, Response, RestartArgs,
    RestartPolicy, RunArgs, SendArgs, SendWaitArgs, StopArgs, StreamFilter,
};
use crate::psyfile;
use crate::schema;
use crate::tables;
use crate::text;
use vstd::prelude::*;

pub mod tools;

verus! {

/// The version that the server reports.
pub const VERSION: &'static str = "2.1.0";

// ---------------------------------------------------------------------------
// Reading arguments
// ---------------------------------------------------------------------------

/// The texts in a list.
pub open spec fn texts_in(a: Seq<Js>) -> Seq<Seq<char>>
    decreases a.len(),
{
    if a.len() == 0 {
        Seq::empty()
    } else {
        match a.last() {
            Js::Text(s) => texts_in(a.drop_last()).push(s),
            _ => texts_in(a.drop_last()),
        }
    }
}

fn read_texts(a: &Vec<Json>) -> (r: Vec<String>)
    ensures
        text::texts(r@) == texts_in(json::models(a@)),
{
    let ghost all = json::models(a@);
    let mut out: Vec<String> = Vec::new();
    let mut i: usize = 0;
    proof {
        assert(text::texts(out@) =~= texts_in(all.take(0)));
    }
    while i < a.len()
        invariant
            i <= a.len(),
            all == json::models(a@),
            text::texts(out@) == texts_in(all.take(i as int)),
        decreases a.len() - i,
    {
        let ghost before = out@;
        proof {
            assert(all.take(i + 1).drop_last() =~= all.take(i as int));
            assert(all.take(i + 1).last() == json::model(a@[i as int]));
        }
        match &a[i] {
            Json::Text(s) => {
                out.push(text::copy(s.as_str()));
                proof {
                    assert(text::texts(out@) =~= text::texts(before).push(s@));
                }
            },
            _ => {},
        }
        i += 1;
    }
    proof {
        assert(all.take(all.len() as int) =~= all);
    }
    out
}

/// The texts in the list under a key, where there is one.
pub open spec fn list_member(v: Js, key: Seq<char>) -> Option<Seq<Seq<char>>> {
    match json::array_member(v, key) {
        Some(a) => Some(texts_in(a)),
        None => None,
    }
}

fn get_list(v: &Json, key: &str) -> (r: Option<Vec<String>>)
    ensures
        match r {
            Some(l) => list_member(json::model(*v), key@) == Some(text::texts(l@)),
            None => list_member(json::model(*v), key@) is None,
        },
{
    match json::get_array(v, key) {
        Some(a) => Some(read_texts(a)),
        None => None,
    }
}

/// The texts by name in an object; other members are left out.
pub open spec fn texts_of(v: Option<Js>) -> Map<Seq<char>, Seq<char>> {
    match v {
        Some(Js::Object(m)) => Map::new(
            |k: Seq<char>| m.dom().contains(k) && m[k] is Text,
            |k: Seq<char>| m[k]->Text_0,
        ),
        _ => Map::empty(),
    }
}

fn read_env(v: &Json) -> (r: NameMap<String>)
    ensures
        psyfile::env_view(r) == texts_of(Some(json::model(*v))),
{
    let mut out: NameMap<String> = NameMap::new();
    proof {
        assert(psyfile::env_view(out) =~= Map::<Seq<char>, Seq<char>>::empty());
    }
    match v {
        Json::Object(t) => {
            let ghost s = json::entry_models(t@);
            let ghost m = json::entries_map(s);
            let ghost goal = texts_of(Some(json::model(*v)));
            proof {
                json::lemma_members(*v);
            }
            let mut i: usize = 0;
            while i < t.len()
                invariant
                    i <= t.len(),
                    s == json::entry_models(t@),
                    m == json::entries_map(s),
                    json::model(*v) == Js::Object(m),
                    goal == texts_of(Some(json::model(*v))),
                    forall|k: Seq<char>| #[trigger]
                        out@.dom().contains(k) ==> goal.dom().contains(k) && out@[k]@ == goal[k],
                    forall|j: int|
                        0 <= j < i && goal.dom().contains((#[trigger] s[j]).0)
                            ==> out@.dom().contains(s[j].0),
                decreases t.len() - i,
            {
                let key = t[i].0.as_str();
                proof {
                    assert(s[i as int].0 == key@);
                }
                match json::get_text(v, key) {
                    Some(x) => {
                        out.insert(text::copy(key), text::copy(x.as_str()));
                    },
                    None => {},
                }
                i += 1;
            }
            proof {
                assert forall|k: Seq<char>| goal.dom().contains(k) implies #[trigger]
                    out@.dom().contains(k) by {
                    json::lemma_has_key(s, k);
                    let j = choose|j: int| 0 <= j < s.len() && (#[trigger] s[j]).0 == k;
                    assert(out@.dom().contains(s[j].0));
                }
                assert(psyfile::env_view(out) =~= goal);
            }
            out
        },
        _ => out,
    }
}

/// What a run waits for.
pub ghost enum WaitView {
    Ready,
    Exit,
    Log(Seq<char>),
    Dependency(Seq<char>),
}

impl View for protocol::WaitFor {
    type V = WaitView;

    open spec fn view(&self) -> WaitView {
        match self {
            protocol::WaitFor::Ready => WaitView::Ready,
            protocol::WaitFor::Exit => WaitView::Exit,
            protocol::WaitFor::Log { pattern } => WaitView::Log(pattern@),
            protocol::WaitFor::Dependency { name } => WaitView::Dependency(name@),
        }
    }
}

/// What an optional condition says.
pub open spec fn opt_wait(w: Option<protocol::WaitFor>) -> Option<WaitView> {
    match w {
        Some(x) => Some(x@),
        None => None,
    }
}

/// The condition that a run is told to wait for.
pub open spec fn wait_of(v: Js) -> Result<Option<WaitView>, Seq<char>> {
    match json::member(v, "wait_for"@) {
        None => Ok(None),
        Some(Js::Text(s)) => if s == "ready"@ {
            Ok(Some(WaitView::Ready))
        } else if s == "exit"@ {
            Ok(Some(WaitView::Exit))
        } else {
            Err("invalid wait_for value: "@ + s)
        },
        Some(Js::Object(m)) => match json::text_member(Js::Object(m), "log"@) {
            Some(p) => Ok(Some(WaitView::Log(p))),
            None => match json::text_member(Js::Object(m), "dependency"@) {
                Some(d) => Ok(Some(WaitView::Dependency(d))),
                None => Err(
                    "invalid wait_for object: expected {\"log\": \"...\"} or {\"dependency\": \"...\"}"@,
                ),
            },
        },
        _ => Err("invalid wait_for: expected string or object"@),
    }
}

fn read_wait(v: &Json) -> (r: Result<Option<protocol::WaitFor>, String>)
    ensures
        match r {
            Ok(w) => wait_of(json::model(*v)) == Ok::<Option<WaitView>, Seq<char>>(opt_wait(w)),
            Err(e) => wait_of(json::model(*v)) == Err::<Option<WaitView>, Seq<char>>(e@),
        },
{
    match json::get(v, "wait_for") {
        None => Ok(None),
        Some(w) => {
            proof {
                json::lemma_members(*w);
            }
            match w {
                Json::Text(s) => {
                    if text::same(s.as_str(), "ready") {
                        Ok(Some(protocol::WaitFor::Ready))
                    } else if text::same(s.as_str(), "exit") {
                        Ok(Some(protocol::WaitFor::Exit))
                    } else {
                        Err(text::concat2("invalid wait_for value: ", s.as_str()))
                    }
                },
                Json::Object(_) => match json::get_text(w, "log") {
                    Some(p) => Ok(
                        Some(protocol::WaitFor::Log { pattern: text::copy(p.as_str()) }),
                    ),
                    None => match json::get_text(w, "dependency") {
                        Some(d) => Ok(
                            Some(protocol::WaitFor::Dependency { name: text::copy(d.as_str()) }),
                        ),
                        None => Err(
                            text::copy(
                                "invalid wait_for object: expected {\"log\": \"...\"} or {\"dependency\": \"...\"}",
                            ),
                        ),
                    },
                },
                _ => Err(text::copy("invalid wait_for: expected string or object")),
            }
        },
    }
}

/// The port that an item of a list asks for: a name, or a name with a number.
pub open spec fn port_of(v: Js) -> Option<(Seq<char>, Option<u16>)> {
    match v {
        Js::Text(s) => Some((s, None)),
        _ => match json::text_member(v, "name"@) {
            Some(n) => Some(
                (
                    n,
                    match json::number_member(v, "default"@) {
                        Some(p) => if p <= u16::MAX {
                            Some(p as u16)
                        } else {
                            None
                        },
                        None => None,
                    },
                ),
            ),
            None => None,
        },
    }
}

/// The ports that a list asks for.
pub open spec fn ports_in(a: Seq<Js>) -> Seq<(Seq<char>, Option<u16>)>
    decreases a.len(),
{
    if a.len() == 0 {
        Seq::empty()
    } else {
        match port_of(a.last()) {
            Some(p) => ports_in(a.drop_last()).push(p),
            None => ports_in(a.drop_last()),
        }
    }
}

fn read_port(v: &Json) -> (r: Option<PortDefArg>)
    ensures
        match r {
            Some(p) => port_of(json::model(*v)) == Some((p.name@, p.default)),
            None => port_of(json::model(*v)) is None,
        },
{
    proof {
        json::lemma_members(*v);
    }
    match v {
        Json::Text(s) => Some(PortDefArg { name: text::copy(s.as_str()), default: None }),
        _ => match json::get_text(v, "name") {
            Some(n) => {
                let default = match json::get_number(v, "default") {
                    Some(p) => if p <= u16::MAX as u64 {
                        Some(p as u16)
                    } else {
                        None
                    },
                    None => None,
                };
                Some(PortDefArg { name: text::copy(n.as_str()), default })
            },
            None => None,
        },
    }
}

fn read_ports(a: &Vec<Json>) -> (r: Vec<PortDefArg>)
    ensures
        api::ports_asked(r@) == ports_in(json::models(a@)),
{
    let ghost all = json::models(a@);
    let mut out: Vec<PortDefArg> = Vec::new();
    let mut i: usize = 0;
    proof {
        assert(api::ports_asked(out@) =~= ports_in(all.take(0)));
    }
    while i < a.len()
        invariant
            i <= a.len(),
            all == json::models(a@),
            api::ports_asked(out@) == ports_in(all.take(i as int)),
        decreases a.len() - i,
    {
        let ghost before = out@;
        proof {
            assert(all.take(i + 1).drop_last() =~= all.take(i as int));
            assert(all.take(i + 1).last() == json::model(a@[i as int]));
        }
        match read_port(&a[i]) {
            Some(p) => {
                out.push(p);
                proof {
                    assert(api::ports_asked(out@) =~= api::ports_asked(before).push(
                        (p.name@, p.default),
                    ));
                }
            },
            None => {},
        }
        i += 1;
    }
    proof {
        assert(all.take(all.len() as int) =~= all);
    }
    out
}

fn copy_text(v: &Json, key: &str) -> (r: Option<String>)
    ensures
        text::opt_text(r) == json::text_member(json::model(*v), key@),
{
    match json::get_text(v, key) {
        Some(s) => Some(text::copy(s.as_str())),
        None => None,
    }
}

/// A flag, which is off where nothing is said.
pub open spec fn flag_of(v: Js, key: Seq<char>) -> bool {
    json::flag_member(v, key) == Some(true)
}

fn get_flag(v: &Json, key: &str) -> (r: bool)
    ensures
        r == flag_of(json::model(*v), key@),
{
    match json::get_flag(v, key) {
        Some(b) => b,
        None => false,
    }
}

// ---------------------------------------------------------------------------
// Calls
// ---------------------------------------------------------------------------

/// A call of a tool.
#[derive(Debug)]
pub enum ToolCall {
    Run(RunArgs),
    Ps,
    /// The log, and whether all of it is shown or the lines alone.
    Logs(LogsArgs, bool),
    Stop(StopArgs),
    History(HistoryArgs),
    Restart(RestartArgs),
    SendWait(SendWaitArgs),
    Send(SendArgs),
    Schema,
    Clean,
}

/// The message for a name that is missing.
pub const NO_NAME: &'static str = "missing required parameter: name";

/// The restart policy that is asked for.
pub open spec fn restart_asked(v: Js) -> RestartPolicy {
    match json::text_member(v, "restart"@) {
        Some(s) => if s == "on_failure"@ {
            RestartPolicy::OnFailure
        } else if s == "always"@ {
            RestartPolicy::Always
        } else {
            RestartPolicy::No
        },
        None => RestartPolicy::No,
    }
}

/// Whether some arguments are what a call to run a process asks for.
pub open spec fn runs_as_asked(a: RunArgs, v: Js) -> bool {
    &&& json::text_member(v, "name"@) == Some(a.name@)
    &&& text::texts(a.command@) == (match list_member(v, "command"@) {
        Some(l) => l,
        None => Seq::empty(),
    })
    &&& list_member(v, "args"@) == (match a.extra_args {
        Some(l) => Some(text::texts(l@)),
        None => None,
    })
    &&& a.restart == restart_asked(v)
    &&& psyfile::env_view(a.env) == texts_of(json::member(v, "env"@))
    &&& a.interactive == flag_of(v, "interactive"@)
    &&& wait_of(v) == Ok::<Option<WaitView>, Seq<char>>(opt_wait(a.wait_for))
    &&& text::opt_text(a.wait_timeout) == json::text_member(v, "timeout"@)
    &&& api::ports_asked(a.ports@) == (match json::array_member(v, "ports"@) {
        Some(l) => ports_in(l),
        None => Seq::empty(),
    })
    &&& !a.attach
    &&& !a.raw_stdio
    &&& a.cwd is None
    &&& a.ready is None
    &&& a.healthcheck is None
    &&& a.depends_on@.len() == 0
    &&& a.metadata@ == Map::<Seq<char>, String>::empty()
}

/// The stream that is asked for.
pub open spec fn stream_asked(v: Js) -> StreamFilter {
    match json::text_member(v, "stream"@) {
        Some(s) => if s == "stdout"@ {
            StreamFilter::Stdout
        } else if s == "stderr"@ {
            StreamFilter::Stderr
        } else {
            StreamFilter::All
        },
        None => StreamFilter::All,
    }
}

/// Whether some arguments are what a call for a log asks for.
pub open spec fn logs_as_asked(a: LogsArgs, v: Js) -> bool {
    &&& json::text_member(v, "name"@) == Some(a.name@)
    &&& a.tail == Some(
        match json::number_member(v, "tail"@) {
            Some(n) => n as usize,
            None => 50,
        },
    )
    &&& a.stream == stream_asked(v)
    &&& text::opt_text(a.since) == json::text_member(v, "since"@)
    &&& text::opt_text(a.until) == json::text_member(v, "until"@)
    &&& text::opt_text(a.grep) == json::text_member(v, "grep"@)
    &&& a.run == (match json::number_member(v, "run"@) {
        Some(n) => Some(n as u32),
        None => None,
    })
    &&& a.previous == flag_of(v, "previous"@)
    &&& a.probe == flag_of(v, "probe"@)
}

/// Why a call is refused, where it is.
pub open spec fn call_error(tool: Seq<char>, v: Js) -> Option<Seq<char>> {
    let no_name = json::text_member(v, "name"@) is None;
    let no_input = json::text_member(v, "input"@) is None;
    if tool == "psy_ps"@ || tool == "psy_psyfile_schema"@ || tool == "psy_clean"@ {
        None
    } else if tool == "psy_run"@ {
        if no_name {
            Some(NO_NAME@)
        } else {
            match wait_of(v) {
                Ok(_) => None,
                Err(e) => Some(e),
            }
        }
    } else if tool == "psy_logs"@ || tool == "psy_stop"@ || tool == "psy_history"@ || tool
        == "psy_restart"@ {
        if no_name {
            Some(NO_NAME@)
        } else {
            None
        }
    } else if tool == "psy_send"@ {
        if no_name {
            Some(NO_NAME@)
        } else if flag_of(v, "wait"@) && no_input {
            Some("missing required parameter: input (required for wait mode)"@)
        } else if !flag_of(v, "wait"@) && !flag_of(v, "eof"@) && no_input {
            Some("missing required parameter: input (or set eof: true)"@)
        } else {
            None
        }
    } else {
        Some("unknown tool: "@ + tool)
    }
}

/// Whether a call is what a tool and its arguments ask for.
pub open spec fn call_as_asked(c: ToolCall, tool: Seq<char>, v: Js) -> bool {
    match c {
        ToolCall::Run(a) => tool == "psy_run"@ && runs_as_asked(a, v),
        ToolCall::Ps => tool == "psy_ps"@,
        ToolCall::Logs(a, structured) => tool == "psy_logs"@ && logs_as_asked(a, v) && structured
            == (json::text_member(v, "format"@) == Some("structured"@)),
        ToolCall::Stop(a) => tool == "psy_stop"@ && json::text_member(v, "name"@) == Some(a.name@),
        ToolCall::History(a) => tool == "psy_history"@ && json::text_member(v, "name"@) == Some(
            a.name@,
        ),
        ToolCall::Restart(a) => tool == "psy_restart"@ && json::text_member(v, "name"@) == Some(
            a.name@,
        ),
        ToolCall::SendWait(a) => {
            &&& tool == "psy_send"@
            &&& flag_of(v, "wait"@)
            &&& json::text_member(v, "name"@) == Some(a.name@)
            &&& json::text_member(v, "input"@) == Some(a.input@)
            &&& text::opt_text(a.timeout) == json::text_member(v, "wait_timeout"@)
            &&& text::opt_text(a.idle_timeout) == json::text_member(v, "idle_timeout"@)
            &&& text::opt_text(a.prompt) == json::text_member(v, "wait_prompt"@)
        },
        ToolCall::Send(a) => {
            &&& tool == "psy_send"@
            &&& !flag_of(v, "wait"@)
            &&& json::text_member(v, "name"@) == Some(a.name@)
            &&& a.eof == flag_of(v, "eof"@)
            &&& text::opt_text(a.input) == if a.eof {
                None
            } else {
                Some(json::text_member(v, "input"@)->0 + "\n"@)
            }
        },
        ToolCall::Schema => tool == "psy_psyfile_schema"@,
        ToolCall::Clean => tool == "psy_clean"@,
    }
}

fn read_run(name: String, v: &Json) -> (r: Result<RunArgs, String>)
    requires
        json::text_member(json::model(*v), "name"@) == Some(name@),
    ensures
        match r {
            Ok(a) => runs_as_asked(a, json::model(*v)),
            Err(e) => wait_of(json::model(*v)) == Err::<Option<WaitView>, Seq<char>>(e@),
        },
{
    let wait_for = match read_wait(v) {
        Ok(w) => w,
        Err(e) => {
            return Err(e);
        },
    };
    let command = match get_list(v, "command") {
        Some(l) => l,
        None => {
            let none: Vec<String> = Vec::new();
            proof {
                assert(text::texts(none@) =~= Seq::<Seq<char>>::empty());
            }
            none
        },
    };
    let restart = match json::get_text(v, "restart") {
        Some(s) => {
            if text::same(s.as_str(), "on_failure") {
                RestartPolicy::OnFailure
            } else if text::same(s.as_str(), "always") {
                RestartPolicy::Always
            } else {
                RestartPolicy::No
            }
        },
        None => RestartPolicy::No,
    };
    let env = match json::get(v, "env") {
        Some(e) => read_env(e),
        None => {
            let none: NameMap<String> = NameMap::new();
            proof {
                assert(psyfile::env_view(none) =~= Map::<Seq<char>, Seq<char>>::empty());
            }
            none
        },
    };
    let ports = match json::get_array(v, "ports") {
        Some(a) => read_ports(a),
        None => {
            let none: Vec<PortDefArg> = Vec::new();
            proof {
                assert(api::ports_asked(none@) =~= Seq::<(Seq<char>, Option<u16>)>::empty());
            }
            none
        },
    };
    Ok(
        RunArgs {
            name,
            command,
            restart,
            env,
            attach: false,
            interactive: get_flag(v, "interactive"),
            raw_stdio: false,
            extra_args: get_list(v, "args"),
            wait_for,
            wait_timeout: copy_text(v, "timeout"),
            ports,
            cwd: None,
            ready: None,
            healthcheck: None,
            depends_on: Vec::new(),
            metadata: NameMap::new(),
        },
    )
}

fn read_logs(name: String, v: &Json) -> (r: LogsArgs)
    requires
        json::text_member(json::model(*v), "name"@) == Some(name@),
    ensures
        logs_as_asked(r, json::model(*v)),
{
    let tail: usize = match json::get_number(v, "tail") {
        Some(n) => n as usize,
        None => 50,
    };
    let stream = match json::get_text(v, "stream") {
        Some(s) => {
            if text::same(s.as_str(), "stdout") {
                StreamFilter::Stdout
            } else if text::same(s.as_str(), "stderr") {
                StreamFilter::Stderr
            } else {
                StreamFilter::All
            }
        },
        None => StreamFilter::All,
    };
    LogsArgs {
        name,
        tail: Some(tail),
        stream,
        since: copy_text(v, "since"),
        until: copy_text(v, "until"),
        grep: copy_text(v, "grep"),
        run: match json::get_number(v, "run") {
            Some(n) => Some(n as u32),
            None => None,
        },
        previous: get_flag(v, "previous"),
        probe: get_flag(v, "probe"),
    }
}

fn read_send(name: String, v: &Json) -> (r: Result<ToolCall, String>)
    requires
        json::text_member(json::model(*v), "name"@) == Some(name@),
    ensures
        match r {
            Ok(c) => call_error("psy_send"@, json::model(*v)) is None && call_as_asked(
                c,
                "psy_send"@,
                json::model(*v),
            ),
            Err(e) => call_error("psy_send"@, json::model(*v)) == Some(e@),
        },
{
    proof {
        lemma_tool_names();
    }
    let wait = get_flag(v, "wait");
    if wait {
        return match json::get_text(v, "input") {
            Some(input) => Ok(
                ToolCall::SendWait(
                    SendWaitArgs {
                        name,
                        input: text::copy(input.as_str()),
                        timeout: copy_text(v, "wait_timeout"),
                        idle_timeout: copy_text(v, "idle_timeout"),
                        prompt: copy_text(v, "wait_prompt"),
                    },
                ),
            ),
            None => Err(
                text::copy("missing required parameter: input (required for wait mode)"),
            ),
        };
    }
    let eof = get_flag(v, "eof");
    if eof {
        return Ok(ToolCall::Send(SendArgs { name, input: None, eof }));
    }
    match json::get_text(v, "input") {
        Some(t) => Ok(
            ToolCall::Send(
                SendArgs { name, input: Some(text::concat2(t.as_str(), "\n")), eof },
            ),
        ),
        None => Err(text::copy("missing required parameter: input (or set eof: true)")),
    }
}

proof fn lemma_schema_tool()
    ensures
        "psy_psyfile_schema"@ != "psy_run"@,
        "psy_psyfile_schema"@ != "psy_ps"@,
        "psy_psyfile_schema"@ != "psy_logs"@,
        "psy_psyfile_schema"@ != "psy_stop"@,
        "psy_psyfile_schema"@ != "psy_history"@,
        "psy_psyfile_schema"@ != "psy_restart"@,
        "psy_psyfile_schema"@ != "psy_send"@,
        "psy_psyfile_schema"@ != "psy_clean"@,
{
    reveal_strlit("psy_psyfile_schema");
    reveal_strlit("psy_run");
    reveal_strlit("psy_ps");
    reveal_strlit("psy_logs");
    reveal_strlit("psy_stop");
    reveal_strlit("psy_history");
    reveal_strlit("psy_restart");
    reveal_strlit("psy_send");
    reveal_strlit("psy_clean");
    assert("psy_psyfile_schema"@.len() == 18);
}

proof fn lemma_tool_names()
    ensures
        "psy_send"@ != "psy_ps"@,
        "psy_send"@ != "psy_psyfile_schema"@,
        "psy_send"@ != "psy_clean"@,
        "psy_send"@ != "psy_run"@,
        "psy_send"@ != "psy_logs"@,
        "psy_send"@ != "psy_stop"@,
        "psy_send"@ != "psy_history"@,
        "psy_send"@ != "psy_restart"@,
        "psy_run"@ != "psy_ps"@,
        "psy_run"@ != "psy_psyfile_schema"@,
        "psy_run"@ != "psy_clean"@,
        "psy_logs"@ != "psy_ps"@,
        "psy_logs"@ != "psy_psyfile_schema"@,
        "psy_logs"@ != "psy_clean"@,
        "psy_logs"@ != "psy_run"@,
{
    reveal_strlit("psy_send");
    reveal_strlit("psy_ps");
    reveal_strlit("psy_psyfile_schema");
    reveal_strlit("psy_clean");
    reveal_strlit("psy_run");
    reveal_strlit("psy_logs");
    reveal_strlit("psy_stop");
    reveal_strlit("psy_history");
    reveal_strlit("psy_restart");
    assert("psy_send"@[4] == 's' && "psy_send"@[5] == 'e');
    assert("psy_stop"@[5] == 't');
    assert("psy_logs"@[4] == 'l');
    assert("psy_run"@[4] == 'r');
    assert("psy_clean"@[4] == 'c');
    assert("psy_psyfile_schema"@[4] == 'p');
}

/// Reads a call of a tool.
pub fn read_call(tool: &str, args: &Json) -> (r: Result<ToolCall, String>)
    ensures
        match r {
            Ok(c) => call_error(tool@, json::model(*args)) is None && call_as_asked(
                c,
                tool@,
                json::model(*args),
            ),
            Err(e) => call_error(tool@, json::model(*args)) == Some(e@),
        },
{
    if text::same(tool, "psy_ps") {
        return Ok(ToolCall::Ps);
    }
    if text::same(tool, "psy_psyfile_schema") {
        return Ok(ToolCall::Schema);
    }
    if text::same(tool, "psy_clean") {
        return Ok(ToolCall::Clean);
    }
    let run = text::same(tool, "psy_run");
    let logs = text::same(tool, "psy_logs");
    let stop = text::same(tool, "psy_stop");
    let history = text::same(tool, "psy_history");
    let restart = text::same(tool, "psy_restart");
    let send = text::same(tool, "psy_send");
    if !run && !logs && !stop && !history && !restart && !send {
        return Err(text::concat2("unknown tool: ", tool));
    }
    let name = match copy_text(args, "name") {
        Some(n) => n,
        None => {
            return Err(text::copy(NO_NAME));
        },
    };
    proof {
        lemma_tool_names();
    }
    if run {
        return match read_run(name, args) {
            Ok(a) => Ok(ToolCall::Run(a)),
            Err(e) => Err(e),
        };
    }
    if logs {
        let structured = match json::get_text(args, "format") {
            Some(f) => text::same(f.as_str(), "structured"),
            None => false,
        };
        return Ok(ToolCall::Logs(read_logs(name, args), structured));
    }
    if stop {
        return Ok(ToolCall::Stop(StopArgs { name }));
    }
    if history {
        return Ok(ToolCall::History(HistoryArgs { name }));
    }
    if restart {
        return Ok(ToolCall::Restart(RestartArgs { name }));
    }
    read_send(name, args)
}

// ---------------------------------------------------------------------------
// Results
// ---------------------------------------------------------------------------

/// What an answer carries in the form that a table is laid out from, where it was
/// read in that form.
#[derive(Debug)]
pub enum Listing {
    Processes(PsResponse),
    Runs(HistoryResponse),
    Unread,
}

/// A value with indentation.
pub open spec fn indented(data: Option<Js>) -> Seq<char> {
    json::pretty(
        json::written(
            match data {
                Some(v) => v,
                None => Js::Null,
            },
        ),
    )
}

fn indent(data: &Option<Json>) -> (r: String)
    ensures
        r@ == indented(api::data_model(*data)),
{
    match data {
        Some(v) => json::write_pretty(v),
        None => json::write_pretty(&Json::Null),
    }
}

/// The contents of some log lines.
pub open spec fn contents_in(a: Seq<Js>) -> Seq<Seq<char>>
    decreases a.len(),
{
    if a.len() == 0 {
        Seq::empty()
    } else {
        match json::text_member(a.last(), "content"@) {
            Some(s) => contents_in(a.drop_last()).push(s),
            None => contents_in(a.drop_last()),
        }
    }
}

fn read_contents(a: &Vec<Json>) -> (r: Vec<String>)
    ensures
        text::texts(r@) == contents_in(json::models(a@)),
{
    let ghost all = json::models(a@);
    let mut out: Vec<String> = Vec::new();
    let mut i: usize = 0;
    proof {
        assert(text::texts(out@) =~= contents_in(all.take(0)));
    }
    while i < a.len()
        invariant
            i <= a.len(),
            all == json::models(a@),
            text::texts(out@) == contents_in(all.take(i as int)),
        decreases a.len() - i,
    {
        let ghost before = out@;
        proof {
            assert(all.take(i + 1).drop_last() =~= all.take(i as int));
            assert(all.take(i + 1).last() == json::model(a@[i as int]));
        }
        match json::get_text(&a[i], "content") {
            Some(s) => {
                out.push(text::copy(s.as_str()));
                proof {
                    assert(text::texts(out@) =~= text::texts(before).push(s@));
                }
            },
            None => {},
        }
        i += 1;
    }
    proof {
        assert(all.take(all.len() as int) =~= all);
    }
    out
}

/// The list under `lines` in an answer.
pub open spec fn lines_of(data: Option<Js>) -> Option<Seq<Js>> {
    match data {
        Some(v) => json::array_member(v, "lines"@),
        None => None,
    }
}

/// The text that a call gives, once it has been answered with success.
pub open spec fn result_text(c: ToolCall, data: Option<Js>, listing: Listing) -> Seq<char> {
    match c {
        ToolCall::Run(_) => indented(data),
        ToolCall::Send(_) => indented(data),
        ToolCall::Ps => match (data, listing) {
            (None, _) => "No processes"@,
            (_, Listing::Processes(p)) => tables::ps_table(p.processes@),
            _ => indented(data),
        },
        ToolCall::History(_) => match (data, listing) {
            (None, _) => "No history"@,
            (_, Listing::Runs(h)) => tables::history_table(h.name@, h.runs@),
            _ => indented(data),
        },
        ToolCall::Logs(_, structured) => if structured {
            if data is Some {
                indented(data)
            } else {
                "(no output)"@
            }
        } else {
            match lines_of(data) {
                Some(a) => text::joined(contents_in(a), "\n"@),
                None => "(no output)"@,
            }
        },
        ToolCall::SendWait(_) => match lines_of(data) {
            Some(a) => text::joined(texts_in(a), "\n"@),
            None => ""@,
        },
        ToolCall::Stop(_) => "stopped"@,
        ToolCall::Restart(_) => "restarted"@,
        ToolCall::Schema => indented(Some(schema::psyfile_schema())),
        ToolCall::Clean => "removed "@ + text::decimal(api::removed_of(data) as nat)
            + " stopped process(es)"@,
    }
}

fn join_lines(data: &Option<Json>, contents: bool) -> (r: Option<String>)
    ensures
        text::opt_text(r) == (match lines_of(api::data_model(*data)) {
            Some(a) => Some(
                text::joined(
                    if contents {
                        contents_in(a)
                    } else {
                        texts_in(a)
                    },
                    "\n"@,
                ),
            ),
            None => None,
        }),
{
    match data {
        Some(v) => match json::get_array(v, "lines") {
            Some(a) => {
                let parts = if contents {
                    read_contents(a)
                } else {
                    read_texts(a)
                };
                Some(text::join(&parts, "\n"))
            },
            None => None,
        },
        None => None,
    }
}

/// Writes the text that a call gives, once it has been answered with success.
pub fn show_result(c: &ToolCall, data: &Option<Json>, listing: &Listing) -> (r: String)
    ensures
        r@ == result_text(*c, api::data_model(*data), *listing),
{
    match c {
        ToolCall::Run(_) => indent(data),
        ToolCall::Send(_) => indent(data),
        ToolCall::Ps => {
            if data.is_none() {
                text::copy("No processes")
            } else {
                match listing {
                    Listing::Processes(p) => tables::format_ps_table(p),
                    _ => indent(data),
                }
            }
        },
        ToolCall::History(_) => {
            if data.is_none() {
                text::copy("No history")
            } else {
                match listing {
                    Listing::Runs(h) => tables::format_history_table(h),
                    _ => indent(data),
                }
            }
        },
        ToolCall::Logs(_, structured) => {
            if *structured {
                if data.is_some() {
                    indent(data)
                } else {
                    text::copy("(no output)")
                }
            } else {
                match join_lines(data, true) {
                    Some(s) => s,
                    None => text::copy("(no output)"),
                }
            }
        },
        ToolCall::SendWait(_) => match join_lines(data, false) {
            Some(s) => s,
            None => text::copy(""),
        },
        ToolCall::Stop(_) => text::copy("stopped"),
        ToolCall::Restart(_) => text::copy("restarted"),
        ToolCall::Schema => {
            let s = schema::json_schema();
            json::write_pretty(&s)
        },
        ToolCall::Clean => {
            let n = api::removed(data);
            text::concat3(
                "removed ",
                text::decimal_of(n as u128).as_str(),
                " stopped process(es)",
            )
        },
    }
}

/// A text as it is handed to an agent.
pub open spec fn text_content(t: Seq<char>) -> Js {
    json::object_of(Seq::empty().push(("type"@, Js::Text("text"@))).push(("text"@, Js::Text(t))))
}

/// The result of a call, as it is handed to an agent.
pub open spec fn call_result(t: Seq<char>, is_error: bool) -> Js {
    json::object_of(
        Seq::empty()
            .push(("content"@, Js::Array(Seq::empty().push(text_content(t)))))
            .push(("isError"@, Js::Bool(is_error))),
    )
}

fn result_value(t: &str, is_error: bool) -> (r: Json)
    ensures
        json::model(r) == call_result(t@, is_error),
{
    Fields::new()
        .with(
            "content",
            Items::new()
                .with(Fields::new().with_text("type", "text").with_text("text", t).done())
                .done(),
        )
        .with("isError", Json::Bool(is_error))
        .done()
}

/// What a call comes to: its text, or what went wrong.
pub open spec fn outcome(
    c: ToolCall,
    answer: Result<Response, String>,
    listing: Listing,
) -> Result<Seq<char>, Seq<char>> {
    match answer {
        Err(e) => Err(e@),
        Ok(r) => if r.ok {
            Ok(result_text(c, api::data_model(r.data), listing))
        } else {
            Err(
                match r.error {
                    Some(e) => e@,
                    None => "unknown error"@,
                },
            )
        },
    }
}

/// The result of a call of a tool, once the root has answered.
pub fn finish_call(c: &ToolCall, answer: &Result<Response, String>, listing: &Listing) -> (r: Json)
    ensures
        json::model(r) == (match outcome(*c, *answer, *listing) {
            Ok(t) => call_result(t, false),
            Err(e) => call_result(e, true),
        }),
{
    match answer {
        Err(e) => result_value(e.as_str(), true),
        Ok(a) => {
            if a.ok {
                let t = show_result(c, &a.data, listing);
                result_value(t.as_str(), false)
            } else {
                match &a.error {
                    Some(e) => result_value(e.as_str(), true),
                    None => result_value("unknown error", true),
                }
            }
        },
    }
}

// ---------------------------------------------------------------------------
// JSON-RPC
// ---------------------------------------------------------------------------

/// A request to the server.
#[derive(Debug)]
pub struct JsonRpcRequest {
    /// What names the request; without it the request is a notice.
    pub id: Option<Json>,
    pub method: String,
    pub params: Option<Json>,
}

/// What a response holds beside its result: its version and, where the request had
/// one, its id.
pub open spec fn rpc_head(id: Option<Js>) -> Seq<(Seq<char>, Js)> {
    let head = Seq::empty().push(("jsonrpc"@, Js::Text("2.0"@)));
    match id {
        Some(v) => head.push(("id"@, v)),
        None => head,
    }
}

/// A response that reports success.
pub open spec fn rpc_success(id: Option<Js>, result: Js) -> Js {
    json::object_of(rpc_head(id).push(("result"@, result)))
}

/// A response that reports an error.
pub open spec fn rpc_error(id: Option<Js>, code: int, message: Seq<char>) -> Js {
    json::object_of(
        rpc_head(id).push(
            (
                "error"@,
                json::object_of(
                    Seq::empty().push(("code"@, Js::Negative(code as i64))).push(
                        ("message"@, Js::Text(message)),
                    ),
                ),
            ),
        ),
    )
}

fn head_fields(id: &Option<Json>) -> (r: Fields)
    ensures
        r@ == rpc_head(api::data_model(*id)),
{
    let f = Fields::new().with_text("jsonrpc", "2.0");
    match id {
        Some(v) => f.with("id", v.clone()),
        None => f,
    }
}

/// Makes a response that reports success.
pub fn success(id: &Option<Json>, result: Json) -> (r: Json)
    ensures
        json::model(r) == rpc_success(api::data_model(*id), json::model(result)),
{
    head_fields(id).with("result", result).done()
}

/// Makes a response that reports an error.
pub fn error(id: &Option<Json>, code: i64, message: &str) -> (r: Json)
    ensures
        json::model(r) == rpc_error(api::data_model(*id), code as int, message@),
{
    head_fields(id)
        .with(
            "error",
            Fields::new().with("code", Json::Negative(code)).with_text("message", message).done(),
        )
        .done()
}

/// The response to a line that is no request.
pub fn parse_error(e: &str) -> (r: Json)
    ensures
        json::model(r) == rpc_error(None, -32700, "Parse error: "@ + e@),
{
    let m = text::concat2("Parse error: ", e);
    error(&None, -32700, m.as_str())
}

/// What the server says of itself.
pub open spec fn server_info() -> Js {
    json::object_of(
        Seq::empty()
            .push(("protocolVersion"@, Js::Text("2024-11-05"@)))
            .push(
                (
                    "serverInfo"@,
                    json::object_of(
                        Seq::empty()
                            .push(("name"@, Js::Text("psy"@)))
                            .push(("version"@, Js::Text(VERSION@))),
                    ),
                ),
            )
            .push(
                (
                    "capabilities"@,
                    json::object_of(
                        Seq::empty().push(("tools"@, json::object_of(Seq::empty()))),
                    ),
                ),
            ),
    )
}

fn server_value() -> (r: Json)
    ensures
        json::model(r) == server_info(),
{
    Fields::new()
        .with_text("protocolVersion", "2024-11-05")
        .with(
            "serverInfo",
            Fields::new().with_text("name", "psy").with_text("version", VERSION).done(),
        )
        .with("capabilities", Fields::new().with("tools", Fields::new().done()).done())
        .done()
}

/// The tool that a request calls, where it names one.
pub open spec fn tool_called(params: Option<Js>) -> Seq<char> {
    match params {
        Some(p) => match json::text_member(p, "name"@) {
            Some(n) => n,
            None => ""@,
        },
        None => ""@,
    }
}

/// The arguments of the tool that a request calls.
pub open spec fn tool_arguments(params: Option<Js>) -> Js {
    match params {
        Some(p) => match json::member(p, "arguments"@) {
            Some(a) => a,
            None => json::object_of(Seq::empty()),
        },
        None => json::object_of(Seq::empty()),
    }
}

/// The step that a request leads to.
#[derive(Debug)]
pub enum RpcStep {
    /// Give this response.
    Respond(Json),
    /// Give no response.
    Silent,
    /// Ask the root, then finish the call.
    Call(ToolCall),
}

/// Decides what a request leads to.
pub fn dispatch(req: &JsonRpcRequest) -> (r: RpcStep)
    ensures
        ({
            let id = api::data_model(req.id);
            let params = api::data_model(req.params);
            let m = req.method@;
            if m == "initialize"@ {
                r matches RpcStep::Respond(v) && json::model(v) == rpc_success(id, server_info())
            } else if m == "notifications/initialized"@ || m == "initialized"@ {
                r is Silent
            } else if m == "tools/list"@ {
                r matches RpcStep::Respond(v) && json::model(v) == rpc_success(id, tools::tools())
            } else if m == "tools/call"@ {
                match call_error(tool_called(params), tool_arguments(params)) {
                    Some(e) => r matches RpcStep::Respond(v) && json::model(v) == rpc_success(
                        id,
                        call_result(e, true),
                    ),
                    None => if tool_called(params) == "psy_psyfile_schema"@ {
                        r matches RpcStep::Respond(v) && json::model(v) == rpc_success(
                            id,
                            call_result(indented(Some(schema::psyfile_schema())), false),
                        )
                    } else {
                        r matches RpcStep::Call(c) && call_as_asked(
                            c,
                            tool_called(params),
                            tool_arguments(params),
                        )
                    },
                }
            } else {
                r matches RpcStep::Respond(v) && json::model(v) == rpc_error(
                    id,
                    -32601,
                    "Method not found: "@ + m,
                )
            }
        }),
{
    let m = req.method.as_str();
    if text::same(m, "initialize") {
        return RpcStep::Respond(success(&req.id, server_value()));
    }
    if text::same(m, "notifications/initialized") || text::same(m, "initialized") {
        return RpcStep::Silent;
    }
    if text::same(m, "tools/list") {
        return RpcStep::Respond(success(&req.id, tools::tool_schemas()));
    }
    if text::same(m, "tools/call") {
        let tool = match &req.params {
            Some(p) => match json::get_text(p, "name") {
                Some(n) => text::copy(n.as_str()),
                None => text::copy(""),
            },
            None => text::copy(""),
        };
        let args = match &req.params {
            Some(p) => match json::get(p, "arguments") {
                Some(a) => a.clone(),
                None => Fields::new().done(),
            },
            None => Fields::new().done(),
        };
        return match read_call(tool.as_str(), &args) {
            Ok(ToolCall::Schema) => {
                let t = show_result(&ToolCall::Schema, &None, &Listing::Unread);
                RpcStep::Respond(success(&req.id, result_value(t.as_str(), false)))
            },
            Ok(c) => {
                proof {
                    lemma_schema_tool();
                }
                RpcStep::Call(c)
            },
            Err(e) => RpcStep::Respond(success(&req.id, result_value(e.as_str(), true))),
        };
    }
    let message = text::concat2("Method not found: ", m);
    RpcStep::Respond(error(&req.id, -32601, message.as_str()))
}

} // verus!

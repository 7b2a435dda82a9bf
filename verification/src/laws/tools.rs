//! What the tools of an agent ask a root for, and what the agent is handed.
use crate::json;
use crate::json::{Js, Json};
use crate::laws::fields;
use crate::mcp;
use crate::mcp::tools;
use crate::mcp::{JsonRpcRequest, Listing, RpcStep, ToolCall};
use crate::protocol::{Response, RestartPolicy};
use crate::psyfile;
use crate::schema;
use crate::text;
use vstd::prelude::*;

verus! {

// ---------------------------------------------------------------------------
// Calls
// ---------------------------------------------------------------------------

proof fn lemma_tool_names()
    ensures
        "psy_run"@.len() == 7,
        "psy_ps"@.len() == 6,
        "psy_logs"@.len() == 8 && "psy_logs"@[4] == 'l',
        "psy_stop"@.len() == 8 && "psy_stop"@[4] == 's' && "psy_stop"@[5] == 't',
        "psy_history"@.len() == 11 && "psy_history"@[4] == 'h',
        "psy_restart"@.len() == 11 && "psy_restart"@[4] == 'r',
        "psy_send"@.len() == 8 && "psy_send"@[4] == 's' && "psy_send"@[5] == 'e',
        "psy_psyfile_schema"@.len() == 18,
        "psy_clean"@.len() == 9,
{
    reveal_strlit("psy_run");
    reveal_strlit("psy_ps");
    reveal_strlit("psy_logs");
    reveal_strlit("psy_stop");
    reveal_strlit("psy_history");
    reveal_strlit("psy_restart");
    reveal_strlit("psy_send");
    reveal_strlit("psy_psyfile_schema");
    reveal_strlit("psy_clean");
}

/// A call of a tool asks for what the tool is for.
pub proof fn lemma_tools(tool: &str, args: Json, r: Result<ToolCall, String>)
    requires
        call_ensures(mcp::read_call, (tool, &args), r),
        r is Ok,
    ensures
        tool@ == "psy_run"@ <==> r->Ok_0 is Run,
        tool@ == "psy_ps"@ <==> r->Ok_0 is Ps,
        tool@ == "psy_logs"@ <==> r->Ok_0 is Logs,
        tool@ == "psy_stop"@ <==> r->Ok_0 is Stop,
        tool@ == "psy_history"@ <==> r->Ok_0 is History,
        tool@ == "psy_restart"@ <==> r->Ok_0 is Restart,
        tool@ == "psy_send"@ <==> r->Ok_0 is Send || r->Ok_0 is SendWait,
        tool@ == "psy_psyfile_schema"@ <==> r->Ok_0 is Schema,
        tool@ == "psy_clean"@ <==> r->Ok_0 is Clean,
{
    lemma_tool_names();
}

/// A tool that works on a process is refused without a name; one that works on none is
/// not; and an unknown tool is.
pub proof fn lemma_refused_calls(tool: &str, args: Json, r: Result<ToolCall, String>)
    requires
        call_ensures(mcp::read_call, (tool, &args), r),
    ensures
        tool@ == "psy_ps"@ || tool@ == "psy_psyfile_schema"@ || tool@ == "psy_clean"@ ==> r is Ok,
        (tool@ == "psy_run"@ || tool@ == "psy_logs"@ || tool@ == "psy_stop"@ || tool@
            == "psy_history"@ || tool@ == "psy_restart"@ || tool@ == "psy_send"@) && json::member(
            json::model(args),
            "name"@,
        ) is None ==> r is Err,
        (tool@ == "psy_logs"@ || tool@ == "psy_stop"@ || tool@ == "psy_history"@ || tool@
            == "psy_restart"@) && (json::member(json::model(args), "name"@) matches Some(
            Js::Text(n),
        )) ==> r is Ok,
        tool@.len() == 0 ==> r is Err,
{
    lemma_tool_names();
}

/// A call to run a process asks for what its arguments say.
pub proof fn lemma_run_tool(
    tool: &str,
    args: Json,
    r: Result<ToolCall, String>,
    n: Seq<char>,
    e: Map<Seq<char>, Js>,
    k: Seq<char>,
    value: Seq<char>,
)
    requires
        call_ensures(mcp::read_call, (tool, &args), r),
        r is Ok,
        r->Ok_0 is Run,
    ensures
        ({
            let v = json::model(args);
            let a = r->Ok_0->Run_0;
            &&& json::member(v, "name"@) == Some(Js::Text(a.name@))
            &&& json::member(v, "command"@) is None ==> a.command@.len() == 0
            &&& a.extra_args is Some <==> (json::member(v, "args"@) is Some && json::member(
                v,
                "args"@,
            )->0 is Array)
            &&& json::member(v, "restart"@) is None ==> a.restart == RestartPolicy::No
            &&& json::member(v, "restart"@) == Some(Js::Text("always"@)) ==> a.restart
                == RestartPolicy::Always
            &&& json::member(v, "restart"@) == Some(Js::Text("on_failure"@)) ==> a.restart
                == RestartPolicy::OnFailure
            &&& json::member(v, "restart"@) == Some(Js::Text("no"@)) ==> a.restart
                == RestartPolicy::No
            &&& a.interactive <==> json::member(v, "interactive"@) == Some(Js::Bool(true))
            &&& json::member(v, "timeout"@) == Some(Js::Text(n)) ==> a.wait_timeout is Some
                && a.wait_timeout->0@ == n
            &&& json::member(v, "timeout"@) is None ==> a.wait_timeout is None
            &&& json::member(v, "wait_for"@) is None <==> a.wait_for is None
            &&& json::member(v, "wait_for"@) == Some(Js::Text("ready"@)) ==> a.wait_for->0 is Ready
            &&& json::member(v, "wait_for"@) == Some(Js::Text("exit"@)) ==> a.wait_for->0 is Exit
            &&& json::member(v, "env"@) == Some(Js::Object(e)) && e.dom().contains(k) && e[k]
                == Js::Text(value) ==> a.env@.dom().contains(k) && a.env@[k]@ == value
            &&& json::member(v, "env"@) is None ==> !a.env@.dom().contains(k)
            &&& !a.attach
            &&& a.cwd is None
            &&& a.ready is None
            &&& a.healthcheck is None
        }),
{
    reveal_strlit("always");
    reveal_strlit("on_failure");
    reveal_strlit("no");
    reveal_strlit("ready");
    reveal_strlit("exit");
    assert("always"@.len() == 6 && "on_failure"@.len() == 10 && "no"@.len() == 2);
    assert("ready"@.len() == 5 && "exit"@.len() == 4);
    let v = json::model(args);
    let a = r->Ok_0->Run_0;
    assert(text::texts(a.command@).len() == a.command@.len());
    let env = psyfile::env_view(a.env);
    assert(env.dom().contains(k) <==> a.env@.dom().contains(k));
    if env.dom().contains(k) {
        assert(env[k] == a.env@[k]@);
    }
    if json::member(v, "wait_for"@) is None {
        assert(mcp::opt_wait(a.wait_for) is None);
    }
}

/// A call for a log asks for the last fifty lines where it gives no number, and otherwise
/// for what its arguments say.
pub proof fn lemma_logs_tool(
    tool: &str,
    args: Json,
    r: Result<ToolCall, String>,
    n: u64,
    s: Seq<char>,
)
    requires
        call_ensures(mcp::read_call, (tool, &args), r),
        r is Ok,
        r->Ok_0 is Logs,
    ensures
        ({
            let v = json::model(args);
            let a = r->Ok_0->Logs_0;
            &&& json::member(v, "name"@) == Some(Js::Text(a.name@))
            &&& json::member(v, "tail"@) is None ==> a.tail == Some(50usize)
            &&& json::member(v, "tail"@) == Some(Js::Unsigned(n)) && n <= usize::MAX ==> a.tail
                == Some(n as usize)
            &&& json::member(v, "stream"@) is None ==> a.stream is All
            &&& json::member(v, "stream"@) == Some(Js::Text("stdout"@)) ==> a.stream is Stdout
            &&& json::member(v, "stream"@) == Some(Js::Text("stderr"@)) ==> a.stream is Stderr
            &&& json::member(v, "since"@) == Some(Js::Text(s)) ==> a.since is Some && a.since->0@
                == s
            &&& json::member(v, "until"@) == Some(Js::Text(s)) ==> a.until is Some && a.until->0@
                == s
            &&& json::member(v, "grep"@) == Some(Js::Text(s)) ==> a.grep is Some && a.grep->0@ == s
            &&& json::member(v, "run"@) == Some(Js::Unsigned(n)) && n <= u32::MAX ==> a.run
                == Some(n as u32)
            &&& json::member(v, "run"@) is None ==> a.run is None
            &&& a.previous <==> json::member(v, "previous"@) == Some(Js::Bool(true))
            &&& a.probe <==> json::member(v, "probe"@) == Some(Js::Bool(true))
            &&& r->Ok_0->Logs_1 <==> json::member(v, "format"@) == Some(Js::Text("structured"@))
        }),
{
    reveal_strlit("stdout");
    reveal_strlit("stderr");
    assert("stdout"@[3] == 'o' && "stderr"@[3] == 'e');
}

/// A call to send input waits for output just where it is told to. What it sends without
/// waiting is a line, or the end of the input.
pub proof fn lemma_send_tool(
    tool: &str,
    args: Json,
    r: Result<ToolCall, String>,
    input: Seq<char>,
)
    requires
        call_ensures(mcp::read_call, (tool, &args), r),
        tool@ == "psy_send"@,
        json::member(json::model(args), "input"@) == Some(Js::Text(input)),
        r is Ok,
    ensures
        ({
            let v = json::model(args);
            &&& r->Ok_0 is SendWait <==> json::member(v, "wait"@) == Some(Js::Bool(true))
            &&& r->Ok_0 is Send <==> json::member(v, "wait"@) != Some(Js::Bool(true))
            &&& r->Ok_0 matches ToolCall::SendWait(a) ==> a.input@ == input && json::member(
                v,
                "name"@,
            ) == Some(Js::Text(a.name@))
            &&& r->Ok_0 matches ToolCall::Send(a) ==> {
                &&& json::member(v, "name"@) == Some(Js::Text(a.name@))
                &&& a.eof <==> json::member(v, "eof"@) == Some(Js::Bool(true))
                &&& a.eof ==> a.input is None
                &&& !a.eof ==> a.input is Some && a.input->0@.len() > 0 && a.input->0@.last()
                    == '\n' && a.input->0@.drop_last() == input
            }
        }),
{
    lemma_tool_names();
    reveal_strlit("\n");
    assert((input + "\n"@).drop_last() =~= input);
    if let ToolCall::Send(a) = r->Ok_0 {
        if !a.eof {
            assert(text::opt_text(a.input) == Some(input + "\n"@));
        } else {
            assert(text::opt_text(a.input) is None);
        }
    }
}

// ---------------------------------------------------------------------------
// Results
// ---------------------------------------------------------------------------

/// A call that the root refuses, or that does not reach it, is handed over as an error with
/// the reason, and any other as a success.
pub proof fn lemma_call_is_finished(
    c: ToolCall,
    answer: Result<Response, String>,
    listing: Listing,
    r: Json,
)
    requires
        call_ensures(mcp::finish_call, (&c, &answer, &listing), r),
    ensures
        ({
            let v = json::model(r);
            let failed = answer is Err || !answer->Ok_0.ok;
            &&& json::member(v, "isError"@) == Some(Js::Bool(failed))
            &&& json::member(v, "content"@) is Some
            &&& json::member(v, "content"@)->0 is Array
            &&& json::member(v, "content"@)->0->Array_0.len() == 1
            &&& answer matches Err(e) ==> json::member(
                json::member(v, "content"@)->0->Array_0[0],
                "text"@,
            ) == Some(Js::Text(e@))
            &&& answer is Ok && failed && answer->Ok_0.error is Some ==> json::member(
                json::member(v, "content"@)->0->Array_0[0],
                "text"@,
            ) == Some(Js::Text(answer->Ok_0.error->0@))
            &&& !failed && c is Stop ==> json::member(
                json::member(v, "content"@)->0->Array_0[0],
                "text"@,
            ) == Some(Js::Text("stopped"@))
            &&& !failed && c is Restart ==> json::member(
                json::member(v, "content"@)->0->Array_0[0],
                "text"@,
            ) == Some(Js::Text("restarted"@))
        }),
{
    reveal_strlit("content");
    reveal_strlit("isError");
    reveal_strlit("type");
    reveal_strlit("text");
    assert("content"@[0] == 'c' && "isError"@[0] == 'i');
    assert("type"@[1] == 'y' && "text"@[1] == 'e');
    let (t, failed) = match mcp::outcome(c, answer, listing) {
        Ok(t) => (t, false),
        Err(e) => (e, true),
    };
    let one = Seq::empty().push(mcp::text_content(t));
    let s = Seq::empty().push(("content"@, Js::Array(one))).push(("isError"@, Js::Bool(failed)));
    fields::lemma_field(s, 0);
    fields::lemma_field(s, 1);
    let e = Seq::empty().push(("type"@, Js::Text("text"@))).push(("text"@, Js::Text(t)));
    fields::lemma_field(e, 1);
    assert(one[0] == json::object_of(e));
}

/// A response carries the id of its request; a success carries its result and an error its
/// code and message.
pub proof fn lemma_responses(
    id: Json,
    result: Json,
    code: i64,
    message: &str,
    a: Json,
    b: Json,
)
    requires
        call_ensures(mcp::success, (&Some(id), result), a),
        call_ensures(mcp::error, (&Some(id), code, message), b),
    ensures
        json::member(json::model(a), "id"@) == Some(json::model(id)),
        json::member(json::model(a), "jsonrpc"@) == Some(Js::Text("2.0"@)),
        json::member(json::model(a), "result"@) == Some(json::model(result)),
        json::member(json::model(b), "id"@) == Some(json::model(id)),
        json::member(json::model(b), "error"@) is Some,
        json::member(json::member(json::model(b), "error"@)->0, "message"@) == Some(
            Js::Text(message@),
        ),
        json::member(json::member(json::model(b), "error"@)->0, "code"@) == Some(
            Js::Negative(code),
        ),
{
    reveal_strlit("id");
    reveal_strlit("jsonrpc");
    reveal_strlit("result");
    reveal_strlit("error");
    reveal_strlit("code");
    reveal_strlit("message");
    assert("id"@.len() == 2 && "jsonrpc"@.len() == 7 && "result"@.len() == 6 && "error"@.len()
        == 5);
    assert("code"@.len() == 4 && "message"@.len() == 7);
    let head = Seq::empty().push(("jsonrpc"@, Js::Text("2.0"@))).push(("id"@, json::model(id)));
    let s = head.push(("result"@, json::model(result)));
    fields::lemma_field(s, 0);
    fields::lemma_field(s, 1);
    fields::lemma_field(s, 2);
    let what = Seq::empty().push(("code"@, Js::Negative(code))).push(
        ("message"@, Js::Text(message@)),
    );
    fields::lemma_field(what, 0);
    fields::lemma_field(what, 1);
    let e = head.push(("error"@, json::object_of(what)));
    fields::lemma_field(e, 1);
    fields::lemma_field(e, 2);
}

/// A notification gets no response, a call of a tool that is in order goes to the root, and
/// an unknown method is an error.
pub proof fn lemma_dispatch(
    req: JsonRpcRequest,
    p: Json,
    args: Json,
    tool: &str,
    call: Result<ToolCall, String>,
    r: RpcStep,
)
    requires
        call_ensures(mcp::dispatch, (&req,), r),
        call_ensures(mcp::read_call, (tool, &args), call),
        req.params == Some(p),
        json::member(json::model(p), "name"@) == Some(Js::Text(tool@)),
        json::member(json::model(p), "arguments"@) == Some(json::model(args)),
    ensures
        r is Silent <==> req.method@ == "notifications/initialized"@ || req.method@
            == "initialized"@,
        r is Call <==> req.method@ == "tools/call"@ && call is Ok && tool@
            != "psy_psyfile_schema"@,
        r matches RpcStep::Call(c) ==> {
            &&& c is Run <==> tool@ == "psy_run"@
            &&& c is Stop <==> tool@ == "psy_stop"@
            &&& c is Clean <==> tool@ == "psy_clean"@
        },
{
    lemma_tool_names();
    reveal_strlit("initialize");
    reveal_strlit("initialized");
    reveal_strlit("notifications/initialized");
    reveal_strlit("tools/list");
    reveal_strlit("tools/call");
    assert("initialize"@.len() == 10 && "tools/list"@.len() == 10 && "tools/call"@.len() == 10
        && "initialized"@.len() == 11 && "notifications/initialized"@.len() == 25);
    assert("initialize"@[0] == 'i' && "tools/list"@[6] == 'l' && "tools/call"@[6] == 'c'
        && "tools/call"@[0] == 't');
}

// ---------------------------------------------------------------------------
// Announced tools
// ---------------------------------------------------------------------------

proof fn lemma_announced(name: Seq<char>, description: Seq<char>, properties: Js, required: Js)
    ensures
        ({
            let t = tools::tool(name, description, properties, required);
            &&& json::text_member(t, "name"@) == Some(name)
            &&& json::member(t, "inputSchema"@) is Some
            &&& json::member(json::member(t, "inputSchema"@)->0, "properties"@) == Some(properties)
            &&& json::member(json::member(t, "inputSchema"@)->0, "required"@) == Some(required)
        }),
{
    reveal_strlit("name");
    reveal_strlit("description");
    reveal_strlit("inputSchema");
    reveal_strlit("type");
    reveal_strlit("properties");
    reveal_strlit("required");
    assert("name"@.len() == 4 && "description"@.len() == 11 && "inputSchema"@.len() == 11);
    assert("description"@[0] == 'd' && "inputSchema"@[0] == 'i');
    assert("type"@.len() == 4 && "properties"@.len() == 10 && "required"@.len() == 8);
    let inner = Seq::empty()
        .push(("type"@, Js::Text("object"@)))
        .push(("properties"@, properties))
        .push(("required"@, required));
    let outer = Seq::empty()
        .push(("name"@, Js::Text(name)))
        .push(("description"@, Js::Text(description)))
        .push(("inputSchema"@, json::object_of(inner)));
    assert(json::keys(inner)[0] == "type"@ && json::keys(inner)[1] == "properties"@
        && json::keys(inner)[2] == "required"@);
    assert(json::keys(inner).no_duplicates());
    assert(json::keys(outer)[0] == "name"@ && json::keys(outer)[1] == "description"@
        && json::keys(outer)[2] == "inputSchema"@);
    assert(json::keys(outer).no_duplicates());
    json::lemma_entry(inner, 1);
    json::lemma_entry(inner, 2);
    json::lemma_entry(outer, 0);
    json::lemma_entry(outer, 2);
}

/// The name that a tool is announced under.
pub open spec fn announced(r: Js, i: int) -> Option<Seq<char>> {
    match json::array_member(r, "tools"@) {
        Some(a) => if 0 <= i < a.len() {
            json::text_member(a[i], "name"@)
        } else {
            None
        },
        None => None,
    }
}

/// What must be given to a tool that is announced.
pub open spec fn needed(r: Js, i: int) -> Option<Js> {
    match json::array_member(r, "tools"@) {
        Some(a) => match json::member(a[i], "inputSchema"@) {
            Some(s) => json::member(s, "required"@),
            None => None,
        },
        None => None,
    }
}

/// Each tool that can be called is announced, and no other; a tool that is about one
/// process needs the name of the process.
pub proof fn lemma_announced_tools(r: Json, i: int, name: Js)
    requires
        call_ensures(tools::tool_schemas, (), r),
        name == Js::Array(seq![Js::Text("name"@)]),
    ensures
        announced(json::model(r), 0) == Some("psy_run"@) && needed(json::model(r), 0) == Some(name),
        announced(json::model(r), 1) == Some("psy_ps"@),
        announced(json::model(r), 2) == Some("psy_logs"@) && needed(json::model(r), 2) == Some(
            name,
        ),
        announced(json::model(r), 3) == Some("psy_stop"@) && needed(json::model(r), 3) == Some(
            name,
        ),
        announced(json::model(r), 4) == Some("psy_restart"@) && needed(json::model(r), 4) == Some(
            name,
        ),
        announced(json::model(r), 5) == Some("psy_history"@) && needed(json::model(r), 5) == Some(
            name,
        ),
        announced(json::model(r), 6) == Some("psy_send"@) && needed(json::model(r), 6) == Some(
            name,
        ),
        announced(json::model(r), 7) == Some("psy_psyfile_schema"@),
        announced(json::model(r), 8) == Some("psy_clean"@),
        i < 0 || i >= 9 ==> announced(json::model(r), i) is None,
{
    let m = json::model(r);
    let list = Js::Array(
        Seq::empty()
            .push(tools::run_tool())
            .push(tools::ps_tool())
            .push(tools::logs_tool())
            .push(tools::stop_tool())
            .push(tools::restart_tool())
            .push(tools::history_tool())
            .push(tools::send_tool())
            .push(tools::schema_tool())
            .push(tools::clean_tool()),
    );
    let entries = Seq::empty().push(("tools"@, list));
    assert(json::keys(entries).no_duplicates());
    json::lemma_entry(entries, 0);
    assert(json::member(m, "tools"@) == Some(list));
    assert(Seq::empty().push(Js::Text("name"@)) =~= seq![Js::Text("name"@)]);
    assert forall|n: Seq<char>, d: Seq<char>, p: Js, q: Js|
        #![trigger tools::tool(n, d, p, q)]
        json::text_member(tools::tool(n, d, p, q), "name"@) == Some(n) && json::member(
            tools::tool(n, d, p, q),
            "inputSchema"@,
        ) is Some && json::member(
            json::member(tools::tool(n, d, p, q), "inputSchema"@)->0,
            "required"@,
        ) == Some(q) by {
        lemma_announced(n, d, p, q);
    }
}

/// The schema of a Psyfile has each field that a unit can have, asks for a command, and
/// allows no other field.
pub proof fn lemma_schema_of_a_unit(r: Json)
    requires
        call_ensures(schema::json_schema, (), r),
    ensures
        ({
            let u = json::member(json::model(r), "additionalProperties"@)->0;
            let p = json::member(u, "properties"@)->0;
            &&& json::member(u, "required"@) == Some(Js::Array(seq![Js::Text("command"@)]))
            &&& json::member(u, "additionalProperties"@) == Some(Js::Bool(false))
            &&& json::member(p, "command"@) is Some
            &&& json::member(p, "restart"@) is Some
            &&& json::member(p, "env"@) is Some
            &&& json::member(p, "depends_on"@) is Some
            &&& json::member(p, "singleton"@) is Some
            &&& json::member(p, "interactive"@) is Some
            &&& json::member(p, "ports"@) is Some
            &&& json::member(p, "sub_root"@) is Some
            &&& json::member(p, "working_dir"@) is Some
            &&& json::member(p, "ready"@) is Some
            &&& json::member(p, "healthcheck"@) is Some
            &&& json::member(p, "platforms"@) is Some
            &&& json::member(p, "platform"@) is Some
        }),
{
    reveal_strlit("type");
    reveal_strlit("required");
    reveal_strlit("properties");
    reveal_strlit("additionalProperties");
    assert("type"@.len() == 4 && "required"@.len() == 8 && "properties"@.len() == 10
        && "additionalProperties"@.len() == 20);
    let s = Seq::empty()
        .push(("type"@, Js::Text("object"@)))
        .push(("required"@, Js::Array(Seq::empty().push(Js::Text("command"@)))))
        .push(("properties"@, schema::unit_properties()))
        .push(("additionalProperties"@, Js::Bool(false)));
    assert(json::member(json::model(r), "additionalProperties"@) == Some(json::object_of(s)));
    fields::lemma_field(s, 1);
    fields::lemma_field(s, 2);
    fields::lemma_field(s, 3);
    assert(Seq::empty().push(Js::Text("command"@)) =~= seq![Js::Text("command"@)]);
    reveal_with_fuel(json::entries_map, 14);
}

} // verus!

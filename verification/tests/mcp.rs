use psy::json;
use psy::json::Json;
use psy::mcp::tools::tool_schemas;
use psy::mcp::{dispatch, error, finish_call, parse_error, read_call, show_result, success};
use psy::mcp::{JsonRpcRequest, Listing, RpcStep, ToolCall, VERSION};
use psy::protocol::{PsResponse, Response, RestartPolicy, StreamFilter, WaitFor};

fn request(method: &str, params: &str) -> JsonRpcRequest {
    JsonRpcRequest {
        id: Some(Json::Unsigned(1)),
        method: method.to_string(),
        params: if params.is_empty() { None } else { Some(json::read(params).unwrap()) },
    }
}

fn call(tool: &str, args: &str) -> Result<ToolCall, String> {
    read_call(tool, &json::read(args).unwrap())
}

#[test]
fn initialization_names_the_server() {
    match dispatch(&request("initialize", "")) {
        RpcStep::Respond(v) => {
            assert_eq!(json::get_number(&v, "id"), Some(1));
            let r = json::get(&v, "result").unwrap();
            assert_eq!(json::get_text(r, "protocolVersion").unwrap(), "2024-11-05");
            let s = json::get(r, "serverInfo").unwrap();
            assert_eq!(json::get_text(s, "name").unwrap(), "psy");
            assert_eq!(json::get_text(s, "version").unwrap(), VERSION);
        }
        x => panic!("{:?}", x),
    }
    assert!(matches!(dispatch(&request("notifications/initialized", "")), RpcStep::Silent));
}

#[test]
fn unknown_methods_are_refused() {
    match dispatch(&request("what", "")) {
        RpcStep::Respond(v) => {
            let e = json::get(&v, "error").unwrap();
            assert!(matches!(json::get(e, "code"), Some(Json::Negative(-32601))));
            assert_eq!(json::get_text(e, "message").unwrap(), "Method not found: what");
        }
        x => panic!("{:?}", x),
    }
}

#[test]
fn tools_are_listed() {
    let v = tool_schemas();
    let tools = json::get_array(&v, "tools").unwrap();
    let names: Vec<&str> = tools.iter().map(|t| json::get_text(t, "name").unwrap().as_str()).collect();
    for n in [
        "psy_run", "psy_ps", "psy_logs", "psy_send", "psy_stop", "psy_restart", "psy_history",
        "psy_psyfile_schema", "psy_clean",
    ] {
        assert!(names.contains(&n), "{}", n);
    }
    assert_eq!(names.len(), 9);
}

#[test]
fn run_calls_are_read() {
    let c = call(
        "psy_run",
        r#"{"name":"a","command":["echo","x"],"restart":"always","env":{"K":"V"},
            "interactive":true,"wait_for":{"log":"up"},"ports":["http",{"name":"x","default":80}]}"#,
    )
    .unwrap();
    match c {
        ToolCall::Run(a) => {
            assert_eq!(a.name, "a");
            assert_eq!(a.command, vec!["echo", "x"]);
            assert_eq!(a.restart, RestartPolicy::Always);
            assert_eq!(a.env.get("K").unwrap(), "V");
            assert!(a.interactive);
            assert!(matches!(a.wait_for, Some(WaitFor::Log { pattern }) if pattern == "up"));
            assert_eq!(a.ports.len(), 2);
            assert_eq!(a.ports[1].default, Some(80));
        }
        x => panic!("{:?}", x),
    }
}

#[test]
fn run_calls_with_bad_conditions_are_refused() {
    for (args, e) in [
        (r#"{"command":["x"]}"#, "missing required parameter: name"),
        (r#"{"name":"a","command":["x"],"wait_for":"soon"}"#, "invalid wait_for value: soon"),
        (r#"{"name":"a","command":["x"],"wait_for":3}"#, "invalid wait_for: expected string or object"),
        (
            r#"{"name":"a","command":["x"],"wait_for":{}}"#,
            "invalid wait_for object: expected {\"log\": \"...\"} or {\"dependency\": \"...\"}",
        ),
    ] {
        assert_eq!(call("psy_run", args).unwrap_err(), e);
    }
}

#[test]
fn other_calls_are_read() {
    assert!(matches!(call("psy_ps", "{}").unwrap(), ToolCall::Ps));
    assert!(matches!(call("psy_clean", "{}").unwrap(), ToolCall::Clean));
    assert!(matches!(call("psy_stop", r#"{"name":"a"}"#).unwrap(), ToolCall::Stop(a) if a.name == "a"));
    match call("psy_logs", r#"{"name":"a","tail":5,"stream":"stderr","since":"last"}"#).unwrap() {
        ToolCall::Logs(a, _) => {
            assert_eq!(a.tail, Some(5));
            assert_eq!(a.stream, StreamFilter::Stderr);
            assert_eq!(a.since.unwrap(), "last");
        }
        x => panic!("{:?}", x),
    }
    assert!(matches!(
        call("psy_send", r#"{"name":"a","input":"x","wait":true}"#).unwrap(),
        ToolCall::SendWait(_)
    ));
    assert!(matches!(call("psy_send", r#"{"name":"a","input":"x"}"#).unwrap(), ToolCall::Send(_)));
    assert!(call("psy_fly", "{}").is_err());
    assert!(call("psy_stop", "{}").is_err());
}

#[test]
fn calls_lead_to_requests_or_answers() {
    let r = request("tools/call", r#"{"name":"psy_stop","arguments":{"name":"a"}}"#);
    assert!(matches!(dispatch(&r), RpcStep::Call(ToolCall::Stop(_))));
    let r = request("tools/call", r#"{"name":"psy_stop","arguments":{}}"#);
    match dispatch(&r) {
        RpcStep::Respond(v) => {
            assert_eq!(json::get_flag(json::get(&v, "result").unwrap(), "isError"), Some(true))
        }
        x => panic!("{:?}", x),
    }
    let r = request("tools/call", r#"{"name":"psy_psyfile_schema"}"#);
    match dispatch(&r) {
        RpcStep::Respond(v) => {
            let c = json::get_array(json::get(&v, "result").unwrap(), "content").unwrap();
            let t = json::get_text(&c[0], "text").unwrap();
            assert!(t.contains("\"$schema\": \"http://json-schema.org/draft-07/schema#\""));
        }
        x => panic!("{:?}", x),
    }
}

#[test]
fn results_are_shown() {
    let v = finish_call(&ToolCall::Ps, &Err("no root".to_string()), &Listing::Unread);
    assert_eq!(json::get_flag(&v, "isError"), Some(true));
    let ps = Listing::Processes(PsResponse { processes: vec![] });
    let shown = show_result(&ToolCall::Ps, &None, &ps);
    assert_eq!(shown, "No processes");
    let answer = Ok(Response::err("1", "process 'a' not found"));
    let v = finish_call(&call("psy_stop", r#"{"name":"a"}"#).unwrap(), &answer, &Listing::Unread);
    let c = json::get_array(&v, "content").unwrap();
    assert!(json::get_text(&c[0], "text").unwrap().contains("process 'a' not found"));
}

#[test]
fn responses_carry_the_id() {
    let v = success(&Some(Json::Text("x".to_string())), Json::Null);
    assert_eq!(json::get_text(&v, "id").unwrap(), "x");
    assert_eq!(json::get_text(&v, "jsonrpc").unwrap(), "2.0");
    let v = error(&None, -1, "bad");
    assert!(json::get(&v, "result").is_none());
    let v = parse_error("oops");
    let e = json::get(&v, "error").unwrap();
    assert_eq!(json::get_text(e, "message").unwrap(), "Parse error: oops");
    assert!(matches!(json::get(e, "code"), Some(Json::Negative(-32700))));
}

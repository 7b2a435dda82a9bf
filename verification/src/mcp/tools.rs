//! The tools that agents can call, as they are announced.
use crate::json;
use crate::json::{Fields, Items, Js, Json};
use crate::schema;
use vstd::prelude::*;

verus! {

/// A tool: its name, what it is for, and what it takes.
pub open spec fn tool(name: Seq<char>, description: Seq<char>, properties: Js, required: Js) -> Js {
    json::object_of(
        Seq::empty()
            .push(("name"@, Js::Text(name)))
            .push(("description"@, Js::Text(description)))
            .push(
                (
                    "inputSchema"@,
                    json::object_of(
                        Seq::empty()
                            .push(("type"@, Js::Text("object"@)))
                            .push(("properties"@, properties))
                            .push(("required"@, required)),
                    ),
                ),
            ),
    )
}

/// Builds the value of the same name.
pub fn tool_value(name: &str, description: &str, properties: Json, required: Json) -> (r: Json)
    ensures
        json::model(r) == tool(name@, description@, json::model(properties), json::model(required)),
{
    Fields::new()
        .with_text("name", name)
        .with_text("description", description)
        .with(
            "inputSchema",
            Fields::new()
                .with_text("type", "object")
                .with("properties", properties)
                .with("required", required)
                .done(),
        )
        .done()
}

/// A text out of a few, with what it is for.
pub open spec fn choice(words: Js, description: Seq<char>) -> Js {
    json::object_of(
        Seq::empty()
            .push(("type"@, Js::Text("string"@)))
            .push(("enum"@, words))
            .push(("description"@, Js::Text(description))),
    )
}

/// Builds the value of the same name.
pub fn choice_value(words: Json, description: &str) -> (r: Json)
    ensures
        json::model(r) == choice(json::model(words), description@),
{
    Fields::new()
        .with_text("type", "string")
        .with("enum", words)
        .with_text("description", description)
        .done()
}

/// What a run can be told to wait for.
pub open spec fn wait_for_param() -> Js {
    json::object_of(
        Seq::empty()
            .push(
                (
                    "description"@,
                    Js::Text("Block until a condition is met before returning. Use \"ready\" to wait for the ready probe, \"exit\" to wait for process exit (returns exit code + logs), or an object like {\"log\": \"pattern\"} to wait for a log line matching a substring, or {\"dependency\": \"name\"} to wait for a dependency's ready probe."@),
                ),
            )
            .push(
                (
                    "oneOf"@,
                    Js::Array(
                        Seq::empty()
                            .push(
                                json::object_of(
                                    Seq::empty()
                                        .push(("type"@, Js::Text("string"@)))
                                        .push(
                                            (
                                                "enum"@,
                                                Js::Array(Seq::empty().push(Js::Text("ready"@)).push(Js::Text("exit"@))),
                                            ),
                                        ),
                                ),
                            )
                            .push(
                                json::object_of(
                                    Seq::empty()
                                        .push(("type"@, Js::Text("object"@)))
                                        .push(
                                            (
                                                "properties"@,
                                                json::object_of(
                                                    Seq::empty()
                                                        .push(
                                                            (
                                                                "log"@,
                                                                schema::described("string"@, "Case-insensitive substring to match in log output"@),
                                                            ),
                                                        ),
                                                ),
                                            ),
                                        )
                                        .push(("required"@, Js::Array(Seq::empty().push(Js::Text("log"@))))),
                                ),
                            )
                            .push(
                                json::object_of(
                                    Seq::empty()
                                        .push(("type"@, Js::Text("object"@)))
                                        .push(
                                            (
                                                "properties"@,
                                                json::object_of(
                                                    Seq::empty()
                                                        .push(
                                                            (
                                                                "dependency"@,
                                                                schema::described("string"@, "Dependency name to wait for readiness"@),
                                                            ),
                                                        ),
                                                ),
                                            ),
                                        )
                                        .push(("required"@, Js::Array(Seq::empty().push(Js::Text("dependency"@))))),
                                ),
                            ),
                    ),
                ),
            ),
    )
}

/// Builds the value of the same name.
pub fn wait_for_param_value() -> (r: Json)
    ensures
        json::model(r) == wait_for_param(),
{
    Fields::new()
        .with_text("description", "Block until a condition is met before returning. Use \"ready\" to wait for the ready probe, \"exit\" to wait for process exit (returns exit code + logs), or an object like {\"log\": \"pattern\"} to wait for a log line matching a substring, or {\"dependency\": \"name\"} to wait for a dependency's ready probe.")
        .with(
            "oneOf",
            Items::new()
                .with(
                    Fields::new()
                        .with_text("type", "string")
                        .with("enum", Items::new().with_text("ready").with_text("exit").done())
                        .done(),
                )
                .with(
                    Fields::new()
                        .with_text("type", "object")
                        .with(
                            "properties",
                            Fields::new()
                                .with("log", schema::described_value("string", "Case-insensitive substring to match in log output"))
                                .done(),
                        )
                        .with("required", Items::new().with_text("log").done())
                        .done(),
                )
                .with(
                    Fields::new()
                        .with_text("type", "object")
                        .with(
                            "properties",
                            Fields::new()
                                .with("dependency", schema::described_value("string", "Dependency name to wait for readiness"))
                                .done(),
                        )
                        .with("required", Items::new().with_text("dependency").done())
                        .done(),
                )
                .done(),
        )
        .done()
}

/// The ports that a run can ask for.
pub open spec fn ports_param() -> Js {
    json::object_of(
        Seq::empty()
            .push(("type"@, Js::Text("array"@)))
            .push(
                (
                    "items"@,
                    json::object_of(
                        Seq::empty()
                            .push(
                                (
                                    "oneOf"@,
                                    Js::Array(
                                        Seq::empty()
                                            .push(schema::typed("string"@))
                                            .push(
                                                json::object_of(
                                                    Seq::empty()
                                                        .push(("type"@, Js::Text("object"@)))
                                                        .push(
                                                            (
                                                                "properties"@,
                                                                json::object_of(
                                                                    Seq::empty()
                                                                        .push(("name"@, schema::typed("string"@)))
                                                                        .push(("default"@, schema::typed("integer"@))),
                                                                ),
                                                            ),
                                                        )
                                                        .push(("required"@, Js::Array(Seq::empty().push(Js::Text("name"@))))),
                                                ),
                                            ),
                                    ),
                                ),
                            ),
                    ),
                ),
            )
            .push(
                (
                    "description"@,
                    Js::Text("Named ports to allocate: names, or objects with a name and a preferred port"@),
                ),
            ),
    )
}

/// Builds the value of the same name.
pub fn ports_param_value() -> (r: Json)
    ensures
        json::model(r) == ports_param(),
{
    Fields::new()
        .with_text("type", "array")
        .with(
            "items",
            Fields::new()
                .with(
                    "oneOf",
                    Items::new()
                        .with(schema::typed_value("string"))
                        .with(
                            Fields::new()
                                .with_text("type", "object")
                                .with(
                                    "properties",
                                    Fields::new()
                                        .with("name", schema::typed_value("string"))
                                        .with("default", schema::typed_value("integer"))
                                        .done(),
                                )
                                .with("required", Items::new().with_text("name").done())
                                .done(),
                        )
                        .done(),
                )
                .done(),
        )
        .with_text("description", "Named ports to allocate: names, or objects with a name and a preferred port")
        .done()
}

/// The tool that runs a process.
pub open spec fn run_tool() -> Js {
    tool(
        "psy_run"@,
        "Launch a named process. If name matches a Psyfile unit, starts that unit (with optional extra args). Otherwise, command is required."@,
        json::object_of(
            Seq::empty()
                .push(("name"@, schema::described("string"@, "Process name (or Psyfile unit name)"@)))
                .push(
                    (
                        "command"@,
                        schema::list_of(
                            "string"@,
                            "Command and arguments. Required if name is not a Psyfile unit."@,
                        ),
                    ),
                )
                .push(
                    (
                        "args"@,
                        schema::list_of("string"@, "Extra arguments for Psyfile unit commands"@),
                    ),
                )
                .push(
                    (
                        "restart"@,
                        choice(
                            Js::Array(
                                Seq::empty()
                                    .push(Js::Text("no"@))
                                    .push(Js::Text("on_failure"@))
                                    .push(Js::Text("always"@)),
                            ),
                            "Restart policy (default: no)"@,
                        ),
                    ),
                )
                .push(("env"@, schema::texts_by_name("Additional environment variables"@)))
                .push(
                    (
                        "interactive"@,
                        schema::described("boolean"@, "Enable stdin pipe (writable via psy_send)"@),
                    ),
                )
                .push(("ports"@, ports_param()))
                .push(("wait_for"@, wait_for_param()))
                .push(
                    (
                        "timeout"@,
                        schema::described(
                            "string"@,
                            "Timeout for wait_for (e.g. '30s', '2m', '120s'). Default: 120s"@,
                        ),
                    ),
                ),
        ),
        Js::Array(Seq::empty().push(Js::Text("name"@))),
    )
}

/// Builds the value of the same name.
pub fn run_tool_value() -> (r: Json)
    ensures
        json::model(r) == run_tool(),
{
    tool_value(
        "psy_run",
        "Launch a named process. If name matches a Psyfile unit, starts that unit (with optional extra args). Otherwise, command is required.",
        Fields::new()
            .with("name", schema::described_value("string", "Process name (or Psyfile unit name)"))
            .with(
                "command",
                schema::list_of_value(
                    "string",
                    "Command and arguments. Required if name is not a Psyfile unit.",
                ),
            )
            .with("args", schema::list_of_value("string", "Extra arguments for Psyfile unit commands"))
            .with(
                "restart",
                choice_value(
                    Items::new().with_text("no").with_text("on_failure").with_text("always").done(),
                    "Restart policy (default: no)",
                ),
            )
            .with("env", schema::texts_by_name_value("Additional environment variables"))
            .with("interactive", schema::described_value("boolean", "Enable stdin pipe (writable via psy_send)"))
            .with("ports", ports_param_value())
            .with("wait_for", wait_for_param_value())
            .with(
                "timeout",
                schema::described_value(
                    "string",
                    "Timeout for wait_for (e.g. '30s', '2m', '120s'). Default: 120s",
                ),
            )
            .done(),
        Items::new().with_text("name").done(),
    )
}

/// The tool that lists processes.
pub open spec fn ps_tool() -> Js {
    tool(
        "psy_ps"@,
        "List all managed processes and their status"@,
        json::object_of(Seq::empty()),
        Js::Array(Seq::empty()),
    )
}

/// Builds the value of the same name.
pub fn ps_tool_value() -> (r: Json)
    ensures
        json::model(r) == ps_tool(),
{
    tool_value(
        "psy_ps",
        "List all managed processes and their status",
        Fields::new().done(),
        Items::new().done(),
    )
}

/// The tool that shows a log.
pub open spec fn logs_tool() -> Js {
    tool(
        "psy_logs"@,
        "Retrieve recent log output from a managed process"@,
        json::object_of(
            Seq::empty()
                .push(("name"@, schema::described("string"@, "Process name"@)))
                .push(
                    (
                        "tail"@,
                        schema::described("integer"@, "Number of lines to return (default: 50)"@),
                    ),
                )
                .push(
                    (
                        "stream"@,
                        choice(
                            Js::Array(
                                Seq::empty()
                                    .push(Js::Text("all"@))
                                    .push(Js::Text("stdout"@))
                                    .push(Js::Text("stderr"@)),
                            ),
                            "Which output stream to show (default: all)"@,
                        ),
                    ),
                )
                .push(
                    (
                        "since"@,
                        schema::described(
                            "string"@,
                            "Show logs since this RFC 3339 timestamp (e.g. 2026-03-12T20:00:00Z), or 'last' to show only new logs since the previous logs request"@,
                        ),
                    ),
                )
                .push(
                    (
                        "until"@,
                        schema::described("string"@, "Show logs until this RFC 3339 timestamp"@),
                    ),
                )
                .push(
                    (
                        "grep"@,
                        schema::described("string"@, "Filter logs by regex pattern (case-insensitive)"@),
                    ),
                )
                .push(
                    (
                        "run"@,
                        schema::described("integer"@, "Show logs from a specific run ID (see psy_history)"@),
                    ),
                )
                .push(
                    (
                        "previous"@,
                        schema::described(
                            "boolean"@,
                            "Show logs from the previous run (before the current one)"@,
                        ),
                    ),
                )
                .push(
                    (
                        "probe"@,
                        schema::described(
                            "boolean"@,
                            "Show probe logs instead of process output (default: false)"@,
                        ),
                    ),
                )
                .push(
                    (
                        "format"@,
                        choice(
                            Js::Array(Seq::empty().push(Js::Text("lines"@)).push(Js::Text("structured"@))),
                            "Output format: 'lines' returns plain text (default), 'structured' returns JSON objects with timestamp/stream/content"@,
                        ),
                    ),
                ),
        ),
        Js::Array(Seq::empty().push(Js::Text("name"@))),
    )
}

/// Builds the value of the same name.
pub fn logs_tool_value() -> (r: Json)
    ensures
        json::model(r) == logs_tool(),
{
    tool_value(
        "psy_logs",
        "Retrieve recent log output from a managed process",
        Fields::new()
            .with("name", schema::described_value("string", "Process name"))
            .with("tail", schema::described_value("integer", "Number of lines to return (default: 50)"))
            .with(
                "stream",
                choice_value(
                    Items::new().with_text("all").with_text("stdout").with_text("stderr").done(),
                    "Which output stream to show (default: all)",
                ),
            )
            .with(
                "since",
                schema::described_value(
                    "string",
                    "Show logs since this RFC 3339 timestamp (e.g. 2026-03-12T20:00:00Z), or 'last' to show only new logs since the previous logs request",
                ),
            )
            .with("until", schema::described_value("string", "Show logs until this RFC 3339 timestamp"))
            .with("grep", schema::described_value("string", "Filter logs by regex pattern (case-insensitive)"))
            .with("run", schema::described_value("integer", "Show logs from a specific run ID (see psy_history)"))
            .with(
                "previous",
                schema::described_value(
                    "boolean",
                    "Show logs from the previous run (before the current one)",
                ),
            )
            .with(
                "probe",
                schema::described_value(
                    "boolean",
                    "Show probe logs instead of process output (default: false)",
                ),
            )
            .with(
                "format",
                choice_value(
                    Items::new().with_text("lines").with_text("structured").done(),
                    "Output format: 'lines' returns plain text (default), 'structured' returns JSON objects with timestamp/stream/content",
                ),
            )
            .done(),
        Items::new().with_text("name").done(),
    )
}

/// The tool that stops a process.
pub open spec fn stop_tool() -> Js {
    tool(
        "psy_stop"@,
        "Stop a running managed process"@,
        json::object_of(
            Seq::empty()
                .push(("name"@, schema::described("string"@, "Process name to stop"@))),
        ),
        Js::Array(Seq::empty().push(Js::Text("name"@))),
    )
}

/// Builds the value of the same name.
pub fn stop_tool_value() -> (r: Json)
    ensures
        json::model(r) == stop_tool(),
{
    tool_value(
        "psy_stop",
        "Stop a running managed process",
        Fields::new()
            .with("name", schema::described_value("string", "Process name to stop"))
            .done(),
        Items::new().with_text("name").done(),
    )
}

/// The tool that restarts a process.
pub open spec fn restart_tool() -> Js {
    tool(
        "psy_restart"@,
        "Restart a managed process"@,
        json::object_of(
            Seq::empty()
                .push(("name"@, schema::described("string"@, "Process name to restart"@))),
        ),
        Js::Array(Seq::empty().push(Js::Text("name"@))),
    )
}

/// Builds the value of the same name.
pub fn restart_tool_value() -> (r: Json)
    ensures
        json::model(r) == restart_tool(),
{
    tool_value(
        "psy_restart",
        "Restart a managed process",
        Fields::new()
            .with("name", schema::described_value("string", "Process name to restart"))
            .done(),
        Items::new().with_text("name").done(),
    )
}

/// The tool that lists runs.
pub open spec fn history_tool() -> Js {
    tool(
        "psy_history"@,
        "Show run history for a managed process. Use this to check if a process has been crashing repeatedly, and to find run IDs for querying past logs."@,
        json::object_of(Seq::empty().push(("name"@, schema::described("string"@, "Process name"@)))),
        Js::Array(Seq::empty().push(Js::Text("name"@))),
    )
}

/// Builds the value of the same name.
pub fn history_tool_value() -> (r: Json)
    ensures
        json::model(r) == history_tool(),
{
    tool_value(
        "psy_history",
        "Show run history for a managed process. Use this to check if a process has been crashing repeatedly, and to find run IDs for querying past logs.",
        Fields::new().with("name", schema::described_value("string", "Process name")).done(),
        Items::new().with_text("name").done(),
    )
}

/// The tool that writes to a process.
pub open spec fn send_tool() -> Js {
    tool(
        "psy_send"@,
        "Write to a process's stdin (must be started with interactive mode). Use wait: true to block until output is collected (ideal for REPL interactions)."@,
        json::object_of(
            Seq::empty()
                .push(("name"@, schema::described("string"@, "Process name"@)))
                .push(
                    (
                        "input"@,
                        schema::described("string"@, "Text to send (newline appended automatically)"@),
                    ),
                )
                .push(
                    (
                        "eof"@,
                        schema::described("boolean"@, "Close stdin (for programs that read to EOF)"@),
                    ),
                )
                .push(
                    (
                        "wait"@,
                        schema::described(
                            "boolean"@,
                            "Wait for output after sending and return collected lines (default: false)"@,
                        ),
                    ),
                )
                .push(
                    (
                        "wait_timeout"@,
                        schema::described(
                            "string"@,
                            "Overall timeout for wait mode (e.g. '5s', '200ms'). Default: '5s'"@,
                        ),
                    ),
                )
                .push(
                    (
                        "idle_timeout"@,
                        schema::described(
                            "string"@,
                            "Idle timeout — stop collecting after this long with no new output (e.g. '200ms'). Default: '200ms'"@,
                        ),
                    ),
                )
                .push(
                    (
                        "wait_prompt"@,
                        schema::described(
                            "string"@,
                            "Return early when output contains this substring (case-insensitive)"@,
                        ),
                    ),
                ),
        ),
        Js::Array(Seq::empty().push(Js::Text("name"@))),
    )
}

/// Builds the value of the same name.
pub fn send_tool_value() -> (r: Json)
    ensures
        json::model(r) == send_tool(),
{
    tool_value(
        "psy_send",
        "Write to a process's stdin (must be started with interactive mode). Use wait: true to block until output is collected (ideal for REPL interactions).",
        Fields::new()
            .with("name", schema::described_value("string", "Process name"))
            .with("input", schema::described_value("string", "Text to send (newline appended automatically)"))
            .with("eof", schema::described_value("boolean", "Close stdin (for programs that read to EOF)"))
            .with(
                "wait",
                schema::described_value(
                    "boolean",
                    "Wait for output after sending and return collected lines (default: false)",
                ),
            )
            .with(
                "wait_timeout",
                schema::described_value(
                    "string",
                    "Overall timeout for wait mode (e.g. '5s', '200ms'). Default: '5s'",
                ),
            )
            .with(
                "idle_timeout",
                schema::described_value(
                    "string",
                    "Idle timeout — stop collecting after this long with no new output (e.g. '200ms'). Default: '200ms'",
                ),
            )
            .with(
                "wait_prompt",
                schema::described_value(
                    "string",
                    "Return early when output contains this substring (case-insensitive)",
                ),
            )
            .done(),
        Items::new().with_text("name").done(),
    )
}

/// The tool that shows the schema of a Psyfile.
pub open spec fn schema_tool() -> Js {
    tool(
        "psy_psyfile_schema"@,
        "Return the JSON Schema for the Psyfile format. Use this to discover available fields for defining process units."@,
        json::object_of(Seq::empty()),
        Js::Array(Seq::empty()),
    )
}

/// Builds the value of the same name.
pub fn schema_tool_value() -> (r: Json)
    ensures
        json::model(r) == schema_tool(),
{
    tool_value(
        "psy_psyfile_schema",
        "Return the JSON Schema for the Psyfile format. Use this to discover available fields for defining process units.",
        Fields::new().done(),
        Items::new().done(),
    )
}

/// The tool that forgets processes.
pub open spec fn clean_tool() -> Js {
    tool(
        "psy_clean"@,
        "Remove all stopped and failed processes from the process table. Useful for cleaning up after many test runs."@,
        json::object_of(Seq::empty()),
        Js::Array(Seq::empty()),
    )
}

/// Builds the value of the same name.
pub fn clean_tool_value() -> (r: Json)
    ensures
        json::model(r) == clean_tool(),
{
    tool_value(
        "psy_clean",
        "Remove all stopped and failed processes from the process table. Useful for cleaning up after many test runs.",
        Fields::new().done(),
        Items::new().done(),
    )
}

/// All tools.
pub open spec fn tools() -> Js {
    json::object_of(
        Seq::empty()
            .push(
                (
                    "tools"@,
                    Js::Array(
                        Seq::empty()
                            .push(run_tool())
                            .push(ps_tool())
                            .push(logs_tool())
                            .push(stop_tool())
                            .push(restart_tool())
                            .push(history_tool())
                            .push(send_tool())
                            .push(schema_tool())
                            .push(clean_tool()),
                    ),
                ),
            ),
    )
}

/// Builds the value of the same name.
pub fn tool_schemas() -> (r: Json)
    ensures
        json::model(r) == tools(),
{
    Fields::new()
        .with(
            "tools",
            Items::new()
                .with(run_tool_value())
                .with(ps_tool_value())
                .with(logs_tool_value())
                .with(stop_tool_value())
                .with(restart_tool_value())
                .with(history_tool_value())
                .with(send_tool_value())
                .with(schema_tool_value())
                .with(clean_tool_value())
                .done(),
        )
        .done()
}

} // verus!

//! The JSON Schema of a Psyfile.
use crate::json;
use crate::json::{Fields, Items, Js, Json};
use vstd::prelude::*;

verus! {

/// A value of some kind.
pub open spec fn typed(kind: Seq<char>) -> Js {
    json::object_of(Seq::empty().push(("type"@, Js::Text(kind))))
}

/// Builds the value of the same name.
pub fn typed_value(kind: &str) -> (r: Json)
    ensures
        json::model(r) == typed(kind@),
{
    Fields::new().with_text("type", kind).done()
}

/// A value of some kind, with what it is for.
pub open spec fn described(kind: Seq<char>, description: Seq<char>) -> Js {
    json::object_of(
        Seq::empty()
            .push(("type"@, Js::Text(kind)))
            .push(("description"@, Js::Text(description))),
    )
}

/// Builds the value of the same name.
pub fn described_value(kind: &str, description: &str) -> (r: Json)
    ensures
        json::model(r) == described(kind@, description@),
{
    Fields::new().with_text("type", kind).with_text("description", description).done()
}

/// A value that need not be given, with what it is for.
pub open spec fn optional(kind: Seq<char>, default: Js, description: Seq<char>) -> Js {
    json::object_of(
        Seq::empty()
            .push(("type"@, Js::Text(kind)))
            .push(("default"@, default))
            .push(("description"@, Js::Text(description))),
    )
}

/// Builds the value of the same name.
pub fn optional_value(kind: &str, default: Json, description: &str) -> (r: Json)
    ensures
        json::model(r) == optional(kind@, json::model(default), description@),
{
    Fields::new()
        .with_text("type", kind)
        .with("default", default)
        .with_text("description", description)
        .done()
}

/// Texts by name, with what they are for.
pub open spec fn texts_by_name(description: Seq<char>) -> Js {
    json::object_of(
        Seq::empty()
            .push(("type"@, Js::Text("object"@)))
            .push(("additionalProperties"@, typed("string"@)))
            .push(("description"@, Js::Text(description))),
    )
}

/// Builds the value of the same name.
pub fn texts_by_name_value(description: &str) -> (r: Json)
    ensures
        json::model(r) == texts_by_name(description@),
{
    Fields::new()
        .with_text("type", "object")
        .with("additionalProperties", typed_value("string"))
        .with_text("description", description)
        .done()
}

/// A list of values of one kind, with what it is for.
pub open spec fn list_of(kind: Seq<char>, description: Seq<char>) -> Js {
    json::object_of(
        Seq::empty()
            .push(("type"@, Js::Text("array"@)))
            .push(("items"@, typed(kind)))
            .push(("description"@, Js::Text(description))),
    )
}

/// Builds the value of the same name.
pub fn list_of_value(kind: &str, description: &str) -> (r: Json)
    ensures
        json::model(r) == list_of(kind@, description@),
{
    Fields::new()
        .with_text("type", "array")
        .with("items", typed_value(kind))
        .with_text("description", description)
        .done()
}

/// The restart policy of a unit.
pub open spec fn restart_field() -> Js {
    json::object_of(
        Seq::empty()
            .push(("type"@, Js::Text("string"@)))
            .push(
                (
                    "enum"@,
                    Js::Array(
                        Seq::empty()
                            .push(Js::Text("no"@))
                            .push(Js::Text("on-failure"@))
                            .push(Js::Text("always"@)),
                    ),
                ),
            )
            .push(("default"@, Js::Text("no"@)))
            .push(("description"@, Js::Text("Restart policy"@))),
    )
}

/// Builds the value of the same name.
pub fn restart_field_value() -> (r: Json)
    ensures
        json::model(r) == restart_field(),
{
    Fields::new()
        .with_text("type", "string")
        .with("enum", Items::new().with_text("no").with_text("on-failure").with_text("always").done())
        .with_text("default", "no")
        .with_text("description", "Restart policy")
        .done()
}

/// A dependency with all that can be said of it.
pub open spec fn dependency_table() -> Js {
    json::object_of(
        Seq::empty()
            .push(("type"@, Js::Text("object"@)))
            .push(("required"@, Js::Array(Seq::empty().push(Js::Text("name"@)))))
            .push(
                (
                    "properties"@,
                    json::object_of(
                        Seq::empty()
                            .push(("name"@, typed("string"@)))
                            .push(
                                (
                                    "restart"@,
                                    json::object_of(
                                        Seq::empty()
                                            .push(("type"@, Js::Text("boolean"@)))
                                            .push(("default"@, Js::Bool(false))),
                                    ),
                                ),
                            ),
                    ),
                ),
            )
            .push(("additionalProperties"@, Js::Bool(false))),
    )
}

/// Builds the value of the same name.
pub fn dependency_table_value() -> (r: Json)
    ensures
        json::model(r) == dependency_table(),
{
    Fields::new()
        .with_text("type", "object")
        .with("required", Items::new().with_text("name").done())
        .with(
            "properties",
            Fields::new()
                .with("name", typed_value("string"))
                .with("restart", Fields::new().with_text("type", "boolean").with("default", Json::Bool(false)).done())
                .done(),
        )
        .with("additionalProperties", Json::Bool(false))
        .done()
}

/// The dependencies of a unit.
pub open spec fn dependencies_field() -> Js {
    json::object_of(
        Seq::empty()
            .push(("type"@, Js::Text("array"@)))
            .push(
                (
                    "items"@,
                    json::object_of(
                        Seq::empty()
                            .push(
                                (
                                    "oneOf"@,
                                    Js::Array(Seq::empty().push(typed("string"@)).push(dependency_table())),
                                ),
                            ),
                    ),
                ),
            )
            .push(("description"@, Js::Text("Units to start before this one"@))),
    )
}

/// Builds the value of the same name.
pub fn dependencies_field_value() -> (r: Json)
    ensures
        json::model(r) == dependencies_field(),
{
    Fields::new()
        .with_text("type", "array")
        .with(
            "items",
            Fields::new()
                .with("oneOf", Items::new().with(typed_value("string")).with(dependency_table_value()).done())
                .done(),
        )
        .with_text("description", "Units to start before this one")
        .done()
}

/// The address that a probe connects to.
pub open spec fn tcp_field() -> Js {
    json::object_of(
        Seq::empty()
            .push(
                (
                    "oneOf"@,
                    Js::Array(Seq::empty().push(typed("string"@)).push(typed("integer"@))),
                ),
            )
            .push(("description"@, Js::Text("TCP address or port to probe"@))),
    )
}

/// Builds the value of the same name.
pub fn tcp_field_value() -> (r: Json)
    ensures
        json::model(r) == tcp_field(),
{
    Fields::new()
        .with("oneOf", Items::new().with(typed_value("string")).with(typed_value("integer")).done())
        .with_text("description", "TCP address or port to probe")
        .done()
}

/// The URL that a probe asks for.
pub open spec fn http_field() -> Js {
    described("string"@, "HTTP URL to probe (expects 2xx)"@)
}

/// Builds the value of the same name.
pub fn http_field_value() -> (r: Json)
    ensures
        json::model(r) == http_field(),
{
    described_value("string", "HTTP URL to probe (expects 2xx)")
}

/// The command that a probe runs.
pub open spec fn exec_field() -> Js {
    described("string"@, "Command to run (expects exit 0)"@)
}

/// Builds the value of the same name.
pub fn exec_field_value() -> (r: Json)
    ensures
        json::model(r) == exec_field(),
{
    described_value("string", "Command to run (expects exit 0)")
}

/// The readiness probe of a unit.
pub open spec fn ready_field() -> Js {
    json::object_of(
        Seq::empty()
            .push(("type"@, Js::Text("object"@)))
            .push(("description"@, Js::Text("Startup readiness probe — dependents wait for it"@)))
            .push(
                (
                    "properties"@,
                    json::object_of(
                        Seq::empty()
                            .push(("exit"@, described("integer"@, "Expected exit code"@)))
                            .push(("tcp"@, tcp_field()))
                            .push(("http"@, http_field()))
                            .push(("exec"@, exec_field()))
                            .push(("interval"@, optional("string"@, Js::Text("1s"@), "Time between attempts"@)))
                            .push(("timeout"@, optional("string"@, Js::Text("30s"@), "Give up after this duration"@)))
                            .push(("retries"@, described("integer"@, "Max probe attempts"@))),
                    ),
                ),
            )
            .push(("additionalProperties"@, Js::Bool(false))),
    )
}

/// Builds the value of the same name.
pub fn ready_field_value() -> (r: Json)
    ensures
        json::model(r) == ready_field(),
{
    Fields::new()
        .with_text("type", "object")
        .with_text("description", "Startup readiness probe — dependents wait for it")
        .with(
            "properties",
            Fields::new()
                .with("exit", described_value("integer", "Expected exit code"))
                .with("tcp", tcp_field_value())
                .with("http", http_field_value())
                .with("exec", exec_field_value())
                .with("interval", optional_value("string", json::string("1s"), "Time between attempts"))
                .with("timeout", optional_value("string", json::string("30s"), "Give up after this duration"))
                .with("retries", described_value("integer", "Max probe attempts"))
                .done(),
        )
        .with("additionalProperties", Json::Bool(false))
        .done()
}

/// The health check of a unit.
pub open spec fn healthcheck_field() -> Js {
    json::object_of(
        Seq::empty()
            .push(("type"@, Js::Text("object"@)))
            .push(
                (
                    "description"@,
                    Js::Text("Continuous health check — failure triggers restart per policy"@),
                ),
            )
            .push(
                (
                    "properties"@,
                    json::object_of(
                        Seq::empty()
                            .push(("tcp"@, tcp_field()))
                            .push(("http"@, http_field()))
                            .push(("exec"@, exec_field()))
                            .push(("interval"@, optional("string"@, Js::Text("10s"@), "Time between checks"@)))
                            .push(("timeout"@, optional("string"@, Js::Text("30s"@), "Per-check timeout"@)))
                            .push(
                                (
                                    "retries"@,
                                    optional("integer"@, Js::Unsigned(3), "Consecutive failures before unhealthy"@),
                                ),
                            ),
                    ),
                ),
            )
            .push(("additionalProperties"@, Js::Bool(false))),
    )
}

/// Builds the value of the same name.
pub fn healthcheck_field_value() -> (r: Json)
    ensures
        json::model(r) == healthcheck_field(),
{
    Fields::new()
        .with_text("type", "object")
        .with_text("description", "Continuous health check — failure triggers restart per policy")
        .with(
            "properties",
            Fields::new()
                .with("tcp", tcp_field_value())
                .with("http", http_field_value())
                .with("exec", exec_field_value())
                .with("interval", optional_value("string", json::string("10s"), "Time between checks"))
                .with("timeout", optional_value("string", json::string("30s"), "Per-check timeout"))
                .with("retries", optional_value("integer", Json::Unsigned(3), "Consecutive failures before unhealthy"))
                .done(),
        )
        .with("additionalProperties", Json::Bool(false))
        .done()
}

/// A port with the number that is preferred.
pub open spec fn port_table() -> Js {
    json::object_of(
        Seq::empty()
            .push(("type"@, Js::Text("object"@)))
            .push(("required"@, Js::Array(Seq::empty().push(Js::Text("name"@)))))
            .push(
                (
                    "properties"@,
                    json::object_of(
                        Seq::empty()
                            .push(("name"@, typed("string"@)))
                            .push(("default"@, typed("integer"@))),
                    ),
                ),
            )
            .push(("additionalProperties"@, Js::Bool(false))),
    )
}

/// Builds the value of the same name.
pub fn port_table_value() -> (r: Json)
    ensures
        json::model(r) == port_table(),
{
    Fields::new()
        .with_text("type", "object")
        .with("required", Items::new().with_text("name").done())
        .with(
            "properties",
            Fields::new()
                .with("name", typed_value("string"))
                .with("default", typed_value("integer"))
                .done(),
        )
        .with("additionalProperties", Json::Bool(false))
        .done()
}

/// The ports of a unit.
pub open spec fn ports_field() -> Js {
    json::object_of(
        Seq::empty()
            .push(("type"@, Js::Text("array"@)))
            .push(
                (
                    "items"@,
                    json::object_of(
                        Seq::empty()
                            .push(("oneOf"@, Js::Array(Seq::empty().push(typed("string"@)).push(port_table())))),
                    ),
                ),
            )
            .push(("description"@, Js::Text("Named ports to allocate"@))),
    )
}

/// Builds the value of the same name.
pub fn ports_field_value() -> (r: Json)
    ensures
        json::model(r) == ports_field(),
{
    Fields::new()
        .with_text("type", "array")
        .with(
            "items",
            Fields::new()
                .with("oneOf", Items::new().with(typed_value("string")).with(port_table_value()).done())
                .done(),
        )
        .with_text("description", "Named ports to allocate")
        .done()
}

/// The operating systems of a unit.
pub open spec fn platforms_field() -> Js {
    json::object_of(
        Seq::empty()
            .push(("type"@, Js::Text("array"@)))
            .push(
                (
                    "items"@,
                    json::object_of(
                        Seq::empty()
                            .push(("type"@, Js::Text("string"@)))
                            .push(
                                (
                                    "enum"@,
                                    Js::Array(
                                        Seq::empty()
                                            .push(Js::Text("linux"@))
                                            .push(Js::Text("macos"@))
                                            .push(Js::Text("windows"@)),
                                    ),
                                ),
                            ),
                    ),
                ),
            )
            .push(("description"@, Js::Text("Operating systems that the unit is for"@))),
    )
}

/// Builds the value of the same name.
pub fn platforms_field_value() -> (r: Json)
    ensures
        json::model(r) == platforms_field(),
{
    Fields::new()
        .with_text("type", "array")
        .with(
            "items",
            Fields::new()
                .with_text("type", "string")
                .with("enum", Items::new().with_text("linux").with_text("macos").with_text("windows").done())
                .done(),
        )
        .with_text("description", "Operating systems that the unit is for")
        .done()
}

/// What differs on one operating system.
pub open spec fn override_field() -> Js {
    json::object_of(
        Seq::empty()
            .push(("type"@, Js::Text("object"@)))
            .push(
                (
                    "properties"@,
                    json::object_of(
                        Seq::empty()
                            .push(("command"@, typed("string"@)))
                            .push(("restart"@, restart_field()))
                            .push(("env"@, texts_by_name("Environment variables to add"@)))
                            .push(("depends_on"@, dependencies_field()))
                            .push(("working_dir"@, typed("string"@)))
                            .push(("ready"@, ready_field()))
                            .push(("healthcheck"@, healthcheck_field())),
                    ),
                ),
            )
            .push(("additionalProperties"@, Js::Bool(false))),
    )
}

/// Builds the value of the same name.
pub fn override_field_value() -> (r: Json)
    ensures
        json::model(r) == override_field(),
{
    Fields::new()
        .with_text("type", "object")
        .with(
            "properties",
            Fields::new()
                .with("command", typed_value("string"))
                .with("restart", restart_field_value())
                .with("env", texts_by_name_value("Environment variables to add"))
                .with("depends_on", dependencies_field_value())
                .with("working_dir", typed_value("string"))
                .with("ready", ready_field_value())
                .with("healthcheck", healthcheck_field_value())
                .done(),
        )
        .with("additionalProperties", Json::Bool(false))
        .done()
}

/// What differs by operating system.
pub open spec fn platform_field() -> Js {
    json::object_of(
        Seq::empty()
            .push(("type"@, Js::Text("object"@)))
            .push(("description"@, Js::Text("Overrides by operating system"@)))
            .push(
                (
                    "properties"@,
                    json::object_of(
                        Seq::empty()
                            .push(("linux"@, override_field()))
                            .push(("macos"@, override_field()))
                            .push(("windows"@, override_field())),
                    ),
                ),
            )
            .push(("additionalProperties"@, Js::Bool(false))),
    )
}

/// Builds the value of the same name.
pub fn platform_field_value() -> (r: Json)
    ensures
        json::model(r) == platform_field(),
{
    Fields::new()
        .with_text("type", "object")
        .with_text("description", "Overrides by operating system")
        .with(
            "properties",
            Fields::new()
                .with("linux", override_field_value())
                .with("macos", override_field_value())
                .with("windows", override_field_value())
                .done(),
        )
        .with("additionalProperties", Json::Bool(false))
        .done()
}

/// The fields of a unit.
pub open spec fn unit_properties() -> Js {
    json::object_of(
        Seq::empty()
            .push(("command"@, described("string"@, "Shell command to run"@)))
            .push(("restart"@, restart_field()))
            .push(("env"@, texts_by_name("Environment variables"@)))
            .push(("depends_on"@, dependencies_field()))
            .push(
                (
                    "singleton"@,
                    optional("boolean"@, Js::Bool(true), "Single instance (true) or template (false)"@),
                ),
            )
            .push(
                ("interactive"@, optional("boolean"@, Js::Bool(false), "Enable writable stdin pipe"@)),
            )
            .push(("ports"@, ports_field()))
            .push(
                (
                    "sub_root"@,
                    optional("boolean"@, Js::Bool(false), "Run as a managed sub-root with its own socket"@),
                ),
            )
            .push(("working_dir"@, described("string"@, "Working directory for the process"@)))
            .push(("ready"@, ready_field()))
            .push(("healthcheck"@, healthcheck_field()))
            .push(("platforms"@, platforms_field()))
            .push(("platform"@, platform_field())),
    )
}

/// Builds the value of the same name.
pub fn unit_properties_value() -> (r: Json)
    ensures
        json::model(r) == unit_properties(),
{
    Fields::new()
        .with("command", described_value("string", "Shell command to run"))
        .with("restart", restart_field_value())
        .with("env", texts_by_name_value("Environment variables"))
        .with("depends_on", dependencies_field_value())
        .with("singleton", optional_value("boolean", Json::Bool(true), "Single instance (true) or template (false)"))
        .with("interactive", optional_value("boolean", Json::Bool(false), "Enable writable stdin pipe"))
        .with("ports", ports_field_value())
        .with(
            "sub_root",
            optional_value(
                "boolean",
                Json::Bool(false),
                "Run as a managed sub-root with its own socket",
            ),
        )
        .with("working_dir", described_value("string", "Working directory for the process"))
        .with("ready", ready_field_value())
        .with("healthcheck", healthcheck_field_value())
        .with("platforms", platforms_field_value())
        .with("platform", platform_field_value())
        .done()
}

/// The JSON Schema of a Psyfile.
pub open spec fn psyfile_schema() -> Js {
    json::object_of(
        Seq::empty()
            .push(("$schema"@, Js::Text("http://json-schema.org/draft-07/schema#"@)))
            .push(("title"@, Js::Text("Psyfile"@)))
            .push(("description"@, Js::Text("psy process lifecycle manager — unit definitions"@)))
            .push(("type"@, Js::Text("object"@)))
            .push(
                (
                    "additionalProperties"@,
                    json::object_of(
                        Seq::empty()
                            .push(("type"@, Js::Text("object"@)))
                            .push(("required"@, Js::Array(Seq::empty().push(Js::Text("command"@)))))
                            .push(("properties"@, unit_properties()))
                            .push(("additionalProperties"@, Js::Bool(false))),
                    ),
                ),
            ),
    )
}

/// Builds the value of the same name.
pub fn json_schema() -> (r: Json)
    ensures
        json::model(r) == psyfile_schema(),
{
    Fields::new()
        .with_text("$schema", "http://json-schema.org/draft-07/schema#")
        .with_text("title", "Psyfile")
        .with_text("description", "psy process lifecycle manager — unit definitions")
        .with_text("type", "object")
        .with(
            "additionalProperties",
            Fields::new()
                .with_text("type", "object")
                .with("required", Items::new().with_text("command").done())
                .with("properties", unit_properties_value())
                .with("additionalProperties", Json::Bool(false))
                .done(),
        )
        .done()
}

} // verus!

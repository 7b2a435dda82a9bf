//! Requests, responses and what they carry.
use crate::json::Json;
use crate::names::NameMap;
use crate::text;
use vstd::prelude::*;

verus! {

/// What happens when a process exits by itself.
#[derive(Clone, Copy, Debug, PartialEq, Eq, Structural)]
pub enum RestartPolicy {
    No,
    OnFailure,
    Always,
}

impl Default for RestartPolicy {
    fn default() -> (r: Self)
        ensures
            r == RestartPolicy::No,
    {
        RestartPolicy::No
    }
}

/// Which streams of a log are asked for.
#[derive(Clone, Copy, Debug, PartialEq, Eq, Structural)]
pub enum StreamFilter {
    All,
    Stdout,
    Stderr,
    Probe,
    ProbeStdout,
    ProbeStderr,
}

impl Default for StreamFilter {
    fn default() -> (r: Self)
        ensures
            r == StreamFilter::All,
    {
        StreamFilter::All
    }
}

/// The stream of a log line, as it is sent.
#[derive(Clone, Copy, Debug, PartialEq, Eq, Structural)]
pub enum StreamKind {
    Stdout,
    Stderr,
    ProbeStdout,
    ProbeStderr,
}

// ---------------------------------------------------------------------------
// Messages
// ---------------------------------------------------------------------------

/// A request to a root.
#[derive(Debug)]
pub struct Request {
    pub id: String,
    pub cmd: String,
    pub args: Option<Json>,
}

/// The answer of a root.
#[derive(Debug)]
pub struct Response {
    pub id: String,
    pub ok: bool,
    pub data: Option<Json>,
    pub error: Option<String>,
    /// The class of the error: there on every error, never on success.
    pub error_code: Option<ErrorCode>,
}

/// The class of an error. Callers match on it and not on the message.
#[non_exhaustive]
#[derive(Clone, Copy, Debug, PartialEq, Eq, Structural)]
pub enum ErrorCode {
    /// A process by this name is already running.
    AlreadyExists,
    /// No process by this name is known.
    NotFound,
    /// The name is not a process name.
    InvalidName,
    /// A Psyfile could not be found, read or used.
    PsyfileError,
    /// A child process could not be started.
    SpawnFailed,
    /// A port could not be had.
    PortAllocationFailed,
    /// The root is shutting down and takes no new work.
    ShuttingDown,
    /// The request was malformed.
    InvalidArgs,
    /// The process to stop or restart is not running.
    NotRunning,
    /// The process was not started with a writable stdin.
    NotInteractive,
    /// The stdin of the process has been closed.
    StdinClosed,
    /// An attached session owns the stdin of the process.
    AttachedSessionConflict,
    /// There is no such run.
    NoHistory,
    /// The unit is not a sub-root, or has not registered yet.
    NotASubroot,
    /// The process that registers as a sub-root is not a descendant.
    SubrootUnauthorized,
    /// Anything else.
    Other,
}

/// A log line sent to a client that follows a log.
#[derive(Debug)]
pub struct LogLineResponse {
    pub id: String,
    pub name: String,
    pub timestamp: String,
    pub stream: StreamKind,
    pub content: String,
}

/// Input sent to a root in an attached session.
#[derive(Debug)]
pub struct StdinData {
    pub stdin: String,
}

/// The end of an attached session.
#[derive(Debug)]
pub struct DetachNotice {
    pub detached: bool,
    pub reason: String,
    pub exit_code: Option<i32>,
}

pub const CMD_RUN: &'static str = "run";

pub const CMD_PS: &'static str = "ps";

pub const CMD_LOGS: &'static str = "logs";

pub const CMD_LOGS_FOLLOW: &'static str = "logs_follow";

pub const CMD_STOP: &'static str = "stop";

pub const CMD_RESTART: &'static str = "restart";

pub const CMD_DOWN: &'static str = "down";

pub const CMD_HISTORY: &'static str = "history";

pub const CMD_SEND: &'static str = "send";

pub const CMD_SEND_WAIT: &'static str = "send_wait";

pub const CMD_CLEAN: &'static str = "clean";

pub const CMD_REGISTER_SUBROOT: &'static str = "register_subroot";

/// What to run.
#[derive(Debug)]
pub struct RunArgs {
    pub name: String,
    pub command: Vec<String>,
    pub restart: RestartPolicy,
    pub env: NameMap<String>,
    pub attach: bool,
    pub interactive: bool,
    /// Whether output is also captured as raw bytes.
    pub raw_stdio: bool,
    pub extra_args: Option<Vec<String>>,
    pub wait_for: Option<WaitFor>,
    pub wait_timeout: Option<String>,
    pub ports: Vec<PortDefArg>,
    /// The working directory, where it is not the root's.
    pub cwd: Option<String>,
    pub ready: Option<ProbeArg>,
    pub healthcheck: Option<ProbeArg>,
    /// Processes that must be ready before this one starts.
    pub depends_on: Vec<DependencyArg>,
    /// Tags that the caller keeps on the process. They are stored with it and
    /// reported, and mean nothing to the root.
    pub metadata: NameMap<String>,
}

/// A probe as it is sent. Times are texts such as `1s`, `500ms` or `2m`.
#[derive(Debug)]
pub struct ProbeArg {
    pub kind: ProbeKindArg,
    pub interval: Option<String>,
    pub timeout: Option<String>,
    pub retries: Option<u32>,
}

/// What a probe tests, as it is sent.
#[derive(Debug)]
pub enum ProbeKindArg {
    /// A connection to `host:port` or to a port of this machine.
    Tcp { addr: String },
    /// A GET request that is answered with a status of 2xx.
    Http { url: String },
    /// A shell command that exits with 0.
    Exec { command: String },
    /// The process itself exits with this code.
    Exit { code: i32 },
}

/// A process that another one depends on, as it is sent.
#[derive(Debug)]
pub struct DependencyArg {
    pub name: String,
    /// Whether a restart of it restarts the other one.
    pub restart: bool,
}

/// A port that a process asks for.
#[derive(Debug)]
pub struct PortDefArg {
    pub name: String,
    pub default: Option<u16>,
}

/// What a run waits for before it is answered.
#[derive(Debug)]
pub enum WaitFor {
    Ready,
    Exit,
    Log { pattern: String },
    Dependency { name: String },
}

/// Input for a process.
#[derive(Debug)]
pub struct SendArgs {
    pub name: String,
    pub input: Option<String>,
    pub eof: bool,
}

/// Input for a process, and what to wait for.
#[derive(Debug)]
pub struct SendWaitArgs {
    pub name: String,
    pub input: String,
    pub timeout: Option<String>,
    pub idle_timeout: Option<String>,
    pub prompt: Option<String>,
}

/// A question about a log.
#[derive(Debug)]
pub struct LogsArgs {
    pub name: String,
    pub tail: Option<usize>,
    pub stream: StreamFilter,
    pub since: Option<String>,
    pub until: Option<String>,
    pub grep: Option<String>,
    pub run: Option<u32>,
    pub previous: bool,
    pub probe: bool,
}

/// A question about the runs of a process.
#[derive(Debug)]
pub struct HistoryArgs {
    pub name: String,
}

/// One run of a process.
#[derive(Debug)]
pub struct RunInfo {
    pub run_id: u32,
    pub status: String,
    pub exit_code: Option<i32>,
    pub signal: Option<String>,
    pub started_at: Option<String>,
    pub duration_secs: Option<u64>,
}

/// The runs of a process.
#[derive(Debug)]
pub struct HistoryResponse {
    pub name: String,
    pub runs: Vec<RunInfo>,
}

/// What to stop.
#[derive(Debug)]
pub struct StopArgs {
    pub name: String,
}

/// What a sub-root tells its parent.
#[derive(Debug)]
pub struct RegisterSubrootArgs {
    pub name: String,
    pub socket_path: String,
    pub pid: u32,
}

/// What to restart.
#[derive(Debug)]
pub struct RestartArgs {
    pub name: String,
}

/// One process of a root.
#[derive(Debug)]
pub struct ProcessInfo {
    pub name: String,
    pub pid: Option<u32>,
    pub status: String,
    pub restart_policy: RestartPolicy,
    pub started_at: Option<String>,
    pub uptime_secs: Option<u64>,
    pub exit_code: Option<i32>,
    pub signal: Option<String>,
    pub restarts: u32,
    pub ready: Option<String>,
    pub ports: Option<NameMap<u16>>,
    pub subroot_socket: Option<String>,
    pub is_subroot: bool,
    /// The tags that the caller keeps on the process.
    pub metadata: NameMap<String>,
}

/// The processes of a root.
#[derive(Debug)]
pub struct PsResponse {
    pub processes: Vec<ProcessInfo>,
}

/// The shape of a version 4 UUID in its usual form: hexadecimal digits, with
/// hyphens between the groups.
pub open spec fn uuid_shaped(s: Seq<char>) -> bool {
    &&& s.len() == 36
    &&& forall|i: int|
        0 <= i < 36 ==> if i == 8 || i == 13 || i == 18 || i == 23 {
            #[trigger] s[i] == '-'
        } else {
            '0' <= s[i] <= '9' || 'a' <= s[i] <= 'f'
        }
}

/// Calls `uuid::Uuid::new_v4` and writes it in its hyphenated form. Which UUID
/// comes is left to chance.
#[verifier::external_body]
fn fresh_id() -> (r: String)
    ensures
        uuid_shaped(r@),
{
    uuid::Uuid::new_v4().to_string()
}

impl Request {
    /// A request with a fresh id.
    pub fn new(cmd: &str, args: Option<Json>) -> (r: Request)
        ensures
            uuid_shaped(r.id@),
            r.cmd@ == cmd@,
            r.args == args,
    {
        Request { id: fresh_id(), cmd: text::copy(cmd), args }
    }

    /// A request to run a process.
    pub fn run(args: Json) -> (r: Request)
        ensures
            uuid_shaped(r.id@),
            r.cmd@ == CMD_RUN@,
            r.args == Some(args),
    {
        Request::new(CMD_RUN, Some(args))
    }

    /// A request to list the processes.
    pub fn ps() -> (r: Request)
        ensures
            uuid_shaped(r.id@),
            r.cmd@ == CMD_PS@,
            r.args is None,
    {
        Request::new(CMD_PS, None)
    }

    /// A request for a log.
    pub fn logs(args: Json) -> (r: Request)
        ensures
            uuid_shaped(r.id@),
            r.cmd@ == CMD_LOGS@,
            r.args == Some(args),
    {
        Request::new(CMD_LOGS, Some(args))
    }

    /// A request to follow a log.
    pub fn logs_follow(args: Json) -> (r: Request)
        ensures
            uuid_shaped(r.id@),
            r.cmd@ == CMD_LOGS_FOLLOW@,
            r.args == Some(args),
    {
        Request::new(CMD_LOGS_FOLLOW, Some(args))
    }

    /// A request to stop a process.
    pub fn stop(args: Json) -> (r: Request)
        ensures
            uuid_shaped(r.id@),
            r.cmd@ == CMD_STOP@,
            r.args == Some(args),
    {
        Request::new(CMD_STOP, Some(args))
    }

    /// A request to restart a process.
    pub fn restart(args: Json) -> (r: Request)
        ensures
            uuid_shaped(r.id@),
            r.cmd@ == CMD_RESTART@,
            r.args == Some(args),
    {
        Request::new(CMD_RESTART, Some(args))
    }

    /// A request to shut the root down.
    pub fn down() -> (r: Request)
        ensures
            uuid_shaped(r.id@),
            r.cmd@ == CMD_DOWN@,
            r.args is None,
    {
        Request::new(CMD_DOWN, None)
    }

    /// A request for the runs of a process.
    pub fn history(args: Json) -> (r: Request)
        ensures
            uuid_shaped(r.id@),
            r.cmd@ == CMD_HISTORY@,
            r.args == Some(args),
    {
        Request::new(CMD_HISTORY, Some(args))
    }

    /// A request to write to a process.
    pub fn send(args: Json) -> (r: Request)
        ensures
            uuid_shaped(r.id@),
            r.cmd@ == CMD_SEND@,
            r.args == Some(args),
    {
        Request::new(CMD_SEND, Some(args))
    }

    /// A request to write to a process and wait for its output.
    pub fn send_wait(args: Json) -> (r: Request)
        ensures
            uuid_shaped(r.id@),
            r.cmd@ == CMD_SEND_WAIT@,
            r.args == Some(args),
    {
        Request::new(CMD_SEND_WAIT, Some(args))
    }

    /// A request to forget the processes that have ended.
    pub fn clean() -> (r: Request)
        ensures
            uuid_shaped(r.id@),
            r.cmd@ == CMD_CLEAN@,
            r.args is None,
    {
        Request::new(CMD_CLEAN, None)
    }

    /// A request of a sub-root to be registered.
    pub fn register_subroot(args: Json) -> (r: Request)
        ensures
            uuid_shaped(r.id@),
            r.cmd@ == CMD_REGISTER_SUBROOT@,
            r.args == Some(args),
    {
        Request::new(CMD_REGISTER_SUBROOT, Some(args))
    }
}

impl Response {
    /// An answer that reports success.
    pub fn ok(id: &str, data: Option<Json>) -> (r: Response)
        ensures
            r.id@ == id@,
            r.ok,
            r.data == data,
            r.error is None,
            r.error_code is None,
    {
        Response { id: text::copy(id), ok: true, data, error: None, error_code: None }
    }

    /// An answer that reports an error, with the class that its message has.
    pub fn err(id: &str, error: &str) -> (r: Response)
        ensures
            r.id@ == id@,
            !r.ok,
            r.data is None,
            text::opt_text(r.error) == Some(error@),
            r.error_code == Some(message_class(error@)),
    {
        let code = ErrorCode::classify_message(error);
        Response {
            id: text::copy(id),
            ok: false,
            data: None,
            error: Some(text::copy(error)),
            error_code: Some(code),
        }
    }

    /// An answer that reports an error of a given class.
    pub fn err_code(id: &str, code: ErrorCode, error: &str) -> (r: Response)
        ensures
            r.id@ == id@,
            !r.ok,
            r.data is None,
            text::opt_text(r.error) == Some(error@),
            r.error_code == Some(code),
    {
        Response {
            id: text::copy(id),
            ok: false,
            data: None,
            error: Some(text::copy(error)),
            error_code: Some(code),
        }
    }
}

// ---------------------------------------------------------------------------
// The class of a message
// ---------------------------------------------------------------------------

/// The class of a message about a process.
pub open spec fn process_class(m: Seq<char>) -> Option<ErrorCode> {
    if !text::starts_with(m, "process '"@) {
        None
    } else if text::contains(m, "already running"@) {
        Some(ErrorCode::AlreadyExists)
    } else if text::contains(m, " not found"@) {
        Some(ErrorCode::NotFound)
    } else if text::contains(m, "is not running"@) {
        Some(ErrorCode::NotRunning)
    } else if text::contains(m, "interactive mode"@) || text::contains(
        m,
        "not started with interactive"@,
    ) {
        Some(ErrorCode::NotInteractive)
    } else if text::contains(m, "attached session"@) {
        Some(ErrorCode::AttachedSessionConflict)
    } else {
        None
    }
}

/// Whether a message is about a Psyfile or a dependency.
pub open spec fn is_psyfile_message(m: Seq<char>) -> bool {
    ||| text::starts_with(m, "Psyfile error:"@)
    ||| text::starts_with(m, "circular dependency"@)
    ||| text::contains(m, "depends_on references unknown"@)
    ||| text::contains(m, "dependency error:"@)
    ||| text::contains(m, "readiness probe timed out"@)
    ||| text::contains(m, "no Psyfile"@)
}

/// Whether a message is about a malformed request.
pub open spec fn is_args_message(m: Seq<char>) -> bool {
    ||| text::starts_with(m, "invalid or missing"@)
    ||| text::starts_with(m, "either '"@)
    ||| text::starts_with(m, "invalid since timestamp"@)
    ||| text::starts_with(m, "invalid until timestamp"@)
    ||| text::starts_with(m, "invalid grep pattern"@)
    ||| text::starts_with(m, "invalid timeout"@)
    ||| text::starts_with(m, "invalid idle_timeout"@)
    ||| m == "cannot stop the main process (use 'down' instead)"@
    ||| text::starts_with(m, "no command provided"@)
    ||| text::starts_with(m, "sub-root socket_path must not be empty"@)
    ||| text::starts_with(m, "invalid JSON:"@)
}

/// The class of a message: the first that fits.
pub open spec fn message_class(m: Seq<char>) -> ErrorCode {
    if m == "server is shutting down"@ || m == "psy is shutting down"@ {
        ErrorCode::ShuttingDown
    } else if process_class(m) is Some {
        process_class(m)->0
    } else if text::starts_with(m, "stdin for '"@) || text::contains(m, "stdin has been closed"@) {
        ErrorCode::StdinClosed
    } else if text::starts_with(m, "spawn failed:"@) || text::starts_with(m, "spawn '"@)
        || text::starts_with(m, "restart spawn failed:"@) {
        ErrorCode::SpawnFailed
    } else if text::starts_with(m, "failed to allocate port"@) {
        ErrorCode::PortAllocationFailed
    } else if text::starts_with(m, "invalid name"@) || text::starts_with(
        m,
        "invalid sub-root unit name"@,
    ) {
        ErrorCode::InvalidName
    } else if text::contains(m, "not a descendant of parent psy"@) || text::contains(
        m,
        "does not match spawned child"@,
    ) {
        ErrorCode::SubrootUnauthorized
    } else if text::contains(m, "not a sub-root"@) || text::starts_with(m, "no unit '"@)
        || text::contains(m, "was not started as a sub-root"@) {
        ErrorCode::NotASubroot
    } else if is_psyfile_message(m) {
        ErrorCode::PsyfileError
    } else if m == "no previous run"@ || (text::starts_with(m, "run "@) && text::contains(
        m,
        " not found"@,
    )) {
        ErrorCode::NoHistory
    } else if is_args_message(m) {
        ErrorCode::InvalidArgs
    } else {
        ErrorCode::Other
    }
}

fn classify_process(m: &str) -> (r: Option<ErrorCode>)
    ensures
        r == process_class(m@),
{
    if !text::begins(m, "process '") {
        None
    } else if text::has(m, "already running") {
        Some(ErrorCode::AlreadyExists)
    } else if text::has(m, " not found") {
        Some(ErrorCode::NotFound)
    } else if text::has(m, "is not running") {
        Some(ErrorCode::NotRunning)
    } else if text::has(m, "interactive mode") || text::has(m, "not started with interactive") {
        Some(ErrorCode::NotInteractive)
    } else if text::has(m, "attached session") {
        Some(ErrorCode::AttachedSessionConflict)
    } else {
        None
    }
}

fn psyfile_message(m: &str) -> (r: bool)
    ensures
        r == is_psyfile_message(m@),
{
    text::begins(m, "Psyfile error:") || text::begins(m, "circular dependency") || text::has(
        m,
        "depends_on references unknown",
    ) || text::has(m, "dependency error:") || text::has(m, "readiness probe timed out")
        || text::has(m, "no Psyfile")
}

fn args_message(m: &str) -> (r: bool)
    ensures
        r == is_args_message(m@),
{
    text::begins(m, "invalid or missing") || text::begins(m, "either '") || text::begins(
        m,
        "invalid since timestamp",
    ) || text::begins(m, "invalid until timestamp") || text::begins(m, "invalid grep pattern")
        || text::begins(m, "invalid timeout") || text::begins(m, "invalid idle_timeout")
        || text::same(m, "cannot stop the main process (use 'down' instead)") || text::begins(
        m,
        "no command provided",
    ) || text::begins(m, "sub-root socket_path must not be empty") || text::begins(
        m,
        "invalid JSON:",
    )
}

impl ErrorCode {
    /// The class of a message. Handlers keep their messages within the phrases
    /// that this looks for.
    pub fn classify_message(message: &str) -> (r: ErrorCode)
        ensures
            r == message_class(message@),
    {
        if text::same(message, "server is shutting down") || text::same(
            message,
            "psy is shutting down",
        ) {
            return ErrorCode::ShuttingDown;
        }
        match classify_process(message) {
            Some(code) => {
                return code;
            },
            None => {},
        }
        if text::begins(message, "stdin for '") || text::has(message, "stdin has been closed") {
            ErrorCode::StdinClosed
        } else if text::begins(message, "spawn failed:") || text::begins(message, "spawn '")
            || text::begins(message, "restart spawn failed:") {
            ErrorCode::SpawnFailed
        } else if text::begins(message, "failed to allocate port") {
            ErrorCode::PortAllocationFailed
        } else if text::begins(message, "invalid name") || text::begins(
            message,
            "invalid sub-root unit name",
        ) {
            ErrorCode::InvalidName
        } else if text::has(message, "not a descendant of parent psy") || text::has(
            message,
            "does not match spawned child",
        ) {
            ErrorCode::SubrootUnauthorized
        } else if text::has(message, "not a sub-root") || text::begins(message, "no unit '")
            || text::has(message, "was not started as a sub-root") {
            ErrorCode::NotASubroot
        } else if psyfile_message(message) {
            ErrorCode::PsyfileError
        } else if text::same(message, "no previous run") || (text::begins(message, "run ")
            && text::has(message, " not found")) {
            ErrorCode::NoHistory
        } else if args_message(message) {
            ErrorCode::InvalidArgs
        } else {
            ErrorCode::Other
        }
    }
}

} // verus!

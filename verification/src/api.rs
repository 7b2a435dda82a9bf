//! What hosts that embed a root use: options, processes to start, and errors.
use crate::json;
use crate::json::{Js, Json};
use crate::logs;
use crate::names::NameMap;
use crate::ports;
use crate::process;
use crate::protocol;
use crate::protocol::{
    DependencyArg, ErrorCode, LogsArgs, PortDefArg, ProbeArg, ProbeKindArg, ProcessInfo, Response,
    RestartPolicy, RunArgs, StreamFilter, StreamKind,
};
use crate::psyfile;
use crate::psyfile::{ProbeArgView, ProbeKindView, Psyfile};
use crate::ring_buffer::LineView;
use crate::root;
use crate::root::run;
use crate::text;
use crate::time;
use crate::time::{Duration, Timestamp};
use vstd::prelude::*;

verus! {

// ---------------------------------------------------------------------------
// Errors
// ---------------------------------------------------------------------------

/// What can go wrong for a host.
#[non_exhaustive]
#[derive(Debug)]
pub enum PsyError {
    /// A process by this name is already running.
    AlreadyExists { name: String },
    /// No process by this name is known.
    NotFound { name: String },
    /// The name is not a process name.
    InvalidName { name: String },
    /// A Psyfile could not be read or used.
    PsyfileError(String),
    /// A process could not be started.
    SpawnFailed { name: String, message: String },
    /// A port could not be had.
    PortAllocationFailed { port_name: String },
    /// The root is shutting down and takes no new work.
    ShuttingDown,
    /// Input or output failed.
    Io(String),
    /// Anything else.
    Other(String),
}

/// What an error says.
pub ghost enum ErrorView {
    AlreadyExists(Seq<char>),
    NotFound(Seq<char>),
    InvalidName(Seq<char>),
    PsyfileError(Seq<char>),
    SpawnFailed(Seq<char>, Seq<char>),
    PortAllocationFailed(Seq<char>),
    ShuttingDown,
    Io(Seq<char>),
    Other(Seq<char>),
}

impl View for PsyError {
    type V = ErrorView;

    open spec fn view(&self) -> ErrorView {
        match self {
            PsyError::AlreadyExists { name } => ErrorView::AlreadyExists(name@),
            PsyError::NotFound { name } => ErrorView::NotFound(name@),
            PsyError::InvalidName { name } => ErrorView::InvalidName(name@),
            PsyError::PsyfileError(s) => ErrorView::PsyfileError(s@),
            PsyError::SpawnFailed { name, message } => ErrorView::SpawnFailed(name@, message@),
            PsyError::PortAllocationFailed { port_name } => ErrorView::PortAllocationFailed(
                port_name@,
            ),
            PsyError::ShuttingDown => ErrorView::ShuttingDown,
            PsyError::Io(s) => ErrorView::Io(s@),
            PsyError::Other(s) => ErrorView::Other(s@),
        }
    }
}

/// The text of an error.
pub open spec fn error_text(e: ErrorView) -> Seq<char> {
    match e {
        ErrorView::AlreadyExists(n) => "process '"@ + n + "' is already running"@,
        ErrorView::NotFound(n) => "process '"@ + n + "' not found"@,
        ErrorView::InvalidName(n) => "invalid name '"@ + n
            + "': must match [a-zA-Z0-9][a-zA-Z0-9_-]{0,62}"@,
        ErrorView::PsyfileError(s) => "Psyfile error: "@ + s,
        ErrorView::SpawnFailed(n, m) => "spawn '"@ + n + "' failed: "@ + m,
        ErrorView::PortAllocationFailed(p) => "port allocation '"@ + p + "' failed"@,
        ErrorView::ShuttingDown => "psy is shutting down"@,
        ErrorView::Io(s) => "io error: "@ + s,
        ErrorView::Other(s) => s,
    }
}

/// What stands between the first two single quotes of a message.
pub open spec fn quoted(message: Seq<char>) -> Option<Seq<char>> {
    let i = text::position(message, '\'') as int;
    if i >= message.len() {
        None
    } else {
        let rest = message.skip(i + 1);
        let j = text::position(rest, '\'') as int;
        if j >= rest.len() {
            None
        } else {
            Some(rest.take(j))
        }
    }
}

/// What stands between the first two single quotes of a message, or nothing.
pub open spec fn quoted_name(message: Seq<char>) -> Seq<char> {
    match quoted(message) {
        Some(n) => n,
        None => Seq::empty(),
    }
}

/// The error that an answer stands for: its class says which, and names come from
/// its message.
pub open spec fn error_of(code: Option<ErrorCode>, message: Seq<char>) -> ErrorView {
    match code {
        Some(ErrorCode::AlreadyExists) => ErrorView::AlreadyExists(quoted_name(message)),
        Some(ErrorCode::NotFound) => ErrorView::NotFound(quoted_name(message)),
        Some(ErrorCode::InvalidName) => ErrorView::InvalidName(quoted_name(message)),
        Some(ErrorCode::PsyfileError) => ErrorView::PsyfileError(message),
        Some(ErrorCode::SpawnFailed) => ErrorView::SpawnFailed(quoted_name(message), message),
        Some(ErrorCode::PortAllocationFailed) => ErrorView::PortAllocationFailed(
            quoted_name(message),
        ),
        Some(ErrorCode::ShuttingDown) => ErrorView::ShuttingDown,
        _ => ErrorView::Other(message),
    }
}

/// Finds what stands between the first two single quotes of a message.
pub fn extract_quoted(message: &str) -> (r: Option<String>)
    ensures
        text::opt_text(r) == quoted(message@),
{
    let s = text::chars_of(message);
    let i = text::find_char(&s, '\'');
    if i >= s.len() {
        return None;
    }
    let rest = text::part(&s, i + 1, s.len());
    proof {
        assert(rest@ =~= message@.skip(i + 1));
    }
    let j = text::find_char(&rest, '\'');
    if j >= rest.len() {
        return None;
    }
    let name = text::part(&rest, 0, j);
    proof {
        assert(name@ =~= rest@.take(j as int));
    }
    Some(text::string_of(&name))
}

/// Finds the name that a message is about.
pub fn extract_name(message: &str) -> (r: String)
    ensures
        r@ == quoted_name(message@),
{
    match extract_quoted(message) {
        Some(n) => n,
        None => {
            let none = String::new();
            proof {
                assert(none@ =~= Seq::<char>::empty());
            }
            none
        },
    }
}

impl PsyError {
    /// Writes the error out.
    pub fn to_string(&self) -> (r: String)
        ensures
            r@ == error_text(self@),
    {
        match self {
            PsyError::AlreadyExists { name } => text::concat3(
                "process '",
                name.as_str(),
                "' is already running",
            ),
            PsyError::NotFound { name } => text::concat3("process '", name.as_str(), "' not found"),
            PsyError::InvalidName { name } => text::concat3(
                "invalid name '",
                name.as_str(),
                "': must match [a-zA-Z0-9][a-zA-Z0-9_-]{0,62}",
            ),
            PsyError::PsyfileError(s) => text::concat2("Psyfile error: ", s.as_str()),
            PsyError::SpawnFailed { name, message } => {
                let mut m = text::concat3("spawn '", name.as_str(), "' failed: ");
                text::push_text(&mut m, message.as_str());
                m
            },
            PsyError::PortAllocationFailed { port_name } => text::concat3(
                "port allocation '",
                port_name.as_str(),
                "' failed",
            ),
            PsyError::ShuttingDown => text::copy("psy is shutting down"),
            PsyError::Io(s) => text::concat2("io error: ", s.as_str()),
            PsyError::Other(s) => text::copy(s.as_str()),
        }
    }

    /// The error that an answer stands for.
    pub fn from_response(code: Option<ErrorCode>, message: String) -> (r: PsyError)
        ensures
            r@ == error_of(code, message@),
    {
        match code {
            Some(ErrorCode::AlreadyExists) => PsyError::AlreadyExists {
                name: extract_name(message.as_str()),
            },
            Some(ErrorCode::NotFound) => PsyError::NotFound {
                name: extract_name(message.as_str()),
            },
            Some(ErrorCode::InvalidName) => PsyError::InvalidName {
                name: extract_name(message.as_str()),
            },
            Some(ErrorCode::PsyfileError) => PsyError::PsyfileError(message),
            Some(ErrorCode::SpawnFailed) => {
                let name = extract_name(message.as_str());
                PsyError::SpawnFailed { name, message }
            },
            Some(ErrorCode::PortAllocationFailed) => PsyError::PortAllocationFailed {
                port_name: extract_name(message.as_str()),
            },
            Some(ErrorCode::ShuttingDown) => PsyError::ShuttingDown,
            _ => PsyError::Other(message),
        }
    }
}

/// The data that an answer carries, or the error that it reports. An error without
/// a message is reported with `missing`.
pub open spec fn reply_of(r: Response, missing: Seq<char>) -> Result<Option<Json>, ErrorView> {
    if r.ok {
        Ok(r.data)
    } else {
        Err(
            error_of(
                r.error_code,
                match r.error {
                    Some(e) => e@,
                    None => missing,
                },
            ),
        )
    }
}

/// Reads an answer.
pub fn reply(r: Response, missing: &str) -> (out: Result<Option<Json>, PsyError>)
    ensures
        match out {
            Ok(d) => reply_of(r, missing@) == Ok::<Option<Json>, ErrorView>(d),
            Err(e) => reply_of(r, missing@) == Err::<Option<Json>, ErrorView>(e@),
        },
{
    if r.ok {
        return Ok(r.data);
    }
    let message = match r.error {
        Some(e) => e,
        None => text::copy(missing),
    };
    Err(PsyError::from_response(r.error_code, message))
}

/// A name between single quotes is found, where it holds no single quote itself
/// and none comes before it.
proof fn lemma_quoted(before: Seq<char>, name: Seq<char>, after: Seq<char>)
    requires
        before.len() > 0,
        before.last() == '\'',
        !before.drop_last().contains('\''),
        !name.contains('\''),
        after.len() > 0,
        after[0] == '\'',
    ensures
        quoted(before + name + after) == Some(name),
{
    let m = before + name + after;
    let i = (before.len() - 1) as nat;
    assert forall|k: int| 0 <= k < i implies m[k] != '\'' by {
        assert(m[k] == before.drop_last()[k]);
    }
    assert(m[i as int] == '\'');
    text::lemma_position_unique(m, '\'', i);
    let rest = m.skip(i as int + 1);
    assert(rest =~= name + after);
    assert forall|k: int| 0 <= k < name.len() implies rest[k] != '\'' by {
        assert(rest[k] == name[k]);
    }
    assert(rest[name.len() as int] == '\'');
    text::lemma_position_unique(rest, '\'', name.len());
    assert(rest.take(name.len() as int) =~= name);
}

/// A text that occurs at a position makes every character of it stand there.
proof fn lemma_occurs(s: Seq<char>, pat: Seq<char>, i: int, k: int)
    requires
        text::occurs_at(s, pat, i),
        0 <= k < pat.len(),
    ensures
        0 <= i + k < s.len(),
        s[i + k] == pat[k],
{
    assert(s.subrange(i, i + pat.len())[k] == s[i + k]);
}

/// A message on a process is none of those on a shutdown.
proof fn lemma_about_a_process(rest: Seq<char>)
    ensures
        text::starts_with("process '"@ + rest, "process '"@),
        "process '"@ + rest != "server is shutting down"@,
        "process '"@ + rest != "psy is shutting down"@,
{
    reveal_strlit("process '");
    reveal_strlit("server is shutting down");
    reveal_strlit("psy is shutting down");
    let m = "process '"@ + rest;
    assert(m.subrange(0, 9) =~= "process '"@);
    assert(m[0] == 'p');
    assert(m[1] == 'r');
}

/// A text without single quotes that stands in a message with a quoted name stands in
/// the name, or in what comes before it or after it.
proof fn lemma_in_parts(
    before: Seq<char>,
    name: Seq<char>,
    after: Seq<char>,
    pat: Seq<char>,
)
    requires
        before.len() > 0,
        before.last() == '\'',
        after.len() > 0,
        after[0] == '\'',
        !pat.contains('\''),
        text::contains(before + name + after, pat),
    ensures
        text::contains(before.drop_last(), pat) || text::contains(name, pat) || text::contains(
            after.skip(1),
            pat,
        ),
{
    let m = before + name + after;
    let i = choose|i: int| text::occurs_at(m, pat, i);
    let first = before.len() - 1;
    let second = (before.len() + name.len()) as int;
    assert(m[first] == '\'');
    assert(m[second] == '\'');
    if i <= first < i + pat.len() {
        lemma_occurs(m, pat, i, first - i);
        assert(pat.contains(pat[first - i]));
    }
    if i <= second < i + pat.len() {
        lemma_occurs(m, pat, i, second - i);
        assert(pat.contains(pat[second - i]));
    }
    if i + pat.len() <= first {
        assert(before.drop_last().subrange(i, i + pat.len()) =~= m.subrange(i, i + pat.len()));
        assert(text::occurs_at(before.drop_last(), pat, i));
    } else if i > second {
        let k = i - second - 1;
        assert(after.skip(1).subrange(k, k + pat.len()) =~= m.subrange(i, i + pat.len()));
        assert(text::occurs_at(after.skip(1), pat, k));
    } else if i > first && i + pat.len() <= second {
        let k = i - before.len();
        assert(name.subrange(k, k + pat.len()) =~= m.subrange(i, i + pat.len()));
        assert(text::occurs_at(name, pat, k));
    } else {
        // Nothing of the text stands on a quote, so it is empty and stands anywhere.
        assert(pat.len() == 0);
        assert(name.subrange(0, 0) =~= pat);
        assert(text::occurs_at(name, pat, 0));
    }
}

/// A text does not stand where one of its characters is missing.
proof fn lemma_lacks(s: Seq<char>, pat: Seq<char>, k: int)
    requires
        0 <= k < pat.len(),
        forall|j: int| 0 <= j < s.len() ==> #[trigger] s[j] != pat[k],
    ensures
        !text::contains(s, pat),
{
    assert forall|i: int| #[trigger] text::occurs_at(s, pat, i) implies false by {
        lemma_occurs(s, pat, i, k);
    }
}

/// The message on a process that is already running tells its class and its name.
pub proof fn lemma_already_running_message(name: Seq<char>)
    requires
        !name.contains('\''),
    ensures
        protocol::message_class(root::already_running(name)) == ErrorCode::AlreadyExists,
        quoted(root::already_running(name)) == Some(name),
{
    let tail = "' is already running"@;
    let m = root::already_running(name);
    assert(m =~= "process '"@ + (name + tail));
    lemma_about_a_process(name + tail);
    reveal_strlit("process '");
    reveal_strlit("' is already running");
    reveal_strlit("already running");
    lemma_quoted("process '"@, name, tail);
    let from = 9 + name.len() as int;
    assert(m.subrange(from + 5, from + 20) =~= "already running"@);
    assert(text::occurs_at(m, "already running"@, from + 5));
}

/// The message on a process that is not known tells its class and its name, where the
/// name does not read like the message on one that is already running.
pub proof fn lemma_not_found_message(name: Seq<char>)
    requires
        !name.contains('\''),
        !text::contains(name, "already running"@),
    ensures
        protocol::message_class(root::not_found(name)) == ErrorCode::NotFound,
        quoted(root::not_found(name)) == Some(name),
{
    let tail = "' not found"@;
    let m = root::not_found(name);
    assert(m =~= "process '"@ + (name + tail));
    lemma_about_a_process(name + tail);
    reveal_strlit("process '");
    reveal_strlit("' not found");
    reveal_strlit("already running");
    reveal_strlit(" not found");
    lemma_quoted("process '"@, name, tail);
    let from = 9 + name.len() as int;
    assert(m.subrange(from + 1, from + 11) =~= " not found"@);
    assert(text::occurs_at(m, " not found"@, from + 1));
    lemma_lacks("process '"@.drop_last(), "already running"@, 1);
    lemma_lacks(tail.skip(1), "already running"@, 1);
    if text::contains(m, "already running"@) {
        lemma_in_parts("process '"@, name, tail, "already running"@);
    }
}

/// The message on a process that does not run tells its class and its name, where the
/// name does not read like another message.
pub proof fn lemma_not_running_message(name: Seq<char>)
    requires
        !name.contains('\''),
        !text::contains(name, "already running"@),
        !text::contains(name, " not found"@),
    ensures
        protocol::message_class(root::not_running(name)) == ErrorCode::NotRunning,
        quoted(root::not_running(name)) == Some(name),
{
    let tail = "' is not running"@;
    let m = root::not_running(name);
    assert(m =~= "process '"@ + (name + tail));
    lemma_about_a_process(name + tail);
    reveal_strlit("process '");
    reveal_strlit("' is not running");
    reveal_strlit("already running");
    reveal_strlit(" not found");
    reveal_strlit("is not running");
    lemma_quoted("process '"@, name, tail);
    let from = 9 + name.len() as int;
    assert(m.subrange(from + 2, from + 16) =~= "is not running"@);
    assert(text::occurs_at(m, "is not running"@, from + 2));
    lemma_lacks("process '"@.drop_last(), "already running"@, 1);
    lemma_lacks(tail.skip(1), "already running"@, 1);
    lemma_lacks("process '"@.drop_last(), " not found"@, 5);
    lemma_lacks(tail.skip(1), " not found"@, 5);
    if text::contains(m, "already running"@) {
        lemma_in_parts("process '"@, name, tail, "already running"@);
    }
    if text::contains(m, " not found"@) {
        lemma_in_parts("process '"@, name, tail, " not found"@);
    }
}

/// The message on an invalid name tells its class and the name, where the name does not
/// read like another message.
pub proof fn lemma_invalid_name_message(name: Seq<char>)
    requires
        !name.contains('\''),
        !text::contains(name, "stdin has been closed"@),
    ensures
        protocol::message_class(error_text(ErrorView::InvalidName(name)))
            == ErrorCode::InvalidName,
        quoted(error_text(ErrorView::InvalidName(name))) == Some(name),
{
    let head = "invalid name '"@;
    let tail = "': must match [a-zA-Z0-9][a-zA-Z0-9_-]{0,62}"@;
    let m = error_text(ErrorView::InvalidName(name));
    reveal_strlit("invalid name '");
    reveal_strlit("invalid name");
    reveal_strlit("': must match [a-zA-Z0-9][a-zA-Z0-9_-]{0,62}");
    reveal_strlit("stdin has been closed");
    reveal_strlit("server is shutting down");
    reveal_strlit("psy is shutting down");
    reveal_strlit("process '");
    reveal_strlit("stdin for '");
    reveal_strlit("spawn failed:");
    reveal_strlit("spawn '");
    reveal_strlit("restart spawn failed:");
    reveal_strlit("failed to allocate port");
    assert(m == head + name + tail);
    assert(m[0] == 'i');
    lemma_quoted(head, name, tail);
    lemma_lacks(head.drop_last(), "stdin has been closed"@, 0);
    lemma_lacks(tail.skip(1), "stdin has been closed"@, 2);
    if text::contains(m, "stdin has been closed"@) {
        lemma_in_parts(head, name, tail, "stdin has been closed"@);
    }
    if text::starts_with(m, "process '"@) {
        lemma_occurs(m, "process '"@, 0, 0);
    }
    if text::starts_with(m, "stdin for '"@) {
        lemma_occurs(m, "stdin for '"@, 0, 0);
    }
    if text::starts_with(m, "spawn failed:"@) {
        lemma_occurs(m, "spawn failed:"@, 0, 0);
    }
    if text::starts_with(m, "spawn '"@) {
        lemma_occurs(m, "spawn '"@, 0, 0);
    }
    if text::starts_with(m, "restart spawn failed:"@) {
        lemma_occurs(m, "restart spawn failed:"@, 0, 0);
    }
    if text::starts_with(m, "failed to allocate port"@) {
        lemma_occurs(m, "failed to allocate port"@, 0, 0);
    }
    assert(m.subrange(0, 12) =~= "invalid name"@);
}

/// An error that is sent as a message, and read back from the message alone.
pub open spec fn read_back(e: ErrorView) -> ErrorView {
    error_of(Some(protocol::message_class(error_text(e))), error_text(e))
}

/// The errors on a process, on a name and on a shutdown survive being sent as a message
/// and read back, where the name does not read like another message.
pub proof fn lemma_errors_read_back(name: Seq<char>)
    requires
        !name.contains('\''),
    ensures
        read_back(ErrorView::AlreadyExists(name)) == ErrorView::AlreadyExists(name),
        !text::contains(name, "already running"@) ==> read_back(ErrorView::NotFound(name))
            == ErrorView::NotFound(name),
        !text::contains(name, "stdin has been closed"@) ==> read_back(ErrorView::InvalidName(name))
            == ErrorView::InvalidName(name),
        read_back(ErrorView::ShuttingDown) == ErrorView::ShuttingDown,
{
    lemma_already_running_message(name);
    if !text::contains(name, "already running"@) {
        lemma_not_found_message(name);
    }
    if !text::contains(name, "stdin has been closed"@) {
        lemma_invalid_name_message(name);
    }
}

// ---------------------------------------------------------------------------
// Options
// ---------------------------------------------------------------------------

/// Where a root listens for other processes.
#[non_exhaustive]
#[derive(Debug)]
pub enum SocketBinding {
    /// Nowhere: the host is the only one that reaches the root.
    Off,
    /// At the usual path, where other shells find it.
    Auto,
    /// At a path of the caller's choice.
    Path(String),
}

/// Where units come from.
#[non_exhaustive]
#[derive(Debug)]
pub enum PsyfileSource {
    /// From the next Psyfile in this directory or above it.
    Auto,
    /// From this file.
    Path(String),
}

/// Where a sub-root runs.
#[non_exhaustive]
#[derive(Debug)]
pub enum SubRootKind {
    /// In the process of the host.
    InProcess,
    /// In a process of its own.
    OutOfProcess { binary: Option<String> },
}

impl Default for SubRootKind {
    fn default() -> (r: Self)
        ensures
            r == SubRootKind::InProcess,
    {
        SubRootKind::InProcess
    }
}

/// How the process is started that cleans up on macOS after a root that was killed.
#[non_exhaustive]
#[derive(Debug)]
pub enum SidecarStrategy {
    /// By starting the host once more.
    HostReDispatch,
    /// By starting a program of its own.
    ExternalBinary { path: String, sentinel: String },
    /// Not at all.
    Disabled,
}

impl Default for SidecarStrategy {
    fn default() -> (r: Self)
        ensures
            r == SidecarStrategy::HostReDispatch,
    {
        SidecarStrategy::HostReDispatch
    }
}

/// How a root is set up.
#[non_exhaustive]
#[derive(Debug)]
pub struct RootOptions {
    pub name: String,
    /// Where units come from, if any.
    pub psyfile: Option<PsyfileSource>,
    /// Units to start at once.
    pub boot_units: Vec<String>,
    /// Whether to start every unit at once.
    pub boot_all: bool,
    pub bind_socket: SocketBinding,
    /// Whether children are cleaned up when the host is killed.
    pub install_host_cleanup: bool,
    pub sidecar_strategy: SidecarStrategy,
}

impl RootOptions {
    /// Options that suit most hosts.
    pub fn new(name: &str) -> (r: RootOptions)
        ensures
            r.name@ == name@,
            r.psyfile is None,
            r.boot_units@.len() == 0,
            !r.boot_all,
            r.bind_socket is Off,
            r.install_host_cleanup,
            r.sidecar_strategy is HostReDispatch,
    {
        RootOptions {
            name: text::copy(name),
            psyfile: None,
            boot_units: Vec::new(),
            boot_all: false,
            bind_socket: SocketBinding::Off,
            install_host_cleanup: true,
            sidecar_strategy: SidecarStrategy::HostReDispatch,
        }
    }

    pub fn with_psyfile(self, src: PsyfileSource) -> (r: RootOptions)
        ensures
            r == (RootOptions { psyfile: Some(src), ..self }),
    {
        RootOptions { psyfile: Some(src), ..self }
    }

    pub fn with_boot_units(self, units: Vec<String>) -> (r: RootOptions)
        ensures
            r == (RootOptions { boot_units: units, ..self }),
    {
        RootOptions { boot_units: units, ..self }
    }

    pub fn with_boot_all(self, all: bool) -> (r: RootOptions)
        ensures
            r == (RootOptions { boot_all: all, ..self }),
    {
        RootOptions { boot_all: all, ..self }
    }

    pub fn with_bind_socket(self, b: SocketBinding) -> (r: RootOptions)
        ensures
            r == (RootOptions { bind_socket: b, ..self }),
    {
        RootOptions { bind_socket: b, ..self }
    }

    pub fn with_install_host_cleanup(self, on: bool) -> (r: RootOptions)
        ensures
            r == (RootOptions { install_host_cleanup: on, ..self }),
    {
        RootOptions { install_host_cleanup: on, ..self }
    }

    pub fn with_sidecar_strategy(self, s: SidecarStrategy) -> (r: RootOptions)
        ensures
            r == (RootOptions { sidecar_strategy: s, ..self }),
    {
        RootOptions { sidecar_strategy: s, ..self }
    }
}

/// How a sub-root is set up.
#[non_exhaustive]
#[derive(Debug)]
pub struct SubRootOptions {
    pub name: String,
    pub kind: SubRootKind,
    pub psyfile: Option<PsyfileSource>,
    pub boot_units: Vec<String>,
    pub boot_all: bool,
    pub bind_socket: SocketBinding,
}

impl SubRootOptions {
    /// A sub-root in the process of the host, with nothing to start.
    pub fn new(name: &str) -> (r: SubRootOptions)
        ensures
            r.name@ == name@,
            r.kind is InProcess,
            r.psyfile is None,
            r.boot_units@.len() == 0,
            !r.boot_all,
            r.bind_socket is Off,
    {
        SubRootOptions {
            name: text::copy(name),
            kind: SubRootKind::InProcess,
            psyfile: None,
            boot_units: Vec::new(),
            boot_all: false,
            bind_socket: SocketBinding::Off,
        }
    }

    pub fn with_kind(self, kind: SubRootKind) -> (r: SubRootOptions)
        ensures
            r == (SubRootOptions { kind, ..self }),
    {
        SubRootOptions { kind, ..self }
    }

    pub fn with_psyfile(self, src: PsyfileSource) -> (r: SubRootOptions)
        ensures
            r == (SubRootOptions { psyfile: Some(src), ..self }),
    {
        SubRootOptions { psyfile: Some(src), ..self }
    }

    pub fn with_boot_units(self, units: Vec<String>) -> (r: SubRootOptions)
        ensures
            r == (SubRootOptions { boot_units: units, ..self }),
    {
        SubRootOptions { boot_units: units, ..self }
    }

    pub fn with_boot_all(self, all: bool) -> (r: SubRootOptions)
        ensures
            r == (SubRootOptions { boot_all: all, ..self }),
    {
        SubRootOptions { boot_all: all, ..self }
    }

    pub fn with_bind_socket(self, b: SocketBinding) -> (r: SubRootOptions)
        ensures
            r == (SubRootOptions { bind_socket: b, ..self }),
    {
        SubRootOptions { bind_socket: b, ..self }
    }
}

/// The message on sub-roots that would run in a process of their own.
pub const NO_OUT_OF_PROCESS: &'static str = "OutOfProcess sub-roots are targeted for v2.2 — until then use RootHandle::spawn_psy_subroot(name, binary) which spawns a supervised `psy up` child you can drive via the NDJSON wire protocol.";

/// Why a sub-root is refused, where it is.
pub open spec fn sub_root_refusal(o: SubRootOptions) -> Option<ErrorView> {
    match o.kind {
        SubRootKind::OutOfProcess { binary } => Some(ErrorView::Other(NO_OUT_OF_PROCESS@)),
        SubRootKind::InProcess => if process::valid_name(o.name@) {
            None
        } else {
            Some(ErrorView::InvalidName(o.name@))
        },
    }
}

/// Checks the options of a sub-root.
pub fn check_sub_root(o: &SubRootOptions) -> (r: Result<(), PsyError>)
    ensures
        match r {
            Ok(_) => sub_root_refusal(*o) is None,
            Err(e) => sub_root_refusal(*o) == Some(e@),
        },
{
    match &o.kind {
        SubRootKind::OutOfProcess { binary } => Err(PsyError::Other(text::copy(NO_OUT_OF_PROCESS))),
        SubRootKind::InProcess => {
            if process::validate_name(o.name.as_str()) {
                Ok(())
            } else {
                Err(PsyError::InvalidName { name: text::copy(o.name.as_str()) })
            }
        },
    }
}

/// Whether a root listens at all.
pub fn binds(b: &SocketBinding) -> (r: bool)
    ensures
        r == !(*b is Off),
{
    match b {
        SocketBinding::Off => false,
        _ => true,
    }
}

/// The units that are started at once, or what stands against it.
pub open spec fn boot_list(
    all: bool,
    units: Seq<Seq<char>>,
    psyfile: Result<Option<Psyfile>, String>,
    sub_root: bool,
) -> Result<Seq<Seq<char>>, ErrorView> {
    if !all {
        Ok(units)
    } else {
        match psyfile {
            Ok(Some(p)) => Ok(p.units.names()),
            Ok(None) => Err(
                ErrorView::PsyfileError(
                    if sub_root {
                        "no Psyfile to boot --all in sub-root"@
                    } else {
                        "no Psyfile to boot --all"@
                    },
                ),
            ),
            Err(e) => Err(ErrorView::PsyfileError(e@)),
        }
    }
}

/// The names of all units, in the order of the Psyfile.
pub fn unit_names(p: &Psyfile) -> (r: Vec<String>)
    ensures
        text::texts(r@) == p.units.names(),
{
    let mut out: Vec<String> = Vec::new();
    let n = p.units.len();
    let mut i: usize = 0;
    while i < n
        invariant
            i <= n,
            n == p.units.names().len(),
            text::texts(out@) == p.units.names().take(i as int),
        decreases n - i,
    {
        let ghost before = out@;
        out.push(text::copy(p.units.name_at(i).as_str()));
        proof {
            assert(text::texts(out@) =~= text::texts(before).push(out@.last()@));
            assert(p.units.names().take(i + 1) =~= p.units.names().take(i as int).push(
                p.units.names()[i as int],
            ));
        }
        i += 1;
    }
    proof {
        assert(p.units.names().take(n as int) =~= p.units.names());
    }
    out
}

/// Lists the units that are started at once.
pub fn boot_units(
    all: bool,
    units: Vec<String>,
    psyfile: &Result<Option<Psyfile>, String>,
    sub_root: bool,
) -> (r: Result<Vec<String>, PsyError>)
    ensures
        match r {
            Ok(v) => boot_list(all, text::texts(units@), *psyfile, sub_root) == Ok::<
                Seq<Seq<char>>,
                ErrorView,
            >(text::texts(v@)),
            Err(e) => boot_list(all, text::texts(units@), *psyfile, sub_root) == Err::<
                Seq<Seq<char>>,
                ErrorView,
            >(e@),
        },
{
    if !all {
        return Ok(units);
    }
    match psyfile {
        Ok(Some(p)) => Ok(unit_names(p)),
        Ok(None) => {
            if sub_root {
                Err(PsyError::PsyfileError(text::copy("no Psyfile to boot --all in sub-root")))
            } else {
                Err(PsyError::PsyfileError(text::copy("no Psyfile to boot --all")))
            }
        },
        Err(e) => Err(PsyError::PsyfileError(text::copy(e.as_str()))),
    }
}

// ---------------------------------------------------------------------------
// Processes to start
// ---------------------------------------------------------------------------

/// A test that tells when a process is ready.
#[non_exhaustive]
#[derive(Debug)]
pub enum ReadyProbe {
    /// A connection to `host:port` or to a port of this machine.
    Tcp {
        addr: String,
        interval: Option<Duration>,
        timeout: Option<Duration>,
        retries: Option<u32>,
    },
    /// A GET request that is answered with a status of 2xx.
    Http {
        url: String,
        interval: Option<Duration>,
        timeout: Option<Duration>,
        retries: Option<u32>,
    },
    /// A shell command that exits with 0.
    Exec {
        command: String,
        interval: Option<Duration>,
        timeout: Option<Duration>,
        retries: Option<u32>,
    },
    /// The process itself exits with this code.
    Exit { code: i32, timeout: Option<Duration> },
}

/// A test that is repeated while a process runs.
#[non_exhaustive]
#[derive(Debug)]
pub enum HealthCheck {
    Tcp {
        addr: String,
        interval: Option<Duration>,
        timeout: Option<Duration>,
        retries: Option<u32>,
    },
    Http {
        url: String,
        interval: Option<Duration>,
        timeout: Option<Duration>,
        retries: Option<u32>,
    },
    Exec {
        command: String,
        interval: Option<Duration>,
        timeout: Option<Duration>,
        retries: Option<u32>,
    },
}

/// A process that another one depends on.
#[non_exhaustive]
#[derive(Debug)]
pub struct DependencyRef {
    pub name: String,
    /// Whether a restart of it restarts the other one.
    pub restart: bool,
}

impl DependencyRef {
    pub fn new(name: &str) -> (r: DependencyRef)
        ensures
            r.name@ == name@,
            !r.restart,
    {
        DependencyRef { name: text::copy(name), restart: false }
    }

    pub fn with_restart(self, restart: bool) -> (r: DependencyRef)
        ensures
            r == (DependencyRef { restart, ..self }),
    {
        DependencyRef { restart, ..self }
    }
}

/// What a host waits for when it starts a process.
#[non_exhaustive]
#[derive(Debug)]
pub enum WaitFor {
    /// The process is ready.
    Ready,
    /// The process has exited.
    Exit,
    /// A line of its log holds this text, in upper or lower case.
    Log { pattern: String },
}

/// A process that a host starts.
#[non_exhaustive]
#[derive(Debug)]
pub struct Spawn {
    pub name: String,
    pub argv: Vec<String>,
    pub env: NameMap<String>,
    pub restart: RestartPolicy,
    pub interactive: bool,
    /// Ports by name, each with the number that is preferred.
    pub ports: Vec<(String, Option<u16>)>,
    /// The working directory, where it is not the host's.
    pub cwd: Option<String>,
    pub ready: Option<ReadyProbe>,
    pub healthcheck: Option<HealthCheck>,
    /// Processes that must be ready before this one starts.
    pub depends_on: Vec<DependencyRef>,
    /// Tags that the host keeps on the process.
    pub metadata: NameMap<String>,
    pub wait_for: Option<WaitFor>,
    /// How long to wait: two minutes, where nothing else is said.
    pub wait_timeout: Option<Duration>,
    /// Whether output is also captured as raw bytes.
    pub raw_stdio: bool,
}

fn named(pairs: Vec<(String, String)>) -> (r: NameMap<String>)
    ensures
        psyfile::env_view(r) == process::pairs_view(pairs@),
{
    let mut out: NameMap<String> = NameMap::new();
    let mut i: usize = 0;
    proof {
        assert(pairs@.take(0) =~= Seq::<(String, String)>::empty());
        assert(psyfile::env_view(out) =~= process::pairs_view(pairs@.take(0)));
    }
    while i < pairs.len()
        invariant
            i <= pairs.len(),
            psyfile::env_view(out) == process::pairs_view(pairs@.take(i as int)),
        decreases pairs.len() - i,
    {
        let ghost before = psyfile::env_view(out);
        out.insert(text::copy(pairs[i].0.as_str()), text::copy(pairs[i].1.as_str()));
        proof {
            let next = pairs@.take(i + 1);
            assert(next.drop_last() =~= pairs@.take(i as int));
            assert(psyfile::env_view(out) =~= before.insert(next.last().0@, next.last().1@));
        }
        i += 1;
    }
    proof {
        assert(pairs@.take(pairs@.len() as int) =~= pairs@);
    }
    out
}

impl Spawn {
    /// A process with a name and a command line, and nothing else asked of it.
    pub fn new(name: &str, argv: Vec<String>) -> (r: Spawn)
        ensures
            r.name@ == name@,
            r.argv == argv,
            r.env@ == Map::<Seq<char>, String>::empty(),
            r.restart == RestartPolicy::No,
            !r.interactive,
            r.ports@.len() == 0,
            r.cwd is None,
            r.ready is None,
            r.healthcheck is None,
            r.depends_on@.len() == 0,
            r.metadata@ == Map::<Seq<char>, String>::empty(),
            r.wait_for is None,
            r.wait_timeout is None,
            !r.raw_stdio,
    {
        Spawn {
            name: text::copy(name),
            argv,
            env: NameMap::new(),
            restart: RestartPolicy::No,
            interactive: false,
            ports: Vec::new(),
            cwd: None,
            ready: None,
            healthcheck: None,
            depends_on: Vec::new(),
            metadata: NameMap::new(),
            wait_for: None,
            wait_timeout: None,
            raw_stdio: false,
        }
    }

    pub fn with_cwd(self, cwd: String) -> (r: Spawn)
        ensures
            r == (Spawn { cwd: Some(cwd), ..self }),
    {
        Spawn { cwd: Some(cwd), ..self }
    }

    pub fn with_ready(self, ready: ReadyProbe) -> (r: Spawn)
        ensures
            r == (Spawn { ready: Some(ready), ..self }),
    {
        Spawn { ready: Some(ready), ..self }
    }

    pub fn with_healthcheck(self, hc: HealthCheck) -> (r: Spawn)
        ensures
            r == (Spawn { healthcheck: Some(hc), ..self }),
    {
        Spawn { healthcheck: Some(hc), ..self }
    }

    pub fn with_depends_on(self, deps: Vec<DependencyRef>) -> (r: Spawn)
        ensures
            r == (Spawn { depends_on: deps, ..self }),
    {
        Spawn { depends_on: deps, ..self }
    }

    /// Sets the tags: of two with one name the later counts.
    pub fn with_metadata(self, meta: Vec<(String, String)>) -> (r: Spawn)
        ensures
            psyfile::env_view(r.metadata) == process::pairs_view(meta@),
            r == (Spawn { metadata: r.metadata, ..self }),
    {
        let metadata = named(meta);
        Spawn { metadata, ..self }
    }

    /// Sets the variables: of two with one name the later counts.
    pub fn with_env(self, env: Vec<(String, String)>) -> (r: Spawn)
        ensures
            psyfile::env_view(r.env) == process::pairs_view(env@),
            r == (Spawn { env: r.env, ..self }),
    {
        let vars = named(env);
        Spawn { env: vars, ..self }
    }

    pub fn with_restart(self, policy: RestartPolicy) -> (r: Spawn)
        ensures
            r == (Spawn { restart: policy, ..self }),
    {
        Spawn { restart: policy, ..self }
    }

    pub fn with_interactive(self, on: bool) -> (r: Spawn)
        ensures
            r == (Spawn { interactive: on, ..self }),
    {
        Spawn { interactive: on, ..self }
    }

    pub fn with_ports(self, ports: Vec<(String, Option<u16>)>) -> (r: Spawn)
        ensures
            r == (Spawn { ports, ..self }),
    {
        Spawn { ports, ..self }
    }

    pub fn with_wait_for(self, condition: WaitFor) -> (r: Spawn)
        ensures
            r == (Spawn { wait_for: Some(condition), ..self }),
    {
        Spawn { wait_for: Some(condition), ..self }
    }

    pub fn with_wait_timeout(self, d: Duration) -> (r: Spawn)
        ensures
            r == (Spawn { wait_timeout: Some(d), ..self }),
    {
        Spawn { wait_timeout: Some(d), ..self }
    }

    /// Also captures output as raw bytes, beside the lines of the log.
    pub fn with_raw_stdio(self, on: bool) -> (r: Spawn)
        ensures
            r == (Spawn { raw_stdio: on, ..self }),
    {
        Spawn { raw_stdio: on, ..self }
    }
}

/// The words of a list, then those of another one.
pub open spec fn subroot_argv(
    binary: Option<Seq<char>>,
    name: Seq<char>,
    extra: Seq<Seq<char>>,
) -> Seq<Seq<char>> {
    seq![
        match binary {
            Some(b) => b,
            None => "psy"@,
        },
        "up"@,
        "--name"@,
        name,
    ] + extra
}

/// A root of its own that is started as a process.
pub fn subroot_spawn(name: &str, binary: Option<String>, extra_args: &Vec<String>) -> (r: Spawn)
    ensures
        r.name@ == name@,
        text::texts(r.argv@) == subroot_argv(
            text::opt_text(binary),
            name@,
            text::texts(extra_args@),
        ),
        r.env@ == Map::<Seq<char>, String>::empty(),
        r.restart == RestartPolicy::No,
        !r.interactive,
        r.ports@.len() == 0,
        r.cwd is None,
        r.ready is None,
        r.healthcheck is None,
        r.depends_on@.len() == 0,
        r.metadata@ == Map::<Seq<char>, String>::empty(),
        r.wait_for is None,
        r.wait_timeout is None,
        !r.raw_stdio,
{
    let bin = match binary {
        Some(b) => b,
        None => text::copy("psy"),
    };
    let ghost first = bin@;
    let mut argv: Vec<String> = Vec::new();
    argv.push(bin);
    argv.push(text::copy("up"));
    argv.push(text::copy("--name"));
    argv.push(text::copy(name));
    let ghost head = seq![first, "up"@, "--name"@, name@];
    proof {
        assert(text::texts(argv@) =~= head + text::texts(extra_args@).take(0));
    }
    let mut i: usize = 0;
    while i < extra_args.len()
        invariant
            i <= extra_args.len(),
            text::texts(argv@) == head + text::texts(extra_args@).take(i as int),
        decreases extra_args.len() - i,
    {
        let ghost before = argv@;
        argv.push(text::copy(extra_args[i].as_str()));
        proof {
            let all = text::texts(extra_args@);
            assert(text::texts(argv@) =~= text::texts(before).push(all[i as int]));
            assert(all.take(i + 1) =~= all.take(i as int).push(all[i as int]));
            assert(head + all.take(i + 1) =~= (head + all.take(i as int)).push(all[i as int]));
        }
        i += 1;
    }
    proof {
        let all = text::texts(extra_args@);
        assert(all.take(all.len() as int) =~= all);
    }
    Spawn::new(name, argv)
}

// ---------------------------------------------------------------------------
// Durations and probes, as they are sent
// ---------------------------------------------------------------------------

/// A span of time in its largest whole unit, down to milliseconds.
pub open spec fn duration_text(d: Duration) -> Seq<char> {
    let ms = d.millis();
    if ms == 0 {
        "0ms"@
    } else if ms % 3_600_000 == 0 {
        text::decimal(ms / 3_600_000) + "h"@
    } else if ms % 60_000 == 0 {
        text::decimal(ms / 60_000) + "m"@
    } else if ms % 1_000 == 0 {
        text::decimal(ms / 1_000) + "s"@
    } else {
        text::decimal(ms) + "ms"@
    }
}

/// Writes a span of time in its largest whole unit, down to milliseconds.
pub fn format_duration(d: Duration) -> (r: String)
    ensures
        r@ == duration_text(d),
{
    let ms = d.as_millis();
    if ms == 0 {
        return text::copy("0ms");
    }
    if ms % 3_600_000 == 0 {
        return text::concat2(text::decimal_of(ms / 3_600_000).as_str(), "h");
    }
    if ms % 60_000 == 0 {
        return text::concat2(text::decimal_of(ms / 60_000).as_str(), "m");
    }
    if ms % 1_000 == 0 {
        return text::concat2(text::decimal_of(ms / 1_000).as_str(), "s");
    }
    text::concat2(text::decimal_of(ms).as_str(), "ms")
}

/// A number with a unit is read as the number and the unit.
proof fn lemma_read_unit(n: nat, unit: Seq<char>)
    requires
        unit.len() > 0,
        !text::is_space(unit.last()),
    ensures
        text::trimmed(text::decimal(n) + unit) == text::decimal(n) + unit,
        (text::decimal(n) + unit).take(text::decimal(n).len() as int) == text::decimal(n),
        n <= u64::MAX ==> text::unsigned(text::decimal(n), u64::MAX as nat) == Some(n),
{
    text::lemma_decimal_read_back(n);
    let s = text::decimal(n) + unit;
    assert(s[0] == text::decimal(n)[0]);
    assert(text::is_digit(text::decimal(n)[0]));
    assert(text::trim_start(s) == s);
    assert(s.last() == unit.last());
    assert(text::trim_end(s) == s);
    assert(s.take(text::decimal(n).len() as int) =~= text::decimal(n));
}

/// A span of time that is written out and read again is the same, but for what it
/// has beyond whole milliseconds. Only a number of milliseconds that takes more
/// than 64 bits is not read again.
pub proof fn lemma_duration_read_back(d: Duration)
    requires
        d.nanos < 1_000_000_000,
        d.nanos < 1_000_000 || d.millis() <= u64::MAX,
    ensures
        psyfile::duration_of(duration_text(d)) == Ok::<Duration, Seq<char>>(
            Duration { secs: d.secs, nanos: ((d.nanos / 1_000_000) * 1_000_000) as u32 },
        ),
{
    reveal_strlit("0ms");
    reveal_strlit("ms");
    reveal_strlit("h");
    reveal_strlit("m");
    reveal_strlit("s");
    let ms = d.millis();
    let t = duration_text(d);
    if ms == 0 {
        assert(text::decimal(0) + "ms"@ =~= "0ms"@);
        lemma_read_unit(0, "ms"@);
        assert(text::ends_with(t, "ms"@)) by {
            assert(t.subrange(1, 3) =~= "ms"@);
        }
        assert(t.take(1) =~= text::decimal(0));
    } else if ms % 3_600_000 == 0 {
        let n = ms / 3_600_000;
        lemma_read_unit(n, "h"@);
        assert(t.last() == 'h');
        assert(!text::ends_with(t, "ms"@)) by {
            if text::ends_with(t, "ms"@) {
                lemma_occurs(t, "ms"@, t.len() - 2, 1);
            }
        }
        assert(t.drop_last() =~= text::decimal(n));
        assert(n * 3600 == d.secs);
    } else if ms % 60_000 == 0 {
        let n = ms / 60_000;
        lemma_read_unit(n, "m"@);
        assert(t.last() == 'm');
        assert(!text::ends_with(t, "ms"@)) by {
            if text::ends_with(t, "ms"@) {
                lemma_occurs(t, "ms"@, t.len() - 2, 1);
            }
        }
        assert(t.drop_last() =~= text::decimal(n));
        assert(n * 60 == d.secs);
    } else if ms % 1_000 == 0 {
        let n = ms / 1_000;
        lemma_read_unit(n, "s"@);
        assert(t.last() == 's');
        assert(!text::ends_with(t, "ms"@)) by {
            if text::ends_with(t, "ms"@) {
                lemma_occurs(t, "ms"@, t.len() - 2, 0);
                text::lemma_decimal_read_back(n);
                assert(t[t.len() - 2] == text::decimal(n)[t.len() - 2]);
            }
        }
        assert(t.drop_last() =~= text::decimal(n));
        assert(n == d.secs);
    } else {
        lemma_read_unit(ms, "ms"@);
        assert(text::ends_with(t, "ms"@)) by {
            assert(t.subrange(t.len() - 2, t.len() as int) =~= "ms"@);
        }
        assert(t.take(t.len() - 2) =~= text::decimal(ms));
        assert(ms % 1000 == d.nanos / 1_000_000);
        assert(ms / 1000 == d.secs);
    }
}

/// An optional span of time, as it is sent.
pub open spec fn opt_duration_text(d: Option<Duration>) -> Option<Seq<char>> {
    match d {
        Some(x) => Some(duration_text(x)),
        None => None,
    }
}

fn format_optional(d: Option<Duration>) -> (r: Option<String>)
    ensures
        text::opt_text(r) == opt_duration_text(d),
{
    match d {
        Some(x) => Some(format_duration(x)),
        None => None,
    }
}

/// A readiness probe, as it is sent.
pub open spec fn ready_arg(p: ReadyProbe) -> ProbeArgView {
    match p {
        ReadyProbe::Tcp { addr, interval, timeout, retries } => ProbeArgView {
            kind: ProbeKindView::Tcp(addr@),
            interval: opt_duration_text(interval),
            timeout: opt_duration_text(timeout),
            retries,
        },
        ReadyProbe::Http { url, interval, timeout, retries } => ProbeArgView {
            kind: ProbeKindView::Http(url@),
            interval: opt_duration_text(interval),
            timeout: opt_duration_text(timeout),
            retries,
        },
        ReadyProbe::Exec { command, interval, timeout, retries } => ProbeArgView {
            kind: ProbeKindView::Exec(command@),
            interval: opt_duration_text(interval),
            timeout: opt_duration_text(timeout),
            retries,
        },
        ReadyProbe::Exit { code, timeout } => ProbeArgView {
            kind: ProbeKindView::Exit(code),
            interval: None,
            timeout: opt_duration_text(timeout),
            retries: None,
        },
    }
}

/// Prepares a readiness probe to be sent.
pub fn ready_probe_to_arg(p: ReadyProbe) -> (r: ProbeArg)
    ensures
        r@ == ready_arg(p),
{
    match p {
        ReadyProbe::Tcp { addr, interval, timeout, retries } => ProbeArg {
            kind: ProbeKindArg::Tcp { addr },
            interval: format_optional(interval),
            timeout: format_optional(timeout),
            retries,
        },
        ReadyProbe::Http { url, interval, timeout, retries } => ProbeArg {
            kind: ProbeKindArg::Http { url },
            interval: format_optional(interval),
            timeout: format_optional(timeout),
            retries,
        },
        ReadyProbe::Exec { command, interval, timeout, retries } => ProbeArg {
            kind: ProbeKindArg::Exec { command },
            interval: format_optional(interval),
            timeout: format_optional(timeout),
            retries,
        },
        ReadyProbe::Exit { code, timeout } => ProbeArg {
            kind: ProbeKindArg::Exit { code },
            interval: None,
            timeout: format_optional(timeout),
            retries: None,
        },
    }
}

/// A health check, as it is sent.
pub open spec fn healthcheck_arg(p: HealthCheck) -> ProbeArgView {
    match p {
        HealthCheck::Tcp { addr, interval, timeout, retries } => ProbeArgView {
            kind: ProbeKindView::Tcp(addr@),
            interval: opt_duration_text(interval),
            timeout: opt_duration_text(timeout),
            retries,
        },
        HealthCheck::Http { url, interval, timeout, retries } => ProbeArgView {
            kind: ProbeKindView::Http(url@),
            interval: opt_duration_text(interval),
            timeout: opt_duration_text(timeout),
            retries,
        },
        HealthCheck::Exec { command, interval, timeout, retries } => ProbeArgView {
            kind: ProbeKindView::Exec(command@),
            interval: opt_duration_text(interval),
            timeout: opt_duration_text(timeout),
            retries,
        },
    }
}

/// Prepares a health check to be sent.
pub fn healthcheck_to_arg(p: HealthCheck) -> (r: ProbeArg)
    ensures
        r@ == healthcheck_arg(p),
{
    match p {
        HealthCheck::Tcp { addr, interval, timeout, retries } => ProbeArg {
            kind: ProbeKindArg::Tcp { addr },
            interval: format_optional(interval),
            timeout: format_optional(timeout),
            retries,
        },
        HealthCheck::Http { url, interval, timeout, retries } => ProbeArg {
            kind: ProbeKindArg::Http { url },
            interval: format_optional(interval),
            timeout: format_optional(timeout),
            retries,
        },
        HealthCheck::Exec { command, interval, timeout, retries } => ProbeArg {
            kind: ProbeKindArg::Exec { command },
            interval: format_optional(interval),
            timeout: format_optional(timeout),
            retries,
        },
    }
}

// ---------------------------------------------------------------------------
// Requests
// ---------------------------------------------------------------------------

/// What a process waits for, as it is sent.
pub open spec fn wait_arg(w: Option<WaitFor>) -> Option<protocol::WaitFor> {
    match w {
        None => None,
        Some(WaitFor::Ready) => Some(protocol::WaitFor::Ready),
        Some(WaitFor::Exit) => Some(protocol::WaitFor::Exit),
        Some(WaitFor::Log { pattern }) => Some(protocol::WaitFor::Log { pattern }),
    }
}

/// A list of ports, as it is sent.
pub open spec fn port_args(s: Seq<(String, Option<u16>)>) -> Seq<(Seq<char>, Option<u16>)> {
    s.map_values(|p: (String, Option<u16>)| (p.0@, p.1))
}

/// What a list of ports that was sent says.
pub open spec fn ports_asked(s: Seq<PortDefArg>) -> Seq<(Seq<char>, Option<u16>)> {
    s.map_values(|p: PortDefArg| (p.name@, p.default))
}

/// What a list of dependencies says.
pub open spec fn dependency_refs(s: Seq<DependencyRef>) -> Seq<(Seq<char>, bool)> {
    s.map_values(|d: DependencyRef| (d.name@, d.restart))
}

/// What a list of dependencies that was sent says.
pub open spec fn dependency_args(s: Seq<DependencyArg>) -> Seq<(Seq<char>, bool)> {
    s.map_values(|d: DependencyArg| (d.name@, d.restart))
}

fn send_ports(ports: &Vec<(String, Option<u16>)>) -> (r: Vec<PortDefArg>)
    ensures
        ports_asked(r@) == port_args(ports@),
{
    let mut out: Vec<PortDefArg> = Vec::new();
    let mut i: usize = 0;
    while i < ports.len()
        invariant
            i <= ports.len(),
            out@.len() == i,
            forall|j: int|
                0 <= j < i ==> (#[trigger] out@[j]).name@ == ports@[j].0@ && out@[j].default
                    == ports@[j].1,
        decreases ports.len() - i,
    {
        out.push(PortDefArg { name: text::copy(ports[i].0.as_str()), default: ports[i].1 });
        i += 1;
    }
    proof {
        assert(ports_asked(out@) =~= port_args(ports@));
    }
    out
}

fn send_dependencies(deps: &Vec<DependencyRef>) -> (r: Vec<DependencyArg>)
    ensures
        dependency_args(r@) == dependency_refs(deps@),
{
    let mut out: Vec<DependencyArg> = Vec::new();
    let mut i: usize = 0;
    while i < deps.len()
        invariant
            i <= deps.len(),
            out@.len() == i,
            forall|j: int|
                0 <= j < i ==> (#[trigger] out@[j]).name@ == deps@[j].name@ && out@[j].restart
                    == deps@[j].restart,
        decreases deps.len() - i,
    {
        out.push(DependencyArg { name: text::copy(deps[i].name.as_str()), restart: deps[i].restart });
        i += 1;
    }
    proof {
        assert(dependency_args(out@) =~= dependency_refs(deps@));
    }
    out
}

/// The request to run a process of a host.
pub fn spawn_args(s: Spawn) -> (r: RunArgs)
    ensures
        r.name == s.name,
        r.command == s.argv,
        r.restart == s.restart,
        r.env == s.env,
        !r.attach,
        r.interactive == s.interactive,
        r.raw_stdio == s.raw_stdio,
        r.extra_args is None,
        r.wait_for == wait_arg(s.wait_for),
        text::opt_text(r.wait_timeout) == opt_duration_text(s.wait_timeout),
        ports_asked(r.ports@) == port_args(s.ports@),
        r.cwd == s.cwd,
        match (s.ready, r.ready) {
            (Some(p), Some(a)) => a@ == ready_arg(p),
            (None, None) => true,
            _ => false,
        },
        match (s.healthcheck, r.healthcheck) {
            (Some(p), Some(a)) => a@ == healthcheck_arg(p),
            (None, None) => true,
            _ => false,
        },
        dependency_args(r.depends_on@) == dependency_refs(s.depends_on@),
        r.metadata == s.metadata,
{
    let ports = send_ports(&s.ports);
    let depends_on = send_dependencies(&s.depends_on);
    RunArgs {
        name: s.name,
        command: s.argv,
        restart: s.restart,
        env: s.env,
        attach: false,
        interactive: s.interactive,
        raw_stdio: s.raw_stdio,
        extra_args: None,
        wait_for: match s.wait_for {
            None => None,
            Some(WaitFor::Ready) => Some(protocol::WaitFor::Ready),
            Some(WaitFor::Exit) => Some(protocol::WaitFor::Exit),
            Some(WaitFor::Log { pattern }) => Some(protocol::WaitFor::Log { pattern }),
        },
        wait_timeout: format_optional(s.wait_timeout),
        ports,
        cwd: s.cwd,
        ready: match s.ready {
            Some(p) => Some(ready_probe_to_arg(p)),
            None => None,
        },
        healthcheck: match s.healthcheck {
            Some(p) => Some(healthcheck_to_arg(p)),
            None => None,
        },
        depends_on,
        metadata: s.metadata,
    }
}

/// The request to run a unit of the Psyfile.
pub fn unit_args(name: &str) -> (r: RunArgs)
    ensures
        r.name@ == name@,
        r.command@.len() == 0,
        r.restart == RestartPolicy::No,
        r.env@ == Map::<Seq<char>, String>::empty(),
        !r.attach,
        !r.interactive,
        !r.raw_stdio,
        r.extra_args is None,
        r.wait_for is None,
        r.wait_timeout is None,
        r.ports@.len() == 0,
        r.cwd is None,
        r.ready is None,
        r.healthcheck is None,
        r.depends_on@.len() == 0,
        r.metadata@ == Map::<Seq<char>, String>::empty(),
{
    RunArgs {
        name: text::copy(name),
        command: Vec::new(),
        restart: RestartPolicy::No,
        env: NameMap::new(),
        attach: false,
        interactive: false,
        raw_stdio: false,
        extra_args: None,
        wait_for: None,
        wait_timeout: None,
        ports: Vec::new(),
        cwd: None,
        ready: None,
        healthcheck: None,
        depends_on: Vec::new(),
        metadata: NameMap::new(),
    }
}

/// What a host asks of a log.
#[non_exhaustive]
#[derive(Debug)]
pub struct LogsQuery {
    pub tail: Option<usize>,
    pub stream: StreamFilter,
    pub since: Option<Timestamp>,
    pub until: Option<Timestamp>,
    pub grep: Option<String>,
    pub run: Option<u32>,
    pub previous: bool,
    pub probe: bool,
}

impl Default for LogsQuery {
    fn default() -> (r: Self)
        ensures
            r.tail is None,
            r.stream == StreamFilter::All,
            r.since is None,
            r.until is None,
            r.grep is None,
            r.run is None,
            !r.previous,
            !r.probe,
    {
        LogsQuery {
            tail: None,
            stream: StreamFilter::All,
            since: None,
            until: None,
            grep: None,
            run: None,
            previous: false,
            probe: false,
        }
    }
}

/// A bound in time, as it is sent.
pub open spec fn bound_text(t: Option<Timestamp>) -> Option<Seq<char>> {
    match t {
        Some(x) => Some(time::rfc3339(x.seconds(), x.subsec())),
        None => None,
    }
}

fn bound_string(t: &Option<Timestamp>) -> (r: Option<String>)
    ensures
        text::opt_text(r) == bound_text(*t),
{
    match t {
        Some(x) => Some(x.to_rfc3339()),
        None => None,
    }
}

/// The request for a log.
pub fn logs_args(name: &str, q: LogsQuery) -> (r: LogsArgs)
    ensures
        r.name@ == name@,
        r.tail == q.tail,
        r.stream == q.stream,
        text::opt_text(r.since) == bound_text(q.since),
        text::opt_text(r.until) == bound_text(q.until),
        r.grep == q.grep,
        r.run == q.run,
        r.previous == q.previous,
        r.probe == q.probe,
{
    LogsArgs {
        name: text::copy(name),
        tail: q.tail,
        stream: q.stream,
        since: bound_string(&q.since),
        until: bound_string(&q.until),
        grep: q.grep,
        run: q.run,
        previous: q.previous,
        probe: q.probe,
    }
}

// ---------------------------------------------------------------------------
// Answers
// ---------------------------------------------------------------------------

/// A process that a host has started.
#[non_exhaustive]
#[derive(Debug)]
pub struct SpawnHandle {
    pub name: String,
    /// The process id at the start, where one is known.
    pub pid: Option<u32>,
    /// The ports that it was given, by name.
    pub ports: NameMap<u16>,
}

/// The process id in an answer.
pub open spec fn pid_of(data: Option<Js>) -> Option<u32> {
    match data {
        Some(v) => match json::number_member(v, "pid"@) {
            Some(n) => Some(n as u32),
            None => None,
        },
        None => None,
    }
}

/// The ports in an answer: whole numbers by name.
pub open spec fn ports_of(data: Option<Js>) -> Map<Seq<char>, u16> {
    match data {
        Some(v) => match json::member(v, "ports"@) {
            Some(Js::Object(m)) => Map::new(
                |k: Seq<char>| m.dom().contains(k) && m[k] is Unsigned,
                |k: Seq<char>| m[k]->Unsigned_0 as u16,
            ),
            _ => Map::empty(),
        },
        None => Map::empty(),
    }
}

/// The model of the data in an answer.
pub open spec fn data_model(data: Option<Json>) -> Option<Js> {
    match data {
        Some(v) => Some(json::model(v)),
        None => None,
    }
}

/// The ports that a process was given are read back from the answer that tells
/// them.
pub proof fn lemma_ports_read_back(name: Seq<char>, given: Seq<(Seq<char>, u16)>)
    requires
        given.len() > 0,
    ensures
        ports_of(Some(run::started_json(name, given))) == ports::by_name(given),
{
    let one = Seq::empty().push(("name"@, Js::Text(name)));
    let two = one.push(("status"@, Js::Text("running"@)));
    let three = two.push(("ports"@, run::ports_json(given)));
    assert(three.drop_last() =~= two);
    let v = run::started_json(name, given);
    assert(json::member(v, "ports"@) == Some(run::ports_json(given)));
    lemma_ports_listed(given);
    assert(ports_of(Some(v)) =~= ports::by_name(given));
}

proof fn lemma_ports_listed(s: Seq<(Seq<char>, u16)>)
    ensures
        ({
            let m = json::entries_map(
                s.map_values(|p: (Seq<char>, u16)| (p.0, Js::Unsigned(p.1 as u64))),
            );
            &&& m.dom() =~= ports::by_name(s).dom()
            &&& forall|k: Seq<char>| #[trigger]
                m.dom().contains(k) ==> m[k] == Js::Unsigned(ports::by_name(s)[k] as u64)
        }),
    decreases s.len(),
{
    let f = |p: (Seq<char>, u16)| (p.0, Js::Unsigned(p.1 as u64));
    let all = s.map_values(f);
    if s.len() > 0 {
        lemma_ports_listed(s.drop_last());
        assert(all.drop_last() =~= s.drop_last().map_values(f));
        assert(all.last() == f(s.last()));
    }
}

fn read_ports(v: &Json) -> (r: NameMap<u16>)
    ensures
        r@ == (match json::model(*v) {
            Js::Object(m) => Map::new(
                |k: Seq<char>| m.dom().contains(k) && m[k] is Unsigned,
                |k: Seq<char>| m[k]->Unsigned_0 as u16,
            ),
            _ => Map::empty(),
        }),
{
    let mut out: NameMap<u16> = NameMap::new();
    match v {
        Json::Object(t) => {
            let ghost s = json::entry_models(t@);
            let ghost m = json::entries_map(s);
            let ghost goal = Map::<Seq<char>, u16>::new(
                |k: Seq<char>| m.dom().contains(k) && m[k] is Unsigned,
                |k: Seq<char>| m[k]->Unsigned_0 as u16,
            );
            proof {
                json::lemma_members(*v);
            }
            let mut i: usize = 0;
            while i < t.len()
                invariant
                    i <= t.len(),
                    s == json::entry_models(t@),
                    m == json::entries_map(s),
                    json::model(*v) == Js::Object(m),
                    goal == Map::<Seq<char>, u16>::new(
                        |k: Seq<char>| m.dom().contains(k) && m[k] is Unsigned,
                        |k: Seq<char>| m[k]->Unsigned_0 as u16,
                    ),
                    forall|k: Seq<char>| #[trigger]
                        out@.dom().contains(k) ==> goal.dom().contains(k) && out@[k] == goal[k],
                    forall|j: int|
                        0 <= j < i && goal.dom().contains((#[trigger] s[j]).0)
                            ==> out@.dom().contains(s[j].0),
                decreases t.len() - i,
            {
                let key = t[i].0.as_str();
                proof {
                    assert(s[i as int].0 == key@);
                }
                match json::get_number(v, key) {
                    Some(n) => {
                        out.insert(text::copy(key), n as u16);
                    },
                    None => {},
                }
                i += 1;
            }
            proof {
                assert forall|k: Seq<char>| goal.dom().contains(k) implies #[trigger]
                    out@.dom().contains(k) by {
                    json::lemma_has_key(s, k);
                    let j = choose|j: int| 0 <= j < s.len() && (#[trigger] s[j]).0 == k;
                    assert(out@.dom().contains(s[j].0));
                }
                assert(out@ =~= goal);
            }
            out
        },
        _ => out,
    }
}

/// Reads the answer to a request to run a process. A process id that the answer
/// does not give is taken from the process table.
pub fn spawn_handle(name: String, data: &Option<Json>, known: Option<u32>) -> (r: SpawnHandle)
    ensures
        r.name == name,
        r.pid == (match pid_of(data_model(*data)) {
            Some(p) => Some(p),
            None => known,
        }),
        r.ports@ == ports_of(data_model(*data)),
{
    let pid = match data {
        Some(v) => match json::get_number(v, "pid") {
            Some(n) => Some(n as u32),
            None => known,
        },
        None => known,
    };
    let ports = match data {
        Some(v) => match json::get(v, "ports") {
            Some(p) => read_ports(p),
            None => NameMap::new(),
        },
        None => NameMap::new(),
    };
    SpawnHandle { name, pid, ports }
}

/// The stream with a name, as it is sent or shown.
pub open spec fn stream_named(s: Seq<char>) -> Option<StreamKind> {
    if s == "stdout"@ {
        Some(StreamKind::Stdout)
    } else if s == "stderr"@ {
        Some(StreamKind::Stderr)
    } else if s == "probe_stdout"@ || s == "probe:stdout"@ {
        Some(StreamKind::ProbeStdout)
    } else if s == "probe_stderr"@ || s == "probe:stderr"@ {
        Some(StreamKind::ProbeStderr)
    } else {
        None
    }
}

/// Finds the stream with a name.
pub fn stream_kind_from_str(s: &str) -> (r: Option<StreamKind>)
    ensures
        r == stream_named(s@),
{
    if text::same(s, "stdout") {
        Some(StreamKind::Stdout)
    } else if text::same(s, "stderr") {
        Some(StreamKind::Stderr)
    } else if text::same(s, "probe_stdout") || text::same(s, "probe:stdout") {
        Some(StreamKind::ProbeStdout)
    } else if text::same(s, "probe_stderr") || text::same(s, "probe:stderr") {
        Some(StreamKind::ProbeStderr)
    } else {
        None
    }
}

/// A line of a log, for a host.
#[non_exhaustive]
#[derive(Debug)]
pub struct LogLine {
    pub timestamp: Timestamp,
    pub stream: StreamKind,
    pub content: String,
}

/// What a line of a log says to a host.
pub ghost struct PageLine {
    pub timestamp: Timestamp,
    pub stream: StreamKind,
    pub content: Seq<char>,
}

impl View for LogLine {
    type V = PageLine;

    open spec fn view(&self) -> PageLine {
        PageLine { timestamp: self.timestamp, stream: self.stream, content: self.content@ }
    }
}

/// Lines of a log, for a host.
#[non_exhaustive]
#[derive(Debug)]
pub struct LogPage {
    pub lines: Vec<LogLine>,
}

/// What the lines of a page say.
pub open spec fn page_lines(s: Seq<LogLine>) -> Seq<PageLine> {
    s.map_values(|l: LogLine| l@)
}

/// The line that was sent. A time that cannot be read is taken to be now, and a
/// stream that is not known to be stdout.
pub open spec fn line_sent(v: Js, now: Timestamp) -> PageLine {
    PageLine {
        timestamp: match json::text_member(v, "timestamp"@) {
            Some(s) => match time::rfc3339_read(s) {
                Ok(t) => Timestamp::stamp(t.0, t.1),
                Err(_) => now,
            },
            None => now,
        },
        stream: match json::text_member(v, "stream"@) {
            Some(s) => match stream_named(s) {
                Some(k) => k,
                None => StreamKind::Stdout,
            },
            None => StreamKind::Stdout,
        },
        content: match json::text_member(v, "content"@) {
            Some(s) => s,
            None => Seq::empty(),
        },
    }
}

/// The lines that were sent.
pub open spec fn page_sent(data: Option<Js>, now: Timestamp) -> Result<Seq<PageLine>, ErrorView> {
    match data {
        None => Err(ErrorView::Other("empty logs"@)),
        Some(v) => match json::array_member(v, "lines"@) {
            None => Err(ErrorView::Other("logs missing 'lines'"@)),
            Some(a) => Ok(a.map_values(|l: Js| line_sent(l, now))),
        },
    }
}

fn read_line(v: &Json, now: &Timestamp) -> (r: LogLine)
    ensures
        r@ == line_sent(json::model(*v), *now),
{
    let timestamp = match json::get_text(v, "timestamp") {
        Some(s) => match Timestamp::parse_rfc3339(s.as_str()) {
            Ok(t) => t,
            Err(_) => *now,
        },
        None => *now,
    };
    let stream = match json::get_text(v, "stream") {
        Some(s) => match stream_kind_from_str(s.as_str()) {
            Some(k) => k,
            None => StreamKind::Stdout,
        },
        None => StreamKind::Stdout,
    };
    let content = match json::get_text(v, "content") {
        Some(s) => text::copy(s.as_str()),
        None => {
            let none = String::new();
            proof {
                assert(none@ =~= Seq::<char>::empty());
            }
            none
        },
    };
    LogLine { timestamp, stream, content }
}

/// Reads the lines of a log in an answer.
pub fn log_page(data: &Option<Json>, now: &Timestamp) -> (r: Result<LogPage, PsyError>)
    ensures
        match r {
            Ok(p) => page_sent(data_model(*data), *now) == Ok::<Seq<PageLine>, ErrorView>(
                page_lines(p.lines@),
            ),
            Err(e) => page_sent(data_model(*data), *now) == Err::<Seq<PageLine>, ErrorView>(e@),
        },
{
    let v = match data {
        Some(v) => v,
        None => {
            return Err(PsyError::Other(text::copy("empty logs")));
        },
    };
    let a = match json::get_array(v, "lines") {
        Some(a) => a,
        None => {
            return Err(PsyError::Other(text::copy("logs missing 'lines'")));
        },
    };
    let mut lines: Vec<LogLine> = Vec::new();
    let mut i: usize = 0;
    while i < a.len()
        invariant
            i <= a.len(),
            lines@.len() == i,
            forall|j: int|
                0 <= j < i ==> (#[trigger] lines@[j])@ == line_sent(json::model(a@[j]), *now),
        decreases a.len() - i,
    {
        lines.push(read_line(&a[i], now));
        i += 1;
    }
    proof {
        assert(page_lines(lines@) =~= json::models(a@).map_values(|l: Js| line_sent(l, *now)));
    }
    Ok(LogPage { lines })
}

proof fn lemma_line_read_back(l: LineView, now: Timestamp)
    requires
        time::reads_back(l.timestamp),
    ensures
        line_sent(logs::line_json(l), now) == (PageLine {
            timestamp: l.timestamp,
            stream: l.stream.kind_sent(),
            content: l.content,
        }),
{
    reveal_strlit("timestamp");
    reveal_strlit("stream");
    reveal_strlit("content");
    reveal_strlit("stdout");
    reveal_strlit("stderr");
    reveal_strlit("probe_stdout");
    reveal_strlit("probe_stderr");
    reveal_strlit("probe:stdout");
    reveal_strlit("probe:stderr");
    time::lemma_stamp(l.timestamp);
    let s = seq![
        ("timestamp"@, Js::Text(time::rfc3339(l.timestamp.seconds(), l.timestamp.subsec()))),
        ("stream"@, Js::Text(logs::stream_name(l.stream))),
        ("content"@, Js::Text(l.content)),
    ];
    let k = json::keys(s);
    assert(k[0].len() == 9 && k[1].len() == 6 && k[2].len() == 7);
    json::lemma_entry(s, 0);
    json::lemma_entry(s, 1);
    json::lemma_entry(s, 2);
    assert("probe_stdout"@[6] == 's');
    assert("probe_stderr"@[7] == 't');
    assert("stdout"@[3] == 'o' && "stderr"@[3] == 'e');
    assert("probe_stdout"@[9] == 'o' && "probe_stderr"@[9] == 'e' && "probe:stdout"@[9] == 'o');
}

/// The lines of a log reach a host as they were captured, where their times are
/// read back.
pub proof fn lemma_page_read_back(s: Seq<LineView>, now: Timestamp)
    requires
        forall|i: int| 0 <= i < s.len() ==> time::reads_back((#[trigger] s[i]).timestamp),
    ensures
        page_sent(Some(logs::lines_json(s)), now) == Ok::<Seq<PageLine>, ErrorView>(
            s.map_values(
                |l: LineView|
                    PageLine {
                        timestamp: l.timestamp,
                        stream: l.stream.kind_sent(),
                        content: l.content,
                    },
            ),
        ),
{
    let a = s.map_values(|l: LineView| logs::line_json(l));
    let e = seq![("lines"@, Js::Array(a))];
    json::lemma_entry(e, 0);
    assert forall|i: int| 0 <= i < s.len() implies #[trigger] line_sent(a[i], now) == (PageLine {
        timestamp: s[i].timestamp,
        stream: s[i].stream.kind_sent(),
        content: s[i].content,
    }) by {
        lemma_line_read_back(s[i], now);
    }
    assert(a.map_values(|l: Js| line_sent(l, now)) =~= s.map_values(
        |l: LineView|
            PageLine {
                timestamp: l.timestamp,
                stream: l.stream.kind_sent(),
                content: l.content,
            },
    ));
}

/// The first process with a name, where there is one.
pub open spec fn first_named(s: Seq<ProcessInfo>, name: Seq<char>) -> Option<ProcessInfo>
    decreases s.len(),
{
    if s.len() == 0 {
        None
    } else if s[0].name@ == name {
        Some(s[0])
    } else {
        first_named(s.skip(1), name)
    }
}

/// Picks a process out of a list.
pub fn status(all: Vec<ProcessInfo>, name: &str) -> (r: Result<ProcessInfo, PsyError>)
    ensures
        match r {
            Ok(p) => first_named(all@, name@) == Some(p),
            Err(e) => first_named(all@, name@) is None && e@ == ErrorView::NotFound(name@),
        },
{
    let mut rest = all;
    let ghost start = rest@;
    proof {
        assert(start.skip(0) =~= start);
    }
    let ghost mut gone: int = 0;
    while rest.len() > 0
        invariant
            start == all@,
            0 <= gone <= start.len(),
            rest@ == start.skip(gone),
            first_named(start, name@) == first_named(rest@, name@),
        decreases rest.len(),
    {
        let first = rest.remove(0);
        if text::same(first.name.as_str(), name) {
            return Ok(first);
        }
        proof {
            assert(rest@ =~= start.skip(gone).skip(1));
            assert(start.skip(gone).skip(1) =~= start.skip(gone + 1));
            gone = gone + 1;
        }
    }
    Err(PsyError::NotFound { name: text::copy(name) })
}

/// How many processes were forgotten, by the answer.
pub open spec fn removed_of(data: Option<Js>) -> u64 {
    match data {
        Some(v) => match json::number_member(v, "removed"@) {
            Some(n) => n,
            None => 0,
        },
        None => 0,
    }
}

/// Reads how many processes were forgotten.
pub fn removed(data: &Option<Json>) -> (r: u64)
    ensures
        r == removed_of(data_model(*data)),
{
    match data {
        Some(v) => match json::get_number(v, "removed") {
            Some(n) => n,
            None => 0,
        },
        None => 0,
    }
}

/// How a process ended.
#[non_exhaustive]
#[derive(Debug)]
pub struct ExitStatus {
    pub exit_code: Option<i32>,
    pub signal: Option<String>,
}

/// What happens to a root and its processes, for a host that watches.
#[non_exhaustive]
#[derive(Debug)]
pub enum RootEvent {
    /// A process has started.
    SpawnStarted { name: String, pid: u32 },
    /// A process is ready.
    SpawnReady { name: String },
    /// A process has exited.
    SpawnExited { name: String, exit_code: Option<i32>, signal: Option<String> },
    /// A process has been restarted.
    SpawnRestarted { name: String, attempt: u32 },
    /// A probe, `ready` or `healthcheck`, has failed.
    ProbeFailed { name: String, kind: String, detail: String },
    /// A sub-root has started in this process.
    SubRootStarted { name: String },
    /// A sub-root in this process has ended.
    SubRootExited { name: String },
    /// The root has shut down.
    Shutdown,
}

} // verus!

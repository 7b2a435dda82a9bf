//! Supervised processes and their runs.
use crate::names::NameMap;
use crate::ports;
use crate::protocol::{ProcessInfo, RestartPolicy, RunInfo};
use crate::psyfile;
use crate::psyfile::{ProbeConfig, ProbeView};
use crate::recipe;
use crate::recipe::{Asked, AskedView, Recipe, RecipeView};
use crate::ring_buffer::{LineView, RingBuffer};
use crate::ring_buffer;
use crate::root;
use crate::text;
use crate::time;
use crate::time::{Duration, Timestamp};
use vstd::prelude::*;

verus! {

/// An ASCII letter or digit.
pub open spec fn is_alphanumeric(c: char) -> bool {
    'a' <= c <= 'z' || 'A' <= c <= 'Z' || '0' <= c <= '9'
}

/// Tests for an ASCII letter or digit.
pub fn alphanumeric(c: char) -> (r: bool)
    ensures
        r == is_alphanumeric(c),
{
    ('a' <= c && c <= 'z') || ('A' <= c && c <= 'Z') || ('0' <= c && c <= '9')
}

/// A process name: a letter or digit, then up to 62 letters, digits,
/// underscores and hyphens.
pub open spec fn valid_name(s: Seq<char>) -> bool {
    &&& 1 <= s.len() <= 63
    &&& is_alphanumeric(s[0])
    &&& forall|i: int|
        1 <= i < s.len() ==> is_alphanumeric(#[trigger] s[i]) || s[i] == '_' || s[i] == '-'
}

/// Tests a process name: it must match `[a-zA-Z0-9][a-zA-Z0-9_-]{0,62}`.
pub fn validate_name(name: &str) -> (r: bool)
    ensures
        r == valid_name(name@),
{
    let c = text::chars_of(name);
    if c.len() == 0 || c.len() > 63 {
        return false;
    }
    if !alphanumeric(c[0]) {
        return false;
    }
    let mut i: usize = 1;
    while i < c.len()
        invariant
            1 <= i <= c.len(),
            c@ == name@,
            forall|j: int|
                1 <= j < i ==> is_alphanumeric(#[trigger] c@[j]) || c@[j] == '_' || c@[j] == '-',
        decreases c.len() - i,
    {
        if !(alphanumeric(c[i]) || c[i] == '_' || c[i] == '-') {
            return false;
        }
        i += 1;
    }
    true
}

// ---------------------------------------------------------------------------
// State
// ---------------------------------------------------------------------------

/// Whether a process runs, and how it ended.
#[derive(Clone, Copy, Debug, PartialEq, Eq, Structural)]
pub enum ProcessState {
    Running,
    Stopped,
    Failed,
}

/// The name of a state.
pub open spec fn state_text(s: ProcessState) -> Seq<char> {
    match s {
        ProcessState::Running => "running"@,
        ProcessState::Stopped => "stopped"@,
        ProcessState::Failed => "failed"@,
    }
}

impl ProcessState {
    /// The name of the state.
    pub fn to_string(&self) -> (r: String)
        ensures
            r@ == state_text(*self),
    {
        match self {
            ProcessState::Running => text::copy("running"),
            ProcessState::Stopped => text::copy("stopped"),
            ProcessState::Failed => text::copy("failed"),
        }
    }
}

/// A log: its lines and its limits.
#[verifier::ext_equal]
pub ghost struct LogView {
    pub lines: Seq<LineView>,
    pub max_lines: nat,
    pub max_bytes: nat,
}

/// What a log holds.
pub open spec fn log_view(b: RingBuffer) -> LogView {
    LogView { lines: b@, max_lines: b.line_limit(), max_bytes: b.byte_limit() }
}

/// A log without lines, with the default limits.
pub open spec fn empty_log() -> LogView {
    LogView {
        lines: Seq::empty(),
        max_lines: ring_buffer::DEFAULT_MAX_LINES as nat,
        max_bytes: ring_buffer::DEFAULT_MAX_BYTES as nat,
    }
}

/// A run that has ended.
#[derive(Debug)]
pub struct RunRecord {
    pub run_id: u32,
    pub state: ProcessState,
    pub started_at: Option<Timestamp>,
    pub stopped_at: Option<Timestamp>,
    pub exit_status: Option<i32>,
    pub signal: Option<String>,
    pub stdout_buf: RingBuffer,
    pub stderr_buf: RingBuffer,
}

/// What a run that has ended was.
#[verifier::ext_equal]
pub ghost struct RunView {
    pub run_id: u32,
    pub state: ProcessState,
    pub started_at: Option<Timestamp>,
    pub stopped_at: Option<Timestamp>,
    pub exit_status: Option<i32>,
    pub signal: Option<Seq<char>>,
    pub stdout: LogView,
    pub stderr: LogView,
}

impl View for RunRecord {
    type V = RunView;

    open spec fn view(&self) -> RunView {
        RunView {
            run_id: self.run_id,
            state: self.state,
            started_at: self.started_at,
            stopped_at: self.stopped_at,
            exit_status: self.exit_status,
            signal: text::opt_text(self.signal),
            stdout: log_view(self.stdout_buf),
            stderr: log_view(self.stderr_buf),
        }
    }
}

/// What some runs were.
pub open spec fn runs_view(s: Seq<RunRecord>) -> Seq<RunView> {
    s.map_values(|r: RunRecord| r@)
}

/// A run, as it is reported.
pub ghost struct RunInfoView {
    pub run_id: u32,
    pub status: Seq<char>,
    pub exit_code: Option<i32>,
    pub signal: Option<Seq<char>>,
    pub started_at: Option<Seq<char>>,
    pub duration_secs: Option<u64>,
}

impl View for RunInfo {
    type V = RunInfoView;

    open spec fn view(&self) -> RunInfoView {
        RunInfoView {
            run_id: self.run_id,
            status: self.status@,
            exit_code: self.exit_code,
            signal: text::opt_text(self.signal),
            started_at: text::opt_text(self.started_at),
            duration_secs: self.duration_secs,
        }
    }
}

/// The time at which something started, as it is reported.
pub open spec fn started_text(t: Option<Timestamp>) -> Option<Seq<char>> {
    match t {
        Some(t) => Some(time::rfc3339(t.seconds(), t.subsec())),
        None => None,
    }
}

fn started_string(t: &Option<Timestamp>) -> (r: Option<String>)
    ensures
        text::opt_text(r) == started_text(*t),
{
    match t {
        Some(t) => Some(t.to_rfc3339()),
        None => None,
    }
}

pub(crate) fn copy_opt(s: &Option<String>) -> (r: Option<String>)
    ensures
        text::opt_text(r) == text::opt_text(*s),
{
    match s {
        Some(s) => Some(text::copy(s.as_str())),
        None => None,
    }
}

/// How long a run took: until it stopped or, where it still counts, until now.
pub open spec fn run_seconds(
    started: Option<Timestamp>,
    stopped: Option<Timestamp>,
    goes_on: bool,
    now: Timestamp,
) -> Option<u64> {
    match (started, stopped) {
        (Some(a), Some(b)) => Some(a.seconds_until(b) as u64),
        (Some(a), None) => if goes_on {
            Some(a.seconds_until(now) as u64)
        } else {
            None
        },
        _ => None,
    }
}

fn run_secs(
    started: &Option<Timestamp>,
    stopped: &Option<Timestamp>,
    goes_on: bool,
    now: &Timestamp,
) -> (r: Option<u64>)
    ensures
        r == run_seconds(*started, *stopped, goes_on, *now),
{
    match (started, stopped) {
        (Some(a), Some(b)) => Some(a.secs_until(b)),
        (Some(a), None) => if goes_on {
            Some(a.secs_until(now))
        } else {
            None
        },
        _ => None,
    }
}

/// What is reported of a run that has ended.
pub open spec fn run_report(r: RunView, now: Timestamp) -> RunInfoView {
    RunInfoView {
        run_id: r.run_id,
        status: state_text(r.state),
        exit_code: r.exit_status,
        signal: r.signal,
        started_at: started_text(r.started_at),
        duration_secs: run_seconds(r.started_at, r.stopped_at, true, now),
    }
}

impl RunRecord {
    /// Reports the run at a given time.
    pub fn to_run_info_at(&self, now: &Timestamp) -> (r: RunInfo)
        ensures
            r@ == run_report(self@, *now),
    {
        RunInfo {
            run_id: self.run_id,
            status: self.state.to_string(),
            exit_code: self.exit_status,
            signal: copy_opt(&self.signal),
            started_at: started_string(&self.started_at),
            duration_secs: run_secs(&self.started_at, &self.stopped_at, true, now),
        }
    }

    /// Reports the run now.
    pub fn to_run_info(&self) -> (r: RunInfo)
        ensures
            exists|now: Timestamp| r@ == #[trigger] run_report(self@, now),
    {
        let now = time::now();
        self.to_run_info_at(&now)
    }
}

// ---------------------------------------------------------------------------
// Entries
// ---------------------------------------------------------------------------

/// A process that the root knows: what to run, how it runs, and its past runs.
#[derive(Debug)]
pub struct ProcessEntry {
    pub name: String,
    pub command: Vec<String>,
    pub env: NameMap<String>,
    pub restart_policy: RestartPolicy,
    pub state: ProcessState,
    pub pid: Option<u32>,
    pub exit_status: Option<i32>,
    pub signal: Option<String>,
    pub started_at: Option<Timestamp>,
    pub stopped_at: Option<Timestamp>,
    pub restarts: u32,
    pub stdout_buf: RingBuffer,
    pub stderr_buf: RingBuffer,
    pub is_main: bool,
    /// Whether it is being stopped on purpose.
    pub stopping: bool,
    /// Whether its child still has to be waited for.
    pub child: bool,
    /// Whether the root holds the writing end of its stdin.
    pub stdin_open: bool,
    /// Whether its stdin may be written to on request.
    pub interactive: bool,
    /// Whether its stdin has been closed on request.
    pub stdin_closed: bool,
    /// The number of the current run.
    pub current_run_id: u32,
    /// The past runs, oldest first.
    pub run_history: Vec<RunRecord>,
    pub working_dir: Option<String>,
    /// Whether it has passed its readiness probe, or has none.
    pub ready: bool,
    /// Whether its readiness probe has given up.
    pub ready_failed: bool,
    pub ready_config: Option<ProbeConfig>,
    pub healthcheck_config: Option<ProbeConfig>,
    /// The ports that it was given.
    pub ports: Vec<(String, u16)>,
    /// Whether it is a root of its own.
    pub sub_root: bool,
    /// The socket that it has registered as a root of its own.
    pub subroot_socket: Option<String>,
    /// What it was started from.
    pub recipe: Recipe,
    /// What the request that started it said.
    pub asked: Asked,
    /// The tags that the caller keeps on it.
    pub metadata: NameMap<String>,
}

/// What is known of a process.
#[verifier::ext_equal]
pub ghost struct EntryView {
    pub name: Seq<char>,
    pub command: Seq<Seq<char>>,
    pub env: Map<Seq<char>, Seq<char>>,
    pub restart_policy: RestartPolicy,
    pub state: ProcessState,
    pub pid: Option<u32>,
    pub exit_status: Option<i32>,
    pub signal: Option<Seq<char>>,
    pub started_at: Option<Timestamp>,
    pub stopped_at: Option<Timestamp>,
    pub restarts: u32,
    pub stdout: LogView,
    pub stderr: LogView,
    pub is_main: bool,
    pub stopping: bool,
    pub child: bool,
    pub stdin_open: bool,
    pub interactive: bool,
    pub stdin_closed: bool,
    pub current_run_id: u32,
    pub run_history: Seq<RunView>,
    pub working_dir: Option<Seq<char>>,
    pub ready: bool,
    pub ready_failed: bool,
    pub ready_config: Option<ProbeView>,
    pub healthcheck_config: Option<ProbeView>,
    pub ports: Seq<(Seq<char>, u16)>,
    pub sub_root: bool,
    pub subroot_socket: Option<Seq<char>>,
    pub recipe: RecipeView,
    pub asked: AskedView,
    pub metadata: Map<Seq<char>, Seq<char>>,
}

impl View for ProcessEntry {
    type V = EntryView;

    open spec fn view(&self) -> EntryView {
        EntryView {
            name: self.name@,
            command: text::texts(self.command@),
            env: psyfile::env_view(self.env),
            restart_policy: self.restart_policy,
            state: self.state,
            pid: self.pid,
            exit_status: self.exit_status,
            signal: text::opt_text(self.signal),
            started_at: self.started_at,
            stopped_at: self.stopped_at,
            restarts: self.restarts,
            stdout: log_view(self.stdout_buf),
            stderr: log_view(self.stderr_buf),
            is_main: self.is_main,
            stopping: self.stopping,
            child: self.child,
            stdin_open: self.stdin_open,
            interactive: self.interactive,
            stdin_closed: self.stdin_closed,
            current_run_id: self.current_run_id,
            run_history: runs_view(self.run_history@),
            working_dir: text::opt_text(self.working_dir),
            ready: self.ready,
            ready_failed: self.ready_failed,
            ready_config: psyfile::probe_view(self.ready_config),
            healthcheck_config: psyfile::probe_view(self.healthcheck_config),
            ports: ports::given(self.ports@),
            sub_root: self.sub_root,
            subroot_socket: text::opt_text(self.subroot_socket),
            recipe: self.recipe@,
            asked: self.asked@,
            metadata: psyfile::env_view(self.metadata),
        }
    }
}

/// A process that has not been started: stopped, ready, on its first run.
pub open spec fn new_entry(
    name: Seq<char>,
    command: Seq<Seq<char>>,
    env: Map<Seq<char>, Seq<char>>,
    restart_policy: RestartPolicy,
    is_main: bool,
) -> EntryView {
    EntryView {
        name,
        command,
        env,
        restart_policy,
        state: ProcessState::Stopped,
        pid: None,
        exit_status: None,
        signal: None,
        started_at: None,
        stopped_at: None,
        restarts: 0,
        stdout: empty_log(),
        stderr: empty_log(),
        is_main,
        stopping: false,
        child: false,
        stdin_open: false,
        interactive: false,
        stdin_closed: false,
        current_run_id: 1,
        run_history: Seq::empty(),
        working_dir: None,
        ready: true,
        ready_failed: false,
        ready_config: None,
        healthcheck_config: None,
        ports: Seq::empty(),
        sub_root: false,
        subroot_socket: None,
        recipe: recipe::no_recipe(),
        asked: recipe::nothing_asked(),
        metadata: Map::empty(),
    }
}

/// The current run as a record.
pub open spec fn current_run(e: EntryView) -> RunView {
    RunView {
        run_id: e.current_run_id,
        state: e.state,
        started_at: e.started_at,
        stopped_at: e.stopped_at,
        exit_status: e.exit_status,
        signal: e.signal,
        stdout: e.stdout,
        stderr: e.stderr,
    }
}

/// A process whose current run has become its last past run.
pub open spec fn archived(e: EntryView) -> EntryView {
    EntryView {
        run_history: e.run_history.push(current_run(e)),
        current_run_id: (e.current_run_id + 1) as u32,
        stdout: empty_log(),
        stderr: empty_log(),
        ..e
    }
}

/// Whether the runs of a process are numbered in the order in which they came.
pub open spec fn numbered(e: EntryView) -> bool {
    &&& forall|i: int|
        0 <= i < e.run_history.len() ==> (#[trigger] e.run_history[i]).run_id < e.current_run_id
    &&& forall|i: int, j: int|
        0 <= i < j < e.run_history.len() ==> (#[trigger] e.run_history[i]).run_id < (
        #[trigger] e.run_history[j]).run_id
}

/// Archiving keeps every past run with its log, and the order of the numbers.
pub proof fn lemma_archived(e: EntryView)
    requires
        numbered(e),
        e.current_run_id < u32::MAX,
    ensures
        numbered(archived(e)),
        archived(e).run_history.len() == e.run_history.len() + 1,
        archived(e).run_history.drop_last() == e.run_history,
        archived(e).run_history.last() == current_run(e),
{
    let a = archived(e);
    assert(a.run_history.drop_last() =~= e.run_history);
}

/// What is reported of the current run.
pub open spec fn current_report(e: EntryView, now: Timestamp) -> RunInfoView {
    RunInfoView {
        run_id: e.current_run_id,
        status: state_text(e.state),
        exit_code: e.exit_status,
        signal: e.signal,
        started_at: started_text(e.started_at),
        duration_secs: run_seconds(
            e.started_at,
            e.stopped_at,
            e.state == ProcessState::Running,
            now,
        ),
    }
}

/// A process, as it is reported.
pub ghost struct ProcessInfoView {
    pub name: Seq<char>,
    pub pid: Option<u32>,
    pub status: Seq<char>,
    pub restart_policy: RestartPolicy,
    pub started_at: Option<Seq<char>>,
    pub uptime_secs: Option<u64>,
    pub exit_code: Option<i32>,
    pub signal: Option<Seq<char>>,
    pub restarts: u32,
    pub ready: Option<Seq<char>>,
    pub ports: Option<Map<Seq<char>, u16>>,
    pub subroot_socket: Option<Seq<char>>,
    pub is_subroot: bool,
    pub metadata: Map<Seq<char>, Seq<char>>,
}

impl View for ProcessInfo {
    type V = ProcessInfoView;

    open spec fn view(&self) -> ProcessInfoView {
        ProcessInfoView {
            name: self.name@,
            pid: self.pid,
            status: self.status@,
            restart_policy: self.restart_policy,
            started_at: text::opt_text(self.started_at),
            uptime_secs: self.uptime_secs,
            exit_code: self.exit_code,
            signal: text::opt_text(self.signal),
            restarts: self.restarts,
            ready: text::opt_text(self.ready),
            ports: match self.ports {
                Some(m) => Some(m@),
                None => None,
            },
            subroot_socket: text::opt_text(self.subroot_socket),
            is_subroot: self.is_subroot,
            metadata: psyfile::env_view(self.metadata),
        }
    }
}

/// The readiness of a process that has a probe.
pub open spec fn readiness(e: EntryView) -> Option<Seq<char>> {
    if e.ready_config is None && e.healthcheck_config is None {
        None
    } else if e.ready_failed {
        Some("failed"@)
    } else if e.ready {
        Some("ready"@)
    } else {
        Some("waiting"@)
    }
}

/// What is reported of a process.
pub open spec fn ps_report(e: EntryView, now: Timestamp) -> ProcessInfoView {
    ProcessInfoView {
        name: e.name,
        pid: e.pid,
        status: state_text(e.state),
        restart_policy: e.restart_policy,
        started_at: started_text(e.started_at),
        uptime_secs: if e.state == ProcessState::Running {
            match e.started_at {
                Some(t) => Some(t.seconds_until(now) as u64),
                None => None,
            }
        } else {
            None
        },
        exit_code: e.exit_status,
        signal: e.signal,
        restarts: e.restarts,
        ready: readiness(e),
        ports: if e.ports.len() == 0 {
            None
        } else {
            Some(ports::by_name(e.ports))
        },
        subroot_socket: e.subroot_socket,
        is_subroot: e.sub_root,
        metadata: e.metadata,
    }
}

impl ProcessEntry {
    /// A process that has not been started.
    pub fn new(
        name: String,
        command: Vec<String>,
        env: NameMap<String>,
        restart_policy: RestartPolicy,
        is_main: bool,
    ) -> (r: ProcessEntry)
        ensures
            r@ == new_entry(
                name@,
                text::texts(command@),
                psyfile::env_view(env),
                restart_policy,
                is_main,
            ),
            numbered(r@),
    {
        let r = ProcessEntry {
            name,
            command,
            env,
            restart_policy,
            state: ProcessState::Stopped,
            pid: None,
            exit_status: None,
            signal: None,
            started_at: None,
            stopped_at: None,
            restarts: 0,
            stdout_buf: RingBuffer::new(),
            stderr_buf: RingBuffer::new(),
            is_main,
            stopping: false,
            child: false,
            stdin_open: false,
            interactive: false,
            stdin_closed: false,
            current_run_id: 1,
            run_history: Vec::new(),
            working_dir: None,
            ready: true,
            ready_failed: false,
            ready_config: None,
            healthcheck_config: None,
            ports: Vec::new(),
            sub_root: false,
            subroot_socket: None,
            recipe: Recipe::none(),
            asked: Asked::nothing(),
            metadata: NameMap::new(),
        };
        proof {
            assert(r@.run_history =~= Seq::<RunView>::empty());
            assert(r@.ports =~= Seq::<(Seq<char>, u16)>::empty());
            assert(r@ =~= new_entry(
                name@,
                text::texts(command@),
                psyfile::env_view(env),
                restart_policy,
                is_main,
            ));
        }
        r
    }

    /// Makes the current run a past run and prepares for a new one.
    pub fn archive_current_run(&mut self)
        requires
            old(self).current_run_id < u32::MAX,
        ensures
            final(self)@ == archived(old(self)@),
    {
        let ghost before = self@;
        let ghost runs = self.run_history@;
        let mut stdout_buf = RingBuffer::new();
        let mut stderr_buf = RingBuffer::new();
        std::mem::swap(&mut stdout_buf, &mut self.stdout_buf);
        std::mem::swap(&mut stderr_buf, &mut self.stderr_buf);
        let record = RunRecord {
            run_id: self.current_run_id,
            state: self.state,
            started_at: self.started_at,
            stopped_at: self.stopped_at,
            exit_status: self.exit_status,
            signal: copy_opt(&self.signal),
            stdout_buf,
            stderr_buf,
        };
        let ghost rec = record@;
        self.run_history.push(record);
        self.current_run_id = self.current_run_id + 1;
        proof {
            assert(rec == current_run(before));
            assert(self@.run_history =~= runs_view(runs).push(rec));
            assert(self@ =~= archived(before));
        }
    }

    /// Reports the current run at a given time.
    pub fn current_run_info_at(&self, now: &Timestamp) -> (r: RunInfo)
        ensures
            r@ == current_report(self@, *now),
    {
        RunInfo {
            run_id: self.current_run_id,
            status: self.state.to_string(),
            exit_code: self.exit_status,
            signal: copy_opt(&self.signal),
            started_at: started_string(&self.started_at),
            duration_secs: run_secs(
                &self.started_at,
                &self.stopped_at,
                self.state == ProcessState::Running,
                now,
            ),
        }
    }

    /// Reports the current run now.
    pub fn current_run_info(&self) -> (r: RunInfo)
        ensures
            exists|now: Timestamp| r@ == #[trigger] current_report(self@, now),
    {
        let now = time::now();
        self.current_run_info_at(&now)
    }

    /// Reports the process at a given time.
    pub fn to_ps_entry_at(&self, now: &Timestamp) -> (r: ProcessInfo)
        ensures
            r@ == ps_report(self@, *now),
    {
        let uptime_secs = if self.state == ProcessState::Running {
            match &self.started_at {
                Some(t) => Some(t.secs_until(now)),
                None => None,
            }
        } else {
            None
        };
        let ready = if self.ready_config.is_some() || self.healthcheck_config.is_some() {
            if self.ready_failed {
                Some(text::copy("failed"))
            } else if self.ready {
                Some(text::copy("ready"))
            } else {
                Some(text::copy("waiting"))
            }
        } else {
            None
        };
        ProcessInfo {
            name: text::copy(self.name.as_str()),
            pid: self.pid,
            status: self.state.to_string(),
            restart_policy: self.restart_policy,
            started_at: started_string(&self.started_at),
            uptime_secs,
            exit_code: self.exit_status,
            signal: copy_opt(&self.signal),
            restarts: self.restarts,
            ready,
            ports: if self.ports.len() == 0 {
                None
            } else {
                Some(ports::numbers_by_name(&self.ports))
            },
            subroot_socket: copy_opt(&self.subroot_socket),
            is_subroot: self.sub_root,
            metadata: root::copy_env(&self.metadata),
        }
    }

    /// Reports the process now.
    pub fn to_ps_entry(&self) -> (r: ProcessInfo)
        ensures
            exists|now: Timestamp| r@ == #[trigger] ps_report(self@, now),
    {
        let now = time::now();
        self.to_ps_entry_at(&now)
    }
}

// ---------------------------------------------------------------------------
// Starting
// ---------------------------------------------------------------------------

/// How the stdin of a child is connected.
#[derive(Clone, Copy, Debug, PartialEq, Eq, Structural)]
pub enum StdinMode {
    Inherit,
    Piped,
    Null,
}

/// What to hand to the operating system to start a child.
#[derive(Debug)]
pub struct SpawnPlan {
    pub program: String,
    pub args: Vec<String>,
    pub working_dir: Option<String>,
    /// Variables to set, in order: a later one wins.
    pub env: Vec<(String, String)>,
    pub stdin: StdinMode,
    /// Whether stdout and stderr are captured, or those of the root are used.
    pub capture: bool,
}

/// The variables that setting some pairs in order leaves.
pub open spec fn pairs_view(s: Seq<(String, String)>) -> Map<Seq<char>, Seq<char>>
    decreases s.len(),
{
    if s.len() == 0 {
        Map::empty()
    } else {
        pairs_view(s.drop_last()).insert(s.last().0@, s.last().1@)
    }
}

/// The variables that tell a child where its root is.
pub open spec fn root_vars(sock: Seq<char>, root_pid: u32) -> Map<Seq<char>, Seq<char>> {
    Map::empty().insert("PSY_SOCK"@, sock).insert("PSY_ROOT_PID"@, text::decimal(root_pid as nat))
}

/// How the stdin of a process is connected.
pub open spec fn stdin_mode(is_main: bool, attach: bool, interactive: bool) -> StdinMode {
    if is_main {
        StdinMode::Inherit
    } else if attach || interactive {
        StdinMode::Piped
    } else {
        StdinMode::Null
    }
}

/// A process that has just been started.
pub open spec fn started(
    e: EntryView,
    pid: Option<u32>,
    now: Timestamp,
    attach: bool,
    interactive: bool,
) -> EntryView {
    EntryView {
        pid,
        state: ProcessState::Running,
        started_at: Some(now),
        stopped_at: None,
        exit_status: None,
        signal: None,
        stdin_open: if attach || interactive {
            !e.is_main
        } else {
            e.stdin_open
        },
        interactive: e.interactive || interactive,
        stdin_closed: if interactive {
            false
        } else {
            e.stdin_closed
        },
        child: true,
        ..e
    }
}

impl ProcessEntry {
    /// Says how to start the process, or why it cannot be started.
    pub fn spawn_plan(
        &self,
        psy_sock: &str,
        psy_root_pid: u32,
        attach: bool,
        interactive: bool,
    ) -> (r: Result<SpawnPlan, String>)
        ensures
            r is Ok <==> self@.command.len() > 0,
            r matches Err(e) ==> e@ == "empty command"@,
            r matches Ok(p) ==> {
                &&& p.program@ == self@.command[0]
                &&& text::texts(p.args@) == self@.command.skip(1)
                &&& text::opt_text(p.working_dir) == self@.working_dir
                &&& pairs_view(p.env@) == root_vars(psy_sock@, psy_root_pid).union_prefer_right(
                    self@.env,
                )
                &&& p.stdin == stdin_mode(self@.is_main, attach, interactive)
                &&& p.capture == !self@.is_main
            },
    {
        proof {
            assert(text::texts(self.command@).len() == self.command@.len());
        }
        if self.command.len() == 0 {
            return Err(text::copy("empty command"));
        }
        let mut args: Vec<String> = Vec::new();
        let mut i: usize = 1;
        while i < self.command.len()
            invariant
                1 <= i <= self.command.len(),
                args@.len() == i - 1,
                forall|j: int| 0 <= j < i - 1 ==> (#[trigger] args@[j])@ == self.command@[j + 1]@,
            decreases self.command.len() - i,
        {
            args.push(text::copy(self.command[i].as_str()));
            i += 1;
        }
        let mut env: Vec<(String, String)> = Vec::new();
        env.push((text::copy("PSY_SOCK"), text::copy(psy_sock)));
        let ghost one = env@;
        env.push((text::copy("PSY_ROOT_PID"), text::decimal_of(psy_root_pid as u128)));
        let ghost first = root_vars(psy_sock@, psy_root_pid);
        proof {
            assert(one.drop_last() =~= Seq::<(String, String)>::empty());
            assert(env@.drop_last() =~= one);
            assert(pairs_view(one.drop_last()) == Map::<Seq<char>, Seq<char>>::empty());
            assert(pairs_view(one) == Map::<Seq<char>, Seq<char>>::empty().insert(
                "PSY_SOCK"@,
                psy_sock@,
            ));
            assert(pairs_view(env@) == first);
            assert(text::texts(args@) =~= self@.command.skip(1));
        }
        let n = self.env.len();
        let ghost names = self.env.names();
        let mut i: usize = 0;
        proof {
            assert(first =~= first.union_prefer_right(
                self@.env.restrict(names.take(0).to_set()),
            ));
        }
        while i < n
            invariant
                i <= n,
                n == names.len(),
                names == self.env.names(),
                names.no_duplicates(),
                pairs_view(env@) == first.union_prefer_right(
                    self@.env.restrict(names.take(i as int).to_set()),
                ),
            decreases n - i,
        {
            let k = self.env.name_at(i);
            let v = self.env.value_at(i);
            let ghost before = env@;
            env.push((text::copy(k.as_str()), text::copy(v.as_str())));
            proof {
                assert(env@.drop_last() =~= before);
                assert(self@.env.dom().contains(k@));
                assert(self@.env[k@] == v@);
                let a = names.take(i as int).to_set();
                let b = names.take(i + 1).to_set();
                assert forall|x: Seq<char>| b.contains(x) <==> a.contains(x) || x == k@ by {
                    if a.contains(x) {
                        let q = names.take(i as int).index_of(x);
                        assert(names.take(i as int)[q] == x);
                        assert(names.take(i + 1)[q] == x);
                    }
                    if b.contains(x) {
                        let q = names.take(i + 1).index_of(x);
                        assert(names.take(i + 1)[q] == x);
                        if q < i {
                            assert(names.take(i as int)[q] == x);
                        }
                    }
                    assert(names.take(i + 1)[i as int] == k@);
                }
                assert(first.union_prefer_right(self@.env.restrict(b))
                    =~= first.union_prefer_right(self@.env.restrict(a)).insert(k@, v@));
            }
            i += 1;
        }
        proof {
            self.env.lemma_names();
            assert(names.take(n as int) =~= names);
            assert(self@.env.restrict(names.to_set()) =~= self@.env);
        }
        Ok(
            SpawnPlan {
                program: text::copy(self.command[0].as_str()),
                args,
                working_dir: copy_opt(&self.working_dir),
                env,
                stdin: if self.is_main {
                    StdinMode::Inherit
                } else if attach || interactive {
                    StdinMode::Piped
                } else {
                    StdinMode::Null
                },
                capture: !self.is_main,
            },
        )
    }

    /// Notes that the process has been started.
    #[verifier::rlimit(60)]
    pub fn mark_started(
        &mut self,
        pid: Option<u32>,
        now: Timestamp,
        attach: bool,
        interactive: bool,
    )
        ensures
            final(self)@ == started(old(self)@, pid, now, attach, interactive),
    {
        let ghost before = self@;
        self.pid = pid;
        self.state = ProcessState::Running;
        self.started_at = Some(now);
        self.stopped_at = None;
        self.exit_status = None;
        self.signal = None;
        if attach || interactive {
            self.stdin_open = !self.is_main;
            if interactive {
                self.interactive = true;
                self.stdin_closed = false;
            }
        }
        self.child = true;
        proof {
            assert(self@ =~= started(before, pid, now, attach, interactive));
        }
    }
}

// ---------------------------------------------------------------------------
// Restarting
// ---------------------------------------------------------------------------

/// How often a process is restarted by itself at most.
pub const MAX_RESTARTS: u32 = 5;

/// The seconds to wait before a restart: doubled each time, up to 16.
pub open spec fn backoff_secs(restarts: nat) -> nat
    decreases restarts,
{
    if restarts == 0 {
        1
    } else if restarts >= 4 {
        16
    } else {
        2 * backoff_secs((restarts - 1) as nat)
    }
}

/// How long to wait before a restart.
pub fn calculate_backoff(restarts: u32) -> (r: Duration)
    ensures
        r == (Duration { secs: backoff_secs(restarts as nat) as u64, nanos: 0 }),
{
    proof {
        reveal_with_fuel(backoff_secs, 5);
    }
    let secs: u64 = if restarts == 0 {
        1
    } else if restarts == 1 {
        2
    } else if restarts == 2 {
        4
    } else if restarts == 3 {
        8
    } else {
        16
    };
    Duration::from_secs(secs)
}

/// Whether a process is restarted after it has exited by itself.
pub open spec fn restarts_after(e: EntryView, exit_code: Option<i32>) -> bool {
    &&& e.restarts < MAX_RESTARTS
    &&& match e.restart_policy {
        RestartPolicy::No => false,
        RestartPolicy::Always => true,
        RestartPolicy::OnFailure => exit_code != Some(0i32),
    }
}

/// Tests whether a process is restarted after it has exited by itself.
pub fn should_restart(entry: &ProcessEntry, exit_code: Option<i32>) -> (r: bool)
    ensures
        r == restarts_after(entry@, exit_code),
{
    if entry.restarts >= MAX_RESTARTS {
        return false;
    }
    match entry.restart_policy {
        RestartPolicy::No => false,
        RestartPolicy::Always => true,
        RestartPolicy::OnFailure => match exit_code {
            Some(c) => c != 0,
            None => true,
        },
    }
}

/// A process is restarted by itself at most five times, with waits of at most 16
/// seconds that never get shorter.
pub proof fn lemma_restart_limits(e: EntryView, exit_code: Option<i32>, n: nat)
    ensures
        restarts_after(e, exit_code) ==> e.restarts < 5,
        e.restart_policy == RestartPolicy::No ==> !restarts_after(e, exit_code),
        1 <= backoff_secs(n) <= 16,
        backoff_secs(n) <= backoff_secs(n + 1),
{
    reveal_with_fuel(backoff_secs, 6);
}

} // verus!

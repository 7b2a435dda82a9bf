//! The life of a process: output, readiness, exit and restart.
use crate::process;
use crate::process::{EntryView, LogView, ProcessEntry, ProcessState, RunRecord, SpawnPlan};
use crate::psyfile;
use crate::psyfile::{ProbeConfig, ProbeKind, ProbeKindView, ProbeView};
use crate::ring_buffer;
use crate::ring_buffer::{LineView, Stream};
use crate::root;
use crate::root::{RootView, SharedRoot};
use crate::root::run;
use crate::text;
use crate::time::{Duration, Timestamp};
use vstd::prelude::*;

verus! {

// ---------------------------------------------------------------------------
// Output
// ---------------------------------------------------------------------------

/// Whether a line goes to the log of stdout.
pub open spec fn goes_to_stdout(s: Stream) -> bool {
    s == Stream::Stdout || s == Stream::ProbeStdout
}

/// A log with one more line.
pub open spec fn logged(l: LogView, line: LineView) -> LogView {
    LogView { lines: ring_buffer::pushed(l.lines, line, l.max_lines, l.max_bytes), ..l }
}

/// The past run with a number, by position, or the number of past runs.
pub open spec fn run_position(runs: Seq<process::RunView>, id: u32) -> nat
    decreases runs.len(),
{
    if runs.len() == 0 || runs[0].run_id == id {
        0
    } else {
        1 + run_position(runs.skip(1), id)
    }
}

/// A past run with one more line.
pub open spec fn run_logged(r: process::RunView, line: LineView) -> process::RunView {
    if goes_to_stdout(line.stream) {
        process::RunView { stdout: logged(r.stdout, line), ..r }
    } else {
        process::RunView { stderr: logged(r.stderr, line), ..r }
    }
}

/// A process with one more line in the log of one of its runs: output that comes
/// late still belongs to the run that wrote it.
pub open spec fn entry_logged(e: EntryView, run_id: u32, line: LineView) -> EntryView {
    if run_id == e.current_run_id {
        if goes_to_stdout(line.stream) {
            EntryView { stdout: logged(e.stdout, line), ..e }
        } else {
            EntryView { stderr: logged(e.stderr, line), ..e }
        }
    } else {
        let i = run_position(e.run_history, run_id) as int;
        if i < e.run_history.len() {
            EntryView {
                run_history: e.run_history.update(i, run_logged(e.run_history[i], line)),
                ..e
            }
        } else {
            e
        }
    }
}

impl RunRecord {
    fn log_line(&mut self, at: Timestamp, stream: Stream, content: String)
        ensures
            final(self)@ == run_logged(
                old(self)@,
                LineView { timestamp: at, stream, content: content@ },
            ),
    {
        let ghost before = self@;
        let ghost line = LineView { timestamp: at, stream, content: content@ };
        if stream == Stream::Stdout || stream == Stream::ProbeStdout {
            self.stdout_buf.push_at(at, stream, content);
        } else {
            self.stderr_buf.push_at(at, stream, content);
        }
        proof {
            assert(self@ =~= run_logged(before, line));
        }
    }
}

fn find_position(runs: &Vec<RunRecord>, run_id: u32) -> (r: usize)
    ensures
        r == run_position(process::runs_view(runs@), run_id),
        r <= runs@.len(),
{
    let ghost all = process::runs_view(runs@);
    let mut i: usize = 0;
    proof {
        assert(all.skip(0) =~= all);
    }
    while i < runs.len()
        invariant
            i <= runs.len(),
            all == process::runs_view(runs@),
            i + run_position(all.skip(i as int), run_id) == run_position(all, run_id),
        decreases runs.len() - i,
    {
        proof {
            assert(all.skip(i as int)[0] == runs@[i as int]@);
            assert(all.skip(i as int).skip(1) =~= all.skip(i + 1));
        }
        if runs[i].run_id == run_id {
            return i;
        }
        i += 1;
    }
    proof {
        assert(all.skip(runs@.len() as int) =~= Seq::<process::RunView>::empty());
    }
    runs.len()
}

impl ProcessEntry {
    #[verifier::rlimit(60)]
    fn log_current(&mut self, at: Timestamp, stream: Stream, content: String)
        ensures
            final(self)@ == entry_logged(
                old(self)@,
                old(self)@.current_run_id,
                LineView { timestamp: at, stream, content: content@ },
            ),
    {
        let ghost before = self@;
        let ghost line = LineView { timestamp: at, stream, content: content@ };
        if stream == Stream::Stdout || stream == Stream::ProbeStdout {
            self.stdout_buf.push_at(at, stream, content);
        } else {
            self.stderr_buf.push_at(at, stream, content);
        }
        proof {
            assert(self@ =~= entry_logged(before, before.current_run_id, line));
        }
    }

    /// Adds a line to the log of a run.
    pub fn log_line(&mut self, run_id: u32, at: Timestamp, stream: Stream, content: String)
        ensures
            final(self)@ == entry_logged(
                old(self)@,
                run_id,
                LineView { timestamp: at, stream, content: content@ },
            ),
    {
        if run_id == self.current_run_id {
            self.log_current(at, stream, content);
            return;
        }
        let ghost before = self@;
        let ghost line = LineView { timestamp: at, stream, content: content@ };
        let i = find_position(&self.run_history, run_id);
        if i < self.run_history.len() {
            let mut rec = self.run_history.remove(i);
            rec.log_line(at, stream, content);
            let ghost now = rec@;
            self.run_history.insert(i, rec);
            proof {
                assert(process::runs_view(self.run_history@) =~= before.run_history.update(
                    i as int,
                    now,
                ));
                assert(self@ =~= entry_logged(before, run_id, line));
            }
        }
    }
}

/// A root after a process has written a line. Output of an unknown process is
/// lost.
pub open spec fn root_logged(
    r: RootView,
    name: Seq<char>,
    run_id: u32,
    line: LineView,
) -> RootView {
    if r.table.dom().contains(name) {
        root::with_entry(r, name, entry_logged(r.table[name], run_id, line))
    } else {
        r
    }
}

impl SharedRoot {
    /// Adds a line that a process has written in one of its runs.
    pub fn log_output(
        &mut self,
        name: &str,
        run_id: u32,
        at: Timestamp,
        stream: Stream,
        content: String,
    )
        ensures
            final(self)@ == root_logged(
                old(self)@,
                name@,
                run_id,
                LineView { timestamp: at, stream, content: content@ },
            ),
            final(self).names() == old(self).names(),
    {
        let ghost before = self@;
        let ghost names = self.names();
        match self.find(name) {
            Some(i) => {
                let (k, mut e) = self.take(i);
                e.log_line(run_id, at, stream, content);
                proof {
                    root::lemma_put_back(before, k@, e@);
                    root::lemma_order_kept(names, i as int);
                }
                self.put(i, k, e);
            },
            None => {},
        }
    }
}

// ---------------------------------------------------------------------------
// Readiness
// ---------------------------------------------------------------------------

/// A root in which a process has passed its readiness probe, or has failed it.
pub open spec fn probed(r: RootView, name: Seq<char>, passed: bool) -> RootView {
    if r.table.dom().contains(name) {
        root::with_entry(
            r,
            name,
            if passed {
                EntryView { ready: true, ..r.table[name] }
            } else {
                EntryView { ready_failed: true, ..r.table[name] }
            },
        )
    } else {
        r
    }
}

impl SharedRoot {
    /// Notes how the readiness probe of a process has ended.
    #[verifier::rlimit(60)]
    pub fn note_readiness(&mut self, name: &str, passed: bool)
        ensures
            final(self)@ == probed(old(self)@, name@, passed),
            final(self).names() == old(self).names(),
    {
        let ghost before = self@;
        let ghost names = self.names();
        match self.find(name) {
            Some(i) => {
                let (k, mut e) = self.take(i);
                let ghost was = e@;
                if passed {
                    e.ready = true;
                } else {
                    e.ready_failed = true;
                }
                proof {
                    assert(e@ =~= if passed {
                        EntryView { ready: true, ..was }
                    } else {
                        EntryView { ready_failed: true, ..was }
                    });
                    root::lemma_put_back(before, k@, e@);
                    root::lemma_order_kept(names, i as int);
                }
                self.put(i, k, e);
            },
            None => {},
        }
    }

    /// Whether a health check of a process has to wait until it is ready; none
    /// where the process is not known.
    pub fn healthcheck_waits(&self, name: &str) -> (r: Option<bool>)
        ensures
            r == if self@.table.dom().contains(name@) {
                Some(!self@.table[name@].ready)
            } else {
                None
            },
    {
        match self.entry(name) {
            Some(e) => Some(!e.ready),
            None => None,
        }
    }
}

// ---------------------------------------------------------------------------
// Exit
// ---------------------------------------------------------------------------

/// How a child exited: with a code or, where there is none, by a signal.
#[derive(Clone, Copy, Debug, PartialEq, Eq, Structural)]
pub struct ExitInfo {
    pub code: Option<i32>,
    pub signal: Option<i32>,
}

/// The name of the signal that ended a child.
pub open spec fn signal_text(signal: i32) -> Seq<char> {
    "SIG"@ + text::signed_decimal(signal as int)
}

/// The state of a process after it has exited.
pub open spec fn exit_state(e: EntryView, code: Option<i32>) -> ProcessState {
    if e.stopping || code == Some(0i32) {
        ProcessState::Stopped
    } else {
        ProcessState::Failed
    }
}

/// The signal noted of a process after it has exited. One that was stopped on
/// purpose notes any signal, another one only where it left no code.
pub open spec fn exit_signal(e: EntryView, x: ExitInfo) -> Option<Seq<char>> {
    match x.signal {
        Some(s) => if e.stopping || x.code is None {
            Some(signal_text(s))
        } else {
            e.signal
        },
        None => e.signal,
    }
}

/// The code that makes a process ready by exiting, where its probe asks for one.
pub open spec fn awaited_exit(p: Option<ProbeView>) -> Option<i32> {
    match p {
        Some(c) => match c.probe {
            ProbeKindView::Exit(code) => Some(code),
            _ => None,
        },
        None => None,
    }
}

/// A process after it has exited.
pub open spec fn exited(e: EntryView, x: ExitInfo, now: Timestamp) -> EntryView {
    EntryView {
        stopped_at: Some(now),
        stopping: false,
        state: exit_state(e, x.code),
        exit_status: x.code,
        signal: exit_signal(e, x),
        pid: None,
        ready: e.ready || (awaited_exit(e.ready_config) is Some && awaited_exit(e.ready_config)
            == x.code),
        ready_failed: e.ready_failed || (awaited_exit(e.ready_config) is Some && awaited_exit(
            e.ready_config,
        ) != x.code),
        ..e
    }
}

impl ProcessEntry {
    /// Notes that the process has exited.
    #[verifier::rlimit(60)]
    pub fn mark_exited(&mut self, x: ExitInfo, now: Timestamp)
        ensures
            final(self)@ == exited(old(self)@, x, now),
    {
        let ghost before = self@;
        self.stopped_at = Some(now);
        let on_purpose = self.stopping;
        self.stopping = false;
        let clean = match x.code {
            Some(c) => c == 0,
            None => false,
        };
        self.state = if on_purpose || clean {
            ProcessState::Stopped
        } else {
            ProcessState::Failed
        };
        self.exit_status = x.code;
        if on_purpose || x.code.is_none() {
            match x.signal {
                Some(s) => {
                    let n = text::signed_decimal_of(s as i64);
                    self.signal = Some(text::concat2("SIG", n.as_str()));
                },
                None => {},
            }
        }
        self.pid = None;
        let expected = match &self.ready_config {
            Some(c) => match &c.probe {
                ProbeKind::Exit(code) => Some(*code),
                _ => None,
            },
            None => None,
        };
        match expected {
            Some(code) => {
                let met = match x.code {
                    Some(c) => c == code,
                    None => false,
                };
                if met {
                    self.ready = true;
                } else {
                    self.ready_failed = true;
                }
            },
            None => {},
        }
        proof {
            assert(self@ =~= exited(before, x, now));
        }
    }
}

/// What follows the exit of a child.
pub ghost enum ExitDecision {
    /// Another run has begun: nothing.
    Ignore,
    /// The root exits with this code.
    EndRoot(i32),
    /// The process is restarted after this time.
    Restart(Duration),
    /// The process has ended.
    End,
}

/// What follows the exit of the child of a run.
pub open spec fn exit_decision(
    r: RootView,
    name: Seq<char>,
    run_id: u32,
    x: ExitInfo,
    now: Timestamp,
) -> ExitDecision {
    if !r.table.dom().contains(name) || r.table[name].current_run_id != run_id {
        ExitDecision::Ignore
    } else {
        let e = exited(r.table[name], x, now);
        if e.is_main {
            ExitDecision::EndRoot(
                match x.code {
                    Some(c) => c,
                    None => 1,
                },
            )
        } else if !r.shutting_down && process::restarts_after(e, x.code) {
            ExitDecision::Restart(
                Duration { secs: process::backoff_secs(e.restarts as nat) as u64, nanos: 0 },
            )
        } else {
            ExitDecision::End
        }
    }
}

/// A root after the exit of the child of a run.
pub open spec fn after_exit(
    r: RootView,
    name: Seq<char>,
    run_id: u32,
    x: ExitInfo,
    now: Timestamp,
) -> RootView {
    if !r.table.dom().contains(name) || r.table[name].current_run_id != run_id {
        r
    } else {
        root::with_entry(r, name, exited(r.table[name], x, now))
    }
}

/// The step that follows the exit of a child.
#[derive(Clone, Copy, Debug, PartialEq, Eq, Structural)]
pub enum ExitStep {
    Ignore,
    EndRoot(i32),
    Restart(Duration),
    End,
}

impl SharedRoot {
    /// Begins to wait for the child of a running process, and says which run it is.
    /// Nobody else waits for it then.
    pub fn begin_wait(&mut self, name: &str) -> (r: Option<u32>)
        ensures
            match r {
                Some(id) => {
                    &&& root::runs(old(self)@, name@)
                    &&& old(self)@.table[name@].child
                    &&& id == old(self)@.table[name@].current_run_id
                    &&& final(self)@ == root::with_entry(
                        old(self)@,
                        name@,
                        EntryView { child: false, ..old(self)@.table[name@] },
                    )
                },
                None => {
                    &&& !(root::runs(old(self)@, name@) && old(self)@.table[name@].child)
                    &&& final(self)@ == old(self)@
                },
            },
            final(self).names() == old(self).names(),
    {
        let ghost before = self@;
        let ghost names = self.names();
        match self.find(name) {
            Some(i) => {
                let e = self.nth(i);
                if e.state != ProcessState::Running || !e.child {
                    return None;
                }
                let (k, mut e) = self.take(i);
                let ghost was = e@;
                e.child = false;
                let id = e.current_run_id;
                proof {
                    assert(e@ =~= EntryView { child: false, ..was });
                    root::lemma_put_back(before, k@, e@);
                    root::lemma_order_kept(names, i as int);
                }
                self.put(i, k, e);
                Some(id)
            },
            None => None,
        }
    }

    /// Notes that the child of a run has exited, and says what follows.
    pub fn on_exit(&mut self, name: &str, run_id: u32, x: ExitInfo, now: Timestamp) -> (r:
        ExitStep)
        ensures
            final(self)@ == after_exit(old(self)@, name@, run_id, x, now),
            final(self).names() == old(self).names(),
            match exit_decision(old(self)@, name@, run_id, x, now) {
                ExitDecision::Ignore => r == ExitStep::Ignore,
                ExitDecision::EndRoot(c) => r == ExitStep::EndRoot(c),
                ExitDecision::Restart(d) => r == ExitStep::Restart(d),
                ExitDecision::End => r == ExitStep::End,
            },
    {
        let ghost before = self@;
        let ghost names = self.names();
        let i = match self.find(name) {
            Some(i) => i,
            None => {
                return ExitStep::Ignore;
            },
        };
        if self.nth(i).current_run_id != run_id {
            return ExitStep::Ignore;
        }
        let ending = self.is_shutting_down();
        let (k, mut e) = self.take(i);
        e.mark_exited(x, now);
        let again = !ending && process::should_restart(&e, x.code);
        let wait = process::calculate_backoff(e.restarts);
        let main = e.is_main;
        proof {
            root::lemma_put_back(before, k@, e@);
            root::lemma_order_kept(names, i as int);
        }
        self.put(i, k, e);
        if main {
            ExitStep::EndRoot(
                match x.code {
                    Some(c) => c,
                    None => 1,
                },
            )
        } else if again {
            ExitStep::Restart(wait)
        } else {
            ExitStep::End
        }
    }
}

// ---------------------------------------------------------------------------
// Restart
// ---------------------------------------------------------------------------

/// A process that is about to be restarted by itself: one more restart, a new run,
/// and a readiness probe that starts over.
pub open spec fn respawning(e: EntryView) -> EntryView {
    let a = process::archived(EntryView { restarts: (e.restarts + 1) as u32, ..e });
    EntryView {
        ready: if a.ready_config is Some {
            false
        } else {
            a.ready
        },
        ready_failed: if a.ready_config is Some {
            false
        } else {
            a.ready_failed
        },
        ..a
    }
}

/// What follows once a process has been restarted by itself: the probes to carry
/// out.
#[derive(Debug)]
pub struct Respawned {
    pub ready_probe: Option<ProbeConfig>,
    pub healthcheck: Option<ProbeConfig>,
}

impl SharedRoot {
    /// Prepares to restart a process by itself, and says how to start it. None
    /// where the process is not known any more.
    #[verifier::rlimit(60)]
    pub fn begin_respawn(&mut self, name: &str) -> (r: Option<Result<SpawnPlan, String>>)
        requires
            old(self)@.table.dom().contains(name@) ==> old(
                self,
            )@.table[name@].current_run_id < u32::MAX && old(self)@.table[name@].restarts
                < u32::MAX,
        ensures
            r is Some <==> old(self)@.table.dom().contains(name@),
            r is None ==> final(self)@ == old(self)@,
            r is Some ==> final(self)@ == root::with_entry(
                old(self)@,
                name@,
                respawning(old(self)@.table[name@]),
            ),
            r matches Some(p) ==> {
                let e = old(self)@.table[name@];
                &&& p is Ok <==> e.command.len() > 0
                &&& p matches Err(m) ==> m@ == "empty command"@
                &&& p matches Ok(plan) ==> {
                    &&& plan.program@ == e.command[0]
                    &&& text::texts(plan.args@) == e.command.skip(1)
                    &&& text::opt_text(plan.working_dir) == e.working_dir
                    &&& process::pairs_view(plan.env@) == process::root_vars(
                        old(self)@.psy_sock,
                        old(self)@.psy_root_pid,
                    ).union_prefer_right(e.env)
                    &&& plan.stdin == process::stdin_mode(e.is_main, false, e.interactive)
                    &&& plan.capture == !e.is_main
                }
            },
            final(self).names() == old(self).names(),
    {
        let ghost before = self@;
        let ghost names = self.names();
        match self.find(name) {
            Some(i) => {
                let (k, mut e) = self.take(i);
                let ghost was = e@;
                e.restarts = e.restarts + 1;
                proof {
                    assert(e@ =~= EntryView { restarts: (was.restarts + 1) as u32, ..was });
                }
                e.archive_current_run();
                if e.ready_config.is_some() {
                    e.ready = false;
                    e.ready_failed = false;
                }
                proof {
                    assert(e@ =~= respawning(was));
                    root::lemma_put_back(before, k@, e@);
                    root::lemma_order_kept(names, i as int);
                }
                let plan = e.spawn_plan(self.socket(), self.root_pid(), false, e.interactive);
                self.put(i, k, e);
                Some(plan)
            },
            None => None,
        }
    }

    /// Notes that a process has been restarted by itself, and says which probes to
    /// carry out.
    pub fn commit_respawn(&mut self, name: &str, pid: Option<u32>, now: Timestamp) -> (r: Option<
        Respawned,
    >)
        ensures
            r is Some <==> old(self)@.table.dom().contains(name@),
            r is None ==> final(self)@ == old(self)@,
            r matches Some(s) ==> {
                let e = old(self)@.table[name@];
                &&& final(self)@ == root::with_entry(
                    old(self)@,
                    name@,
                    process::started(e, pid, now, false, e.interactive),
                )
                &&& psyfile::probe_view(s.ready_probe) == run::active_probe(e.ready_config)
                &&& psyfile::probe_view(s.healthcheck) == e.healthcheck_config
            },
            final(self).names() == old(self).names(),
    {
        let ghost before = self@;
        let ghost names = self.names();
        match self.find(name) {
            Some(i) => {
                let (k, mut e) = self.take(i);
                let interactive = e.interactive;
                e.mark_started(pid, now, false, interactive);
                let s = Respawned {
                    ready_probe: run::probe_to_run(&e.ready_config),
                    healthcheck: run::copy_probe(&e.healthcheck_config),
                };
                proof {
                    root::lemma_put_back(before, k@, e@);
                    root::lemma_order_kept(names, i as int);
                }
                self.put(i, k, e);
                Some(s)
            },
            None => None,
        }
    }

    /// Notes that a process could not be restarted.
    pub fn fail_respawn(&mut self, name: &str)
        ensures
            final(self)@ == if old(self)@.table.dom().contains(name@) {
                root::with_entry(
                    old(self)@,
                    name@,
                    EntryView { state: ProcessState::Failed, ..old(self)@.table[name@] },
                )
            } else {
                old(self)@
            },
            final(self).names() == old(self).names(),
    {
        let ghost before = self@;
        let ghost names = self.names();
        match self.find(name) {
            Some(i) => {
                let (k, mut e) = self.take(i);
                let ghost was = e@;
                e.state = ProcessState::Failed;
                proof {
                    assert(e@ =~= EntryView { state: ProcessState::Failed, ..was });
                    root::lemma_put_back(before, k@, e@);
                    root::lemma_order_kept(names, i as int);
                }
                self.put(i, k, e);
            },
            None => {},
        }
    }
}

// ---------------------------------------------------------------------------
// Laws
// ---------------------------------------------------------------------------

/// A process that has exited stays in the table with its runs and its log, and has
/// no process id; one that was stopped on purpose counts as stopped whatever its
/// exit code.
pub proof fn lemma_tombstone(
    r: RootView,
    name: Seq<char>,
    run_id: u32,
    x: ExitInfo,
    now: Timestamp,
)
    requires
        r.table.dom().contains(name),
        r.table[name].current_run_id == run_id,
    ensures
        ({
            let after = after_exit(r, name, run_id, x, now);
            let e = after.table[name];
            &&& after.table.dom() == r.table.dom()
            &&& e.state != ProcessState::Running
            &&& e.pid is None
            &&& e.run_history == r.table[name].run_history
            &&& e.stdout == r.table[name].stdout
            &&& e.stderr == r.table[name].stderr
            &&& r.table[name].stopping ==> e.state == ProcessState::Stopped
            &&& forall|k: Seq<char>| k != name ==> after.table[k] == r.table[k]
        }),
{
    let after = after_exit(r, name, run_id, x, now);
    assert(after.table.dom() =~= r.table.dom());
}

/// The exit of a child of an earlier run changes nothing.
pub proof fn lemma_stale_exit(
    r: RootView,
    name: Seq<char>,
    run_id: u32,
    x: ExitInfo,
    now: Timestamp,
)
    requires
        r.table.dom().contains(name),
        r.table[name].current_run_id != run_id,
    ensures
        after_exit(r, name, run_id, x, now) == r,
        exit_decision(r, name, run_id, x, now) is Ignore,
{
}

/// While a root shuts down, no process is restarted.
pub proof fn lemma_no_restart_in_shutdown(
    r: RootView,
    name: Seq<char>,
    run_id: u32,
    x: ExitInfo,
    now: Timestamp,
)
    requires
        r.shutting_down,
    ensures
        !(exit_decision(r, name, run_id, x, now) is Restart),
{
}

/// A restart decided on leaves the number of restarts within the limit.
pub proof fn lemma_restart_count(
    r: RootView,
    name: Seq<char>,
    run_id: u32,
    x: ExitInfo,
    now: Timestamp,
)
    requires
        exit_decision(r, name, run_id, x, now) is Restart,
    ensures
        ({
            let e = after_exit(r, name, run_id, x, now).table[name];
            &&& respawning(e).restarts == r.table[name].restarts + 1
            &&& respawning(e).restarts <= process::MAX_RESTARTS
        }),
{
}

/// A restart keeps the root consistent, and makes the run that ended the newest of
/// the past runs.
pub proof fn lemma_respawn(r: RootView, name: Seq<char>)
    requires
        root::consistent(r),
        r.table.dom().contains(name),
        r.table[name].current_run_id < u32::MAX,
    ensures
        root::consistent(root::with_entry(r, name, respawning(r.table[name]))),
        respawning(r.table[name]).run_history == r.table[name].run_history.push(
            process::current_run(r.table[name]),
        ),
        respawning(r.table[name]).current_run_id == r.table[name].current_run_id + 1,
{
    let e = r.table[name];
    let more = EntryView { restarts: (e.restarts + 1) as u32, ..e };
    process::lemma_archived(more);
    assert(process::current_run(more) == process::current_run(e));
    assert(process::numbered(respawning(e)));
}

/// Output keeps the root consistent.
pub proof fn lemma_output_consistent(
    r: RootView,
    name: Seq<char>,
    run_id: u32,
    line: LineView,
)
    requires
        root::consistent(r),
    ensures
        root::consistent(root_logged(r, name, run_id, line)),
{
    if r.table.dom().contains(name) {
        let e = r.table[name];
        let l = entry_logged(e, run_id, line);
        assert(process::numbered(l)) by {
            assert forall|i: int| 0 <= i < l.run_history.len() implies (
            #[trigger] l.run_history[i]).run_id == e.run_history[i].run_id by {}
        }
    }
}

/// The outcome of a probe keeps the root consistent.
pub proof fn lemma_probe_consistent(r: RootView, name: Seq<char>, passed: bool)
    requires
        root::consistent(r),
    ensures
        root::consistent(probed(r, name, passed)),
{
    if r.table.dom().contains(name) {
        assert(process::numbered(probed(r, name, passed).table[name]));
    }
}

/// An exit keeps the root consistent.
pub proof fn lemma_exit_consistent(
    r: RootView,
    name: Seq<char>,
    run_id: u32,
    x: ExitInfo,
    now: Timestamp,
)
    requires
        root::consistent(r),
    ensures
        root::consistent(after_exit(r, name, run_id, x, now)),
{
    if r.table.dom().contains(name) {
        assert(process::numbered(exited(r.table[name], x, now)));
    }
}

} // verus!
